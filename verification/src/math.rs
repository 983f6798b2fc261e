//! Fixed-point and integer helpers for price and reserve calculations.
//! All scaled values use 1e14 scaling to keep precision without floating
//! point.
use vstd::prelude::*;

use crate::errors::PairError;
use crate::wide::{self, Wide};

verus! {

/// Fixed-point scale factor (1e14).
pub const SCALE: i128 = 100_000_000_000_000;

/// Basis point denominator.
pub const BPS_DENOMINATOR: i128 = 10_000;

/// Minimum liquidity locked on the first mint so that supply never returns
/// to zero.
pub const MINIMUM_LIQUIDITY: i128 = 1_000;

// ---------------------------------------------------------------------------
// Integer square root
// ---------------------------------------------------------------------------

/// `r` is the integer square root of `v`: the largest `r` with `r * r <= v`.
pub open spec fn is_isqrt(v: int, r: int) -> bool {
    &&& 0 <= r
    &&& r * r <= v
    &&& v < (r + 1) * (r + 1)
}

/// One Newton step from any positive guess never lands below the integer
/// square root: `y = (x + v / x) / 2` satisfies `(y + 1)^2 > v`.
pub proof fn lemma_newton_step_stays_above(v: int, x: int)
    requires
        v >= 0,
        x > 0,
    ensures
        ((x + v / x) / 2 + 1) * ((x + v / x) / 2 + 1) > v,
{
    let q = v / x;
    let y = (x + q) / 2;
    vstd::arithmetic::div_mod::lemma_fundamental_div_mod(v, x);
    vstd::arithmetic::div_mod::lemma_mod_bound(v, x);
    vstd::arithmetic::div_mod::lemma_fundamental_div_mod(x + q, 2);
    vstd::arithmetic::div_mod::lemma_mod_bound(x + q, 2);
    assert(v < x * (q + 1)) by (nonlinear_arith)
        requires
            v == x * q + v % x,
            v % x < x,
    ;
    assert(q >= 0) by {
        vstd::arithmetic::div_mod::lemma_div_pos_is_pos(v, x);
    }
    assert(2 * (y + 1) >= x + q + 1);
    assert((y + 1) * (y + 1) > v) by (nonlinear_arith)
        requires
            2 * (y + 1) >= x + q + 1,
            v < x * (q + 1),
            x > 0,
            q >= 0,
    {
        assert((x + q + 1) * (x + q + 1) >= 4 * x * (q + 1)) by (nonlinear_arith)
            requires
                x > 0,
                q >= 0,
        {
            assert((x + q + 1) * (x + q + 1) - 4 * x * (q + 1) == (x - q - 1) * (x - q - 1));
        }
        assert(4 * (y + 1) * (y + 1) >= (x + q + 1) * (x + q + 1)) by (nonlinear_arith)
            requires
                2 * (y + 1) >= x + q + 1,
                x + q + 1 > 0,
        ;
    }
}

/// While the guess is above the root, a Newton step strictly decreases it.
pub proof fn lemma_newton_step_decreases(v: int, x: int)
    requires
        v >= 0,
        x > 0,
        x * x > v,
    ensures
        (x + v / x) / 2 < x,
{
    let q = v / x;
    vstd::arithmetic::div_mod::lemma_fundamental_div_mod(v, x);
    vstd::arithmetic::div_mod::lemma_mod_pos_bound(v, x);
    assert(q < x) by (nonlinear_arith)
        requires
            v == x * q + v % x,
            v % x >= 0,
            x * x > v,
            x > 0,
    ;
}

/// For a guess strictly between 1 and `v`, one Newton step cannot exceed
/// half of `v + 1`, and the sum it halves stays at most `v` once the guess
/// is at least 2.
pub proof fn lemma_newton_sum_bound(v: int, x: int)
    requires
        1 <= x <= v,
    ensures
        x + v / x <= v + 1,
        x >= 2 && x < v ==> x + v / x <= v,
{
    let q = v / x;
    vstd::arithmetic::div_mod::lemma_fundamental_div_mod(v, x);
    vstd::arithmetic::div_mod::lemma_mod_pos_bound(v, x);
    assert(q >= 1) by {
        vstd::arithmetic::div_mod::lemma_div_is_ordered(x, v, x);
        vstd::arithmetic::div_mod::lemma_div_by_self(x);
    }
    assert(x + q <= x * q + 1) by (nonlinear_arith)
        requires
            x >= 1,
            q >= 1,
    {
        assert(x * q + 1 - x - q == (x - 1) * (q - 1));
    }
    assert(x * q <= v) by (nonlinear_arith)
        requires
            v == x * q + v % x,
            v % x >= 0,
    ;
    if x >= 2 && x < v {
        if q >= 2 {
            assert(x + q <= x * q) by (nonlinear_arith)
                requires
                    x >= 2,
                    q >= 2,
            {
                assert(x * q - x - q == (x - 1) * (q - 1) - 1);
                assert((x - 1) * (q - 1) >= 1) by (nonlinear_arith)
                    requires
                        x >= 2,
                        q >= 2,
                ;
            }
        }
    }
}

/// When the loop stops (`y >= x`), the guess is no longer above the root.
pub proof fn lemma_newton_exit(v: int, x: int)
    requires
        v >= 0,
        x > 0,
        (x + v / x) / 2 >= x,
    ensures
        x * x <= v,
{
    if x * x > v {
        lemma_newton_step_decreases(v, x);
    }
}

/// Integer square root by Newton's method: the largest `r` with
/// `r * r <= value`, for every non-negative `value`.
pub fn sqrt(value: i128) -> (r: i128)
    requires
        0 <= value,
    ensures
        is_isqrt(value as int, r as int),
{
    if value == 0 {
        assert(is_isqrt(0, 0)) by (nonlinear_arith);
        return 0;
    }
    let ghost v = value as int;
    let mut x = value;
    proof {
        assert(v / v == 1) by {
            vstd::arithmetic::div_mod::lemma_div_by_self(v);
        }
        vstd::arithmetic::div_mod::lemma_fundamental_div_mod(v, 2);
        vstd::arithmetic::div_mod::lemma_mod_bound(v, 2);
        vstd::arithmetic::div_mod::lemma_fundamental_div_mod(v + 1, 2);
        vstd::arithmetic::div_mod::lemma_mod_bound(v + 1, 2);
    }
    let mut y = value / 2 + value % 2;
    proof {
        assert(y as int == (v + 1) / 2);
        lemma_newton_step_stays_above(v, v);
        assert((x + 1) * (x + 1) > v) by (nonlinear_arith)
            requires
                x == v,
                v >= 1,
        ;
    }
    while y < x
        invariant
            v == value as int,
            v >= 1,
            1 <= x <= value,
            y as int == (x as int + v / (x as int)) / 2,
            (y + 1) * (y + 1) > v,
            (x + 1) * (x + 1) > v,
        decreases x,
    {
        assert(y >= 1) by (nonlinear_arith)
            requires
                (y + 1) * (y + 1) > v,
                v >= 1,
                y as int >= 0,
        {
            if y == 0 {
                assert((y + 1) * (y + 1) == 1);
            }
        }
        x = y;
        proof {
            lemma_newton_sum_bound(v, x as int);
            lemma_newton_step_stays_above(v, x as int);
            vstd::arithmetic::div_mod::lemma_div_pos_is_pos(v, x as int);
            if x == 1 {
                assert(v < 4) by (nonlinear_arith)
                    requires
                        (x + 1) * (x + 1) > v,
                        x == 1,
                ;
                assert(v / 1 == v);
            }
        }
        y = (x + value / x) / 2;
    }
    proof {
        lemma_newton_exit(v, x as int);
    }
    x
}


// ---------------------------------------------------------------------------
// Signed helpers
// ---------------------------------------------------------------------------

/// Absolute value over the integers.
pub open spec fn abs(a: int) -> int {
    if a < 0 {
        -a
    } else {
        a
    }
}

/// Division rounding toward zero, as Rust's `/` does on signed integers.
pub open spec fn trunc_div(a: int, b: int) -> int {
    if (a < 0) == (b < 0) {
        abs(a) / abs(b)
    } else {
        -(abs(a) / abs(b))
    }
}

/// Whether `x` is representable as an `i128`.
pub open spec fn fits_i128(x: int) -> bool {
    i128::MIN <= x <= i128::MAX
}

/// `|a|` as a `u128` (every magnitude of an `i128` fits).
pub fn magnitude(a: i128) -> (r: u128)
    ensures
        r as int == abs(a as int),
{
    if a >= 0 {
        a as u128
    } else {
        ((-(a + 1)) as u128) + 1
    }
}

/// Rust's truncating signed division.
pub fn div_trunc(a: i128, b: i128) -> (r: i128)
    requires
        b != 0,
        !(a == i128::MIN && b == -1),
    ensures
        r as int == trunc_div(a as int, b as int),
{
    let ma = magnitude(a);
    let mb = magnitude(b);
    let q = ma / mb;
    assert(q <= ma) by {
        vstd::arithmetic::div_mod::lemma_div_is_ordered_by_denominator(ma as int, 1, mb as int);
    }
    if (a < 0) == (b < 0) {
        if q > i128::MAX as u128 {
            // Only |a| = 2^127 with |b| = 1 reaches here, i.e. a = MIN, b = -1.
            assert(mb == 1) by {
                if mb >= 2 {
                    vstd::arithmetic::div_mod::lemma_div_is_ordered_by_denominator(ma as int, 2, mb as int);
                }
            }
            assert(false);
        }
        q as i128
    } else {
        if q <= i128::MAX as u128 {
            -(q as i128)
        } else {
            i128::MIN
        }
    }
}

// ---------------------------------------------------------------------------
// Scaled multiply-divide
// ---------------------------------------------------------------------------

/// `a * b / denominator` rounded toward zero, when it is defined and fits.
pub open spec fn mul_div_spec(a: int, b: int, denominator: int) -> Option<int> {
    if denominator == 0 {
        None
    } else {
        let q = (abs(a) * abs(b)) / abs(denominator);
        let negative = ((a < 0) != (b < 0)) != (denominator < 0);
        let v = if negative {
            -q
        } else {
            q
        };
        if fits_i128(v) {
            Some(v)
        } else {
            None
        }
    }
}

/// Multiplies two scaled values and divides by a third, computing the
/// product exactly in 256 bits. `None` when the divisor is zero or the
/// quotient does not fit in an `i128`.
pub fn mul_div(a: i128, b: i128, denominator: i128) -> (r: Option<i128>)
    ensures
        r matches Some(v) ==> mul_div_spec(a as int, b as int, denominator as int) == Some(v as int),
        r is None ==> mul_div_spec(a as int, b as int, denominator as int) is None,
{
    if denominator == 0 {
        return None;
    }
    let is_negative = ((a < 0) ^ (b < 0)) ^ (denominator < 0);
    let a_abs = Wide::from_u128(magnitude(a));
    let b_abs = Wide::from_u128(magnitude(b));
    let denominator_abs = Wide::from_u128(magnitude(denominator));
    proof {
        assert(a_abs.value() * b_abs.value() < wide::modulus()) by (nonlinear_arith)
            requires
                a_abs.value() <= u128::MAX,
                b_abs.value() <= u128::MAX,
                wide::modulus() == wide::word() * wide::word(),
                wide::word() == u128::MAX + 1,
        ;
    }
    let product = match wide::checked_mul(a_abs, b_abs) {
        Some(p) => p,
        None => {
            assert(false);
            return None;
        },
    };
    let quotient = match wide::checked_div(product, denominator_abs) {
        Some(q) => q,
        None => {
            assert(false);
            return None;
        },
    };
    let ghost q = quotient.value() as int;
    assert(q == (abs(a as int) * abs(b as int)) / abs(denominator as int));
    assert(is_negative == (((a < 0) != (b < 0)) != (denominator < 0)));
    let max_positive = Wide::from_u128(i128::MAX as u128);
    let max_negative_magnitude = Wide::from_u128(i128::MAX as u128 + 1);
    if !is_negative {
        if max_positive.lt(&quotient) {
            return None;
        }
        let small = quotient.to_u128();
        return Some(small as i128);
    }
    if max_negative_magnitude.lt(&quotient) {
        return None;
    }
    if quotient.same(&max_negative_magnitude) {
        return Some(i128::MIN);
    }
    let small = quotient.to_u128();
    Some(-(small as i128))
}

// ---------------------------------------------------------------------------
// 256-bit integer square root
// ---------------------------------------------------------------------------

/// Unwraps a result that the caller has proved present.
fn present(x: Option<Wide>) -> (r: Wide)
    requires
        x is Some,
    ensures
        x == Some(r),
{
    match x {
        Some(v) => v,
        None => Wide { hi: 0, lo: 0 },
    }
}

/// Integer square root of a 256-bit value by Newton's method.
///
/// The first halving is computed as `x / 2 + x % 2`, which equals
/// `(x + 1) / 2` without the intermediate sum, so it is defined on every
/// input.
pub fn sqrt_u256(value: Wide) -> (r: Wide)
    ensures
        is_isqrt(value.value() as int, r.value() as int),
{
    let ghost v = value.value() as int;
    if value.is_zero() {
        assert(is_isqrt(0, 0)) by (nonlinear_arith);
        return Wide { hi: 0, lo: 0 };
    }
    let two = Wide::from_u128(2);
    proof {
        wide::lemma_value_bounded(value);
    }
    let mut x = value;
    let half = present(wide::checked_div(x, two));
    let odd = present(wide::checked_rem(x, two));
    proof {
        vstd::arithmetic::div_mod::lemma_fundamental_div_mod(v, 2);
        vstd::arithmetic::div_mod::lemma_mod_bound(v, 2);
        vstd::arithmetic::div_mod::lemma_fundamental_div_mod(v + 1, 2);
        vstd::arithmetic::div_mod::lemma_mod_bound(v + 1, 2);
        assert(half.value() + odd.value() == (v + 1) / 2);
        assert(half.value() + odd.value() < wide::modulus());
    }
    let mut y = present(wide::checked_add(half, odd));
    proof {
        assert(v / v == 1) by {
            vstd::arithmetic::div_mod::lemma_div_by_self(v);
        }
        lemma_newton_step_stays_above(v, v);
        assert((v + 1) * (v + 1) > v) by (nonlinear_arith)
            requires
                v >= 1,
        ;
    }
    while y.lt(&x)
        invariant
            v == value.value() as int,
            two.value() == 2,
            v >= 1,
            v < wide::modulus(),
            1 <= x.value() <= v,
            y.value() as int == (x.value() as int + v / (x.value() as int)) / 2,
            (y.value() + 1) * (y.value() + 1) > v,
            (x.value() + 1) * (x.value() + 1) > v,
        decreases x.value(),
    {
        assert(y.value() >= 1) by (nonlinear_arith)
            requires
                (y.value() + 1) * (y.value() + 1) > v,
                v >= 1,
        {
            if y.value() == 0 {
                assert((y.value() + 1) * (y.value() + 1) == 1);
            }
        }
        x = y;
        let ghost xv = x.value() as int;
        proof {
            lemma_newton_sum_bound(v, xv);
            lemma_newton_step_stays_above(v, xv);
            vstd::arithmetic::div_mod::lemma_div_pos_is_pos(v, xv);
            if xv == 1 {
                assert(v <= 3) by (nonlinear_arith)
                    requires
                        (xv + 1) * (xv + 1) > v,
                        xv == 1,
                ;
                assert(v / xv == v);
            }
            assert(xv + v / xv < wide::modulus());
        }
        let q = present(wide::checked_div(value, x));
        let s = present(wide::checked_add(x, q));
        y = present(wide::checked_div(s, two));
    }
    proof {
        lemma_newton_exit(v, x.value() as int);
    }
    x
}


/// The integer square root, as a function.
pub open spec fn isqrt(v: int) -> int {
    choose|t: int| #[trigger] is_isqrt(v, t)
}

/// The integer square root is unique, so any witness is `isqrt`.
pub proof fn lemma_isqrt_unique(v: int, t: int)
    requires
        is_isqrt(v, t),
    ensures
        isqrt(v) == t,
{
    let u = isqrt(v);
    assert(is_isqrt(v, u));
    if u < t {
        assert((u + 1) * (u + 1) <= t * t) by (nonlinear_arith)
            requires
                0 <= u,
                u + 1 <= t,
        ;
    } else if t < u {
        assert((t + 1) * (t + 1) <= u * u) by (nonlinear_arith)
            requires
                0 <= t,
                t + 1 <= u,
        ;
    }
}

// ---------------------------------------------------------------------------
// Single-sided deposit split
// ---------------------------------------------------------------------------

/// The discriminant of the split equation
/// `f * x^2 + r * (B + f) * x - r * a * B = 0`, i.e.
/// `r * (r * (B + f)^2 + 4 * f * a * B)` with `B = 10_000` and
/// `f = 10_000 - fee_bps`.
pub open spec fn split_discriminant(reserve_in: int, amount: int, fee_bps: int) -> int {
    let f = 10_000 - fee_bps;
    let c = 10_000 + f;
    reserve_in * (reserve_in * (c * c) + ((4 * f) * amount) * 10_000)
}

/// The amount of the deposited token to swap first so that the remainder and
/// the swap's output are in the post-swap reserve ratio: the positive root
/// of the split equation, rounded down.
pub open spec fn split_swap_in(reserve_in: int, amount: int, fee_bps: int) -> int {
    let f = 10_000 - fee_bps;
    let c = 10_000 + f;
    (isqrt(split_discriminant(reserve_in, amount, fee_bps)) - reserve_in * c) / (2 * f)
}

/// Facts about the split: the root of the discriminant lies between
/// `r * (B + f)` and `r * (B + f) + 2 * f * a`, so the split lies in
/// `[0, amount)`.
pub proof fn lemma_split_bounds(r: int, a: int, fee: int)
    requires
        r >= 1,
        a >= 1,
        0 <= fee < 10_000,
    ensures
        r * (10_000 + (10_000 - fee)) <= isqrt(split_discriminant(r, a, fee)),
        0 <= split_swap_in(r, a, fee) < a,
{
    let f = 10_000 - fee;
    let c = 10_000 + f;
    let d = split_discriminant(r, a, fee);
    let rc = r * c;
    assert(d == rc * rc + 4 * r * f * a * 10_000) by (nonlinear_arith)
        requires
            d == r * (r * (c * c) + ((4 * f) * a) * 10_000),
            rc == r * c,
    ;
    assert(exists|t: int| #[trigger] is_isqrt(d, t)) by {
        assert(d >= 0) by (nonlinear_arith)
            requires
                d == rc * rc + 4 * r * f * a * 10_000,
                r >= 1,
                f >= 1,
                a >= 1,
        ;
        lemma_isqrt_exists(d);
    }
    let root = isqrt(d);
    assert(is_isqrt(d, root));
    assert(rc <= root) by (nonlinear_arith)
        requires
            d >= rc * rc,
            d < (root + 1) * (root + 1),
            root >= 0,
            rc >= 0,
    {
        if rc > root {
            assert((root + 1) * (root + 1) <= rc * rc) by (nonlinear_arith)
                requires
                    root + 1 <= rc,
                    root >= 0,
            ;
        }
    }
    let bound = rc + 2 * f * a;
    assert(d < bound * bound) by (nonlinear_arith)
        requires
            d == rc * rc + 4 * r * f * a * 10_000,
            bound == rc + 2 * f * a,
            rc == r * c,
            c == 10_000 + f,
            r >= 1,
            f >= 1,
            a >= 1,
    {
        assert(bound * bound == rc * rc + 4 * rc * f * a + 4 * f * a * f * a);
        assert(4 * rc * f * a == 4 * r * f * a * 10_000 + 4 * r * f * a * f);
        assert(4 * r * f * a * f > 0) by (nonlinear_arith)
            requires
                r >= 1,
                f >= 1,
                a >= 1,
        ;
    }
    assert(root < bound) by (nonlinear_arith)
        requires
            root * root <= d,
            d < bound * bound,
            root >= 0,
            bound >= 0,
    {
        if root >= bound {
            assert(bound * bound <= root * root) by (nonlinear_arith)
                requires
                    root >= bound,
                    bound >= 0,
            ;
        }
    }
    let num = root - rc;
    let den = 2 * f;
    let x = num / den;
    assert(x == split_swap_in(r, a, fee));
    vstd::arithmetic::div_mod::lemma_div_pos_is_pos(num, den);
    vstd::arithmetic::div_mod::lemma_fundamental_div_mod(num, den);
    vstd::arithmetic::div_mod::lemma_mod_pos_bound(num, den);
    assert(x < a) by (nonlinear_arith)
        requires
            num == den * x + num % den,
            num % den >= 0,
            num < den * a,
            den > 0,
    {
        if x >= a {
            assert(den * x >= den * a) by (nonlinear_arith)
                requires
                    x >= a,
                    den > 0,
            ;
        }
    }
}

/// The split is the largest whole amount whose swap still leaves a
/// balanced deposit: with `B = 10_000` and `f = 10_000 - fee_bps`, the
/// balance condition `f * x^2 + r * (B + f) * x <= r * amount * B` holds
/// for the split `x` and fails for `x + 1`.
pub proof fn lemma_split_balances_deposit(r: int, a: int, fee: int)
    requires
        r >= 1,
        a >= 1,
        0 <= fee < 10_000,
    ensures
        ({
            let f = 10_000 - fee;
            let c = 10_000 + f;
            let x = split_swap_in(r, a, fee);
            &&& f * x * x + r * c * x <= r * a * 10_000
            &&& r * a * 10_000 < f * (x + 1) * (x + 1) + r * c * (x + 1)
        }),
{
    lemma_split_bounds(r, a, fee);
    let f = 10_000 - fee;
    let c = 10_000 + f;
    let rc = r * c;
    let d = split_discriminant(r, a, fee);
    assert(d == rc * rc + 4 * f * (r * a * 10_000)) by (nonlinear_arith)
        requires
            d == r * (r * (c * c) + ((4 * f) * a) * 10_000),
            rc == r * c,
    ;
    assert(d >= 0) by (nonlinear_arith)
        requires
            d == rc * rc + 4 * f * (r * a * 10_000),
            r >= 1,
            f >= 1,
            a >= 1,
    ;
    lemma_isqrt_exists(d);
    let root = isqrt(d);
    assert(is_isqrt(d, root));
    let x = split_swap_in(r, a, fee);
    let den = 2 * f;
    let num = root - rc;
    assert(x == num / den);
    vstd::arithmetic::div_mod::lemma_fundamental_div_mod(num, den);
    vstd::arithmetic::div_mod::lemma_mod_pos_bound(num, den);
    let m = num % den;
    let lo = den * x + rc;
    assert(lo <= root && root < lo + den) by {
        assert(num == den * x + m);
    }
    let q = r * a * 10_000;
    assert(f * x * x + rc * x <= q) by (nonlinear_arith)
        requires
            lo == 2 * f * x + rc,
            0 <= lo <= root,
            root * root <= d,
            d == rc * rc + 4 * f * q,
            f >= 1,
    {
        assert(lo * lo <= root * root) by (nonlinear_arith)
            requires
                0 <= lo <= root,
        ;
        assert(lo * lo == 4 * f * (f * x * x + rc * x) + rc * rc);
    }
    let hi = lo + den;
    assert(hi == 2 * f * (x + 1) + rc) by (nonlinear_arith)
        requires
            hi == lo + den,
            lo == den * x + rc,
            den == 2 * f,
    ;
    assert(q < f * (x + 1) * (x + 1) + rc * (x + 1)) by (nonlinear_arith)
        requires
            hi == 2 * f * (x + 1) + rc,
            root + 1 <= hi,
            root >= 0,
            d < (root + 1) * (root + 1),
            d == rc * rc + 4 * f * q,
            f >= 1,
    {
        assert((root + 1) * (root + 1) <= hi * hi) by (nonlinear_arith)
            requires
                0 <= root + 1 <= hi,
        ;
        assert(hi * hi == 4 * f * (f * (x + 1) * (x + 1) + rc * (x + 1)) + rc * rc);
    }
    assert(r * c * x == rc * x);
    assert(r * c * (x + 1) == rc * (x + 1));
}

/// Every non-negative integer has an integer square root.
pub proof fn lemma_isqrt_exists(v: int)
    requires
        v >= 0,
    ensures
        exists|t: int| #[trigger] is_isqrt(v, t),
    decreases v,
{
    if v == 0 {
        assert(is_isqrt(0, 0)) by (nonlinear_arith);
    } else {
        lemma_isqrt_exists(v - 1);
        let t = choose|t: int| #[trigger] is_isqrt(v - 1, t);
        if (t + 1) * (t + 1) <= v {
            assert(v < (t + 2) * (t + 2)) by (nonlinear_arith)
                requires
                    v - 1 < (t + 1) * (t + 1),
                    t >= 0,
            ;
            assert(is_isqrt(v, t + 1));
        } else {
            assert(is_isqrt(v, t));
        }
    }
}

/// Computes how much of a single-token deposit `amount` to swap before
/// adding liquidity to a pool with input reserve `reserve_in`.
///
/// Swapping `x` of the input token for `y` of the other leaves the deposit
/// `(amount - x, y)` exactly proportional to the post-swap reserves
/// `(reserve_in + x, reserve_out - y)` when `x` solves
/// `f * x^2 + r * (B + f) * x - r * amount * B = 0`
/// (`B = 10_000`, `f = 10_000 - fee_bps`). All intermediate products are
/// computed in 256 bits.
///
/// # Errors
/// - `PairError::InvalidInput` if a reserve or the amount is non-positive,
///   if `fee_bps` exceeds 10 000, or for a 100% fee.
/// - `PairError::Overflow` if the discriminant does not fit in 256 bits.
pub fn compute_swap_in_for_single_side(reserve_in: i128, amount: i128, fee_bps: u32) -> (r: Result<
    i128,
    PairError,
>)
    ensures
        r == Err::<i128, PairError>(PairError::InvalidInput) <==> (reserve_in <= 0 || amount <= 0
            || fee_bps >= 10_000),
        r == Err::<i128, PairError>(PairError::Overflow) <==> (reserve_in > 0 && amount > 0 && fee_bps
            < 10_000 && split_discriminant(reserve_in as int, amount as int, fee_bps as int)
            >= wide::modulus()),
        r is Ok <==> (reserve_in > 0 && amount > 0 && fee_bps < 10_000 && split_discriminant(
            reserve_in as int,
            amount as int,
            fee_bps as int,
        ) < wide::modulus()),
        r matches Ok(x) ==> x as int == split_swap_in(reserve_in as int, amount as int, fee_bps as int)
            && 0 <= x < amount,
{
    if reserve_in <= 0 || amount <= 0 {
        return Err(PairError::InvalidInput);
    }
    if fee_bps >= 10_000 {
        return Err(PairError::InvalidInput);
    }
    let ghost ri = reserve_in as int;
    let ghost ai = amount as int;
    let ghost fi = 10_000 - fee_bps as int;
    let ghost ci = 10_000 + fi;
    let ghost d = split_discriminant(ri, ai, fee_bps as int);

    let f = Wide::from_u128((10_000u32 - fee_bps) as u128);
    let c = Wide::from_u128((20_000u32 - fee_bps) as u128);
    let bps = Wide::from_u128(10_000);
    let r = Wide::from_u128(reserve_in as u128);
    let s = Wide::from_u128(amount as u128);
    let four = Wide::from_u128(4);
    let two = Wide::from_u128(2);

    // Every partial product is bounded by the discriminant.
    proof {
        assert(ci * ci <= 20_000 * 20_000) by (nonlinear_arith)
            requires
                0 <= ci <= 20_000,
        ;
        assert(ri * (ci * ci) <= d && ((4 * fi) * ai) * 10_000 <= d && (4 * fi) * ai <= d
            && ri * (ci * ci) + ((4 * fi) * ai) * 10_000 <= d && ri * ci <= d) by (nonlinear_arith)
            requires
                d == ri * (ri * (ci * ci) + ((4 * fi) * ai) * 10_000),
                ri >= 1,
                ai >= 1,
                fi >= 0,
                ci >= 1,
        {
            assert(ri * ci <= ri * (ci * ci)) by (nonlinear_arith)
                requires
                    ri >= 1,
                    ci >= 1,
            ;
        }
        assert(4 * fi <= 40_000);
    }
    let c_sq = match wide::checked_mul(c, c) {
        Some(v) => v,
        None => return Err(PairError::Overflow),
    };
    let r_c_sq = match wide::checked_mul(r, c_sq) {
        Some(v) => v,
        None => return Err(PairError::Overflow),
    };
    let four_f = match wide::checked_mul(four, f) {
        Some(v) => v,
        None => return Err(PairError::Overflow),
    };
    let four_f_s = match wide::checked_mul(four_f, s) {
        Some(v) => v,
        None => return Err(PairError::Overflow),
    };
    let four_f_s_b = match wide::checked_mul(four_f_s, bps) {
        Some(v) => v,
        None => return Err(PairError::Overflow),
    };
    let inner = match wide::checked_add(r_c_sq, four_f_s_b) {
        Some(v) => v,
        None => return Err(PairError::Overflow),
    };
    let discriminant = match wide::checked_mul(r, inner) {
        Some(v) => v,
        None => return Err(PairError::Overflow),
    };
    assert(discriminant.value() == d);

    let sqrt_disc = sqrt_u256(discriminant);
    proof {
        lemma_isqrt_unique(d, sqrt_disc.value() as int);
    }
    let r_c = match wide::checked_mul(r, c) {
        Some(v) => v,
        None => return Err(PairError::Overflow),
    };

    proof {
        lemma_split_bounds(ri, ai, fee_bps as int);
    }
    if sqrt_disc.lt(&r_c) {
        // The root is at least `r * c` (see `lemma_split_bounds`).
        assert(false);
        return Err(PairError::InvalidInput);
    }
    let numerator = present(wide::checked_sub(sqrt_disc, r_c));
    let denominator = present(wide::checked_mul(two, f));
    let swap_in = present(wide::checked_div(numerator, denominator));
    assert(swap_in.value() as int == split_swap_in(ri, ai, fee_bps as int));
    proof {
        wide::lemma_small_has_no_high_word(swap_in);
    }
    Ok(swap_in.to_u128() as i128)
}


// ---------------------------------------------------------------------------
// Constant-product swap output
// ---------------------------------------------------------------------------

/// The Uniswap-V2 constant-product output for `amount_in` against reserves
/// `(reserve_in, reserve_out)` at a fee of `fee_bps` basis points:
/// `amount_in * (B - fee) * reserve_out / (reserve_in * B + amount_in * (B - fee))`
/// rounded toward zero. `None` for non-positive inputs, any `i128`
/// overflow, a zero denominator or an output that is not a positive `i128`.
pub open spec fn amount_out_spec(amount_in: int, reserve_in: int, reserve_out: int, fee_bps: int) -> Option<int> {
    if amount_in <= 0 || reserve_in <= 0 || reserve_out <= 0 {
        None
    } else {
        let fee_factor = 10_000 - fee_bps;
        let with_fee = amount_in * fee_factor;
        let numerator = with_fee * reserve_out;
        let scaled_reserve = reserve_in * 10_000;
        let denominator = scaled_reserve + with_fee;
        if !fits_i128(with_fee) || !fits_i128(numerator) || !fits_i128(scaled_reserve)
            || !fits_i128(denominator) || denominator == 0 {
            None
        } else {
            let out = trunc_div(numerator, denominator);
            if out <= 0 || !fits_i128(out) {
                None
            } else {
                Some(out)
            }
        }
    }
}

/// Constant-product output amount for a swap (see [`amount_out_spec`]).
pub fn get_amount_out(amount_in: i128, reserve_in: i128, reserve_out: i128, fee_bps: u32) -> (r: Option<i128>)
    ensures
        r matches Some(v) ==> amount_out_spec(amount_in as int, reserve_in as int, reserve_out as int, fee_bps as int) == Some(v as int),
        r is None ==> amount_out_spec(amount_in as int, reserve_in as int, reserve_out as int, fee_bps as int) is None,
{
    if amount_in <= 0 || reserve_in <= 0 || reserve_out <= 0 {
        return None;
    }
    let fee_factor = match BPS_DENOMINATOR.checked_sub(fee_bps as i128) {
        Some(v) => v,
        None => return None,
    };
    let with_fee = match amount_in.checked_mul(fee_factor) {
        Some(v) => v,
        None => return None,
    };
    let numerator = match with_fee.checked_mul(reserve_out) {
        Some(v) => v,
        None => return None,
    };
    let scaled_reserve = match reserve_in.checked_mul(BPS_DENOMINATOR) {
        Some(v) => v,
        None => return None,
    };
    let denominator = match scaled_reserve.checked_add(with_fee) {
        Some(v) => v,
        None => return None,
    };
    if denominator == 0 {
        return None;
    }
    if numerator == i128::MIN && denominator == -1 {
        // The quotient 2^127 cannot be represented.
        return None;
    }
    let out = div_trunc(numerator, denominator);
    if out <= 0 {
        None
    } else {
        Some(out)
    }
}

/// A priced swap never drains the output reserve and never lowers the
/// constant product: with a fee of at most 100%,
/// `(reserve_in + amount_in) * (reserve_out - out) >= reserve_in * reserve_out`.
pub proof fn lemma_amount_out_keeps_k(amount_in: int, reserve_in: int, reserve_out: int, fee_bps: int)
    requires
        0 <= fee_bps <= 10_000,
        amount_out_spec(amount_in, reserve_in, reserve_out, fee_bps) is Some,
    ensures
        ({
            let out = amount_out_spec(amount_in, reserve_in, reserve_out, fee_bps).unwrap();
            &&& 0 < out < reserve_out
            &&& (reserve_in + amount_in) * (reserve_out - out) >= reserve_in * reserve_out
        }),
{
    let ff = 10_000 - fee_bps;
    let wf = amount_in * ff;
    let num = wf * reserve_out;
    let den = reserve_in * 10_000 + wf;
    let out = amount_out_spec(amount_in, reserve_in, reserve_out, fee_bps).unwrap();
    assert(wf >= 0) by (nonlinear_arith)
        requires
            amount_in > 0,
            ff >= 0,
            wf == amount_in * ff,
    ;
    assert(num >= 0) by (nonlinear_arith)
        requires
            wf >= 0,
            reserve_out > 0,
            num == wf * reserve_out,
    ;
    assert(den > 0);
    assert(out == num / den);
    vstd::arithmetic::div_mod::lemma_fundamental_div_mod(num, den);
    vstd::arithmetic::div_mod::lemma_mod_pos_bound(num, den);
    assert(out * den <= num) by (nonlinear_arith)
        requires
            num == den * (num / den) + num % den,
            num % den >= 0,
            out == num / den,
    ;
    assert(out < reserve_out) by (nonlinear_arith)
        requires
            out * den <= num,
            num == wf * reserve_out,
            den == reserve_in * 10_000 + wf,
            reserve_in > 0,
            reserve_out > 0,
            wf >= 0,
    {
        if out >= reserve_out {
            assert(out * den >= reserve_out * den) by (nonlinear_arith)
                requires
                    out >= reserve_out,
                    den > 0,
            ;
            assert(reserve_out * den > num) by (nonlinear_arith)
                requires
                    num == wf * reserve_out,
                    den == reserve_in * 10_000 + wf,
                    reserve_in > 0,
                    reserve_out > 0,
            ;
        }
    }
    // out * (reserve_in + amount_in) * ff <= out * den <= amount_in * ff * reserve_out
    assert(out * (reserve_in + amount_in) <= amount_in * reserve_out) by (nonlinear_arith)
        requires
            out * den <= num,
            num == wf * reserve_out,
            wf == amount_in * ff,
            den == reserve_in * 10_000 + wf,
            0 <= ff <= 10_000,
            out > 0,
            reserve_in > 0,
            amount_in > 0,
    {
        if ff == 0 {
            assert(wf == 0);
            assert(num == 0);
        } else {
            assert(out * (reserve_in + amount_in) * ff <= out * den) by (nonlinear_arith)
                requires
                    den == reserve_in * 10_000 + amount_in * ff,
                    0 < ff <= 10_000,
                    out > 0,
                    reserve_in > 0,
            ;
            assert(out * (reserve_in + amount_in) * ff <= amount_in * reserve_out * ff);
            if out * (reserve_in + amount_in) > amount_in * reserve_out {
                assert(out * (reserve_in + amount_in) * ff > amount_in * reserve_out * ff) by (nonlinear_arith)
                    requires
                        out * (reserve_in + amount_in) > amount_in * reserve_out,
                        ff > 0,
                ;
            }
        }
    }
    assert((reserve_in + amount_in) * (reserve_out - out) >= reserve_in * reserve_out) by (nonlinear_arith)
        requires
            out * (reserve_in + amount_in) <= amount_in * reserve_out,
    ;
}

} // verus!
