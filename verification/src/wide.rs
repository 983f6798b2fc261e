//! Unsigned 256-bit integers held as two 128-bit words.
//!
//! The words are plain values so that contracts can speak about the number
//! they denote; the arithmetic itself is delegated to `ethnum::U256`.
use vstd::prelude::*;

verus! {

/// 2^128, the weight of the high word.
pub open spec fn word() -> nat {
    0x1_0000_0000_0000_0000_0000_0000_0000_0000nat
}

/// 2^256, one more than the largest representable value.
pub open spec fn modulus() -> nat {
    word() * word()
}

/// An unsigned 256-bit integer `hi * 2^128 + lo`.
#[derive(Clone, Copy, Debug, PartialEq, Eq, Structural)]
pub struct Wide {
    pub hi: u128,
    pub lo: u128,
}

impl Wide {
    /// The number this value denotes.
    pub open spec fn value(self) -> nat {
        self.hi as nat * word() + self.lo as nat
    }

    pub fn from_u128(x: u128) -> (r: Wide)
        ensures
            r.value() == x as nat,
    {
        Wide { hi: 0, lo: x }
    }

    pub fn is_zero(&self) -> (b: bool)
        ensures
            b == (self.value() == 0),
    {
        self.hi == 0 && self.lo == 0
    }

    /// Strict numeric comparison.
    pub fn lt(&self, other: &Wide) -> (b: bool)
        ensures
            b == (self.value() < other.value()),
    {
        if self.hi < other.hi {
            assert(self.value() < other.value()) by (nonlinear_arith)
                requires
                    self.hi < other.hi,
                    self.lo <= u128::MAX,
                    self.value() == self.hi as nat * word() + self.lo as nat,
                    other.value() == other.hi as nat * word() + other.lo as nat,
                    word() == u128::MAX + 1,
            ;
            true
        } else if self.hi > other.hi {
            assert(self.value() > other.value()) by (nonlinear_arith)
                requires
                    self.hi > other.hi,
                    other.lo <= u128::MAX,
                    self.value() == self.hi as nat * word() + self.lo as nat,
                    other.value() == other.hi as nat * word() + other.lo as nat,
                    word() == u128::MAX + 1,
            ;
            false
        } else {
            self.lo < other.lo
        }
    }

    /// Numeric equality.
    pub fn same(&self, other: &Wide) -> (b: bool)
        ensures
            b == (self.value() == other.value()),
    {
        if self.hi == other.hi {
            self.lo == other.lo
        } else {
            proof {
                lemma_value_injective(*self, *other);
            }
            false
        }
    }

    /// The value as a `u128`, when it fits.
    pub fn to_u128(&self) -> (r: u128)
        requires
            self.value() <= u128::MAX,
        ensures
            r as nat == self.value(),
    {
        proof {
            lemma_small_has_no_high_word(*self);
        }
        self.lo
    }
}

/// Every value lies below 2^256.
pub proof fn lemma_value_bounded(x: Wide)
    ensures
        x.value() < modulus(),
{
    assert(x.value() < modulus()) by (nonlinear_arith)
        requires
            x.hi <= u128::MAX,
            x.lo <= u128::MAX,
            x.value() == x.hi as nat * word() + x.lo as nat,
            word() == u128::MAX + 1,
            modulus() == word() * word(),
    ;
}

/// Two values with different high words denote different numbers.
pub proof fn lemma_value_injective(x: Wide, y: Wide)
    requires
        x.hi != y.hi,
    ensures
        x.value() != y.value(),
{
    if x.hi < y.hi {
        assert(x.value() < y.value()) by (nonlinear_arith)
            requires
                x.hi < y.hi,
                x.lo <= u128::MAX,
                x.value() == x.hi as nat * word() + x.lo as nat,
                y.value() == y.hi as nat * word() + y.lo as nat,
                word() == u128::MAX + 1,
        ;
    } else {
        assert(y.value() < x.value()) by (nonlinear_arith)
            requires
                y.hi < x.hi,
                y.lo <= u128::MAX,
                x.value() == x.hi as nat * word() + x.lo as nat,
                y.value() == y.hi as nat * word() + y.lo as nat,
                word() == u128::MAX + 1,
        ;
    }
}

/// A value that fits in 128 bits has a zero high word.
pub proof fn lemma_small_has_no_high_word(x: Wide)
    requires
        x.value() <= u128::MAX,
    ensures
        x.hi == 0,
        x.value() == x.lo as nat,
{
    if x.hi > 0 {
        assert(x.value() >= word()) by (nonlinear_arith)
            requires
                x.hi >= 1,
                x.value() == x.hi as nat * word() + x.lo as nat,
        ;
    }
}

/// `ethnum::U256::checked_mul`: the product, or `None` when it does not fit
/// in 256 bits.
#[verifier::external_body]
pub(crate) fn checked_mul(a: Wide, b: Wide) -> (r: Option<Wide>)
    ensures
        match r {
            Some(p) => a.value() * b.value() < modulus() && p.value() == a.value() * b.value(),
            None => a.value() * b.value() >= modulus(),
        },
{
    let x = ethnum::U256::from_words(a.hi, a.lo);
    let y = ethnum::U256::from_words(b.hi, b.lo);
    match x.checked_mul(y) {
        Some(p) => {
            let (hi, lo) = p.into_words();
            Some(Wide { hi, lo })
        },
        None => None,
    }
}

/// `ethnum::U256::checked_add`: the sum, or `None` when it does not fit in
/// 256 bits.
#[verifier::external_body]
pub(crate) fn checked_add(a: Wide, b: Wide) -> (r: Option<Wide>)
    ensures
        match r {
            Some(s) => a.value() + b.value() < modulus() && s.value() == a.value() + b.value(),
            None => a.value() + b.value() >= modulus(),
        },
{
    let x = ethnum::U256::from_words(a.hi, a.lo);
    let y = ethnum::U256::from_words(b.hi, b.lo);
    match x.checked_add(y) {
        Some(s) => {
            let (hi, lo) = s.into_words();
            Some(Wide { hi, lo })
        },
        None => None,
    }
}

/// `ethnum::U256::checked_sub`: the difference, or `None` when `b > a`.
#[verifier::external_body]
pub(crate) fn checked_sub(a: Wide, b: Wide) -> (r: Option<Wide>)
    ensures
        match r {
            Some(d) => b.value() <= a.value() && d.value() == a.value() - b.value(),
            None => b.value() > a.value(),
        },
{
    let x = ethnum::U256::from_words(a.hi, a.lo);
    let y = ethnum::U256::from_words(b.hi, b.lo);
    match x.checked_sub(y) {
        Some(d) => {
            let (hi, lo) = d.into_words();
            Some(Wide { hi, lo })
        },
        None => None,
    }
}

/// `ethnum::U256::checked_div`: the floored quotient, or `None` when the
/// divisor is zero.
#[verifier::external_body]
pub(crate) fn checked_div(a: Wide, b: Wide) -> (r: Option<Wide>)
    ensures
        match r {
            Some(q) => b.value() != 0 && q.value() == a.value() / b.value(),
            None => b.value() == 0,
        },
{
    let x = ethnum::U256::from_words(a.hi, a.lo);
    let y = ethnum::U256::from_words(b.hi, b.lo);
    match x.checked_div(y) {
        Some(q) => {
            let (hi, lo) = q.into_words();
            Some(Wide { hi, lo })
        },
        None => None,
    }
}

/// `ethnum::U256::checked_rem`: the remainder, or `None` when the divisor
/// is zero.
#[verifier::external_body]
pub(crate) fn checked_rem(a: Wide, b: Wide) -> (r: Option<Wide>)
    ensures
        match r {
            Some(m) => b.value() != 0 && m.value() == a.value() % b.value(),
            None => b.value() == 0,
        },
{
    let x = ethnum::U256::from_words(a.hi, a.lo);
    let y = ethnum::U256::from_words(b.hi, b.lo);
    match x.checked_rem(y) {
        Some(m) => {
            let (hi, lo) = m.into_words();
            Some(Wide { hi, lo })
        },
        None => None,
    }
}

} // verus!
