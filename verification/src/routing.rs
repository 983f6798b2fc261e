//! Pool snapshots and path pricing for the router.
//!
//! The router learns about pools by asking the factory for the pair of two
//! tokens and the pair for its reserves and current fee. A [`PoolQuote`]
//! records one such answer; a route is priced against a list of them.
use vstd::prelude::*;

use crate::address::Addr;
use crate::errors::RouterError;
use crate::math::fits_i128;
use crate::router_helpers::{get_amount_out, router_amount_out};

verus! {

/// What the factory and a pair report about one pool: its two tokens in the
/// pair's order, the pair's address, its reserves in that order and its
/// current fee.
#[derive(Clone, Copy, Debug, PartialEq, Eq, Structural)]
pub struct PoolQuote {
    pub token_0: Addr,
    pub token_1: Addr,
    pub pair: Addr,
    pub reserve_0: i128,
    pub reserve_1: i128,
    pub fee_bps: u32,
}

/// Whether `q` is the pool of tokens `a` and `b`, in either order.
pub open spec fn pool_matches(q: PoolQuote, a: Addr, b: Addr) -> bool {
    (q.token_0 == a && q.token_1 == b) || (q.token_0 == b && q.token_1 == a)
}

/// The first pool in `pools` for tokens `a` and `b`.
pub open spec fn pool_for(pools: Seq<PoolQuote>, a: Addr, b: Addr) -> Option<PoolQuote>
    decreases pools.len(),
{
    if pools.len() == 0 {
        None
    } else if pool_matches(pools[0], a, b) {
        Some(pools[0])
    } else {
        pool_for(pools.drop_first(), a, b)
    }
}

/// Reserves of `q` seen from `token_in`: `(reserve_in, reserve_out)`.
pub open spec fn oriented(q: PoolQuote, token_in: Addr) -> (int, int) {
    if q.token_0 == token_in {
        (q.reserve_0 as int, q.reserve_1 as int)
    } else {
        (q.reserve_1 as int, q.reserve_0 as int)
    }
}

/// Output of swapping `amount` of `a` for `b` in their pool.
pub open spec fn hop_result(pools: Seq<PoolQuote>, a: Addr, b: Addr, amount: int) -> Result<int, RouterError> {
    match pool_for(pools, a, b) {
        None => Err(RouterError::PairNotFound),
        Some(q) => router_amount_out(amount, oriented(q, a).0, oriented(q, a).1, q.fee_bps as int),
    }
}

/// Amount held after the first `k` hops of `path`, starting from `amount`.
pub open spec fn chain_result(pools: Seq<PoolQuote>, path: Seq<Addr>, amount: int, k: nat) -> Result<int, RouterError>
    decreases k,
{
    if k == 0 {
        Ok(amount)
    } else {
        match chain_result(pools, path, amount, (k - 1) as nat) {
            Ok(m) => hop_result(pools, path[k - 1], path[k as int], m),
            Err(e) => Err(e),
        }
    }
}

/// Output of the whole path.
pub open spec fn path_result(pools: Seq<PoolQuote>, path: Seq<Addr>, amount: int) -> Result<int, RouterError> {
    chain_result(pools, path, amount, (path.len() - 1) as nat)
}

/// Each hop of a priced path is a constant-product swap at its own pool's
/// fee: with `m` the amount entering hop `k`, `(ri, ro)` the pool's
/// reserves seen from the hop's input token and `f = 10_000 - fee_bps` of
/// that pool, the amount leaving the hop is `m * f * ro / (ri * 10_000 + m * f)`
/// rounded toward zero; for a fee below 100% it is the largest amount whose
/// fee-adjusted constant product the pool still keeps.
pub proof fn lemma_path_hop_at_pool_fee(pools: Seq<PoolQuote>, path: Seq<Addr>, amount: int, k: nat)
    requires
        chain_result(pools, path, amount, k + 1) is Ok,
    ensures
        chain_result(pools, path, amount, k) is Ok,
        pool_for(pools, path[k as int], path[k + 1 as int]) is Some,
        ({
            let q = pool_for(pools, path[k as int], path[k + 1 as int])->Some_0;
            let m = chain_result(pools, path, amount, k)->Ok_0;
            let o = chain_result(pools, path, amount, k + 1)->Ok_0;
            let ri = oriented(q, path[k as int]).0;
            let ro = oriented(q, path[k as int]).1;
            let f = 10_000 - q.fee_bps;
            &&& m > 0 && ri > 0 && ro > 0 && o > 0
            &&& o == crate::math::trunc_div(m * f * ro, ri * 10_000 + m * f)
            &&& q.fee_bps < 10_000 ==> o * (ri * 10_000 + m * f) <= m * f * ro < (o + 1) * (ri * 10_000 + m * f)
        }),
{
    let q = pool_for(pools, path[k as int], path[k + 1 as int])->Some_0;
    let m = chain_result(pools, path, amount, k)->Ok_0;
    let o = chain_result(pools, path, amount, k + 1)->Ok_0;
    let ri = oriented(q, path[k as int]).0;
    let ro = oriented(q, path[k as int]).1;
    let f = 10_000 - q.fee_bps;
    let n = m * f * ro;
    let d = ri * 10_000 + m * f;
    if q.fee_bps < 10_000 {
        assert(f > 0);
        assert(m * f > 0) by (nonlinear_arith)
            requires
                m > 0,
                f > 0,
        ;
        assert(n >= 0) by (nonlinear_arith)
            requires
                n == m * f * ro,
                m * f > 0,
                ro > 0,
        ;
        assert(d > 0);
        assert(crate::math::trunc_div(n, d) == n / d);
        vstd::arithmetic::div_mod::lemma_fundamental_div_mod(n, d);
        vstd::arithmetic::div_mod::lemma_mod_bound(n, d);
        assert(o * d <= n < (o + 1) * d) by (nonlinear_arith)
            requires
                n == d * (n / d) + n % d,
                0 <= n % d < d,
                o == n / d,
        ;
    }
}

/// A priced hop yields a positive `i128`.
pub proof fn lemma_hop_result_bounded(pools: Seq<PoolQuote>, a: Addr, b: Addr, amount: int)
    ensures
        hop_result(pools, a, b, amount) matches Ok(v) ==> v > 0 && fits_i128(v),
{
}

/// Finds the pool of tokens `a` and `b`.
pub fn find_pool(pools: &Vec<PoolQuote>, a: &Addr, b: &Addr) -> (r: Option<PoolQuote>)
    ensures
        r == pool_for(pools@, *a, *b),
{
    let mut i: usize = 0;
    proof {
        assert(pools@.subrange(0, pools@.len() as int) =~= pools@);
    }
    while i < pools.len()
        invariant
            i <= pools@.len(),
            pool_for(pools@, *a, *b) == pool_for(pools@.subrange(i as int, pools@.len() as int), *a, *b),
        decreases pools@.len() - i,
    {
        let q = pools[i];
        let ghost rest = pools@.subrange(i as int, pools@.len() as int);
        proof {
            assert(rest[0] == q);
            assert(rest.drop_first() =~= pools@.subrange(i + 1, pools@.len() as int));
        }
        if (q.token_0 == *a && q.token_1 == *b) || (q.token_0 == *b && q.token_1 == *a) {
            return Some(q);
        }
        i = i + 1;
    }
    None
}

/// Prices one hop (see [`hop_result`]).
pub fn hop(pools: &Vec<PoolQuote>, a: &Addr, b: &Addr, amount: i128) -> (r: Result<(i128, PoolQuote), RouterError>)
    ensures
        r matches Ok(p) ==> hop_result(pools@, *a, *b, amount as int) == Ok::<int, RouterError>(p.0 as int)
            && pool_for(pools@, *a, *b) == Some(p.1),
        r matches Err(e) ==> hop_result(pools@, *a, *b, amount as int) == Err::<int, RouterError>(e),
{
    let q = match find_pool(pools, a, b) {
        Some(q) => q,
        None => return Err(RouterError::PairNotFound),
    };
    let (reserve_in, reserve_out) = if q.token_0 == *a {
        (q.reserve_0, q.reserve_1)
    } else {
        (q.reserve_1, q.reserve_0)
    };
    match get_amount_out(amount, reserve_in, reserve_out, q.fee_bps) {
        Ok(out) => Ok((out, q)),
        Err(e) => Err(e),
    }
}

/// Output of every hop of `path` in turn: entry `i` is what hop `i` yields.
pub fn get_path_amounts_out(pools: &Vec<PoolQuote>, path: &Vec<Addr>, amount_in: i128) -> (r: Result<
    Vec<i128>,
    RouterError,
>)
    requires
        path@.len() >= 2,
    ensures
        r matches Ok(v) ==> v@.len() == path@.len() - 1 && forall|i: int|
            0 <= i < v@.len() ==> chain_result(pools@, path@, amount_in as int, (i + 1) as nat)
                == Ok::<int, RouterError>(#[trigger] v@[i] as int),
        r matches Err(e) ==> path_result(pools@, path@, amount_in as int) == Err::<int, RouterError>(e),
{
    let hops = path.len() - 1;
    let mut amounts: Vec<i128> = Vec::new();
    let mut current = amount_in;
    let mut i: usize = 0;
    while i < hops
        invariant
            hops == path@.len() - 1,
            i <= hops,
            amounts@.len() == i,
            chain_result(pools@, path@, amount_in as int, i as nat) == Ok::<int, RouterError>(current as int),
            forall|k: int|
                0 <= k < i ==> chain_result(pools@, path@, amount_in as int, (k + 1) as nat)
                    == Ok::<int, RouterError>(#[trigger] amounts@[k] as int),
        decreases hops - i,
    {
        let from = path[i];
        let to = path[i + 1];
        match hop(pools, &from, &to, current) {
            Ok((out, _)) => {
                amounts.push(out);
                current = out;
            },
            Err(e) => {
                proof {
                    lemma_chain_err_persists(pools@, path@, amount_in as int, (i + 1) as nat, hops as nat);
                }
                return Err(e);
            },
        }
        i = i + 1;
    }
    Ok(amounts)
}

/// Once a hop fails, the rest of the path fails with the same error.
pub proof fn lemma_chain_err_persists(pools: Seq<PoolQuote>, path: Seq<Addr>, amount: int, k: nat, n: nat)
    requires
        k <= n,
        chain_result(pools, path, amount, k) is Err,
    ensures
        chain_result(pools, path, amount, n) == chain_result(pools, path, amount, k),
    decreases n - k,
{
    if k < n {
        lemma_chain_err_persists(pools, path, amount, (k + 1) as nat, n);
    }
}

/// The output of a whole path, when every hop prices.
pub fn quote_path(pools: &Vec<PoolQuote>, path: &Vec<Addr>, amount_in: i128) -> (r: Option<i128>)
    requires
        path@.len() >= 2,
    ensures
        r is Some <==> path_result(pools@, path@, amount_in as int) is Ok,
        r matches Some(v) ==> path_result(pools@, path@, amount_in as int) == Ok::<int, RouterError>(v as int),
{
    match get_path_amounts_out(pools, path, amount_in) {
        Ok(amounts) => {
            let last = amounts[amounts.len() - 1];
            Some(last)
        },
        Err(_) => None,
    }
}

} // verus!
