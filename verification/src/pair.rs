//! The pair's stored records, its instance storage with the defaults each
//! read falls back on, the reentrancy lock, the oracle's timestamp update
//! and the price-feed scale.
use vstd::prelude::*;

use crate::address::Addr;
use crate::errors::PairError;
use crate::math::fits_i128;

verus! {

/// Fixed-point scale of price-feed values (1e18): a feed returning
/// `PRICE_SCALE` quotes a NAV of exactly 1.0.
pub const PRICE_SCALE: i128 = 1_000_000_000_000_000_000;

/// The pair's core record: its factory, tokens and LP token, the reserves,
/// the oracle's last timestamp and cumulative prices, and `k` at the last
/// protocol-fee checkpoint.
#[derive(Clone, Copy, Debug, PartialEq, Eq, Structural)]
pub struct PairStorage {
    pub factory: Addr,
    pub token_a: Addr,
    pub token_b: Addr,
    pub lp_token: Addr,
    pub reserve_a: i128,
    pub reserve_b: i128,
    pub block_timestamp_last: u64,
    pub price_a_cumulative: i128,
    pub price_b_cumulative: i128,
    pub k_last: i128,
}

/// The dynamic-fee engine's record.
#[derive(Clone, Copy, Debug, PartialEq, Eq, Structural)]
pub struct FeeState {
    pub vol_accumulator: i128,
    pub ema_alpha: i128,
    pub baseline_fee_bps: u32,
    pub min_fee_bps: u32,
    pub max_fee_bps: u32,
    pub ramp_up_multiplier: u32,
    pub cooldown_divisor: u32,
    pub last_fee_update: u64,
    pub decay_threshold_blocks: u64,
    pub stale_threshold: u32,
}

/// The reentrancy lock.
#[derive(Clone, Copy, Debug, PartialEq, Eq, Structural)]
pub struct ReentrancyGuard {
    pub locked: bool,
}

/// The oracle's observations: `(timestamp, price_a, price_b)`, oldest first.
#[derive(Debug)]
pub struct OracleState {
    pub observations: Vec<(u64, i128, i128)>,
}

/// Protocol fees accrued in each token and not yet swept.
#[derive(Clone, Copy, Debug, PartialEq, Eq, Structural)]
pub struct ProtocolFeeState {
    pub fee_a: i128,
    pub fee_b: i128,
}

/// Keys of the pair's instance storage.
#[derive(Clone, Copy, Debug, PartialEq, Eq, Structural)]
pub enum DataKey {
    PairState,
    FeeState,
    Guard,
    OracleState,
    ProtocolFeeState,
}

/// Whether a stored guard holds the lock; an absent guard is unlocked.
pub open spec fn lock_held(guard: Option<ReentrancyGuard>) -> bool {
    guard matches Some(g) && g.locked
}

/// What `acquire` does to the stored guard: refuse with `Locked` and leave
/// it as it was when the lock is held, else store a held lock.
pub open spec fn acquire_step(
    before: Option<ReentrancyGuard>,
    r: Result<(), PairError>,
    after: Option<ReentrancyGuard>,
) -> bool {
    if lock_held(before) {
        r == Err::<(), PairError>(PairError::Locked) && after == before
    } else {
        r == Ok::<(), PairError>(()) && after == Some(ReentrancyGuard { locked: true })
    }
}

/// What `release` does to the stored guard: store an unlocked guard.
pub open spec fn release_step(after: Option<ReentrancyGuard>) -> bool {
    after == Some(ReentrancyGuard { locked: false })
}

/// The pair's instance storage. Each record is absent until first written.
pub struct PairInstance {
    pub pair_state: Option<PairStorage>,
    pub fee_state: Option<FeeState>,
    pub guard: Option<ReentrancyGuard>,
    pub oracle_state: Option<OracleState>,
    pub protocol_fee_state: Option<ProtocolFeeState>,
}

/// A copy of a list of observations.
fn copy_observations(obs: &Vec<(u64, i128, i128)>) -> (r: Vec<(u64, i128, i128)>)
    ensures
        r@ == obs@,
{
    let mut r: Vec<(u64, i128, i128)> = Vec::new();
    let mut i: usize = 0;
    while i < obs.len()
        invariant
            i <= obs@.len(),
            r@ == obs@.take(i as int),
        decreases obs@.len() - i,
    {
        r.push(obs[i]);
        proof {
            assert(obs@.take(i + 1) =~= obs@.take(i as int).push(obs@[i as int]));
        }
        i = i + 1;
    }
    proof {
        assert(obs@.take(obs@.len() as int) =~= obs@);
    }
    r
}

impl PairInstance {
    /// Storage of a pair that has written nothing yet.
    pub fn new() -> (s: PairInstance)
        ensures
            s.pair_state is None,
            s.fee_state is None,
            s.guard is None,
            s.oracle_state is None,
            s.protocol_fee_state is None,
    {
        PairInstance {
            pair_state: None,
            fee_state: None,
            guard: None,
            oracle_state: None,
            protocol_fee_state: None,
        }
    }

    /// The oracle's observations; none before the first write.
    pub fn get_oracle_state(&self) -> (r: OracleState)
        ensures
            r.observations@ == match &self.oracle_state {
                Some(o) => o.observations@,
                None => Seq::<(u64, i128, i128)>::empty(),
            },
    {
        match &self.oracle_state {
            Some(o) => OracleState { observations: copy_observations(&o.observations) },
            None => OracleState { observations: Vec::new() },
        }
    }

    /// Stores the oracle's observations.
    pub fn set_oracle_state(&mut self, state: &OracleState)
        ensures
            final(self).oracle_state matches Some(o) && o.observations@ == state.observations@,
            final(self).pair_state == old(self).pair_state,
            final(self).fee_state == old(self).fee_state,
            final(self).guard == old(self).guard,
            final(self).protocol_fee_state == old(self).protocol_fee_state,
    {
        self.oracle_state = Some(OracleState { observations: copy_observations(&state.observations) });
    }

    /// The pair's core record, if the pair was initialized.
    pub fn get_pair_state(&self) -> (r: Option<PairStorage>)
        ensures
            r == self.pair_state,
    {
        self.pair_state
    }

    /// Stores the pair's core record.
    pub fn set_pair_state(&mut self, state: &PairStorage)
        ensures
            final(self).pair_state == Some(*state),
            final(self).fee_state == old(self).fee_state,
            final(self).guard == old(self).guard,
            final(self).protocol_fee_state == old(self).protocol_fee_state,
    {
        self.pair_state = Some(*state);
    }

    /// The fee engine's record, if one was stored.
    pub fn get_fee_state(&self) -> (r: Option<FeeState>)
        ensures
            r == self.fee_state,
    {
        self.fee_state
    }

    /// Stores the fee engine's record.
    pub fn set_fee_state(&mut self, state: &FeeState)
        ensures
            final(self).fee_state == Some(*state),
            final(self).pair_state == old(self).pair_state,
            final(self).guard == old(self).guard,
            final(self).protocol_fee_state == old(self).protocol_fee_state,
    {
        self.fee_state = Some(*state);
    }

    /// The reentrancy guard; unlocked before the first write.
    pub fn get_reentrancy_guard(&self) -> (r: ReentrancyGuard)
        ensures
            r.locked == lock_held(self.guard),
    {
        match self.guard {
            Some(g) => g,
            None => ReentrancyGuard { locked: false },
        }
    }

    /// Stores the reentrancy guard.
    pub fn set_reentrancy_guard(&mut self, guard: &ReentrancyGuard)
        ensures
            final(self).guard == Some(*guard),
            final(self).pair_state == old(self).pair_state,
            final(self).fee_state == old(self).fee_state,
            final(self).protocol_fee_state == old(self).protocol_fee_state,
    {
        self.guard = Some(*guard);
    }

    /// Accrued protocol fees; zero in both tokens before the first write.
    pub fn get_protocol_fee_state(&self) -> (r: ProtocolFeeState)
        ensures
            r == match self.protocol_fee_state {
                Some(p) => p,
                None => ProtocolFeeState { fee_a: 0, fee_b: 0 },
            },
    {
        match self.protocol_fee_state {
            Some(p) => p,
            None => ProtocolFeeState { fee_a: 0, fee_b: 0 },
        }
    }

    /// Stores the accrued protocol fees.
    pub fn set_protocol_fee_state(&mut self, state: &ProtocolFeeState)
        ensures
            final(self).protocol_fee_state == Some(*state),
            final(self).pair_state == old(self).pair_state,
            final(self).fee_state == old(self).fee_state,
            final(self).guard == old(self).guard,
    {
        self.protocol_fee_state = Some(*state);
    }
}

/// Takes the reentrancy lock, refusing with `Locked` when it is already
/// held.
pub fn acquire(storage: &mut PairInstance) -> (r: Result<(), PairError>)
    ensures
        acquire_step(old(storage).guard, r, final(storage).guard),
        final(storage).pair_state == old(storage).pair_state,
        final(storage).fee_state == old(storage).fee_state,
        final(storage).protocol_fee_state == old(storage).protocol_fee_state,
{
    let guard = storage.get_reentrancy_guard();
    if guard.locked {
        return Err(PairError::Locked);
    }
    storage.set_reentrancy_guard(&ReentrancyGuard { locked: true });
    Ok(())
}

/// Releases the reentrancy lock.
pub fn release(storage: &mut PairInstance)
    ensures
        release_step(final(storage).guard),
        final(storage).pair_state == old(storage).pair_state,
        final(storage).fee_state == old(storage).fee_state,
        final(storage).protocol_fee_state == old(storage).protocol_fee_state,
{
    storage.set_reentrancy_guard(&ReentrancyGuard { locked: false });
}

/// While one operation holds the lock, a second `acquire` is refused with
/// `Locked` and leaves the lock held, whatever the guard was before the
/// first `acquire`.
pub proof fn lemma_reentry_refused(
    g0: Option<ReentrancyGuard>,
    r1: Result<(), PairError>,
    g1: Option<ReentrancyGuard>,
    r2: Result<(), PairError>,
    g2: Option<ReentrancyGuard>,
)
    requires
        acquire_step(g0, r1, g1),
        acquire_step(g1, r2, g2),
    ensures
        r2 == Err::<(), PairError>(PairError::Locked),
        lock_held(g2),
{
}

/// After `release`, the next `acquire` succeeds.
pub proof fn lemma_release_then_acquire(
    g1: Option<ReentrancyGuard>,
    r: Result<(), PairError>,
    g2: Option<ReentrancyGuard>,
)
    requires
        release_step(g1),
        acquire_step(g1, r, g2),
    ensures
        r is Ok,
        lock_held(g2),
{
}

/// Seconds since the last update, or 0 when the clock reads earlier.
pub open spec fn elapsed_since(now: u64, last: u64) -> int {
    if now >= last {
        now - last
    } else {
        0
    }
}

/// What an update adds to the two cumulative prices: each reserve ratio
/// (the other reserve over this one, rounded down) times the time elapsed,
/// when time has passed and both reserves are positive; nothing otherwise.
/// The prices are whole-unit ratios: reserves of 100 and 200 over 10
/// seconds add 20 to the first cumulative price.
pub open spec fn price_increments(state: PairStorage, now: u64) -> (int, int) {
    let dt = elapsed_since(now, state.block_timestamp_last);
    if dt > 0 && state.reserve_a > 0 && state.reserve_b > 0 {
        (
            (state.reserve_b as int / state.reserve_a as int) * dt,
            (state.reserve_a as int / state.reserve_b as int) * dt,
        )
    } else {
        (0, 0)
    }
}

/// Accumulates the oracle's prices up to `now` and moves its timestamp to
/// `now`: each cumulative price grows by its price times the time elapsed
/// (see [`price_increments`]), with checked arithmetic. On overflow the
/// state is left as it was and `Overflow` is returned.
pub fn update(now: u64, state: &mut PairStorage) -> (r: Result<(), PairError>)
    ensures
        ({
            let inc = price_increments(*old(state), now);
            &&& r == Err::<(), PairError>(PairError::Overflow) <==> !(fits_i128(inc.0) && fits_i128(inc.1)
                && fits_i128(old(state).price_a_cumulative + inc.0) && fits_i128(
                old(state).price_b_cumulative + inc.1,
            ))
            &&& r is Ok <==> (fits_i128(inc.0) && fits_i128(inc.1) && fits_i128(
                old(state).price_a_cumulative + inc.0,
            ) && fits_i128(old(state).price_b_cumulative + inc.1))
            &&& r is Ok ==> *final(state) == (PairStorage {
                block_timestamp_last: now,
                price_a_cumulative: (old(state).price_a_cumulative + inc.0) as i128,
                price_b_cumulative: (old(state).price_b_cumulative + inc.1) as i128,
                ..*old(state)
            })
            &&& r is Err ==> *final(state) == *old(state)
        }),
{
    let elapsed: u64 = if now >= state.block_timestamp_last {
        now - state.block_timestamp_last
    } else {
        0
    };
    let mut inc_a: i128 = 0;
    let mut inc_b: i128 = 0;
    if elapsed > 0 && state.reserve_a > 0 && state.reserve_b > 0 {
        let price_a = state.reserve_b / state.reserve_a;
        let price_b = state.reserve_a / state.reserve_b;
        inc_a = match price_a.checked_mul(elapsed as i128) {
            Some(v) => v,
            None => return Err(PairError::Overflow),
        };
        inc_b = match price_b.checked_mul(elapsed as i128) {
            Some(v) => v,
            None => return Err(PairError::Overflow),
        };
    }
    let cum_a = match state.price_a_cumulative.checked_add(inc_a) {
        Some(v) => v,
        None => return Err(PairError::Overflow),
    };
    let cum_b = match state.price_b_cumulative.checked_add(inc_b) {
        Some(v) => v,
        None => return Err(PairError::Overflow),
    };
    state.price_a_cumulative = cum_a;
    state.price_b_cumulative = cum_b;
    state.block_timestamp_last = now;
    Ok(())
}

/// The cumulative prices never decrease: whatever `update` adds is
/// non-negative.
pub proof fn lemma_cumulative_prices_grow(state: PairStorage, now: u64)
    ensures
        price_increments(state, now).0 >= 0,
        price_increments(state, now).1 >= 0,
{
    let dt = elapsed_since(now, state.block_timestamp_last);
    if dt > 0 && state.reserve_a > 0 && state.reserve_b > 0 {
        let pa = state.reserve_b as int / state.reserve_a as int;
        let pb = state.reserve_a as int / state.reserve_b as int;
        assert(pa * dt >= 0) by (nonlinear_arith)
            requires
                pa >= 0,
                dt > 0,
        ;
        assert(pb * dt >= 0) by (nonlinear_arith)
            requires
                pb >= 0,
                dt > 0,
        ;
    }
}

/// A price feed for tests: quotes the price last set, or 1.0 before any.
pub struct MockPriceFeed {
    pub price: Option<i128>,
}

impl MockPriceFeed {
    /// A feed with no price set.
    pub fn new() -> (f: MockPriceFeed)
        ensures
            f.price is None,
    {
        MockPriceFeed { price: None }
    }

    /// The current price, scaled to `PRICE_SCALE`; `PRICE_SCALE` until a
    /// price is set.
    pub fn get_price(&self) -> (p: i128)
        ensures
            p == match self.price {
                Some(x) => x,
                None => PRICE_SCALE,
            },
    {
        match self.price {
            Some(x) => x,
            None => PRICE_SCALE,
        }
    }

    /// Sets the price, in `PRICE_SCALE` units.
    pub fn set_price(&mut self, new_price: i128)
        ensures
            final(self).price == Some(new_price),
    {
        self.price = Some(new_price);
    }
}

} // verus!
