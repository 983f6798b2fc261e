use coralswap::address::Addr;
use coralswap::errors::PairError;
use coralswap::pair::{
    acquire, release, update, FeeState, MockPriceFeed, OracleState, PairInstance, PairStorage,
    ProtocolFeeState, ReentrancyGuard, PRICE_SCALE,
};

fn addr(n: u128) -> Addr {
    Addr { kind: 1, hi: 0, lo: n }
}

fn sample_pair() -> PairStorage {
    PairStorage {
        factory: addr(1),
        token_a: addr(2),
        token_b: addr(3),
        lp_token: addr(4),
        reserve_a: 1_000,
        reserve_b: 2_000,
        block_timestamp_last: 10,
        price_a_cumulative: 5,
        price_b_cumulative: 6,
        k_last: 2_000_000,
    }
}

#[test]
fn lock_refuses_reentry_until_released() {
    let mut storage = PairInstance::new();
    assert!(!storage.get_reentrancy_guard().locked);
    assert_eq!(acquire(&mut storage), Ok(()));
    assert!(storage.get_reentrancy_guard().locked);
    assert_eq!(acquire(&mut storage), Err(PairError::Locked));
    assert!(storage.get_reentrancy_guard().locked);
    release(&mut storage);
    assert!(!storage.get_reentrancy_guard().locked);
    assert_eq!(acquire(&mut storage), Ok(()));
}

#[test]
fn a_stored_lock_is_honoured() {
    let mut storage = PairInstance::new();
    storage.set_reentrancy_guard(&ReentrancyGuard { locked: true });
    assert_eq!(acquire(&mut storage), Err(PairError::Locked));
}

#[test]
fn oracle_update_accumulates_prices() {
    let mut state = sample_pair();
    // 32 seconds at prices 2000 / 1000 = 2 and 1000 / 2000 = 0.
    assert_eq!(update(42, &mut state), Ok(()));
    let expected = PairStorage { block_timestamp_last: 42, price_a_cumulative: 5 + 64, ..sample_pair() };
    assert_eq!(state, expected);
    // A clock that runs backwards records the new time and adds nothing.
    assert_eq!(update(7, &mut state), Ok(()));
    assert_eq!(state.block_timestamp_last, 7);
    assert_eq!((state.price_a_cumulative, state.price_b_cumulative), (69, 6));
}

#[test]
fn oracle_update_matches_the_observation_example() {
    let mut state = PairStorage {
        reserve_a: 100,
        reserve_b: 200,
        block_timestamp_last: 0,
        price_a_cumulative: 0,
        price_b_cumulative: 0,
        ..sample_pair()
    };
    assert_eq!(update(10, &mut state), Ok(()));
    assert_eq!(state.price_a_cumulative, 20);
    assert_eq!(state.price_b_cumulative, 0);
}

#[test]
fn oracle_update_refuses_overflow() {
    let mut state = PairStorage { price_a_cumulative: i128::MAX - 1, ..sample_pair() };
    let before = state;
    assert_eq!(update(42, &mut state), Err(PairError::Overflow));
    assert_eq!(state, before);
    // An empty pool accumulates nothing.
    let mut empty = PairStorage { reserve_a: 0, ..sample_pair() };
    assert_eq!(update(42, &mut empty), Ok(()));
    assert_eq!((empty.price_a_cumulative, empty.block_timestamp_last), (5, 42));
}

#[test]
fn storage_defaults_and_round_trips() {
    let mut storage = PairInstance::new();
    assert_eq!(storage.get_pair_state(), None);
    assert_eq!(storage.get_fee_state(), None);
    assert_eq!(storage.get_protocol_fee_state(), ProtocolFeeState { fee_a: 0, fee_b: 0 });
    assert!(storage.get_oracle_state().observations.is_empty());

    storage.set_pair_state(&sample_pair());
    assert_eq!(storage.get_pair_state(), Some(sample_pair()));

    let fee = FeeState {
        vol_accumulator: 0,
        ema_alpha: 1,
        baseline_fee_bps: 30,
        min_fee_bps: 10,
        max_fee_bps: 100,
        ramp_up_multiplier: 2,
        cooldown_divisor: 2,
        last_fee_update: 0,
        decay_threshold_blocks: 5,
        stale_threshold: 30,
    };
    storage.set_fee_state(&fee);
    assert_eq!(storage.get_fee_state(), Some(fee));

    storage.set_protocol_fee_state(&ProtocolFeeState { fee_a: 3, fee_b: 4 });
    assert_eq!(storage.get_protocol_fee_state(), ProtocolFeeState { fee_a: 3, fee_b: 4 });

    storage.set_oracle_state(&OracleState { observations: vec![(100, 10, 20), (200, 11, 21)] });
    assert_eq!(storage.get_oracle_state().observations, vec![(100, 10, 20), (200, 11, 21)]);
}

#[test]
fn price_feed_defaults_to_one() {
    let mut feed = MockPriceFeed::new();
    assert_eq!(feed.get_price(), PRICE_SCALE);
    assert_eq!(PRICE_SCALE, 1_000_000_000_000_000_000);
    feed.set_price(2 * PRICE_SCALE);
    assert_eq!(feed.get_price(), 2 * PRICE_SCALE);
}
