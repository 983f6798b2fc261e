use coralswap::address::{Addr, Digest};
use coralswap::events::{
    is_convention_symbol, DataShape, EventValue, FactoryEvent, FactoryEvents, PairEvent, PairEvents,
};

fn addr(n: u128) -> Addr {
    Addr { kind: 1, hi: 0, lo: n }
}

#[test]
fn convention_symbols() {
    assert!(is_convention_symbol("created"));
    assert!(is_convention_symbol("prop_upg"));
    assert!(is_convention_symbol("protocol_fee_collected"));
    assert!(is_convention_symbol("rwd2"));
    assert!(!is_convention_symbol(""));
    assert!(!is_convention_symbol("Created"));
    assert!(!is_convention_symbol("mint-1t"));
    assert!(!is_convention_symbol("fee upd"));
    assert!(!is_convention_symbol("café"));
}

#[test]
fn factory_topics() {
    let e = FactoryEvents::pair_created(addr(1), addr(2), addr(3), 4);
    assert_eq!(e, FactoryEvent::PairCreated { token_a: addr(1), token_b: addr(2), pair: addr(3), pair_index: 4 });
    assert_eq!(e.topic(), "created");
    assert_eq!(FactoryEvents::paused().topic(), "paused");
    assert_eq!(FactoryEvents::unpaused().topic(), "unpaused");
    assert_eq!(FactoryEvents::upgrade_proposed(Digest { hi: 0, lo: 1 }).topic(), "prop_upg");
    assert_eq!(FactoryEvents::upgrade_executed(2).topic(), "upgraded");
    assert_eq!(FactoryEvents::fee_to_set(None).topic(), "fee_to");
    assert_eq!(FactoryEvents::fee_to_setter_set(addr(5)).topic(), "setter");
    assert_eq!(FactoryEvents::protocol_fee_updated(0, 30, Some(addr(6))).topic(), "fee_upd");
    let e = FactoryEvents::pair_fee_override_set(addr(7), 0, 10, 99);
    assert_eq!(e.topic(), "pair_fee");
    assert_eq!(e, FactoryEvent::PairFeeOverrideSet { pair: addr(7), old_fee_bps: 0, new_fee_bps: 10, ledger: 99 });
}

#[test]
fn pair_topics() {
    let s = addr(1);
    let topics = [
        PairEvents::swap(s, 1, 0, 0, 2, 30, s).topic(),
        PairEvents::mint(s, 1, 2).topic(),
        PairEvents::burn(s, 1, 2, s).topic(),
        PairEvents::sync(1, 2).topic(),
        PairEvents::burn_single_side(s, 1, s, 2).topic(),
        PairEvents::mint_single_side(s, s, 1, 2, 3).topic(),
        PairEvents::reward_added(s, 1).topic(),
        PairEvents::reward_rate(s, 1, 2).topic(),
        PairEvents::rewards_claimed(s, s, 1).topic(),
        PairEvents::stale_threshold_updated(5).topic(),
        PairEvents::protocol_fee_collected(s, 1, 2).topic(),
        PairEvents::flash_loan(s, 1, 2, 3, 4, 30).topic(),
    ];
    assert_eq!(
        topics,
        [
            "swap", "mint", "burn", "sync", "burn_ss", "mint_ss", "rwd_added", "rwd_rate", "rwd_claim",
            "stl_thrsh", "protocol_fee", "flash_loan"
        ]
    );
    for t in topics {
        assert!(is_convention_symbol(t));
    }
    assert_eq!(PairEvents::sync(1, 2), PairEvent::Sync { reserve_a: 1, reserve_b: 2 });
}

#[test]
fn events_split_their_fields_into_topics_and_data() {
    let (a, b, p) = (Addr { kind: 1, hi: 0, lo: 3 }, Addr { kind: 1, hi: 0, lo: 7 }, Addr { kind: 1, hi: 0, lo: 9 });
    let created = FactoryEvents::pair_created(a, b, p, 4).layout();
    assert_eq!(created.topics, vec![EventValue::Address(a), EventValue::Address(b)]);
    assert_eq!(created.shape, DataShape::Tuple);
    assert_eq!(created.data, vec![EventValue::Address(p), EventValue::U32(4)]);

    let paused = FactoryEvents::paused().layout();
    assert!(paused.topics.is_empty() && paused.data.is_empty());
    assert_eq!(paused.shape, DataShape::Unit);

    let upgraded = FactoryEvents::upgrade_executed(2).layout();
    assert_eq!(upgraded.shape, DataShape::Single);
    assert_eq!(upgraded.data, vec![EventValue::U32(2)]);

    let burn = PairEvents::burn(a, 10, 20, b).layout();
    assert_eq!(burn.topics, vec![EventValue::Address(a)]);
    assert_eq!(burn.data, vec![EventValue::I128(10), EventValue::I128(20), EventValue::Address(b)]);

    let mint_ss = PairEvents::mint_single_side(a, b, 100, 40, 55).layout();
    assert_eq!(mint_ss.topics, vec![EventValue::Address(a)]);
    assert_eq!(
        mint_ss.data,
        vec![EventValue::Address(b), EventValue::I128(100), EventValue::I128(40), EventValue::I128(55)]
    );
    assert_eq!(PairEvents::sync(1, 2).layout().topics, vec![]);
}
