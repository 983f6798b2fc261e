use coralswap::events::FactoryEvent;
use coralswap::address::{Addr, Digest};
use coralswap::factory::{
    verify_multisig, Factory, FactoryError, MAX_PAIR_FEE_BPS, MAX_PROTOCOL_FEE_BPS, UPGRADE_TIMELOCK_LEDGERS,
};

fn addr(n: u128) -> Addr {
    Addr { kind: 1, hi: 0, lo: n }
}

fn hash(n: u128) -> Digest {
    Digest { hi: 0, lo: n }
}

fn initialized(signers: usize) -> Factory {
    let mut f = Factory::new();
    let list: Vec<Addr> = (0..signers as u128).map(|i| addr(100 + i)).collect();
    assert_eq!(f.initialize(list, hash(1), hash(2), addr(50)), Ok(()));
    f
}

#[test]
fn initialize_validates_signers_once() {
    let mut f = Factory::new();
    assert_eq!(f.initialize(vec![], hash(1), hash(2), addr(50)), Err(FactoryError::InvalidSignerCount));
    let eleven: Vec<Addr> = (0..11).map(addr).collect();
    assert_eq!(f.initialize(eleven, hash(1), hash(2), addr(50)), Err(FactoryError::InvalidSignerCount));
    assert_eq!(f.initialize(vec![addr(1)], hash(1), hash(2), addr(50)), Ok(()));
    assert_eq!(f.initialize(vec![addr(1)], hash(1), hash(2), addr(50)), Err(FactoryError::AlreadyInitialized));
    assert!(!f.is_paused());
    assert_eq!(f.fee_to(), None);
    assert_eq!(f.fee_to_setter(), Some(addr(50)));
    assert_eq!(f.get_pair_count(), 0);
}

#[test]
fn create_pair_registers_both_orders() {
    let mut f = initialized(3);
    assert_eq!(f.create_pair(addr(7), addr(3), addr(900)), Ok((addr(900), 0)));
    assert_eq!(f.get_pair(addr(3), addr(7)), Some(addr(900)));
    assert_eq!(f.get_pair(addr(7), addr(3)), Some(addr(900)));
    assert_eq!(f.get_pair(addr(3), addr(8)), None);
    assert_eq!(f.create_pair(addr(3), addr(7), addr(901)), Err(FactoryError::PairExists));
    assert_eq!(f.create_pair(addr(3), addr(3), addr(901)), Err(FactoryError::IdenticalTokens));
    assert_eq!(f.create_pair(addr(3), addr(8), addr(901)), Ok((addr(901), 1)));
    assert_eq!(f.get_pair_count(), 2);
    assert_eq!(f.total_pairs(), 2);
    // Creation changes nothing in the configuration but the pair counter.
    assert!(!f.is_paused());
    assert_eq!(f.fee_to(), None);
    assert_eq!(f.fee_to_setter(), Some(addr(50)));
    assert_eq!(f.get_all_pairs(0, 10), Ok(vec![addr(900), addr(901)]));
    assert_eq!(f.get_all_pairs(1, 10), Ok(vec![addr(901)]));
    assert_eq!(f.get_all_pairs(5, 10), Ok(vec![]));
    assert_eq!(f.get_all_pairs(0, 51), Err(FactoryError::LimitTooHigh));
    // The pair is created for its sorted tokens.
    assert_eq!(f.check_create_pair(addr(9), addr(4)), Ok((addr(4), addr(9))));
}

#[test]
fn create_pair_needs_initialization() {
    let mut f = Factory::new();
    assert_eq!(f.create_pair(addr(3), addr(7), addr(900)), Err(FactoryError::NotInitialized));
    assert_eq!(f.get_pair_count(), 0);
    assert!(!f.is_paused());
}

#[test]
fn pause_blocks_only_pair_creation() {
    let mut f = initialized(3);
    // ceil(3 / 2) = 2 signers are needed.
    assert_eq!(f.pause(&vec![addr(100)]), Err(FactoryError::InsufficientSignatures));
    assert_eq!(f.pause(&vec![addr(1), addr(2)]), Err(FactoryError::Unauthorized));
    // One registered and one unregistered address are not a quorum.
    assert_eq!(f.pause(&vec![addr(1), addr(101)]), Err(FactoryError::InsufficientSignatures));
    // Nor is one registered signer named twice.
    assert_eq!(f.pause(&vec![addr(101), addr(101)]), Err(FactoryError::InsufficientSignatures));
    assert!(!f.is_paused());
    assert_eq!(f.pause(&vec![addr(100), addr(101)]), Ok(()));
    assert!(f.is_paused());
    assert_eq!(f.create_pair(addr(3), addr(7), addr(900)), Err(FactoryError::ProtocolPaused));
    // Governance other than pair creation still works while paused.
    assert_eq!(f.set_pair_fee(addr(50), addr(900), 10, 12), Ok(0));
    assert_eq!(f.unpause(&vec![addr(100), addr(102)]), Ok(()));
    assert!(!f.is_paused());
    assert_eq!(f.create_pair(addr(3), addr(7), addr(900)), Ok((addr(900), 0)));
}

#[test]
fn fee_configuration() {
    let mut f = initialized(1);
    assert_eq!(f.set_fee_to(addr(51), Some(addr(60)), 5), Err(FactoryError::Unauthorized));
    assert_eq!(f.set_fee_to(addr(50), Some(addr(60)), 31), Err(FactoryError::FeeTooHigh));
    assert_eq!(f.set_fee_to(addr(50), None, 5), Err(FactoryError::InvalidFeeRecipient));
    assert_eq!(f.set_fee_to(addr(50), Some(addr(60)), 30), Ok(0));
    assert_eq!(f.fee_to(), Some(addr(60)));
    assert_eq!(f.set_fee_to(addr(50), None, 0), Ok(30));
    assert_eq!(f.fee_to(), None);
    assert_eq!(f.set_fee_to_setter(addr(51), addr(52)), Err(FactoryError::Unauthorized));
    assert_eq!(f.set_fee_to_setter(addr(50), addr(52)), Ok(()));
    assert_eq!(f.fee_to_setter(), Some(addr(52)));
    assert_eq!(f.set_fee_to(addr(50), None, 0), Err(FactoryError::Unauthorized));
    assert_eq!((MAX_PROTOCOL_FEE_BPS, MAX_PAIR_FEE_BPS), (30, 100));
}

#[test]
fn pair_fee_overrides() {
    let mut f = initialized(1);
    assert_eq!(f.get_pair_fee_override(addr(900)), None);
    assert_eq!(f.set_pair_fee(addr(50), addr(900), 101, 12), Err(FactoryError::FeeTooHigh));
    assert_eq!(f.set_pair_fee(addr(49), addr(900), 10, 12), Err(FactoryError::Unauthorized));
    assert_eq!(f.set_pair_fee(addr(50), addr(900), 100, 12), Ok(0));
    assert_eq!(f.set_pair_fee(addr(50), addr(901), 5, 12), Ok(0));
    assert_eq!(f.set_pair_fee(addr(50), addr(900), 7, 12), Ok(100));
    assert_eq!(f.get_pair_fee_override(addr(900)), Some(7));
    assert_eq!(f.get_pair_fee_override(addr(901)), Some(5));
    assert_eq!(f.set_pair_fee(addr(50), addr(900), 0, 12), Ok(7));
    assert_eq!(f.get_pair_fee_override(addr(900)), Some(0));
}

#[test]
fn timelocked_upgrade() {
    let mut f = initialized(4);
    let signers = vec![addr(100), addr(101)];
    assert_eq!(f.execute_upgrade(1_000), Err(FactoryError::NoPendingUpgrade));
    assert_eq!(f.propose_upgrade(&vec![addr(100)], hash(9), 1_000), Err(FactoryError::InsufficientSignatures));
    assert_eq!(f.propose_upgrade(&signers, hash(9), 1_000), Ok(()));
    assert_eq!(f.propose_upgrade(&signers, hash(10), 1_001), Err(FactoryError::UpgradeAlreadyPending));
    assert_eq!(
        f.execute_upgrade(1_000 + UPGRADE_TIMELOCK_LEDGERS - 1),
        Err(FactoryError::UpgradeTimelockNotExpired)
    );
    assert_eq!(f.execute_upgrade(1_000 + UPGRADE_TIMELOCK_LEDGERS), Ok(hash(9)));
    assert_eq!(f.config.as_ref().map(|c| c.protocol_version), Some(2));
    assert_eq!(f.execute_upgrade(1_000_000), Err(FactoryError::NoPendingUpgrade));
    assert_eq!(f.cancel_upgrade(&signers), Err(FactoryError::NoPendingUpgrade));
    assert_eq!(f.propose_upgrade(&signers, hash(11), 2_000), Ok(()));
    assert_eq!(f.cancel_upgrade(&signers), Ok(()));
    assert_eq!(f.execute_upgrade(1_000_000), Err(FactoryError::NoPendingUpgrade));
    assert_eq!(UPGRADE_TIMELOCK_LEDGERS, 51_840);
}

#[test]
fn multisig_threshold() {
    assert_eq!(verify_multisig(&vec![addr(1)], 0), Err(FactoryError::InvalidSignerCount));
    assert_eq!(verify_multisig(&vec![addr(1)], 2), Err(FactoryError::InsufficientSignatures));
    assert_eq!(verify_multisig(&vec![addr(1), addr(2)], 2), Ok(()));
}

#[test]
fn unregistered_addresses_never_count_toward_the_quorum() {
    // Two registered signers: ceil(2 / 2) = 1 registered signer is needed.
    let mut f = initialized(2);
    assert_eq!(f.propose_upgrade(&vec![addr(5)], hash(9), 1_000), Err(FactoryError::Unauthorized));
    assert_eq!(f.propose_upgrade(&vec![addr(5), addr(101)], hash(9), 1_000), Ok(()));
    assert_eq!(f.cancel_upgrade(&vec![addr(6)]), Err(FactoryError::Unauthorized));
    assert_eq!(f.cancel_upgrade(&vec![addr(100)]), Ok(()));
}

#[test]
fn governance_calls_emit_their_events() {
    let mut f = initialized(1);
    assert_eq!(f.events.len(), 0);
    assert_eq!(f.create_pair(addr(7), addr(3), addr(900)), Ok((addr(900), 0)));
    // The created event carries the sorted tokens, the pair and its index.
    assert_eq!(
        f.events.last(),
        Some(&FactoryEvent::PairCreated { token_a: addr(3), token_b: addr(7), pair: addr(900), pair_index: 0 })
    );
    // A refused call emits nothing.
    assert_eq!(f.create_pair(addr(7), addr(3), addr(901)), Err(FactoryError::PairExists));
    assert_eq!(f.set_fee_to(addr(49), Some(addr(60)), 5), Err(FactoryError::Unauthorized));
    assert_eq!(f.events.len(), 1);

    assert_eq!(f.set_fee_to(addr(50), Some(addr(60)), 5), Ok(0));
    assert_eq!(
        f.events[1..].to_vec(),
        vec![
            FactoryEvent::FeeToSet { fee_to: Some(addr(60)) },
            FactoryEvent::ProtocolFeeUpdated { old_fee_bps: 0, new_fee_bps: 5, fee_to: Some(addr(60)) },
        ]
    );
    assert_eq!(f.set_pair_fee(addr(50), addr(900), 10, 77), Ok(0));
    assert_eq!(
        f.events.last(),
        Some(&FactoryEvent::PairFeeOverrideSet { pair: addr(900), old_fee_bps: 0, new_fee_bps: 10, ledger: 77 })
    );
    assert_eq!(f.set_fee_to_setter(addr(50), addr(51)), Ok(()));
    assert_eq!(f.events.last(), Some(&FactoryEvent::FeeToSetterSet { new_setter: addr(51) }));

    let signers = vec![addr(100)];
    assert_eq!(f.pause(&signers), Ok(()));
    assert_eq!(f.events.last(), Some(&FactoryEvent::Paused));
    assert_eq!(f.unpause(&signers), Ok(()));
    assert_eq!(f.events.last(), Some(&FactoryEvent::Unpaused));
    assert_eq!(f.propose_upgrade(&signers, hash(9), 1_000), Ok(()));
    assert_eq!(f.events.last(), Some(&FactoryEvent::UpgradeProposed { new_wasm_hash: hash(9) }));
    assert_eq!(f.execute_upgrade(1_000 + UPGRADE_TIMELOCK_LEDGERS), Ok(hash(9)));
    assert_eq!(f.events.last(), Some(&FactoryEvent::UpgradeExecuted { new_version: 2 }));
    assert_eq!(f.events.len(), 9);
}
