//! The events the factory and the pair emit: each event's topic symbol and
//! payload, and how it goes out: which fields are topics and which are
//! data. Publishing an event is host work.
//!
//! Topic symbols follow the naming convention: lowercase snake_case
//! (`[a-z0-9_]`, non-empty). Names of at most nine characters are emitted
//! as short symbols; longer names are spelled out in full.
use vstd::prelude::*;

use crate::address::{Addr, Digest};

verus! {

/// Whether `c` may appear in a topic symbol: a lowercase ASCII letter, an
/// ASCII digit or `_`.
pub open spec fn is_symbol_char(c: char) -> bool {
    ('a' <= c && c <= 'z') || ('0' <= c && c <= '9') || c == '_'
}

/// Whether `name` follows the topic-symbol convention.
pub open spec fn follows_convention(name: Seq<char>) -> bool {
    name.len() > 0 && forall|i: int| 0 <= i < name.len() ==> is_symbol_char(#[trigger] name[i])
}

/// Checks a topic symbol against the naming convention.
pub fn is_convention_symbol(name: &str) -> (b: bool)
    ensures
        b == follows_convention(name@),
{
    let n = name.unicode_len();
    if n == 0 {
        return false;
    }
    let mut i: usize = 0;
    while i < n
        invariant
            n == name@.len(),
            i <= n,
            forall|k: int| 0 <= k < i ==> is_symbol_char(#[trigger] name@[k]),
        decreases n - i,
    {
        let c = name.get_char(i);
        if !(('a' <= c && c <= 'z') || ('0' <= c && c <= '9') || c == '_') {
            return false;
        }
        i = i + 1;
    }
    true
}

/// An event the factory emits.
#[derive(Clone, Copy, Debug, PartialEq, Eq, Structural)]
pub enum FactoryEvent {
    PairCreated { token_a: Addr, token_b: Addr, pair: Addr, pair_index: u32 },
    Paused,
    Unpaused,
    UpgradeProposed { new_wasm_hash: Digest },
    UpgradeExecuted { new_version: u32 },
    FeeToSet { fee_to: Option<Addr> },
    FeeToSetterSet { new_setter: Addr },
    ProtocolFeeUpdated { old_fee_bps: u32, new_fee_bps: u32, fee_to: Option<Addr> },
    PairFeeOverrideSet { pair: Addr, old_fee_bps: u32, new_fee_bps: u32, ledger: u32 },
}

/// The topic symbol of a factory event.
pub open spec fn factory_topic(e: FactoryEvent) -> Seq<char> {
    match e {
        FactoryEvent::PairCreated { .. } => "created"@,
        FactoryEvent::Paused => "paused"@,
        FactoryEvent::Unpaused => "unpaused"@,
        FactoryEvent::UpgradeProposed { .. } => "prop_upg"@,
        FactoryEvent::UpgradeExecuted { .. } => "upgraded"@,
        FactoryEvent::FeeToSet { .. } => "fee_to"@,
        FactoryEvent::FeeToSetterSet { .. } => "setter"@,
        FactoryEvent::ProtocolFeeUpdated { .. } => "fee_upd"@,
        FactoryEvent::PairFeeOverrideSet { .. } => "pair_fee"@,
    }
}

impl FactoryEvent {
    /// The event's topic symbol.
    pub fn topic(&self) -> (s: &'static str)
        ensures
            s@ == factory_topic(*self),
    {
        match self {
            FactoryEvent::PairCreated { .. } => "created",
            FactoryEvent::Paused => "paused",
            FactoryEvent::Unpaused => "unpaused",
            FactoryEvent::UpgradeProposed { .. } => "prop_upg",
            FactoryEvent::UpgradeExecuted { .. } => "upgraded",
            FactoryEvent::FeeToSet { .. } => "fee_to",
            FactoryEvent::FeeToSetterSet { .. } => "setter",
            FactoryEvent::ProtocolFeeUpdated { .. } => "fee_upd",
            FactoryEvent::PairFeeOverrideSet { .. } => "pair_fee",
        }
    }
}

/// The factory's event builders.
pub struct FactoryEvents;

impl FactoryEvents {
    /// A pair was created for the sorted tokens; `pair_index` is its place
    /// in the pair list.
    pub fn pair_created(token_a: Addr, token_b: Addr, pair: Addr, pair_index: u32) -> (e: FactoryEvent)
        ensures
            e == (FactoryEvent::PairCreated { token_a, token_b, pair, pair_index }),
    {
        FactoryEvent::PairCreated { token_a, token_b, pair, pair_index }
    }

    /// The protocol was paused.
    pub fn paused() -> (e: FactoryEvent)
        ensures
            e == FactoryEvent::Paused,
    {
        FactoryEvent::Paused
    }

    /// The protocol was unpaused.
    pub fn unpaused() -> (e: FactoryEvent)
        ensures
            e == FactoryEvent::Unpaused,
    {
        FactoryEvent::Unpaused
    }

    /// An upgrade to `new_wasm_hash` was proposed.
    pub fn upgrade_proposed(new_wasm_hash: Digest) -> (e: FactoryEvent)
        ensures
            e == (FactoryEvent::UpgradeProposed { new_wasm_hash }),
    {
        FactoryEvent::UpgradeProposed { new_wasm_hash }
    }

    /// An upgrade was executed, moving to `new_version`.
    pub fn upgrade_executed(new_version: u32) -> (e: FactoryEvent)
        ensures
            e == (FactoryEvent::UpgradeExecuted { new_version }),
    {
        FactoryEvent::UpgradeExecuted { new_version }
    }

    /// The protocol-fee recipient changed.
    pub fn fee_to_set(fee_to: Option<Addr>) -> (e: FactoryEvent)
        ensures
            e == (FactoryEvent::FeeToSet { fee_to }),
    {
        FactoryEvent::FeeToSet { fee_to }
    }

    /// The fee setter changed.
    pub fn fee_to_setter_set(new_setter: Addr) -> (e: FactoryEvent)
        ensures
            e == (FactoryEvent::FeeToSetterSet { new_setter }),
    {
        FactoryEvent::FeeToSetterSet { new_setter }
    }

    /// The protocol fee changed from `old_fee_bps` to `new_fee_bps`.
    pub fn protocol_fee_updated(old_fee_bps: u32, new_fee_bps: u32, fee_to: Option<Addr>) -> (e:
        FactoryEvent)
        ensures
            e == (FactoryEvent::ProtocolFeeUpdated { old_fee_bps, new_fee_bps, fee_to }),
    {
        FactoryEvent::ProtocolFeeUpdated { old_fee_bps, new_fee_bps, fee_to }
    }

    /// The fee override of `pair` changed at ledger `ledger`.
    pub fn pair_fee_override_set(pair: Addr, old_fee_bps: u32, new_fee_bps: u32, ledger: u32) -> (e:
        FactoryEvent)
        ensures
            e == (FactoryEvent::PairFeeOverrideSet { pair, old_fee_bps, new_fee_bps, ledger }),
    {
        FactoryEvent::PairFeeOverrideSet { pair, old_fee_bps, new_fee_bps, ledger }
    }
}

/// An event a pair emits.
#[derive(Clone, Copy, Debug, PartialEq, Eq, Structural)]
pub enum PairEvent {
    Swap {
        sender: Addr,
        amount_a_in: i128,
        amount_b_in: i128,
        amount_a_out: i128,
        amount_b_out: i128,
        fee_bps: u32,
        to: Addr,
    },
    Mint { sender: Addr, amount_a: i128, amount_b: i128 },
    Burn { sender: Addr, amount_a: i128, amount_b: i128, to: Addr },
    Sync { reserve_a: i128, reserve_b: i128 },
    BurnSingleSide { to: Addr, lp_amount: i128, preferred_token: Addr, total_out: i128 },
    MintSingleSide { sender: Addr, token_in: Addr, amount_in: i128, swap_amount: i128, lp_minted: i128 },
    RewardAdded { token: Addr, initial_rate: i128 },
    RewardRate { token: Addr, old_rate: i128, new_rate: i128 },
    RewardsClaimed { user: Addr, token: Addr, amount: i128 },
    StaleThresholdUpdated { new_threshold: u32 },
    ProtocolFeeCollected { fee_to: Addr, amount_a: i128, amount_b: i128 },
    FlashLoan {
        receiver: Addr,
        amount_a: i128,
        amount_b: i128,
        fee_a: i128,
        fee_b: i128,
        fee_bps: u32,
    },
}

/// The topic symbol of a pair event.
pub open spec fn pair_topic(e: PairEvent) -> Seq<char> {
    match e {
        PairEvent::Swap { .. } => "swap"@,
        PairEvent::Mint { .. } => "mint"@,
        PairEvent::Burn { .. } => "burn"@,
        PairEvent::Sync { .. } => "sync"@,
        PairEvent::BurnSingleSide { .. } => "burn_ss"@,
        PairEvent::MintSingleSide { .. } => "mint_ss"@,
        PairEvent::RewardAdded { .. } => "rwd_added"@,
        PairEvent::RewardRate { .. } => "rwd_rate"@,
        PairEvent::RewardsClaimed { .. } => "rwd_claim"@,
        PairEvent::StaleThresholdUpdated { .. } => "stl_thrsh"@,
        PairEvent::ProtocolFeeCollected { .. } => "protocol_fee"@,
        PairEvent::FlashLoan { .. } => "flash_loan"@,
    }
}

/// Whether a pair event's topic is spelled out in full because its name
/// is longer than a short symbol allows.
pub open spec fn pair_topic_is_long(e: PairEvent) -> bool {
    e is ProtocolFeeCollected || e is FlashLoan
}

impl PairEvent {
    /// The event's topic symbol.
    pub fn topic(&self) -> (s: &'static str)
        ensures
            s@ == pair_topic(*self),
    {
        match self {
            PairEvent::Swap { .. } => "swap",
            PairEvent::Mint { .. } => "mint",
            PairEvent::Burn { .. } => "burn",
            PairEvent::Sync { .. } => "sync",
            PairEvent::BurnSingleSide { .. } => "burn_ss",
            PairEvent::MintSingleSide { .. } => "mint_ss",
            PairEvent::RewardAdded { .. } => "rwd_added",
            PairEvent::RewardRate { .. } => "rwd_rate",
            PairEvent::RewardsClaimed { .. } => "rwd_claim",
            PairEvent::StaleThresholdUpdated { .. } => "stl_thrsh",
            PairEvent::ProtocolFeeCollected { .. } => "protocol_fee",
            PairEvent::FlashLoan { .. } => "flash_loan",
        }
    }
}

/// The pair's event builders.
pub struct PairEvents;

impl PairEvents {
    /// A swap by `sender` paying `to`, at fee `fee_bps`.
    pub fn swap(
        sender: Addr,
        amount_a_in: i128,
        amount_b_in: i128,
        amount_a_out: i128,
        amount_b_out: i128,
        fee_bps: u32,
        to: Addr,
    ) -> (e: PairEvent)
        ensures
            e == (PairEvent::Swap {
                sender,
                amount_a_in,
                amount_b_in,
                amount_a_out,
                amount_b_out,
                fee_bps,
                to,
            }),
    {
        PairEvent::Swap { sender, amount_a_in, amount_b_in, amount_a_out, amount_b_out, fee_bps, to }
    }

    /// Liquidity minted for `sender`.
    pub fn mint(sender: Addr, amount_a: i128, amount_b: i128) -> (e: PairEvent)
        ensures
            e == (PairEvent::Mint { sender, amount_a, amount_b }),
    {
        PairEvent::Mint { sender, amount_a, amount_b }
    }

    /// Liquidity burned by `sender`, paid to `to`.
    pub fn burn(sender: Addr, amount_a: i128, amount_b: i128, to: Addr) -> (e: PairEvent)
        ensures
            e == (PairEvent::Burn { sender, amount_a, amount_b, to }),
    {
        PairEvent::Burn { sender, amount_a, amount_b, to }
    }

    /// Reserves synchronized to balances.
    pub fn sync(reserve_a: i128, reserve_b: i128) -> (e: PairEvent)
        ensures
            e == (PairEvent::Sync { reserve_a, reserve_b }),
    {
        PairEvent::Sync { reserve_a, reserve_b }
    }

    /// Liquidity burned into a single token.
    pub fn burn_single_side(to: Addr, lp_amount: i128, preferred_token: Addr, total_out: i128) -> (e:
        PairEvent)
        ensures
            e == (PairEvent::BurnSingleSide { to, lp_amount, preferred_token, total_out }),
    {
        PairEvent::BurnSingleSide { to, lp_amount, preferred_token, total_out }
    }

    /// Liquidity minted from a single token.
    pub fn mint_single_side(
        sender: Addr,
        token_in: Addr,
        amount_in: i128,
        swap_amount: i128,
        lp_minted: i128,
    ) -> (e: PairEvent)
        ensures
            e == (PairEvent::MintSingleSide { sender, token_in, amount_in, swap_amount, lp_minted }),
    {
        PairEvent::MintSingleSide { sender, token_in, amount_in, swap_amount, lp_minted }
    }

    /// A reward stream was added for `token`.
    pub fn reward_added(token: Addr, initial_rate: i128) -> (e: PairEvent)
        ensures
            e == (PairEvent::RewardAdded { token, initial_rate }),
    {
        PairEvent::RewardAdded { token, initial_rate }
    }

    /// The reward rate of `token` changed.
    pub fn reward_rate(token: Addr, old_rate: i128, new_rate: i128) -> (e: PairEvent)
        ensures
            e == (PairEvent::RewardRate { token, old_rate, new_rate }),
    {
        PairEvent::RewardRate { token, old_rate, new_rate }
    }

    /// `user` claimed `amount` of `token`.
    pub fn rewards_claimed(user: Addr, token: Addr, amount: i128) -> (e: PairEvent)
        ensures
            e == (PairEvent::RewardsClaimed { user, token, amount }),
    {
        PairEvent::RewardsClaimed { user, token, amount }
    }

    /// The stale threshold changed.
    pub fn stale_threshold_updated(new_threshold: u32) -> (e: PairEvent)
        ensures
            e == (PairEvent::StaleThresholdUpdated { new_threshold }),
    {
        PairEvent::StaleThresholdUpdated { new_threshold }
    }

    /// Protocol fees were swept to `fee_to`.
    pub fn protocol_fee_collected(fee_to: Addr, amount_a: i128, amount_b: i128) -> (e: PairEvent)
        ensures
            e == (PairEvent::ProtocolFeeCollected { fee_to, amount_a, amount_b }),
    {
        PairEvent::ProtocolFeeCollected { fee_to, amount_a, amount_b }
    }

    /// A flash loan to `receiver` completed.
    pub fn flash_loan(
        receiver: Addr,
        amount_a: i128,
        amount_b: i128,
        fee_a: i128,
        fee_b: i128,
        fee_bps: u32,
    ) -> (e: PairEvent)
        ensures
            e == (PairEvent::FlashLoan { receiver, amount_a, amount_b, fee_a, fee_b, fee_bps }),
    {
        PairEvent::FlashLoan { receiver, amount_a, amount_b, fee_a, fee_b, fee_bps }
    }
}

/// A value an event carries as a topic or in its data.
#[derive(Clone, Copy, Debug, PartialEq, Eq, Structural)]
pub enum EventValue {
    Address(Addr),
    MaybeAddress(Option<Addr>),
    U32(u32),
    I128(i128),
    Hash(Digest),
}

/// The shape of an event's data: nothing, one value, or a tuple.
#[derive(Clone, Copy, Debug, PartialEq, Eq, Structural)]
pub enum DataShape {
    Unit,
    Single,
    Tuple,
}

/// How an event goes out: after its topic symbol, the further `topics`,
/// and its `data` in the given `shape` (a single value, or a tuple).
pub struct EventLayout {
    pub topics: Vec<EventValue>,
    pub shape: DataShape,
    pub data: Vec<EventValue>,
}

/// The topics a factory event carries after its symbol.
pub open spec fn factory_topics(e: FactoryEvent) -> Seq<EventValue> {
    match e {
        FactoryEvent::PairCreated { token_a, token_b, .. } => seq![
            EventValue::Address(token_a),
            EventValue::Address(token_b),
        ],
        FactoryEvent::PairFeeOverrideSet { pair, .. } => seq![EventValue::Address(pair)],
        _ => Seq::empty(),
    }
}

/// The shape of a factory event's data.
pub open spec fn factory_shape(e: FactoryEvent) -> DataShape {
    match e {
        FactoryEvent::Paused | FactoryEvent::Unpaused => DataShape::Unit,
        FactoryEvent::UpgradeProposed { .. } | FactoryEvent::UpgradeExecuted { .. } | FactoryEvent::FeeToSet {
            ..
        } | FactoryEvent::FeeToSetterSet { .. } => DataShape::Single,
        _ => DataShape::Tuple,
    }
}

/// The data a factory event carries.
pub open spec fn factory_data(e: FactoryEvent) -> Seq<EventValue> {
    match e {
        FactoryEvent::PairCreated { pair, pair_index, .. } => seq![
            EventValue::Address(pair),
            EventValue::U32(pair_index),
        ],
        FactoryEvent::Paused | FactoryEvent::Unpaused => Seq::empty(),
        FactoryEvent::UpgradeProposed { new_wasm_hash } => seq![EventValue::Hash(new_wasm_hash)],
        FactoryEvent::UpgradeExecuted { new_version } => seq![EventValue::U32(new_version)],
        FactoryEvent::FeeToSet { fee_to } => seq![EventValue::MaybeAddress(fee_to)],
        FactoryEvent::FeeToSetterSet { new_setter } => seq![EventValue::Address(new_setter)],
        FactoryEvent::ProtocolFeeUpdated { old_fee_bps, new_fee_bps, fee_to } => seq![
            EventValue::U32(old_fee_bps),
            EventValue::U32(new_fee_bps),
            EventValue::MaybeAddress(fee_to),
        ],
        FactoryEvent::PairFeeOverrideSet { old_fee_bps, new_fee_bps, ledger, .. } => seq![
            EventValue::U32(old_fee_bps),
            EventValue::U32(new_fee_bps),
            EventValue::U32(ledger),
        ],
    }
}

impl FactoryEvent {
    /// How the event goes out: its further topics and its data.
    pub fn layout(&self) -> (l: EventLayout)
        ensures
            l.topics@ == factory_topics(*self),
            l.shape == factory_shape(*self),
            l.data@ == factory_data(*self),
    {
        let (topics, shape, data) = match *self {
            FactoryEvent::PairCreated { token_a, token_b, pair, pair_index } => (
                vec![EventValue::Address(token_a), EventValue::Address(token_b)],
                DataShape::Tuple,
                vec![EventValue::Address(pair), EventValue::U32(pair_index)],
            ),
            FactoryEvent::Paused => (vec![], DataShape::Unit, vec![]),
            FactoryEvent::Unpaused => (vec![], DataShape::Unit, vec![]),
            FactoryEvent::UpgradeProposed { new_wasm_hash } => (
                vec![],
                DataShape::Single,
                vec![EventValue::Hash(new_wasm_hash)],
            ),
            FactoryEvent::UpgradeExecuted { new_version } => (
                vec![],
                DataShape::Single,
                vec![EventValue::U32(new_version)],
            ),
            FactoryEvent::FeeToSet { fee_to } => (vec![], DataShape::Single, vec![EventValue::MaybeAddress(fee_to)]),
            FactoryEvent::FeeToSetterSet { new_setter } => (
                vec![],
                DataShape::Single,
                vec![EventValue::Address(new_setter)],
            ),
            FactoryEvent::ProtocolFeeUpdated { old_fee_bps, new_fee_bps, fee_to } => (
                vec![],
                DataShape::Tuple,
                vec![EventValue::U32(old_fee_bps), EventValue::U32(new_fee_bps), EventValue::MaybeAddress(fee_to)],
            ),
            FactoryEvent::PairFeeOverrideSet { pair, old_fee_bps, new_fee_bps, ledger } => (
                vec![EventValue::Address(pair)],
                DataShape::Tuple,
                vec![EventValue::U32(old_fee_bps), EventValue::U32(new_fee_bps), EventValue::U32(ledger)],
            ),
        };
        proof {
            assert(topics@ =~= factory_topics(*self));
            assert(data@ =~= factory_data(*self));
        }
        EventLayout { topics, shape, data }
    }
}

/// The topics a pair event carries after its symbol.
pub open spec fn pair_topics(e: PairEvent) -> Seq<EventValue> {
    match e {
        PairEvent::Swap { sender, .. } => seq![EventValue::Address(sender)],
        PairEvent::Mint { sender, .. } => seq![EventValue::Address(sender)],
        PairEvent::Burn { sender, .. } => seq![EventValue::Address(sender)],
        PairEvent::Sync { .. } => Seq::empty(),
        PairEvent::BurnSingleSide { to, .. } => seq![EventValue::Address(to)],
        PairEvent::MintSingleSide { sender, .. } => seq![EventValue::Address(sender)],
        PairEvent::RewardAdded { token, .. } => seq![EventValue::Address(token)],
        PairEvent::RewardRate { token, .. } => seq![EventValue::Address(token)],
        PairEvent::RewardsClaimed { user, .. } => seq![EventValue::Address(user)],
        PairEvent::StaleThresholdUpdated { .. } => Seq::empty(),
        PairEvent::ProtocolFeeCollected { fee_to, .. } => seq![EventValue::Address(fee_to)],
        PairEvent::FlashLoan { receiver, .. } => seq![EventValue::Address(receiver)],
    }
}

/// The data a pair event carries; every pair event's data is a tuple.
pub open spec fn pair_data(e: PairEvent) -> Seq<EventValue> {
    match e {
        PairEvent::Swap { amount_a_in, amount_b_in, amount_a_out, amount_b_out, fee_bps, to, .. } => seq![
            EventValue::I128(amount_a_in),
            EventValue::I128(amount_b_in),
            EventValue::I128(amount_a_out),
            EventValue::I128(amount_b_out),
            EventValue::U32(fee_bps),
            EventValue::Address(to),
        ],
        PairEvent::Mint { amount_a, amount_b, .. } => seq![EventValue::I128(amount_a), EventValue::I128(amount_b)],
        PairEvent::Burn { amount_a, amount_b, to, .. } => seq![
            EventValue::I128(amount_a),
            EventValue::I128(amount_b),
            EventValue::Address(to),
        ],
        PairEvent::Sync { reserve_a, reserve_b } => seq![EventValue::I128(reserve_a), EventValue::I128(reserve_b)],
        PairEvent::BurnSingleSide { lp_amount, preferred_token, total_out, .. } => seq![
            EventValue::I128(lp_amount),
            EventValue::Address(preferred_token),
            EventValue::I128(total_out),
        ],
        PairEvent::MintSingleSide { token_in, amount_in, swap_amount, lp_minted, .. } => seq![
            EventValue::Address(token_in),
            EventValue::I128(amount_in),
            EventValue::I128(swap_amount),
            EventValue::I128(lp_minted),
        ],
        PairEvent::RewardAdded { initial_rate, .. } => seq![EventValue::I128(initial_rate)],
        PairEvent::RewardRate { old_rate, new_rate, .. } => seq![EventValue::I128(old_rate), EventValue::I128(new_rate)],
        PairEvent::RewardsClaimed { token, amount, .. } => seq![EventValue::Address(token), EventValue::I128(amount)],
        PairEvent::StaleThresholdUpdated { new_threshold } => seq![EventValue::U32(new_threshold)],
        PairEvent::ProtocolFeeCollected { amount_a, amount_b, .. } => seq![
            EventValue::I128(amount_a),
            EventValue::I128(amount_b),
        ],
        PairEvent::FlashLoan { amount_a, amount_b, fee_a, fee_b, fee_bps, .. } => seq![
            EventValue::I128(amount_a),
            EventValue::I128(amount_b),
            EventValue::I128(fee_a),
            EventValue::I128(fee_b),
            EventValue::U32(fee_bps),
        ],
    }
}

impl PairEvent {
    /// How the event goes out: its further topics and its data, always a
    /// tuple.
    pub fn layout(&self) -> (l: EventLayout)
        ensures
            l.topics@ == pair_topics(*self),
            l.shape == DataShape::Tuple,
            l.data@ == pair_data(*self),
    {
        let (topics, data) = match *self {
            PairEvent::Swap { sender, amount_a_in, amount_b_in, amount_a_out, amount_b_out, fee_bps, to } => (
                vec![EventValue::Address(sender)],
                vec![
                    EventValue::I128(amount_a_in),
                    EventValue::I128(amount_b_in),
                    EventValue::I128(amount_a_out),
                    EventValue::I128(amount_b_out),
                    EventValue::U32(fee_bps),
                    EventValue::Address(to),
                ],
            ),
            PairEvent::Mint { sender, amount_a, amount_b } => (
                vec![EventValue::Address(sender)],
                vec![EventValue::I128(amount_a), EventValue::I128(amount_b)],
            ),
            PairEvent::Burn { sender, amount_a, amount_b, to } => (
                vec![EventValue::Address(sender)],
                vec![EventValue::I128(amount_a), EventValue::I128(amount_b), EventValue::Address(to)],
            ),
            PairEvent::Sync { reserve_a, reserve_b } => (
                vec![],
                vec![EventValue::I128(reserve_a), EventValue::I128(reserve_b)],
            ),
            PairEvent::BurnSingleSide { to, lp_amount, preferred_token, total_out } => (
                vec![EventValue::Address(to)],
                vec![EventValue::I128(lp_amount), EventValue::Address(preferred_token), EventValue::I128(total_out)],
            ),
            PairEvent::MintSingleSide { sender, token_in, amount_in, swap_amount, lp_minted } => (
                vec![EventValue::Address(sender)],
                vec![
                    EventValue::Address(token_in),
                    EventValue::I128(amount_in),
                    EventValue::I128(swap_amount),
                    EventValue::I128(lp_minted),
                ],
            ),
            PairEvent::RewardAdded { token, initial_rate } => (
                vec![EventValue::Address(token)],
                vec![EventValue::I128(initial_rate)],
            ),
            PairEvent::RewardRate { token, old_rate, new_rate } => (
                vec![EventValue::Address(token)],
                vec![EventValue::I128(old_rate), EventValue::I128(new_rate)],
            ),
            PairEvent::RewardsClaimed { user, token, amount } => (
                vec![EventValue::Address(user)],
                vec![EventValue::Address(token), EventValue::I128(amount)],
            ),
            PairEvent::StaleThresholdUpdated { new_threshold } => (vec![], vec![EventValue::U32(new_threshold)]),
            PairEvent::ProtocolFeeCollected { fee_to, amount_a, amount_b } => (
                vec![EventValue::Address(fee_to)],
                vec![EventValue::I128(amount_a), EventValue::I128(amount_b)],
            ),
            PairEvent::FlashLoan { receiver, amount_a, amount_b, fee_a, fee_b, fee_bps } => (
                vec![EventValue::Address(receiver)],
                vec![
                    EventValue::I128(amount_a),
                    EventValue::I128(amount_b),
                    EventValue::I128(fee_a),
                    EventValue::I128(fee_b),
                    EventValue::U32(fee_bps),
                ],
            ),
        };
        proof {
            assert(topics@ =~= pair_topics(*self));
            assert(data@ =~= pair_data(*self));
        }
        EventLayout { topics, shape: DataShape::Tuple, data }
    }
}

/// Every factory topic follows the naming convention and fits a short
/// symbol (at most nine characters).
pub proof fn lemma_factory_topics_follow_convention(e: FactoryEvent)
    ensures
        follows_convention(factory_topic(e)),
        factory_topic(e).len() <= 9,
{
    reveal_strlit("created");
    reveal_strlit("paused");
    reveal_strlit("unpaused");
    reveal_strlit("prop_upg");
    reveal_strlit("upgraded");
    reveal_strlit("fee_to");
    reveal_strlit("setter");
    reveal_strlit("fee_upd");
    reveal_strlit("pair_fee");
}

/// Every pair topic follows the naming convention; every topic but the two
/// long names fits a short symbol, and the long names are longer than
/// nine characters.
pub proof fn lemma_pair_topics_follow_convention(e: PairEvent)
    ensures
        follows_convention(pair_topic(e)),
        !pair_topic_is_long(e) ==> pair_topic(e).len() <= 9,
        pair_topic_is_long(e) ==> pair_topic(e).len() > 9,
{
    reveal_strlit("swap");
    reveal_strlit("mint");
    reveal_strlit("burn");
    reveal_strlit("sync");
    reveal_strlit("burn_ss");
    reveal_strlit("mint_ss");
    reveal_strlit("rwd_added");
    reveal_strlit("rwd_rate");
    reveal_strlit("rwd_claim");
    reveal_strlit("stl_thrsh");
    reveal_strlit("protocol_fee");
    reveal_strlit("flash_loan");
}

} // verus!
