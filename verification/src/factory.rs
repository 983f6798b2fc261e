//! The factory: the registry of pairs, protocol pause, fee configuration,
//! per-pair fee overrides and the timelocked multisig upgrade.
//!
//! Deploying and initializing a pair and its LP token is host work; the
//! factory decides whether a pair may be created and records it once the
//! host reports the deployed address.
use vstd::prelude::*;

use crate::address::{addr_lt, Addr, Digest};
use crate::events::{FactoryEvent, FactoryEvents};

verus! {

/// Errors raised by the factory.
#[derive(Clone, Copy, Debug, PartialEq, Eq, Structural)]
pub enum FactoryError {
    AlreadyInitialized,
    NotInitialized,
    InvalidSignerCount,
    InsufficientSignatures,
    Unauthorized,
    IdenticalTokens,
    PairExists,
    ProtocolPaused,
    LimitTooHigh,
    FeeTooHigh,
    InvalidFeeRecipient,
    UpgradeAlreadyPending,
    NoPendingUpgrade,
    UpgradeTimelockNotExpired,
}

/// Most signers a factory may register.
pub const MAX_SIGNERS: usize = 10;

/// Largest protocol fee, in basis points.
pub const MAX_PROTOCOL_FEE_BPS: u32 = 30;

/// Largest per-pair fee override, in basis points (1%).
pub const MAX_PAIR_FEE_BPS: u32 = 100;

/// Largest page of pairs returned at once.
pub const MAX_PAGE: u32 = 50;

/// Ledgers an upgrade must wait after its proposal (72 hours at 5 s per
/// ledger).
pub const UPGRADE_TIMELOCK_LEDGERS: u32 = 51_840;

/// Decimals of every LP token the factory deploys.
pub const LP_DECIMALS: u32 = 7;

/// The factory's configuration.
pub struct FactoryStorage {
    pub signers: Vec<Addr>,
    pub pair_wasm_hash: Digest,
    pub lp_token_wasm_hash: Digest,
    pub pair_count: u32,
    pub protocol_version: u32,
    pub paused: bool,
    pub fee_to: Option<Addr>,
    pub fee_to_setter: Addr,
    pub fee_bps: u32,
}

/// A registered pair and its two tokens in sorted order.
#[derive(Clone, Copy, Debug, PartialEq, Eq, Structural)]
pub struct PairRecord {
    pub token_0: Addr,
    pub token_1: Addr,
    pub pair: Addr,
}

/// A per-pair fee override.
#[derive(Clone, Copy, Debug, PartialEq, Eq, Structural)]
pub struct FeeOverride {
    pub pair: Addr,
    pub fee_bps: u32,
}

/// A proposed upgrade waiting for its timelock.
#[derive(Clone, Copy, Debug, PartialEq, Eq, Structural)]
pub struct PendingUpgrade {
    pub new_wasm_hash: Digest,
    pub proposed_ledger: u32,
}

/// Factory state: configuration (absent until initialized), the pair
/// registry in creation order, the stored pair total, fee overrides and
/// the pending upgrade.
pub struct Factory {
    pub config: Option<FactoryStorage>,
    pub pairs: Vec<PairRecord>,
    pub pair_list: Vec<Addr>,
    pub total_pairs: u32,
    pub fee_overrides: Vec<FeeOverride>,
    pub pending_upgrade: Option<PendingUpgrade>,
    /// The events emitted, in order, since this value was built.
    pub events: Vec<FactoryEvent>,
}

/// The lower of two addresses in address order.
pub open spec fn sorted_low(a: Addr, b: Addr) -> Addr {
    if addr_lt(a, b) {
        a
    } else {
        b
    }
}

/// The higher of two addresses in address order.
pub open spec fn sorted_high(a: Addr, b: Addr) -> Addr {
    if addr_lt(a, b) {
        b
    } else {
        a
    }
}

/// `config` with one more pair counted, everything else kept.
pub open spec fn with_one_more_pair(config: FactoryStorage) -> FactoryStorage {
    FactoryStorage { pair_count: (config.pair_count + 1) as u32, ..config }
}

/// The pair registered for tokens `a` and `b`, in either order.
pub open spec fn pair_of(records: Seq<PairRecord>, a: Addr, b: Addr) -> Option<Addr>
    decreases records.len(),
{
    if records.len() == 0 {
        None
    } else if (records[0].token_0 == a && records[0].token_1 == b) || (records[0].token_0 == b
        && records[0].token_1 == a) {
        Some(records[0].pair)
    } else {
        pair_of(records.drop_first(), a, b)
    }
}

/// The fee override of `pair`, if one is set.
pub open spec fn override_of(overrides: Seq<FeeOverride>, pair: Addr) -> Option<u32>
    decreases overrides.len(),
{
    if overrides.len() == 0 {
        None
    } else if overrides[0].pair == pair {
        Some(overrides[0].fee_bps)
    } else {
        override_of(overrides.drop_first(), pair)
    }
}

/// Majority threshold over `n` registered signers: `ceil(n / 2)`.
pub open spec fn threshold(n: int) -> int {
    (n + 1) / 2
}

/// Whether entry `j` of the registered signers is one that `provided`
/// names and that no earlier entry repeats.
pub open spec fn approves_at(provided: Seq<Addr>, registered: Seq<Addr>, j: int) -> bool {
    provided.contains(registered[j]) && !registered.take(j).contains(registered[j])
}

/// The number of distinct registered signers among `provided`.
pub open spec fn approvals(provided: Seq<Addr>, registered: Seq<Addr>) -> nat
    decreases registered.len(),
{
    if registered.len() == 0 {
        0
    } else {
        approvals(provided, registered.drop_last()) + if approves_at(
            provided,
            registered,
            registered.len() - 1,
        ) {
            1nat
        } else {
            0nat
        }
    }
}

/// Naming an address that is not a registered signer never changes the
/// count of approvals: unregistered addresses do not count toward the
/// quorum.
pub proof fn lemma_unregistered_never_count(provided: Seq<Addr>, registered: Seq<Addr>, x: Addr)
    requires
        !registered.contains(x),
    ensures
        approvals(provided.push(x), registered) == approvals(provided, registered),
    decreases registered.len(),
{
    if registered.len() > 0 {
        let rest = registered.drop_last();
        assert(!rest.contains(x)) by {
            if rest.contains(x) {
                let k = choose|k: int| 0 <= k < rest.len() && rest[k] == x;
                assert(registered[k] == x);
            }
        }
        lemma_unregistered_never_count(provided, rest, x);
        let y = registered[registered.len() - 1];
        assert(y != x);
        assert(provided.push(x).contains(y) == provided.contains(y)) by {
            if provided.push(x).contains(y) {
                let k = choose|k: int| 0 <= k < provided.push(x).len() && provided.push(x)[k] == y;
                assert(k < provided.len());
                assert(provided[k] == y);
            }
            if provided.contains(y) {
                let k = choose|k: int| 0 <= k < provided.len() && provided[k] == y;
                assert(provided.push(x)[k] == y);
            }
        }
    }
}

/// The multisig gate over the registered signers `registered`: at least
/// `ceil(n / 2)` signers must be provided, at least one of them registered,
/// and at least `ceil(n / 2)` distinct registered signers among them.
/// Addresses that are not registered never count toward the quorum.
pub open spec fn quorum_outcome(provided: Seq<Addr>, registered: Seq<Addr>) -> Result<(), FactoryError> {
    let t = threshold(registered.len() as int);
    if t == 0 {
        Err(FactoryError::InvalidSignerCount)
    } else if provided.len() < t {
        Err(FactoryError::InsufficientSignatures)
    } else if approvals(provided, registered) == 0 {
        Err(FactoryError::Unauthorized)
    } else if approvals(provided, registered) < t {
        Err(FactoryError::InsufficientSignatures)
    } else {
        Ok(())
    }
}

/// Checks that at least `required` signers were provided.
///
/// Each provided signer must also authorize the invocation; the contract
/// host enforces that for every signer once this check passes.
pub fn verify_multisig(signers: &Vec<Addr>, required: u32) -> (r: Result<(), crate::factory::FactoryError>)
    ensures
        r == (if required == 0 {
            Err::<(), FactoryError>(FactoryError::InvalidSignerCount)
        } else if signers@.len() < required {
            Err::<(), FactoryError>(FactoryError::InsufficientSignatures)
        } else {
            Ok::<(), FactoryError>(())
        }),
{
    if required == 0 {
        return Err(FactoryError::InvalidSignerCount);
    }
    if signers.len() < required as usize {
        return Err(FactoryError::InsufficientSignatures);
    }
    Ok(())
}

/// `ceil(n / 2)` for the number of registered signers.
fn majority(n: usize) -> (t: u32)
    requires
        n <= MAX_SIGNERS,
    ensures
        t == threshold(n as int),
{
    ((n + 1) / 2) as u32
}

/// Whether `seq` holds `x`.
fn holds(seq: &Vec<Addr>, x: &Addr, end: usize) -> (b: bool)
    requires
        end <= seq@.len(),
    ensures
        b == seq@.take(end as int).contains(*x),
{
    let mut k: usize = 0;
    while k < end
        invariant
            end <= seq@.len(),
            k <= end,
            forall|m: int| 0 <= m < k ==> seq@[m] != *x,
        decreases end - k,
    {
        if seq[k] == *x {
            assert(seq@.take(end as int)[k as int] == *x);
            return true;
        }
        k = k + 1;
    }
    proof {
        if seq@.take(end as int).contains(*x) {
            let m = choose|m: int| 0 <= m < seq@.take(end as int).len() && seq@.take(end as int)[m] == *x;
            assert(seq@[m] == *x);
        }
    }
    false
}

/// Counts the distinct registered signers among `provided`.
fn count_approvals(provided: &Vec<Addr>, registered: &Vec<Addr>) -> (n: usize)
    ensures
        n == approvals(provided@, registered@),
        n <= registered@.len(),
{
    let mut n: usize = 0;
    let mut j: usize = 0;
    proof {
        assert(registered@.take(0) =~= Seq::<Addr>::empty());
    }
    while j < registered.len()
        invariant
            j <= registered@.len(),
            n <= j,
            n == approvals(provided@, registered@.take(j as int)),
        decreases registered@.len() - j,
    {
        let x = registered[j];
        let named = holds(provided, &x, provided.len());
        let repeated = holds(registered, &x, j);
        proof {
            assert(provided@.take(provided@.len() as int) =~= provided@);
            let t = registered@.take(j + 1);
            assert(t.drop_last() =~= registered@.take(j as int));
            assert(t.take(j as int) =~= registered@.take(j as int));
            assert(t[j as int] == x);
            assert(approves_at(provided@, t, j as int) == (named && !repeated));
        }
        if named && !repeated {
            n = n + 1;
        }
        j = j + 1;
    }
    proof {
        assert(registered@.take(registered@.len() as int) =~= registered@);
    }
    n
}

/// Checks the multisig gate (see [`quorum_outcome`]).
fn check_quorum(provided: &Vec<Addr>, registered: &Vec<Addr>) -> (r: Result<(), FactoryError>)
    requires
        registered@.len() <= MAX_SIGNERS,
    ensures
        r == quorum_outcome(provided@, registered@),
{
    let required = majority(registered.len());
    match verify_multisig(provided, required) {
        Ok(()) => {},
        Err(e) => return Err(e),
    }
    let n = count_approvals(provided, registered);
    if n == 0 {
        return Err(FactoryError::Unauthorized);
    }
    if n < required as usize {
        return Err(FactoryError::InsufficientSignatures);
    }
    Ok(())
}

/// Looks up the pair of `a` and `b`.
fn find_pair(records: &Vec<PairRecord>, a: &Addr, b: &Addr) -> (r: Option<Addr>)
    ensures
        r == pair_of(records@, *a, *b),
{
    let mut i: usize = 0;
    proof {
        assert(records@.subrange(0, records@.len() as int) =~= records@);
    }
    while i < records.len()
        invariant
            i <= records@.len(),
            pair_of(records@, *a, *b) == pair_of(records@.subrange(i as int, records@.len() as int), *a, *b),
        decreases records@.len() - i,
    {
        proof {
            let rest = records@.subrange(i as int, records@.len() as int);
            assert(rest.drop_first() =~= records@.subrange(i + 1, records@.len() as int));
        }
        let r = records[i];
        if (r.token_0 == *a && r.token_1 == *b) || (r.token_0 == *b && r.token_1 == *a) {
            return Some(r.pair);
        }
        i = i + 1;
    }
    None
}

/// Looks up the fee override of `pair`.
fn find_override(overrides: &Vec<FeeOverride>, pair: &Addr) -> (r: Option<u32>)
    ensures
        r == override_of(overrides@, *pair),
{
    let mut i: usize = 0;
    proof {
        assert(overrides@.subrange(0, overrides@.len() as int) =~= overrides@);
    }
    while i < overrides.len()
        invariant
            i <= overrides@.len(),
            override_of(overrides@, *pair) == override_of(overrides@.subrange(i as int, overrides@.len() as int), *pair),
        decreases overrides@.len() - i,
    {
        proof {
            let rest = overrides@.subrange(i as int, overrides@.len() as int);
            assert(rest.drop_first() =~= overrides@.subrange(i + 1, overrides@.len() as int));
        }
        if overrides[i].pair == *pair {
            return Some(overrides[i].fee_bps);
        }
        i = i + 1;
    }
    None
}

/// Appending a record changes only the lookup of tokens without a pair.
pub proof fn lemma_pair_of_push(records: Seq<PairRecord>, record: PairRecord, a: Addr, b: Addr)
    ensures
        pair_of(records.push(record), a, b) == (match pair_of(records, a, b) {
            Some(p) => Some(p),
            None => if (record.token_0 == a && record.token_1 == b) || (record.token_0 == b
                && record.token_1 == a) {
                Some(record.pair)
            } else {
                None
            },
        }),
    decreases records.len(),
{
    if records.len() > 0 {
        assert(records.push(record)[0] == records[0]);
        assert(records.push(record).drop_first() =~= records.drop_first().push(record));
        lemma_pair_of_push(records.drop_first(), record, a, b);
    } else {
        assert(records.push(record)[0] == record);
        assert(records.push(record).drop_first() =~= Seq::<PairRecord>::empty());
        assert(pair_of(Seq::<PairRecord>::empty(), a, b) is None);
    }
}

/// Appending an override changes only the lookup of a pair without one.
pub proof fn lemma_override_of_push(overrides: Seq<FeeOverride>, entry: FeeOverride, pair: Addr)
    ensures
        override_of(overrides.push(entry), pair) == (match override_of(overrides, pair) {
            Some(f) => Some(f),
            None => if entry.pair == pair {
                Some(entry.fee_bps)
            } else {
                None
            },
        }),
    decreases overrides.len(),
{
    if overrides.len() > 0 {
        assert(overrides.push(entry)[0] == overrides[0]);
        assert(overrides.push(entry).drop_first() =~= overrides.drop_first().push(entry));
        lemma_override_of_push(overrides.drop_first(), entry, pair);
    } else {
        assert(overrides.push(entry)[0] == entry);
        assert(overrides.push(entry).drop_first() =~= Seq::<FeeOverride>::empty());
        assert(override_of(Seq::<FeeOverride>::empty(), pair) is None);
    }
}

/// Every stored override respects the cap.
pub open spec fn overrides_capped(overrides: Seq<FeeOverride>) -> bool {
    forall|i: int| 0 <= i < overrides.len() ==> (#[trigger] overrides[i]).fee_bps <= MAX_PAIR_FEE_BPS
}

/// Replaces the override of `pair` with `fee_bps`.
fn put_override(overrides: &mut Vec<FeeOverride>, pair: &Addr, fee_bps: u32)
    requires
        overrides_capped(old(overrides)@),
        fee_bps <= MAX_PAIR_FEE_BPS,
    ensures
        overrides_capped(final(overrides)@),
        override_of(final(overrides)@, *pair) == Some(fee_bps),
        forall|other: Addr| other != *pair ==> #[trigger] override_of(final(overrides)@, other) == override_of(old(overrides)@, other),
{
    let ghost initial = overrides@;
    let mut kept: Vec<FeeOverride> = Vec::new();
    let mut i: usize = 0;
    while i < overrides.len()
        invariant
            overrides@ == initial,
            overrides_capped(initial),
            overrides_capped(kept@),
            i <= initial.len(),
            forall|other: Addr| #[trigger] override_of(kept@, other) == if other == *pair {
                None
            } else {
                override_of(initial.take(i as int), other)
            },
        decreases initial.len() - i,
    {
        let entry = overrides[i];
        let ghost before = kept@;
        proof {
            assert(initial.take(i + 1) =~= initial.take(i as int).push(entry));
        }
        if entry.pair != *pair {
            kept.push(entry);
        }
        proof {
            assert forall|other: Addr| #[trigger] override_of(kept@, other) == if other == *pair {
                None
            } else {
                override_of(initial.take(i + 1), other)
            } by {
                lemma_override_of_push(initial.take(i as int), entry, other);
                if entry.pair != *pair {
                    lemma_override_of_push(before, entry, other);
                }
            }
        }
        i = i + 1;
    }
    proof {
        assert(initial.take(initial.len() as int) =~= initial);
    }
    let ghost removed = kept@;
    let entry = FeeOverride { pair: *pair, fee_bps };
    kept.push(entry);
    proof {
        assert forall|other: Addr| #[trigger] override_of(kept@, other) == if other == *pair {
            Some(fee_bps)
        } else {
            override_of(initial, other)
        } by {
            lemma_override_of_push(removed, entry, other);
        }
    }
    *overrides = kept;
}

impl Factory {
    /// Well-formedness: the registry, list and counters agree; every pair
    /// record holds two sorted tokens and no token pair is registered twice;
    /// the configuration respects its bounds; fee overrides respect the cap.
    pub open spec fn well_formed(&self) -> bool {
        &&& self.pairs@.len() == self.pair_list@.len()
        &&& forall|i: int| 0 <= i < self.pairs@.len() ==> (#[trigger] self.pairs@[i]).pair == self.pair_list@[i]
        &&& self.total_pairs == self.pair_list@.len()
        &&& forall|i: int|
            0 <= i < self.pairs@.len() ==> addr_lt(
                (#[trigger] self.pairs@[i]).token_0,
                self.pairs@[i].token_1,
            )
        &&& forall|i: int, j: int|
            0 <= i < j < self.pairs@.len() ==> !((#[trigger] self.pairs@[i]).token_0 == (
            #[trigger] self.pairs@[j]).token_0 && self.pairs@[i].token_1 == self.pairs@[j].token_1)
        &&& overrides_capped(self.fee_overrides@)
        &&& match &self.config {
            Some(c) => {
                &&& c.pair_count == self.pair_list@.len()
                &&& 1 <= c.signers@.len() <= MAX_SIGNERS
                &&& c.fee_bps <= MAX_PROTOCOL_FEE_BPS
                &&& (c.fee_to is None ==> c.fee_bps == 0)
            },
            None => self.pairs@.len() == 0 && self.pending_upgrade is None,
        }
    }

    /// A factory that has not been initialized.
    pub fn new() -> (f: Factory)
        ensures
            f.well_formed(),
            f.config is None,
            f.pair_list@.len() == 0,
            f.fee_overrides@.len() == 0,
            f.events@.len() == 0,
    {
        Factory {
            config: None,
            pairs: Vec::new(),
            pair_list: Vec::new(),
            total_pairs: 0,
            fee_overrides: Vec::new(),
            pending_upgrade: None,
            events: Vec::new(),
        }
    }

    /// Initializes the factory with 1 to 10 multisig signers, the wasm
    /// hashes of the pair and LP-token contracts and the fee setter. The
    /// protocol starts unpaused, at version 1, with no protocol fee.
    pub fn initialize(
        &mut self,
        signers: Vec<Addr>,
        pair_wasm_hash: Digest,
        lp_token_wasm_hash: Digest,
        fee_to_setter: Addr,
    ) -> (r: Result<(), FactoryError>)
        requires
            old(self).well_formed(),
        ensures
            final(self).well_formed(),
            r == (if old(self).config is Some {
                Err::<(), FactoryError>(FactoryError::AlreadyInitialized)
            } else if !(1 <= signers@.len() <= MAX_SIGNERS) {
                Err::<(), FactoryError>(FactoryError::InvalidSignerCount)
            } else {
                Ok::<(), FactoryError>(())
            }),
            r is Err ==> final(self).config == old(self).config,
            r is Ok ==> (final(self).config matches Some(c) && c.signers@ == signers@ && c.pair_wasm_hash
                == pair_wasm_hash && c.lp_token_wasm_hash == lp_token_wasm_hash && c.pair_count == 0
                && c.protocol_version == 1 && !c.paused && c.fee_to is None && c.fee_to_setter
                == fee_to_setter && c.fee_bps == 0),
            final(self).pairs@ == old(self).pairs@,
            final(self).pair_list@ == old(self).pair_list@,
            final(self).fee_overrides@ == old(self).fee_overrides@,
            final(self).pending_upgrade == old(self).pending_upgrade,
            final(self).events@ == old(self).events@,
    {
        if self.config.is_some() {
            return Err(FactoryError::AlreadyInitialized);
        }
        let signer_count = signers.len();
        if !(1 <= signer_count && signer_count <= MAX_SIGNERS) {
            return Err(FactoryError::InvalidSignerCount);
        }
        self.config = Some(
            FactoryStorage {
                signers,
                pair_wasm_hash,
                lp_token_wasm_hash,
                pair_count: 0,
                protocol_version: 1,
                paused: false,
                fee_to: None,
                fee_to_setter,
                fee_bps: 0,
            },
        );
        Ok(())
    }

    /// The pair registered for `token_a` and `token_b`, in either order.
    pub fn get_pair(&self, token_a: Addr, token_b: Addr) -> (r: Option<Addr>)
        ensures
            r == pair_of(self.pairs@, token_a, token_b),
    {
        find_pair(&self.pairs, &token_a, &token_b)
    }

    /// Decides whether the pair of `token_a` and `token_b` may be created,
    /// returning the two tokens in sorted order.
    pub fn check_create_pair(&self, token_a: Addr, token_b: Addr) -> (r: Result<(Addr, Addr), FactoryError>)
        ensures
            r == Err::<(Addr, Addr), FactoryError>(FactoryError::IdenticalTokens) <==> token_a == token_b,
            r == Err::<(Addr, Addr), FactoryError>(FactoryError::PairExists) <==> (token_a != token_b
                && pair_of(self.pairs@, token_a, token_b) is Some),
            r == Err::<(Addr, Addr), FactoryError>(FactoryError::NotInitialized) <==> (token_a
                != token_b && pair_of(self.pairs@, token_a, token_b) is None && self.config is None),
            r == Err::<(Addr, Addr), FactoryError>(FactoryError::ProtocolPaused) <==> (token_a
                != token_b && pair_of(self.pairs@, token_a, token_b) is None && (self.config matches Some(c)
                && c.paused)),
            r is Ok <==> (token_a != token_b && pair_of(self.pairs@, token_a, token_b) is None && (
            self.config matches Some(c) && !c.paused)),
            r matches Ok(p) ==> addr_lt(p.0, p.1) && ((p.0 == token_a && p.1 == token_b) || (p.0
                == token_b && p.1 == token_a)),
    {
        if token_a == token_b {
            return Err(FactoryError::IdenticalTokens);
        }
        proof {
            crate::address::lemma_addr_order(token_a, token_b, token_b);
        }
        let (token_0, token_1) = if token_a.lt(&token_b) {
            (token_a, token_b)
        } else {
            (token_b, token_a)
        };
        if find_pair(&self.pairs, &token_0, &token_1).is_some() {
            proof {
                lemma_pair_of_symmetric(self.pairs@, token_a, token_b);
            }
            return Err(FactoryError::PairExists);
        }
        proof {
            lemma_pair_of_symmetric(self.pairs@, token_a, token_b);
        }
        match &self.config {
            None => Err(FactoryError::NotInitialized),
            Some(c) => {
                if c.paused {
                    Err(FactoryError::ProtocolPaused)
                } else {
                    Ok((token_0, token_1))
                }
            },
        }
    }

    /// Records a newly deployed and initialized pair for the sorted tokens
    /// `token_0 < token_1`, returning its index. The pair counter and the
    /// pair total both advance in lockstep with the pair list.
    pub fn record_pair(&mut self, token_0: Addr, token_1: Addr, pair: Addr) -> (index: u32)
        requires
            old(self).well_formed(),
            old(self).config is Some,
            addr_lt(token_0, token_1),
            pair_of(old(self).pairs@, token_0, token_1) is None,
            old(self).pair_list@.len() < u32::MAX,
        ensures
            final(self).well_formed(),
            index == old(self).pair_list@.len(),
            final(self).pair_list@ == old(self).pair_list@.push(pair),
            final(self).pairs@ == old(self).pairs@.push(PairRecord { token_0, token_1, pair }),
            final(self).total_pairs == final(self).pair_list@.len(),
            final(self).config matches Some(c) && c.pair_count == final(self).pair_list@.len(),
            pair_of(final(self).pairs@, token_0, token_1) == Some(pair),
            pair_of(final(self).pairs@, token_1, token_0) == Some(pair),
            forall|a: Addr, b: Addr|
                !((a == token_0 && b == token_1) || (a == token_1 && b == token_0)) ==> #[trigger] pair_of(
                    final(self).pairs@,
                    a,
                    b,
                ) == pair_of(old(self).pairs@, a, b),
            final(self).fee_overrides@ == old(self).fee_overrides@,
            final(self).pending_upgrade == old(self).pending_upgrade,
            final(self).config matches Some(c) && (old(self).config matches Some(o) && c.paused == o.paused
                && c.fee_bps == o.fee_bps && c.fee_to == o.fee_to && c.fee_to_setter == o.fee_to_setter
                && c.protocol_version == o.protocol_version && c.signers@ == o.signers@),
            final(self).config == Some(with_one_more_pair(old(self).config->Some_0)),
            final(self).events@ == old(self).events@,
    {
        let record = PairRecord { token_0, token_1, pair };
        let ghost old_pairs = self.pairs@;
        let ghost old_list = self.pair_list@;
        proof {
            assert forall|i: int| 0 <= i < old_pairs.len() implies !(#[trigger] old_pairs[i].token_0
                == token_0 && old_pairs[i].token_1 == token_1) by {
                if old_pairs[i].token_0 == token_0 && old_pairs[i].token_1 == token_1 {
                    lemma_pair_of_finds(old_pairs, i, token_0, token_1);
                }
            }
        }
        let index = self.pair_list.len() as u32;
        self.pairs.push(record);
        self.pair_list.push(pair);
        self.total_pairs = self.pair_list.len() as u32;
        let mut config = self.config.take().unwrap();
        config.pair_count = config.pair_count + 1;
        self.config = Some(config);
        proof {
            lemma_pair_of_push(old_pairs, record, token_0, token_1);
            lemma_pair_of_push(old_pairs, record, token_1, token_0);
            lemma_pair_of_symmetric(old_pairs, token_0, token_1);
            assert forall|a: Addr, b: Addr|
                !((a == token_0 && b == token_1) || (a == token_1 && b == token_0)) implies #[trigger] pair_of(
                    self.pairs@,
                    a,
                    b,
                ) == pair_of(old_pairs, a, b) by {
                lemma_pair_of_push(old_pairs, record, a, b);
            }
            assert forall|i: int| 0 <= i < self.pairs@.len() implies (#[trigger] self.pairs@[i]).pair
                == self.pair_list@[i] by {
                if i < old_pairs.len() {
                    assert(self.pairs@[i] == old_pairs[i]);
                    assert(self.pair_list@[i] == old_list[i]);
                }
            }
        }
        index
    }

    /// Creates the pair of `token_a` and `token_b`, given the address at
    /// which the host deployed and initialized it. Returns the pair and its
    /// index.
    pub fn create_pair(&mut self, token_a: Addr, token_b: Addr, deployed_pair: Addr) -> (r: Result<
        (Addr, u32),
        FactoryError,
    >)
        requires
            old(self).well_formed(),
            old(self).pair_list@.len() < u32::MAX,
        ensures
            final(self).well_formed(),
            r == Err::<(Addr, u32), FactoryError>(FactoryError::IdenticalTokens) <==> token_a == token_b,
            r == Err::<(Addr, u32), FactoryError>(FactoryError::PairExists) <==> (token_a != token_b
                && pair_of(old(self).pairs@, token_a, token_b) is Some),
            r == Err::<(Addr, u32), FactoryError>(FactoryError::NotInitialized) <==> (token_a
                != token_b && pair_of(old(self).pairs@, token_a, token_b) is None && old(self).config is None),
            r == Err::<(Addr, u32), FactoryError>(FactoryError::ProtocolPaused) <==> (token_a
                != token_b && pair_of(old(self).pairs@, token_a, token_b) is None && (old(self).config
                matches Some(c) && c.paused)),
            r is Err ==> final(self).pairs@ == old(self).pairs@ && final(self).pair_list@ == old(
                self,
            ).pair_list@ && final(self).total_pairs == old(self).total_pairs,
            r is Ok <==> (token_a != token_b && pair_of(old(self).pairs@, token_a, token_b) is None && (
            old(self).config matches Some(c) && !c.paused)),
            r matches Ok(p) ==> p.0 == deployed_pair && p.1 == old(self).pair_list@.len()
                && final(self).pair_list@ == old(self).pair_list@.push(deployed_pair) && pair_of(
                final(self).pairs@,
                token_a,
                token_b,
            ) == Some(deployed_pair) && pair_of(final(self).pairs@, token_b, token_a) == Some(
                deployed_pair,
            ),
            r is Ok ==> final(self).total_pairs == final(self).pair_list@.len() && (final(self).config
                matches Some(c) && c.pair_count == final(self).pair_list@.len()),
            r is Ok ==> forall|a: Addr, b: Addr|
                !((a == token_a && b == token_b) || (a == token_b && b == token_a)) ==> #[trigger] pair_of(
                    final(self).pairs@,
                    a,
                    b,
                ) == pair_of(old(self).pairs@, a, b),
            r is Ok ==> final(self).config == Some(with_one_more_pair(old(self).config->Some_0)),
            r is Err ==> final(self).config == old(self).config,
            r is Ok <==> create_pair_outcome(old(self), token_a, token_b) is None,
            r matches Err(e) ==> create_pair_outcome(old(self), token_a, token_b) == Some(e),
            r is Err ==> final(self).events@ == old(self).events@,
            r matches Ok(p) ==> final(self).events@ == old(self).events@.push(
                FactoryEvent::PairCreated {
                    token_a: sorted_low(token_a, token_b),
                    token_b: sorted_high(token_a, token_b),
                    pair: p.0,
                    pair_index: p.1,
                },
            ),
            final(self).fee_overrides@ == old(self).fee_overrides@,
            final(self).pending_upgrade == old(self).pending_upgrade,
    {
        let (token_0, token_1) = match self.check_create_pair(token_a, token_b) {
            Ok(p) => p,
            Err(e) => return Err(e),
        };
        proof {
            lemma_pair_of_symmetric(self.pairs@, token_a, token_b);
        }
        let index = self.record_pair(token_0, token_1, deployed_pair);
        self.events.push(FactoryEvents::pair_created(token_0, token_1, deployed_pair, index));
        Ok((deployed_pair, index))
    }

    /// Up to `limit` (at most 50) pairs of the pair list, from `offset`.
    ///
    /// `offset + limit` must fit in a `u32` whenever the limit is allowed.
    pub fn get_all_pairs(&self, offset: u32, limit: u32) -> (r: Result<Vec<Addr>, FactoryError>)
        requires
            limit > MAX_PAGE || offset + limit <= u32::MAX,
        ensures
            r == Err::<Vec<Addr>, FactoryError>(FactoryError::LimitTooHigh) <==> limit > MAX_PAGE,
            r is Ok <==> limit <= MAX_PAGE,
            r matches Ok(v) ==> v@ == (if offset < self.pair_list@.len() {
                self.pair_list@.subrange(
                    offset as int,
                    if offset + limit < self.pair_list@.len() {
                        offset + limit
                    } else {
                        self.pair_list@.len() as int
                    },
                )
            } else {
                Seq::<Addr>::empty()
            }),
    {
        if limit > MAX_PAGE {
            return Err(FactoryError::LimitTooHigh);
        }
        let total = self.pair_list.len();
        let mut result: Vec<Addr> = Vec::new();
        let start = offset as usize;
        let end = if (offset as usize + limit as usize) < total {
            offset as usize + limit as usize
        } else {
            total
        };
        if start < total {
            let mut i = start;
            while i < end
                invariant
                    start <= i <= end,
                    end <= total,
                    total == self.pair_list@.len(),
                    result@ =~= self.pair_list@.subrange(start as int, i as int),
                decreases end - i,
            {
                result.push(self.pair_list[i]);
                i = i + 1;
            }
        }
        Ok(result)
    }

    /// Number of pairs created, as counted in the configuration (0 before
    /// initialization).
    pub fn get_pair_count(&self) -> (n: u32)
        ensures
            n == match &self.config {
                Some(c) => c.pair_count,
                None => 0,
            },
    {
        match &self.config {
            Some(c) => c.pair_count,
            None => 0,
        }
    }

    /// Total number of pairs ever created, kept in lockstep with the pair
    /// list.
    pub fn total_pairs(&self) -> (n: u32)
        ensures
            n == self.total_pairs,
    {
        self.total_pairs
    }

    /// Pauses pair creation. Requires `ceil(n / 2)` distinct registered
    /// signers among those provided (see [`quorum_outcome`]).
    pub fn pause(&mut self, signers: &Vec<Addr>) -> (r: Result<(), FactoryError>)
        requires
            old(self).well_formed(),
        ensures
            final(self).well_formed(),
            r == set_paused_outcome(old(self), signers@),
            r is Ok ==> (final(self).config matches Some(c) && c.paused),
            r is Err ==> final(self).config == old(self).config,
            final(self).pairs@ == old(self).pairs@,
            final(self).pair_list@ == old(self).pair_list@,
            final(self).total_pairs == old(self).total_pairs,
            final(self).fee_overrides@ == old(self).fee_overrides@,
            final(self).pending_upgrade == old(self).pending_upgrade,
            final(self).config matches Some(c) ==> (old(self).config matches Some(o) && c.pair_count
                == o.pair_count && c.fee_bps == o.fee_bps && c.fee_to == o.fee_to && c.signers@
                == o.signers@ && c.fee_to_setter == o.fee_to_setter),
            r is Ok ==> final(self).events@ == old(self).events@.push(FactoryEvent::Paused),
            r is Err ==> final(self).events@ == old(self).events@,
    {
        let r = self.set_paused(signers, true);
        if r.is_ok() {
            self.events.push(FactoryEvents::paused());
        }
        r
    }

    /// Resumes pair creation, with the same authorization as [`Factory::pause`].
    pub fn unpause(&mut self, signers: &Vec<Addr>) -> (r: Result<(), FactoryError>)
        requires
            old(self).well_formed(),
        ensures
            final(self).well_formed(),
            r == set_paused_outcome(old(self), signers@),
            r is Ok ==> (final(self).config matches Some(c) && !c.paused),
            r is Err ==> final(self).config == old(self).config,
            final(self).pairs@ == old(self).pairs@,
            final(self).pair_list@ == old(self).pair_list@,
            final(self).total_pairs == old(self).total_pairs,
            final(self).fee_overrides@ == old(self).fee_overrides@,
            final(self).pending_upgrade == old(self).pending_upgrade,
            final(self).config matches Some(c) ==> (old(self).config matches Some(o) && c.pair_count
                == o.pair_count && c.fee_bps == o.fee_bps && c.fee_to == o.fee_to && c.signers@
                == o.signers@ && c.fee_to_setter == o.fee_to_setter),
            r is Ok ==> final(self).events@ == old(self).events@.push(FactoryEvent::Unpaused),
            r is Err ==> final(self).events@ == old(self).events@,
    {
        let r = self.set_paused(signers, false);
        if r.is_ok() {
            self.events.push(FactoryEvents::unpaused());
        }
        r
    }

    fn set_paused(&mut self, signers: &Vec<Addr>, paused: bool) -> (r: Result<(), FactoryError>)
        requires
            old(self).well_formed(),
        ensures
            final(self).well_formed(),
            r == set_paused_outcome(old(self), signers@),
            r is Ok ==> (final(self).config matches Some(c) && c.paused == paused),
            r is Err ==> final(self).config == old(self).config,
            final(self).pairs@ == old(self).pairs@,
            final(self).pair_list@ == old(self).pair_list@,
            final(self).total_pairs == old(self).total_pairs,
            final(self).fee_overrides@ == old(self).fee_overrides@,
            final(self).pending_upgrade == old(self).pending_upgrade,
            final(self).config matches Some(c) ==> (old(self).config matches Some(o) && c.pair_count
                == o.pair_count && c.fee_bps == o.fee_bps && c.fee_to == o.fee_to && c.signers@
                == o.signers@ && c.fee_to_setter == o.fee_to_setter),
            final(self).events@ == old(self).events@,
    {
        match &self.config {
            None => return Err(FactoryError::NotInitialized),
            Some(c) => match check_quorum(signers, &c.signers) {
                Ok(()) => {},
                Err(e) => return Err(e),
            },
        }
        let mut config = self.config.take().unwrap();
        config.paused = paused;
        self.config = Some(config);
        Ok(())
    }

    /// Whether pair creation is paused (false before initialization).
    pub fn is_paused(&self) -> (b: bool)
        ensures
            b == (self.config matches Some(c) && c.paused),
    {
        match &self.config {
            Some(c) => c.paused,
            None => false,
        }
    }

    /// The protocol-fee recipient, if any.
    pub fn fee_to(&self) -> (r: Option<Addr>)
        ensures
            r == match &self.config {
                Some(c) => c.fee_to,
                None => None,
            },
    {
        match &self.config {
            Some(c) => c.fee_to,
            None => None,
        }
    }

    /// The address allowed to change fees.
    pub fn fee_to_setter(&self) -> (r: Option<Addr>)
        ensures
            r == match &self.config {
                Some(c) => Some(c.fee_to_setter),
                None => None,
            },
    {
        match &self.config {
            Some(c) => Some(c.fee_to_setter),
            None => None,
        }
    }

    /// Sets the protocol-fee recipient and rate; returns the previous rate.
    /// `setter` must be the fee setter and must have authorized the call.
    /// The rate is at most 30 bps, and a positive rate needs a recipient.
    pub fn set_fee_to(&mut self, setter: Addr, fee_to: Option<Addr>, fee_bps: u32) -> (r: Result<
        u32,
        FactoryError,
    >)
        requires
            old(self).well_formed(),
        ensures
            final(self).well_formed(),
            r == (match &old(self).config {
                None => Err::<u32, FactoryError>(FactoryError::NotInitialized),
                Some(c) => if setter != c.fee_to_setter {
                    Err::<u32, FactoryError>(FactoryError::Unauthorized)
                } else if fee_bps > MAX_PROTOCOL_FEE_BPS {
                    Err::<u32, FactoryError>(FactoryError::FeeTooHigh)
                } else if fee_to is None && fee_bps > 0 {
                    Err::<u32, FactoryError>(FactoryError::InvalidFeeRecipient)
                } else {
                    Ok::<u32, FactoryError>(c.fee_bps)
                },
            }),
            r is Ok ==> (final(self).config matches Some(c) && c.fee_to == fee_to && c.fee_bps == fee_bps),
            r is Err ==> final(self).config == old(self).config,
            final(self).config matches Some(c) ==> (old(self).config matches Some(o) && c.pair_count
                == o.pair_count && c.paused == o.paused && c.fee_to_setter == o.fee_to_setter
                && c.signers@ == o.signers@),
            final(self).pairs@ == old(self).pairs@,
            final(self).pair_list@ == old(self).pair_list@,
            final(self).total_pairs == old(self).total_pairs,
            final(self).fee_overrides@ == old(self).fee_overrides@,
            final(self).pending_upgrade == old(self).pending_upgrade,
            r matches Ok(old_fee_bps) ==> final(self).events@ == old(self).events@.push(
                FactoryEvent::FeeToSet { fee_to },
            ).push(FactoryEvent::ProtocolFeeUpdated { old_fee_bps, new_fee_bps: fee_bps, fee_to }),
            r is Err ==> final(self).events@ == old(self).events@,
    {
        let old_fee_bps = match &self.config {
            None => return Err(FactoryError::NotInitialized),
            Some(c) => {
                if setter != c.fee_to_setter {
                    return Err(FactoryError::Unauthorized);
                }
                c.fee_bps
            },
        };
        if fee_bps > MAX_PROTOCOL_FEE_BPS {
            return Err(FactoryError::FeeTooHigh);
        }
        if fee_to.is_none() && fee_bps > 0 {
            return Err(FactoryError::InvalidFeeRecipient);
        }
        let mut config = self.config.take().unwrap();
        config.fee_to = fee_to;
        config.fee_bps = fee_bps;
        self.config = Some(config);
        self.events.push(FactoryEvents::fee_to_set(fee_to));
        self.events.push(FactoryEvents::protocol_fee_updated(old_fee_bps, fee_bps, fee_to));
        Ok(old_fee_bps)
    }

    /// Hands the fee-setter role to `new_setter`. `setter` must be the
    /// current fee setter and must have authorized the call.
    pub fn set_fee_to_setter(&mut self, setter: Addr, new_setter: Addr) -> (r: Result<(), FactoryError>)
        requires
            old(self).well_formed(),
        ensures
            final(self).well_formed(),
            r == (match &old(self).config {
                None => Err::<(), FactoryError>(FactoryError::NotInitialized),
                Some(c) => if setter != c.fee_to_setter {
                    Err::<(), FactoryError>(FactoryError::Unauthorized)
                } else {
                    Ok::<(), FactoryError>(())
                },
            }),
            r is Ok ==> (final(self).config matches Some(c) && c.fee_to_setter == new_setter),
            r is Err ==> final(self).config == old(self).config,
            final(self).config matches Some(c) ==> (old(self).config matches Some(o) && c.pair_count
                == o.pair_count && c.paused == o.paused && c.fee_to == o.fee_to && c.fee_bps == o.fee_bps
                && c.signers@ == o.signers@),
            final(self).pairs@ == old(self).pairs@,
            final(self).pair_list@ == old(self).pair_list@,
            final(self).total_pairs == old(self).total_pairs,
            final(self).fee_overrides@ == old(self).fee_overrides@,
            final(self).pending_upgrade == old(self).pending_upgrade,
            r is Ok ==> final(self).events@ == old(self).events@.push(FactoryEvent::FeeToSetterSet { new_setter }),
            r is Err ==> final(self).events@ == old(self).events@,
    {
        match &self.config {
            None => return Err(FactoryError::NotInitialized),
            Some(c) => {
                if setter != c.fee_to_setter {
                    return Err(FactoryError::Unauthorized);
                }
            },
        }
        let mut config = self.config.take().unwrap();
        config.fee_to_setter = new_setter;
        self.config = Some(config);
        self.events.push(FactoryEvents::fee_to_setter_set(new_setter));
        Ok(())
    }

    /// Sets the fee override of `pair` (at most 100 bps; 0 clears it in
    /// effect) and returns the previous override, or 0. `setter` must be the
    /// fee setter and must have authorized the call; `ledger` is the current
    /// ledger sequence, which the emitted event records.
    pub fn set_pair_fee(&mut self, setter: Addr, pair: Addr, fee_bps: u32, ledger: u32) -> (r: Result<
        u32,
        FactoryError,
    >)
        requires
            old(self).well_formed(),
        ensures
            final(self).well_formed(),
            r == (match &old(self).config {
                None => Err::<u32, FactoryError>(FactoryError::NotInitialized),
                Some(c) => if setter != c.fee_to_setter {
                    Err::<u32, FactoryError>(FactoryError::Unauthorized)
                } else if fee_bps > MAX_PAIR_FEE_BPS {
                    Err::<u32, FactoryError>(FactoryError::FeeTooHigh)
                } else {
                    Ok::<u32, FactoryError>(
                        match override_of(old(self).fee_overrides@, pair) {
                            Some(f) => f,
                            None => 0,
                        },
                    )
                },
            }),
            r is Ok ==> override_of(final(self).fee_overrides@, pair) == Some(fee_bps),
            r is Err ==> final(self).fee_overrides@ == old(self).fee_overrides@,
            forall|other: Addr|
                other != pair ==> #[trigger] override_of(final(self).fee_overrides@, other) == override_of(
                    old(self).fee_overrides@,
                    other,
                ),
            final(self).config == old(self).config,
            final(self).pairs@ == old(self).pairs@,
            final(self).pair_list@ == old(self).pair_list@,
            final(self).total_pairs == old(self).total_pairs,
            final(self).pending_upgrade == old(self).pending_upgrade,
            r matches Ok(old_fee_bps) ==> final(self).events@ == old(self).events@.push(
                FactoryEvent::PairFeeOverrideSet { pair, old_fee_bps, new_fee_bps: fee_bps, ledger },
            ),
            r is Err ==> final(self).events@ == old(self).events@,
    {
        match &self.config {
            None => return Err(FactoryError::NotInitialized),
            Some(c) => {
                if setter != c.fee_to_setter {
                    return Err(FactoryError::Unauthorized);
                }
            },
        }
        if fee_bps > MAX_PAIR_FEE_BPS {
            return Err(FactoryError::FeeTooHigh);
        }
        let old_fee_bps = match find_override(&self.fee_overrides, &pair) {
            Some(f) => f,
            None => 0,
        };
        put_override(&mut self.fee_overrides, &pair, fee_bps);
        self.events.push(FactoryEvents::pair_fee_override_set(pair, old_fee_bps, fee_bps, ledger));
        Ok(old_fee_bps)
    }

    /// The fee override of `pair`, if one was set.
    pub fn get_pair_fee_override(&self, pair: Addr) -> (r: Option<u32>)
        requires
            self.well_formed(),
        ensures
            r == override_of(self.fee_overrides@, pair),
            r matches Some(f) ==> f <= MAX_PAIR_FEE_BPS,
    {
        proof {
            lemma_override_capped(self.fee_overrides@, pair);
        }
        find_override(&self.fee_overrides, &pair)
    }

    /// Proposes an upgrade to `new_wasm_hash` at ledger `ledger`. Requires
    /// `ceil(n / 2)` distinct registered signers; only one proposal may be
    /// pending.
    pub fn propose_upgrade(&mut self, signers: &Vec<Addr>, new_wasm_hash: Digest, ledger: u32) -> (r:
        Result<(), FactoryError>)
        requires
            old(self).well_formed(),
        ensures
            final(self).well_formed(),
            r == (match &old(self).config {
                None => Err::<(), FactoryError>(FactoryError::NotInitialized),
                Some(c) => if quorum_outcome(signers@, c.signers@) is Err {
                    quorum_outcome(signers@, c.signers@)
                } else if old(self).pending_upgrade is Some {
                    Err::<(), FactoryError>(FactoryError::UpgradeAlreadyPending)
                } else {
                    Ok::<(), FactoryError>(())
                },
            }),
            r is Ok ==> final(self).pending_upgrade == Some(
                PendingUpgrade { new_wasm_hash, proposed_ledger: ledger },
            ),
            r is Err ==> final(self).pending_upgrade == old(self).pending_upgrade,
            final(self).config == old(self).config,
            final(self).pairs@ == old(self).pairs@,
            final(self).pair_list@ == old(self).pair_list@,
            final(self).total_pairs == old(self).total_pairs,
            final(self).fee_overrides@ == old(self).fee_overrides@,
            r is Ok ==> final(self).events@ == old(self).events@.push(FactoryEvent::UpgradeProposed { new_wasm_hash }),
            r is Err ==> final(self).events@ == old(self).events@,
    {
        match &self.config {
            None => return Err(FactoryError::NotInitialized),
            Some(c) => match check_quorum(signers, &c.signers) {
                Ok(()) => {},
                Err(e) => return Err(e),
            },
        }
        if self.pending_upgrade.is_some() {
            return Err(FactoryError::UpgradeAlreadyPending);
        }
        self.pending_upgrade = Some(PendingUpgrade { new_wasm_hash, proposed_ledger: ledger });
        self.events.push(FactoryEvents::upgrade_proposed(new_wasm_hash));
        Ok(())
    }

    /// Executes the pending upgrade once 51 840 ledgers have passed since
    /// its proposal: clears it, advances the protocol version and returns
    /// the wasm hash to install.
    pub fn execute_upgrade(&mut self, ledger: u32) -> (r: Result<Digest, FactoryError>)
        requires
            old(self).well_formed(),
            old(self).config matches Some(c) ==> c.protocol_version < u32::MAX,
        ensures
            final(self).well_formed(),
            r == (match old(self).pending_upgrade {
                None => Err::<Digest, FactoryError>(FactoryError::NoPendingUpgrade),
                Some(p) => if ledger < p.proposed_ledger + UPGRADE_TIMELOCK_LEDGERS {
                    Err::<Digest, FactoryError>(FactoryError::UpgradeTimelockNotExpired)
                } else {
                    Ok::<Digest, FactoryError>(p.new_wasm_hash)
                },
            }),
            r is Ok ==> (final(self).pending_upgrade is None && (final(self).config matches Some(c)
                && (old(self).config matches Some(o) && c.protocol_version == o.protocol_version + 1))),
            r is Err ==> final(self).pending_upgrade == old(self).pending_upgrade && final(self).config
                == old(self).config,
            final(self).config matches Some(c) ==> (old(self).config matches Some(o) && c.pair_count
                == o.pair_count && c.paused == o.paused && c.fee_to == o.fee_to && c.fee_bps == o.fee_bps
                && c.signers@ == o.signers@ && c.fee_to_setter == o.fee_to_setter),
            final(self).pairs@ == old(self).pairs@,
            final(self).pair_list@ == old(self).pair_list@,
            final(self).total_pairs == old(self).total_pairs,
            final(self).fee_overrides@ == old(self).fee_overrides@,
            r is Ok ==> final(self).events@ == old(self).events@.push(
                FactoryEvent::UpgradeExecuted { new_version: final(self).config->Some_0.protocol_version },
            ),
            r is Err ==> final(self).events@ == old(self).events@,
    {
        let pending = match self.pending_upgrade {
            None => return Err(FactoryError::NoPendingUpgrade),
            Some(p) => p,
        };
        if (ledger as u64) < (pending.proposed_ledger as u64) + (UPGRADE_TIMELOCK_LEDGERS as u64) {
            return Err(FactoryError::UpgradeTimelockNotExpired);
        }
        self.pending_upgrade = None;
        let mut config = self.config.take().unwrap();
        config.protocol_version = config.protocol_version + 1;
        let new_version = config.protocol_version;
        self.config = Some(config);
        self.events.push(FactoryEvents::upgrade_executed(new_version));
        Ok(pending.new_wasm_hash)
    }

    /// Cancels the pending upgrade. Requires `ceil(n / 2)` distinct
    /// registered signers.
    pub fn cancel_upgrade(&mut self, signers: &Vec<Addr>) -> (r: Result<(), FactoryError>)
        requires
            old(self).well_formed(),
        ensures
            final(self).well_formed(),
            r == (match &old(self).config {
                None => Err::<(), FactoryError>(FactoryError::NotInitialized),
                Some(c) => if quorum_outcome(signers@, c.signers@) is Err {
                    quorum_outcome(signers@, c.signers@)
                } else if old(self).pending_upgrade is None {
                    Err::<(), FactoryError>(FactoryError::NoPendingUpgrade)
                } else {
                    Ok::<(), FactoryError>(())
                },
            }),
            r is Ok ==> final(self).pending_upgrade is None,
            r is Err ==> final(self).pending_upgrade == old(self).pending_upgrade,
            final(self).events@ == old(self).events@,
            final(self).config == old(self).config,
            final(self).pairs@ == old(self).pairs@,
            final(self).pair_list@ == old(self).pair_list@,
            final(self).total_pairs == old(self).total_pairs,
            final(self).fee_overrides@ == old(self).fee_overrides@,
    {
        match &self.config {
            None => return Err(FactoryError::NotInitialized),
            Some(c) => match check_quorum(signers, &c.signers) {
                Ok(()) => {},
                Err(e) => return Err(e),
            },
        }
        if self.pending_upgrade.is_none() {
            return Err(FactoryError::NoPendingUpgrade);
        }
        self.pending_upgrade = None;
        Ok(())
    }
}

/// Outcome of pausing or unpausing: uninitialized, or the multisig gate
/// over the registered signers.
pub open spec fn set_paused_outcome(f: &Factory, signers: Seq<Addr>) -> Result<(), FactoryError> {
    match &f.config {
        None => Err(FactoryError::NotInitialized),
        Some(c) => quorum_outcome(signers, c.signers@),
    }
}

/// Why creating the pair of `token_a` and `token_b` is refused, checked in
/// this order; `None` when it may be created.
pub open spec fn create_pair_outcome(f: &Factory, token_a: Addr, token_b: Addr) -> Option<FactoryError> {
    if token_a == token_b {
        Some(FactoryError::IdenticalTokens)
    } else if pair_of(f.pairs@, token_a, token_b) is Some {
        Some(FactoryError::PairExists)
    } else {
        match &f.config {
            None => Some(FactoryError::NotInitialized),
            Some(c) => if c.paused {
                Some(FactoryError::ProtocolPaused)
            } else {
                None
            },
        }
    }
}

/// Pausing isolates pair creation: while the factory is paused every new
/// pair is refused with `ProtocolPaused`, and once it is unpaused, with the
/// same pairs registered, the same request is accepted.
pub proof fn lemma_pause_isolates_creation(paused: &Factory, resumed: &Factory, token_a: Addr, token_b: Addr)
    requires
        paused.config matches Some(c) && c.paused,
        resumed.config matches Some(c) && !c.paused,
        resumed.pairs@ == paused.pairs@,
        token_a != token_b,
        pair_of(paused.pairs@, token_a, token_b) is None,
    ensures
        create_pair_outcome(paused, token_a, token_b) == Some(FactoryError::ProtocolPaused),
        create_pair_outcome(resumed, token_a, token_b) is None,
{
}

/// The pair counter in the configuration, the stored pair total and the
/// length of the pair list move in lockstep: in every well-formed
/// initialized factory they are equal.
pub proof fn lemma_pair_counters_agree(f: &Factory)
    requires
        f.well_formed(),
        f.config is Some,
    ensures
        f.config->Some_0.pair_count == f.total_pairs,
        f.total_pairs == f.pair_list@.len(),
        f.pairs@.len() == f.pair_list@.len(),
{
}

/// Lookups return only capped overrides.
pub proof fn lemma_override_capped(overrides: Seq<FeeOverride>, pair: Addr)
    requires
        overrides_capped(overrides),
    ensures
        override_of(overrides, pair) matches Some(f) ==> f <= MAX_PAIR_FEE_BPS,
    decreases overrides.len(),
{
    if overrides.len() > 0 {
        assert(overrides_capped(overrides.drop_first())) by {
            assert forall|i: int| 0 <= i < overrides.drop_first().len() implies (
            #[trigger] overrides.drop_first()[i]).fee_bps <= MAX_PAIR_FEE_BPS by {
                assert(overrides.drop_first()[i] == overrides[i + 1]);
            }
        }
        lemma_override_capped(overrides.drop_first(), pair);
    }
}

/// The registry answers the same for either token order.
pub proof fn lemma_pair_of_symmetric(records: Seq<PairRecord>, a: Addr, b: Addr)
    ensures
        pair_of(records, a, b) == pair_of(records, b, a),
    decreases records.len(),
{
    if records.len() > 0 {
        lemma_pair_of_symmetric(records.drop_first(), a, b);
    }
}

/// A record for the tokens means the lookup finds a pair.
pub proof fn lemma_pair_of_finds(records: Seq<PairRecord>, i: int, a: Addr, b: Addr)
    requires
        0 <= i < records.len(),
        records[i].token_0 == a && records[i].token_1 == b,
    ensures
        pair_of(records, a, b) is Some,
    decreases records.len(),
{
    if i > 0 && !((records[0].token_0 == a && records[0].token_1 == b) || (records[0].token_0 == b
        && records[0].token_1 == a)) {
        assert(records.drop_first()[i - 1] == records[i]);
        lemma_pair_of_finds(records.drop_first(), i - 1, a, b);
    }
}

} // verus!
