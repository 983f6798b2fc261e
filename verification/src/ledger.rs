//! Minimal token ledgers the pair is exercised against: balances held as a
//! list of `(address, balance)` entries, at most one per address.
use vstd::prelude::*;

use crate::address::Addr;

verus! {

/// The balance of `id`: that of its first entry, or 0 without one.
pub open spec fn bal_of(bals: Seq<(Addr, i128)>, id: Addr) -> i128
    decreases bals.len(),
{
    if bals.len() == 0 {
        0
    } else if bals[0].0 == id {
        bals[0].1
    } else {
        bal_of(bals.drop_first(), id)
    }
}

/// Appending an entry changes only the balance of an address without one.
pub proof fn lemma_bal_of_push(bals: Seq<(Addr, i128)>, entry: (Addr, i128), id: Addr)
    ensures
        bal_of(bals.push(entry), id) == if has_entry(bals, id) {
            bal_of(bals, id)
        } else if entry.0 == id {
            entry.1
        } else {
            0
        },
    decreases bals.len(),
{
    let pushed = bals.push(entry);
    if bals.len() > 0 {
        assert(pushed[0] == bals[0]);
        assert(pushed.drop_first() =~= bals.drop_first().push(entry));
        lemma_bal_of_push(bals.drop_first(), entry, id);
        if bals[0].0 == id {
            assert(has_entry(bals, id)) by {
                assert(bals[0].0 == id);
            }
            assert(bal_of(pushed, id) == bals[0].1);
            assert(bal_of(bals, id) == bals[0].1);
        } else {
            lemma_has_entry_rest(bals, id);
            assert(bal_of(pushed, id) == bal_of(pushed.drop_first(), id));
            assert(bal_of(bals, id) == bal_of(bals.drop_first(), id));
        }
    } else {
        assert(pushed[0] == entry);
        assert(pushed.drop_first() =~= Seq::<(Addr, i128)>::empty());
        assert(bal_of(Seq::<(Addr, i128)>::empty(), id) == 0);
        assert(!has_entry(bals, id));
    }
}

/// Past a first entry for another address, the entries hold `id` exactly
/// when the rest does.
proof fn lemma_has_entry_rest(bals: Seq<(Addr, i128)>, id: Addr)
    requires
        bals.len() > 0,
        bals[0].0 != id,
    ensures
        has_entry(bals, id) == has_entry(bals.drop_first(), id),
{
    if has_entry(bals, id) {
        let k = choose|k: int| 0 <= k < bals.len() && #[trigger] bals[k].0 == id;
        assert(bals.drop_first()[k - 1] == bals[k]);
        assert(bals.drop_first()[k - 1].0 == id);
    }
    if has_entry(bals.drop_first(), id) {
        let k = choose|k: int| 0 <= k < bals.drop_first().len() && #[trigger] bals.drop_first()[k].0 == id;
        assert(bals[k + 1] == bals.drop_first()[k]);
        assert(bals[k + 1].0 == id);
    }
}

/// Whether `id` has an entry.
pub open spec fn has_entry(bals: Seq<(Addr, i128)>, id: Addr) -> bool {
    exists|k: int| 0 <= k < bals.len() && #[trigger] bals[k].0 == id
}

/// Overwriting entry `i` changes only the balance of the address it holds,
/// when no earlier entry holds that address.
pub proof fn lemma_bal_of_update(bals: Seq<(Addr, i128)>, i: int, amount: i128, id: Addr)
    requires
        0 <= i < bals.len(),
        forall|k: int| 0 <= k < i ==> #[trigger] bals[k].0 != bals[i].0,
    ensures
        bal_of(bals.update(i, (bals[i].0, amount)), id) == if id == bals[i].0 {
            amount
        } else {
            bal_of(bals, id)
        },
    decreases bals.len(),
{
    let u = bals.update(i, (bals[i].0, amount));
    if i > 0 {
        assert(u[0] == bals[0]);
        assert(u.drop_first() =~= bals.drop_first().update(i - 1, (bals[i].0, amount)));
        assert forall|k: int| 0 <= k < i - 1 implies #[trigger] bals.drop_first()[k].0 != bals.drop_first()[i
            - 1].0 by {
            assert(bals.drop_first()[k] == bals[k + 1]);
        }
        lemma_bal_of_update(bals.drop_first(), i - 1, amount, id);
        assert(bals.drop_first()[i - 1] == bals[i]);
        assert(bals[0].0 != bals[i].0);
    } else {
        assert(u.drop_first() =~= bals.drop_first());
    }
}

/// The balance of `id`.
fn get_bal(bals: &Vec<(Addr, i128)>, id: &Addr) -> (r: i128)
    ensures
        r == bal_of(bals@, *id),
{
    let mut i: usize = 0;
    proof {
        assert(bals@.subrange(0, bals@.len() as int) =~= bals@);
    }
    while i < bals.len()
        invariant
            i <= bals@.len(),
            bal_of(bals@, *id) == bal_of(bals@.subrange(i as int, bals@.len() as int), *id),
        decreases bals@.len() - i,
    {
        proof {
            let rest = bals@.subrange(i as int, bals@.len() as int);
            assert(rest.drop_first() =~= bals@.subrange(i + 1, bals@.len() as int));
        }
        let (addr, amt) = bals[i];
        if addr == *id {
            return amt;
        }
        i = i + 1;
    }
    0
}

/// Sets the balance of `id` to `amount`: overwrites its entry, or appends
/// one.
fn set_bal(bals: &mut Vec<(Addr, i128)>, id: &Addr, amount: i128)
    ensures
        bal_of(final(bals)@, *id) == amount,
        forall|other: Addr| other != *id ==> #[trigger] bal_of(final(bals)@, other) == bal_of(old(bals)@, other),
{
    let ghost initial = bals@;
    let mut i: usize = 0;
    while i < bals.len()
        invariant
            bals@ == initial,
            initial == old(bals)@,
            i <= initial.len(),
            forall|k: int| 0 <= k < i ==> #[trigger] initial[k].0 != *id,
        decreases initial.len() - i,
    {
        let (addr, _) = bals[i];
        if addr == *id {
            bals.set(i, (*id, amount));
            proof {
                assert forall|other: Addr| #[trigger] bal_of(bals@, other) == if other == *id {
                    amount
                } else {
                    bal_of(initial, other)
                } by {
                    lemma_bal_of_update(initial, i as int, amount, other);
                }
            }
            return;
        }
        i = i + 1;
    }
    bals.push((*id, amount));
    proof {
        assert(!has_entry(initial, *id));
        assert forall|other: Addr| #[trigger] bal_of(bals@, other) == if other == *id {
            amount
        } else {
            bal_of(initial, other)
        } by {
            lemma_bal_of_push(initial, (*id, amount), other);
            if other != *id && !has_entry(initial, other) {
                lemma_bal_of_absent(initial, other);
            }
        }
    }
}

/// An address without an entry has balance 0.
pub proof fn lemma_bal_of_absent(bals: Seq<(Addr, i128)>, id: Addr)
    requires
        !has_entry(bals, id),
    ensures
        bal_of(bals, id) == 0,
    decreases bals.len(),
{
    if bals.len() > 0 {
        assert(bals[0].0 != id);
        assert(!has_entry(bals.drop_first(), id)) by {
            if has_entry(bals.drop_first(), id) {
                let k = choose|k: int| 0 <= k < bals.drop_first().len() && #[trigger] bals.drop_first()[k].0 == id;
                assert(bals[k + 1] == bals.drop_first()[k]);
            }
        }
        lemma_bal_of_absent(bals.drop_first(), id);
    }
}

/// A SEP-41 token stub whose balances live in one list. Transfers debit
/// the sender, then credit the recipient, each against the balance as it
/// stands; the allowance and burn entry points do nothing.
pub struct MockToken {
    pub balances: Vec<(Addr, i128)>,
}

impl MockToken {
    /// A token with no balances.
    pub fn new() -> (t: MockToken)
        ensures
            t.balances@.len() == 0,
    {
        MockToken { balances: Vec::new() }
    }

    /// Credits `amount` to `to`.
    pub fn mint(&mut self, to: Addr, amount: i128)
        requires
            i128::MIN <= bal_of(old(self).balances@, to) + amount <= i128::MAX,
        ensures
            bal_of(final(self).balances@, to) == bal_of(old(self).balances@, to) + amount,
            forall|other: Addr| other != to ==> #[trigger] bal_of(final(self).balances@, other) == bal_of(
                old(self).balances@,
                other,
            ),
    {
        let b = get_bal(&self.balances, &to);
        set_bal(&mut self.balances, &to, b + amount);
    }

    /// The balance of `id`.
    pub fn balance(&self, id: Addr) -> (r: i128)
        ensures
            r == bal_of(self.balances@, id),
    {
        get_bal(&self.balances, &id)
    }

    /// Moves `amount` from `from` to `to`; `from` must have authorized it.
    pub fn transfer(&mut self, from: Addr, to: Addr, amount: i128)
        requires
            i128::MIN <= bal_of(old(self).balances@, from) - amount <= i128::MAX,
            from != to ==> i128::MIN <= bal_of(old(self).balances@, to) + amount <= i128::MAX,
        ensures
            from != to ==> bal_of(final(self).balances@, from) == bal_of(old(self).balances@, from) - amount,
            from != to ==> bal_of(final(self).balances@, to) == bal_of(old(self).balances@, to) + amount,
            from == to ==> bal_of(final(self).balances@, from) == bal_of(old(self).balances@, from),
            forall|other: Addr|
                other != from && other != to ==> #[trigger] bal_of(final(self).balances@, other) == bal_of(
                    old(self).balances@,
                    other,
                ),
    {
        let fb = get_bal(&self.balances, &from);
        set_bal(&mut self.balances, &from, fb - amount);
        let tb = get_bal(&self.balances, &to);
        set_bal(&mut self.balances, &to, tb + amount);
    }

    /// Approvals are not recorded.
    pub fn approve(&mut self, from: Addr, spender: Addr, amount: i128, expiration_ledger: u32)
        ensures
            final(self).balances@ == old(self).balances@,
    {
    }

    /// No allowance is ever granted.
    pub fn allowance(&self, from: Addr, spender: Addr) -> (r: i128)
        ensures
            r == 0,
    {
        0
    }

    /// Delegated transfers move nothing.
    pub fn transfer_from(&mut self, spender: Addr, from: Addr, to: Addr, amount: i128)
        ensures
            final(self).balances@ == old(self).balances@,
    {
    }

    /// Burns move nothing.
    pub fn burn(&mut self, from: Addr, amount: i128)
        ensures
            final(self).balances@ == old(self).balances@,
    {
    }

    /// Delegated burns move nothing.
    pub fn burn_from(&mut self, spender: Addr, from: Addr, amount: i128)
        ensures
            final(self).balances@ == old(self).balances@,
    {
    }

    /// Seven decimals.
    pub fn decimals(&self) -> (r: u32)
        ensures
            r == 7,
    {
        7
    }

    /// The token's name.
    pub fn name(&self) -> (r: &'static str)
        ensures
            r@ == "Mock"@,
    {
        "Mock"
    }

    /// The token's symbol.
    pub fn symbol(&self) -> (r: &'static str)
        ensures
            r@ == "MCK"@,
    {
        "MCK"
    }
}

/// A token stub whose transfers read both balances first, then write the
/// debited sender and the credited recipient.
pub struct BurnMockToken {
    pub balances: Vec<(Addr, i128)>,
}

/// The same stub, used by the single-sided mint tests.
pub type MintOneMockToken = BurnMockToken;

impl BurnMockToken {
    /// A token with no balances.
    pub fn new() -> (t: BurnMockToken)
        ensures
            t.balances@.len() == 0,
    {
        BurnMockToken { balances: Vec::new() }
    }

    /// Credits `amount` to `to`.
    pub fn mint(&mut self, to: Addr, amount: i128)
        requires
            i128::MIN <= bal_of(old(self).balances@, to) + amount <= i128::MAX,
        ensures
            bal_of(final(self).balances@, to) == bal_of(old(self).balances@, to) + amount,
            forall|other: Addr| other != to ==> #[trigger] bal_of(final(self).balances@, other) == bal_of(
                old(self).balances@,
                other,
            ),
    {
        let b = get_bal(&self.balances, &to);
        set_bal(&mut self.balances, &to, b + amount);
    }

    /// The balance of `id`.
    pub fn balance(&self, id: Addr) -> (r: i128)
        ensures
            r == bal_of(self.balances@, id),
    {
        get_bal(&self.balances, &id)
    }

    /// Moves `amount` from `from` to `to`; `from` must have authorized it.
    /// Both balances are read before either is written, so a transfer to
    /// oneself credits `amount`.
    pub fn transfer(&mut self, from: Addr, to: Addr, amount: i128)
        requires
            i128::MIN <= bal_of(old(self).balances@, from) - amount <= i128::MAX,
            i128::MIN <= bal_of(old(self).balances@, to) + amount <= i128::MAX,
        ensures
            from != to ==> bal_of(final(self).balances@, from) == bal_of(old(self).balances@, from) - amount,
            bal_of(final(self).balances@, to) == bal_of(old(self).balances@, to) + amount,
            forall|other: Addr|
                other != from && other != to ==> #[trigger] bal_of(final(self).balances@, other) == bal_of(
                    old(self).balances@,
                    other,
                ),
    {
        let fb = get_bal(&self.balances, &from);
        let tb = get_bal(&self.balances, &to);
        set_bal(&mut self.balances, &from, fb - amount);
        set_bal(&mut self.balances, &to, tb + amount);
    }
}

} // verus!
