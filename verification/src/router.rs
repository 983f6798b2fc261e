//! The router: multi-hop path discovery, swap and liquidity planning, and
//! commit-reveal protection against front-running.
//!
//! The router's decisions are functions of what it has read (its own
//! storage, pool snapshots from the factory and pairs, the ledger); the
//! transfers and pair calls it then makes are returned as a list of
//! [`Action`]s for the contract host to perform in order.
use vstd::prelude::*;

use crate::address::{Addr, Digest};
use crate::errors::RouterError;
use crate::hashing::{compute_swap_hash, swap_hash};
use crate::address::addr_lt;
use crate::router_helpers::{compute_optimal_amounts, get_amount_in, optimal_amounts, router_amount_in, sort_tokens};
use crate::routing::{
    chain_result, find_pool, get_path_amounts_out, oriented, path_result, pool_for, quote_path,
    PoolQuote,
};

verus! {

/// Router state: the factory it routes through, the hub tokens used for
/// multi-hop discovery, pending swap commitments and consumed nonces.
pub struct Router {
    pub factory: Option<Addr>,
    pub hubs: Vec<Addr>,
    pub commits: Vec<CommitRecord>,
    pub used_nonces: Vec<NonceRecord>,
    pub commit_count: Option<u32>,
    pub commit_config: Option<RouterCommitConfig>,
}

/// A pending swap commitment: the hash of the swap parameters and the
/// ledger sequence at which it was made.
#[derive(Clone, Copy, Debug, PartialEq, Eq, Structural)]
pub struct CommitEntry {
    pub hash: Digest,
    pub ledger: u32,
}

/// The pending commitment of one sender.
#[derive(Clone, Copy, Debug, PartialEq, Eq, Structural)]
pub struct CommitRecord {
    pub sender: Addr,
    pub entry: CommitEntry,
}

/// A nonce a sender has consumed.
#[derive(Clone, Copy, Debug, PartialEq, Eq, Structural)]
pub struct NonceRecord {
    pub sender: Addr,
    pub nonce: u64,
}

/// Admin-configurable commit-reveal bounds.
#[derive(Clone, Copy, Debug, PartialEq, Eq, Structural)]
pub struct RouterCommitConfig {
    pub max_commits: u32,
    pub expiry_ledgers: u32,
}

/// Default cap on simultaneously live commits.
pub const DEFAULT_MAX_COMMITS: u32 = 32;

/// Default commit expiry in ledgers (about 1.4 hours at 5 s per ledger).
pub const DEFAULT_COMMIT_EXPIRY_LEDGERS: u32 = 1_000;

/// Hard cap for an admin-configured `max_commits`.
pub const MAX_COMMITS_HARD_CAP: u32 = 1_000;

/// Hard cap for an admin-configured commit expiry (about 30 days).
pub const COMMIT_EXPIRY_HARD_CAP: u32 = 518_400;

/// The commit-reveal bounds used until an admin configures others.
pub fn default_commit_config() -> (c: RouterCommitConfig)
    ensures
        c.max_commits == DEFAULT_MAX_COMMITS,
        c.expiry_ledgers == DEFAULT_COMMIT_EXPIRY_LEDGERS,
{
    RouterCommitConfig { max_commits: DEFAULT_MAX_COMMITS, expiry_ledgers: DEFAULT_COMMIT_EXPIRY_LEDGERS }
}

/// Storage keys of the router's instance storage.
#[derive(Clone, Copy, Debug, PartialEq, Eq, Structural)]
pub enum DataKey {
    Factory,
    Hubs,
    Commit(Addr),
    NonceUsed(Addr, u64),
    CommitCount,
    CommitConfig,
}

// ---------------------------------------------------------------------------
// Best-path search
// ---------------------------------------------------------------------------

/// Keeps `best` unless `candidate` is allowed, prices, and beats it.
pub open spec fn consider(
    pools: Seq<PoolQuote>,
    amount: int,
    best: (Seq<Addr>, int),
    candidate: Seq<Addr>,
    allowed: bool,
) -> (Seq<Addr>, int) {
    if allowed && path_result(pools, candidate, amount) is Ok && path_result(pools, candidate, amount)->Ok_0
        > best.1 {
        (candidate, path_result(pools, candidate, amount)->Ok_0)
    } else {
        best
    }
}

/// The two-hop route through `hub`.
pub open spec fn two_hop(token_in: Addr, token_out: Addr, hub: Addr) -> Seq<Addr> {
    seq![token_in, hub, token_out]
}

/// The three-hop route through `hub_i` then `hub_j`.
pub open spec fn three_hop(token_in: Addr, token_out: Addr, hub_i: Addr, hub_j: Addr) -> Seq<Addr> {
    seq![token_in, hub_i, hub_j, token_out]
}

/// Whether a hub may be an intermediate token of a route.
pub open spec fn usable_hub(token_in: Addr, token_out: Addr, hub: Addr) -> bool {
    hub != token_in && hub != token_out
}

/// Best route after the two-hop routes through the first `k` hubs.
pub open spec fn after_two_hop(
    pools: Seq<PoolQuote>,
    amount: int,
    token_in: Addr,
    token_out: Addr,
    hubs: Seq<Addr>,
    k: nat,
    start: (Seq<Addr>, int),
) -> (Seq<Addr>, int)
    decreases k,
{
    if k == 0 {
        start
    } else {
        consider(
            pools,
            amount,
            after_two_hop(pools, amount, token_in, token_out, hubs, (k - 1) as nat, start),
            two_hop(token_in, token_out, hubs[k - 1]),
            usable_hub(token_in, token_out, hubs[k - 1]),
        )
    }
}

/// Best route after the three-hop routes starting with hub `i` and
/// continuing with the first `k` hubs.
pub open spec fn after_three_hop_row(
    pools: Seq<PoolQuote>,
    amount: int,
    token_in: Addr,
    token_out: Addr,
    hubs: Seq<Addr>,
    i: int,
    k: nat,
    start: (Seq<Addr>, int),
) -> (Seq<Addr>, int)
    decreases k,
{
    if k == 0 {
        start
    } else {
        consider(
            pools,
            amount,
            after_three_hop_row(pools, amount, token_in, token_out, hubs, i, (k - 1) as nat, start),
            three_hop(token_in, token_out, hubs[i], hubs[k - 1]),
            i != k - 1 && usable_hub(token_in, token_out, hubs[i]) && usable_hub(
                token_in,
                token_out,
                hubs[k - 1],
            ),
        )
    }
}

/// Best route after all three-hop routes starting with the first `k` hubs.
pub open spec fn after_three_hop(
    pools: Seq<PoolQuote>,
    amount: int,
    token_in: Addr,
    token_out: Addr,
    hubs: Seq<Addr>,
    k: nat,
    start: (Seq<Addr>, int),
) -> (Seq<Addr>, int)
    decreases k,
{
    if k == 0 {
        start
    } else {
        after_three_hop_row(
            pools,
            amount,
            token_in,
            token_out,
            hubs,
            k - 1,
            hubs.len(),
            after_three_hop(pools, amount, token_in, token_out, hubs, (k - 1) as nat, start),
        )
    }
}

/// The route the router picks: the direct route, then every two-hop route
/// in hub order, then every three-hop route in hub-pair order, each
/// replacing the current choice only when its output is strictly higher.
/// An output of -1 means no route prices.
pub open spec fn best_route(
    pools: Seq<PoolQuote>,
    token_in: Addr,
    token_out: Addr,
    hubs: Seq<Addr>,
    amount: int,
) -> (Seq<Addr>, int) {
    let direct = consider(pools, amount, (Seq::empty(), -1), seq![token_in, token_out], true);
    let two = after_two_hop(pools, amount, token_in, token_out, hubs, hubs.len(), direct);
    after_three_hop(pools, amount, token_in, token_out, hubs, hubs.len(), two)
}

/// Considers one candidate route.
fn consider_route(
    pools: &Vec<PoolQuote>,
    amount_in: i128,
    best_path: &mut Vec<Addr>,
    best_out: &mut i128,
    candidate: Vec<Addr>,
)
    requires
        candidate@.len() >= 2,
    ensures
        (final(best_path)@, *final(best_out) as int) == consider(
            pools@,
            amount_in as int,
            (old(best_path)@, *old(best_out) as int),
            candidate@,
            true,
        ),
{
    match quote_path(pools, &candidate, amount_in) {
        Some(out) => {
            if out > *best_out {
                *best_path = candidate;
                *best_out = out;
            }
        },
        None => {},
    }
}

impl Router {
    /// Finds the best route for swapping `amount_in` of `token_in` into
    /// `token_out` among the direct route, the two-hop routes through each
    /// hub and the three-hop routes through each ordered pair of distinct
    /// hubs, selecting the highest expected output.
    pub fn get_best_path(&self, pools: &Vec<PoolQuote>, token_in: Addr, token_out: Addr, amount_in: i128) -> (r:
        Result<(Vec<Addr>, i128), RouterError>)
        ensures
            r == Err::<(Vec<Addr>, i128), RouterError>(RouterError::IdenticalTokens) <==> token_in
                == token_out,
            r == Err::<(Vec<Addr>, i128), RouterError>(RouterError::ZeroAmount) <==> (token_in
                != token_out && amount_in <= 0),
            r == Err::<(Vec<Addr>, i128), RouterError>(RouterError::PairNotFound) <==> (token_in
                != token_out && amount_in > 0 && (self.factory is None || best_route(
                pools@,
                token_in,
                token_out,
                self.hubs@,
                amount_in as int,
            ).1 < 0)),
            r matches Err(e) ==> (e == RouterError::IdenticalTokens || e == RouterError::ZeroAmount || e
                == RouterError::PairNotFound),
            r matches Ok(p) ==> self.factory is Some && (p.0@, p.1 as int) == best_route(
                pools@,
                token_in,
                token_out,
                self.hubs@,
                amount_in as int,
            ) && p.1 >= 0,
    {
        if token_in == token_out {
            return Err(RouterError::IdenticalTokens);
        }
        if amount_in <= 0 {
            return Err(RouterError::ZeroAmount);
        }
        if self.factory.is_none() {
            return Err(RouterError::PairNotFound);
        }
        let hubs = &self.hubs;
        let ghost pl = pools@;
        let ghost amount = amount_in as int;

        let mut best_path: Vec<Addr> = Vec::new();
        let mut best_out: i128 = -1;
        proof {
            assert(best_path@ =~= Seq::<Addr>::empty());
        }

        // Direct route.
        let mut direct: Vec<Addr> = Vec::new();
        direct.push(token_in);
        direct.push(token_out);
        proof {
            assert(direct@ =~= seq![token_in, token_out]);
        }
        consider_route(pools, amount_in, &mut best_path, &mut best_out, direct);
        let ghost after_direct = (best_path@, best_out as int);

        // Two-hop routes.
        let mut i: usize = 0;
        while i < hubs.len()
            invariant
                i <= hubs@.len(),
                pl == pools@,
                amount == amount_in as int,
                after_direct == consider(pl, amount, (Seq::empty(), -1), seq![token_in, token_out], true),
                (best_path@, best_out as int) == after_two_hop(
                    pl,
                    amount,
                    token_in,
                    token_out,
                    hubs@,
                    i as nat,
                    after_direct,
                ),
            decreases hubs@.len() - i,
        {
            let hub = hubs[i];
            if hub != token_in && hub != token_out {
                let mut path: Vec<Addr> = Vec::new();
                path.push(token_in);
                path.push(hub);
                path.push(token_out);
                proof {
                    assert(path@ =~= two_hop(token_in, token_out, hub));
                }
                consider_route(pools, amount_in, &mut best_path, &mut best_out, path);
            }
            i = i + 1;
        }
        let ghost after_two = (best_path@, best_out as int);

        // Three-hop routes.
        let mut i: usize = 0;
        while i < hubs.len()
            invariant
                i <= hubs@.len(),
                pl == pools@,
                amount == amount_in as int,
                after_direct == consider(pl, amount, (Seq::empty(), -1), seq![token_in, token_out], true),
                after_two == after_two_hop(
                    pl,
                    amount,
                    token_in,
                    token_out,
                    hubs@,
                    hubs@.len(),
                    after_direct,
                ),
                (best_path@, best_out as int) == after_three_hop(
                    pl,
                    amount,
                    token_in,
                    token_out,
                    hubs@,
                    i as nat,
                    after_two,
                ),
            decreases hubs@.len() - i,
        {
            let ghost row_start = (best_path@, best_out as int);
            let mut j: usize = 0;
            while j < hubs.len()
                invariant
                    i < hubs@.len(),
                    j <= hubs@.len(),
                    pl == pools@,
                    amount == amount_in as int,
                    (best_path@, best_out as int) == after_three_hop_row(
                        pl,
                        amount,
                        token_in,
                        token_out,
                        hubs@,
                        i as int,
                        j as nat,
                        row_start,
                    ),
                decreases hubs@.len() - j,
            {
                if i != j {
                    let hub_i = hubs[i];
                    let hub_j = hubs[j];
                    if !(hub_i == token_in || hub_i == token_out || hub_j == token_in || hub_j
                        == token_out) {
                        let mut path: Vec<Addr> = Vec::new();
                        path.push(token_in);
                        path.push(hub_i);
                        path.push(hub_j);
                        path.push(token_out);
                        proof {
                            assert(path@ =~= three_hop(token_in, token_out, hub_i, hub_j));
                        }
                        consider_route(pools, amount_in, &mut best_path, &mut best_out, path);
                    }
                }
                j = j + 1;
            }
            i = i + 1;
        }

        if best_out < 0 {
            return Err(RouterError::PairNotFound);
        }
        Ok((best_path, best_out))
    }
}


// ---------------------------------------------------------------------------
// Swap and liquidity plans
// ---------------------------------------------------------------------------

/// One step the router asks the contract host to perform.
#[derive(Clone, Copy, Debug, PartialEq, Eq, Structural)]
pub enum Action {
    /// Require `address` to have authorized the invocation.
    RequireAuth { address: Addr },
    /// Transfer `amount` of `token` from `from` to `to`.
    Transfer { token: Addr, from: Addr, to: Addr, amount: i128 },
    /// Transfer `amount` of `pair`'s LP token from `from` to the pair.
    TransferLiquidity { pair: Addr, from: Addr, amount: i128 },
    /// Call `pair.swap(amount_a_out, amount_b_out, to)`.
    Swap { pair: Addr, amount_a_out: i128, amount_b_out: i128, to: Addr },
    /// Call `pair.mint(to)`.
    Mint { pair: Addr, to: Addr },
    /// Call `pair.burn(to)`.
    Burn { pair: Addr, to: Addr },
}

/// The pair address used for hop `i` of `path`.
pub open spec fn hop_pair(pools: Seq<PoolQuote>, path: Seq<Addr>, i: int) -> Addr {
    pool_for(pools, path[i], path[i + 1])->Some_0.pair
}

/// The pair call that sends `out` of `token_to` to `dest`, selling `token_from`.
pub open spec fn swap_action(token_from: Addr, token_to: Addr, pair: Addr, out: i128, dest: Addr) -> Action {
    if addr_lt(token_from, token_to) {
        Action::Swap { pair, amount_a_out: 0, amount_b_out: out, to: dest }
    } else {
        Action::Swap { pair, amount_a_out: out, amount_b_out: 0, to: dest }
    }
}

/// Recipient of hop `i` of `hops`: the user for the last hop, the router
/// otherwise.
pub open spec fn hop_dest(i: int, hops: int, to: Addr, router: Addr) -> Addr {
    if i + 1 == hops {
        to
    } else {
        router
    }
}

/// The steps of a swap along `path` in which hop `i` yields `outs[i]`:
/// authorize `to`, move `amount_in` of the first token from `to` into the
/// first pair, then for each hop swap into the next pair's input (through
/// the router) or, on the last hop, into `to`.
pub open spec fn swap_plan(
    pools: Seq<PoolQuote>,
    path: Seq<Addr>,
    outs: Seq<i128>,
    amount_in: i128,
    to: Addr,
    router: Addr,
    actions: Seq<Action>,
) -> bool {
    let hops = path.len() - 1;
    &&& actions.len() == 2 * hops + 1
    &&& actions[0] == (Action::RequireAuth { address: to })
    &&& actions[1] == (Action::Transfer {
        token: path[0],
        from: to,
        to: hop_pair(pools, path, 0),
        amount: amount_in,
    })
    &&& forall|i: int|
        0 <= i < hops ==> #[trigger] actions[2 + 2 * i] == swap_action(
            path[i],
            path[i + 1],
            hop_pair(pools, path, i),
            outs[i],
            hop_dest(i, hops, to, router),
        )
    &&& forall|i: int|
        0 <= i < hops - 1 ==> #[trigger] actions[3 + 2 * i] == (Action::Transfer {
            token: path[i + 1],
            from: router,
            to: hop_pair(pools, path, i + 1),
            amount: outs[i],
        })
}

/// What a planned step pays out of token `t` from a pair holding tokens
/// `x` and `y`: a pair keeps its two tokens in sorted order and its
/// `amount_a_out` is of the lower one; a step that is no pair swap pays
/// nothing.
pub open spec fn paid_out(action: Action, x: Addr, y: Addr, t: Addr) -> int {
    match action {
        Action::Swap { amount_a_out, amount_b_out, .. } => if t == (if addr_lt(x, y) {
            x
        } else {
            y
        }) {
            amount_a_out as int
        } else {
            amount_b_out as int
        },
        _ => 0,
    }
}

/// In a swap plan, hop `i` is a swap on that hop's pair that pays out its
/// planned output of the hop's own output token `path[i + 1]` and nothing of
/// its input token `path[i]`, to the router or, on the last hop, to the
/// recipient.
pub proof fn lemma_plan_pays_out_next_token(
    pools: Seq<PoolQuote>,
    path: Seq<Addr>,
    outs: Seq<i128>,
    amount_in: i128,
    to: Addr,
    router: Addr,
    actions: Seq<Action>,
)
    requires
        swap_plan(pools, path, outs, amount_in, to, router, actions),
        forall|i: int| 0 <= i < path.len() - 1 ==> #[trigger] path[i] != path[i + 1],
    ensures
        forall|i: int|
            0 <= i < path.len() - 1 ==> {
                &&& #[trigger] actions[2 + 2 * i] is Swap
                &&& actions[2 + 2 * i]->Swap_pair == hop_pair(pools, path, i)
                &&& actions[2 + 2 * i]->Swap_to == (if i + 1 == path.len() - 1 {
                    to
                } else {
                    router
                })
                &&& paid_out(actions[2 + 2 * i], path[i], path[i + 1], path[i + 1]) == outs[i]
                &&& paid_out(actions[2 + 2 * i], path[i], path[i + 1], path[i]) == 0
            },
{
    assert forall|i: int| 0 <= i < path.len() - 1 implies {
        &&& #[trigger] actions[2 + 2 * i] is Swap
        &&& actions[2 + 2 * i]->Swap_pair == hop_pair(pools, path, i)
        &&& actions[2 + 2 * i]->Swap_to == (if i + 1 == path.len() - 1 {
            to
        } else {
            router
        })
        &&& paid_out(actions[2 + 2 * i], path[i], path[i + 1], path[i + 1]) == outs[i]
        &&& paid_out(actions[2 + 2 * i], path[i], path[i + 1], path[i]) == 0
    } by {
        assert(path[i] != path[i + 1]);
        crate::address::lemma_addr_order(path[i], path[i + 1], path[i + 1]);
    }
}

/// The output of each hop of `path` when swapping `amount_in`.
pub open spec fn hop_outs(pools: Seq<PoolQuote>, path: Seq<Addr>, amount_in: int) -> Seq<i128> {
    Seq::new((path.len() - 1) as nat, |i: int| chain_result(pools, path, amount_in, (i + 1) as nat)->Ok_0 as i128)
}

/// A chain that starts from a positive amount fails only for a missing
/// pool, an empty reserve or an unpriceable output.
pub proof fn lemma_chain_errors(pools: Seq<PoolQuote>, path: Seq<Addr>, amount: int, k: nat)
    requires
        amount > 0,
    ensures
        chain_result(pools, path, amount, k) matches Ok(v) ==> v > 0,
        chain_result(pools, path, amount, k) matches Err(e) ==> (e == RouterError::PairNotFound || e
            == RouterError::InsufficientLiquidity || e == RouterError::InsufficientOutputAmount),
    decreases k,
{
    if k > 0 {
        lemma_chain_errors(pools, path, amount, (k - 1) as nat);
    }
}

/// Whether every hop of `path` has a pool.
pub open spec fn hops_have_pools(pools: Seq<PoolQuote>, path: Seq<Addr>) -> bool {
    forall|i: int| 0 <= i < path.len() - 1 ==> (#[trigger] pool_for(pools, path[i], path[i + 1])) is Some
}

/// A priced chain has a pool for every hop it went through.
pub proof fn lemma_chain_ok_has_pools(pools: Seq<PoolQuote>, path: Seq<Addr>, amount: int, k: nat)
    requires
        k < path.len(),
        chain_result(pools, path, amount, k) is Ok,
    ensures
        forall|i: int| 0 <= i < k ==> (#[trigger] pool_for(pools, path[i], path[i + 1])) is Some,
    decreases k,
{
    if k > 0 {
        lemma_chain_ok_has_pools(pools, path, amount, (k - 1) as nat);
    }
}

/// Builds the swap steps for `path` with per-hop outputs `outs`.
fn build_swap_plan(
    pools: &Vec<PoolQuote>,
    path: &Vec<Addr>,
    outs: &Vec<i128>,
    amount_in: i128,
    to: Addr,
    router: Addr,
) -> (actions: Vec<Action>)
    requires
        2 <= path@.len() <= 4,
        outs@.len() == path@.len() - 1,
        hops_have_pools(pools@, path@),
    ensures
        swap_plan(pools@, path@, outs@, amount_in, to, router, actions@),
{
    let hops = path.len() - 1;
    let mut actions: Vec<Action> = Vec::new();
    actions.push(Action::RequireAuth { address: to });
    assert(pool_for(pools@, path@[0], path@[1]) is Some);
    let first = find_pool(pools, &path[0], &path[1]).unwrap();
    actions.push(Action::Transfer { token: path[0], from: to, to: first.pair, amount: amount_in });
    let mut i: usize = 0;
    while i < hops
        invariant
            hops == path@.len() - 1,
            2 <= path@.len() <= 4,
            outs@.len() == hops,
            i <= hops,
            hops_have_pools(pools@, path@),
            actions@.len() == if i < hops {
                2 + 2 * i
            } else {
                2 * hops + 1
            },
            actions@[0] == (Action::RequireAuth { address: to }),
            actions@[1] == (Action::Transfer {
                token: path@[0],
                from: to,
                to: hop_pair(pools@, path@, 0),
                amount: amount_in,
            }),
            forall|k: int|
                0 <= k < i ==> #[trigger] actions@[2 + 2 * k] == swap_action(
                    path@[k],
                    path@[k + 1],
                    hop_pair(pools@, path@, k),
                    outs@[k],
                    hop_dest(k, hops as int, to, router),
                ),
            forall|k: int|
                0 <= k < i && k < hops - 1 ==> #[trigger] actions@[3 + 2 * k] == (Action::Transfer {
                    token: path@[k + 1],
                    from: router,
                    to: hop_pair(pools@, path@, k + 1),
                    amount: outs@[k],
                }),
        decreases hops - i,
    {
        let token_from = path[i];
        let token_to = path[i + 1];
        assert(pool_for(pools@, path@[i as int], path@[i + 1]) is Some);
        let pair = find_pool(pools, &token_from, &token_to).unwrap().pair;
        let amount_out_hop = outs[i];
        let dest = if i + 1 == hops {
            to
        } else {
            router
        };
        proof {
            crate::address::lemma_addr_order(token_from, token_to, token_to);
        }
        let ghost before = actions@;
        if token_from.lt(&token_to) {
            actions.push(Action::Swap { pair, amount_a_out: 0, amount_b_out: amount_out_hop, to: dest });
        } else {
            actions.push(Action::Swap { pair, amount_a_out: amount_out_hop, amount_b_out: 0, to: dest });
        }
        if i + 1 < hops {
            assert(pool_for(pools@, path@[i + 1], path@[i + 1 + 1]) is Some);
            let next = find_pool(pools, &token_to, &path[i + 2]).unwrap();
            actions.push(Action::Transfer { token: token_to, from: router, to: next.pair, amount: amount_out_hop });
        }
        proof {
            assert forall|k: int| 0 <= k < i + 1 implies #[trigger] actions@[2 + 2 * k] == swap_action(
                path@[k],
                path@[k + 1],
                hop_pair(pools@, path@, k),
                outs@[k],
                hop_dest(k, hops as int, to, router),
            ) by {
                if k < i {
                    assert(actions@[2 + 2 * k] == before[2 + 2 * k]);
                }
            }
            assert forall|k: int| 0 <= k < i + 1 && k < hops - 1 implies #[trigger] actions@[3 + 2 * k]
                == (Action::Transfer {
                token: path@[k + 1],
                from: router,
                to: hop_pair(pools@, path@, k + 1),
                amount: outs@[k],
            }) by {
                if k < i {
                    assert(actions@[3 + 2 * k] == before[3 + 2 * k]);
                }
            }
        }
        i = i + 1;
    }
    actions
}

/// The error an exact-input swap answers, checked in this order: an
/// expired deadline, a non-positive amount, a path of other than 1 to 3
/// hops, no factory, a hop that does not price, an output below the
/// minimum. `None` when the swap goes ahead.
pub open spec fn exact_in_error(
    factory: Option<Addr>,
    pools: Seq<PoolQuote>,
    path: Seq<Addr>,
    amount_in: int,
    amount_out_min: int,
    deadline: u64,
    now: u64,
) -> Option<RouterError> {
    if deadline < now {
        Some(RouterError::Expired)
    } else if amount_in <= 0 {
        Some(RouterError::ZeroAmount)
    } else if !(2 <= path.len() <= 4) {
        Some(RouterError::InvalidPath)
    } else if factory is None {
        Some(RouterError::PairNotFound)
    } else {
        match path_result(pools, path, amount_in) {
            Err(e) => Some(e),
            Ok(out) => if out < amount_out_min {
                Some(RouterError::InsufficientOutputAmount)
            } else {
                None
            },
        }
    }
}

impl Router {
    /// Plans a swap of exactly `amount_in` along `path` (1 to 3 hops) for
    /// at least `amount_out_min` of the last token, delivered to `to`.
    /// Returns the final output and the steps to perform.
    ///
    /// `now` is the ledger timestamp and `router` the router's own address.
    pub fn swap_exact_tokens_multi_hop(
        &self,
        pools: &Vec<PoolQuote>,
        path: &Vec<Addr>,
        amount_in: i128,
        amount_out_min: i128,
        to: Addr,
        deadline: u64,
        now: u64,
        router: Addr,
    ) -> (r: Result<(i128, Vec<Action>), RouterError>)
        ensures
            r == Err::<(i128, Vec<Action>), RouterError>(RouterError::Expired) <==> deadline < now,
            r == Err::<(i128, Vec<Action>), RouterError>(RouterError::ZeroAmount) <==> (deadline
                >= now && amount_in <= 0),
            r == Err::<(i128, Vec<Action>), RouterError>(RouterError::InvalidPath) <==> (deadline
                >= now && amount_in > 0 && !(2 <= path@.len() <= 4)),
            r is Ok <==> (deadline >= now && amount_in > 0 && 2 <= path@.len() <= 4
                && self.factory is Some && path_result(pools@, path@, amount_in as int) is Ok
                && path_result(pools@, path@, amount_in as int)->Ok_0 >= amount_out_min),
            (deadline >= now && amount_in > 0 && 2 <= path@.len() <= 4 && self.factory is Some
                && path_result(pools@, path@, amount_in as int) is Ok
                && path_result(pools@, path@, amount_in as int)->Ok_0 < amount_out_min) ==> r
                == Err::<(i128, Vec<Action>), RouterError>(RouterError::InsufficientOutputAmount),
            (deadline >= now && amount_in > 0 && 2 <= path@.len() <= 4 && self.factory is None) ==> r
                == Err::<(i128, Vec<Action>), RouterError>(RouterError::PairNotFound),
            (deadline >= now && amount_in > 0 && 2 <= path@.len() <= 4 && self.factory is Some)
                ==> (path_result(pools@, path@, amount_in as int) matches Err(e) ==> r == Err::<
                (i128, Vec<Action>),
                RouterError,
            >(e)),
            r matches Err(e) ==> exact_in_error(self.factory, pools@, path@, amount_in as int, amount_out_min as int, deadline, now) == Some(e),
            r is Ok <==> exact_in_error(self.factory, pools@, path@, amount_in as int, amount_out_min as int, deadline, now) is None,
            r matches Ok(p) ==> p.0 as int == path_result(pools@, path@, amount_in as int)->Ok_0,
            r matches Ok(p) ==> swap_plan(pools@, path@, hop_outs(pools@, path@, amount_in as int), amount_in, to, router, p.1@),
    {
        if deadline < now {
            return Err(RouterError::Expired);
        }
        if amount_in <= 0 {
            return Err(RouterError::ZeroAmount);
        }
        if path.len() < 2 || path.len() > 4 {
            return Err(RouterError::InvalidPath);
        }
        let hops = path.len() - 1;
        if self.factory.is_none() {
            return Err(RouterError::PairNotFound);
        }
        proof {
            lemma_chain_errors(pools@, path@, amount_in as int, hops as nat);
        }
        let amounts = match get_path_amounts_out(pools, path, amount_in) {
            Ok(a) => a,
            Err(e) => return Err(e),
        };
        let final_out = amounts[amounts.len() - 1];
        assert(chain_result(pools@, path@, amount_in as int, ((hops - 1) + 1) as nat)
            == Ok::<int, RouterError>(amounts@[hops - 1] as int));
        if final_out < amount_out_min {
            return Err(RouterError::InsufficientOutputAmount);
        }
        proof {
            lemma_chain_ok_has_pools(pools@, path@, amount_in as int, hops as nat);
        }
        let actions = build_swap_plan(pools, path, &amounts, amount_in, to, router);
        assert(final_out as int == path_result(pools@, path@, amount_in as int)->Ok_0);
        let res = (final_out, actions);
        assert(amounts@ =~= hop_outs(pools@, path@, amount_in as int));
        Ok(res)
    }

    /// The same swap as [`Router::swap_exact_tokens_multi_hop`], returning
    /// the output amount in a one-element list.
    pub fn swap_exact_tokens_for_tokens(
        &self,
        pools: &Vec<PoolQuote>,
        amount_in: i128,
        amount_out_min: i128,
        path: &Vec<Addr>,
        to: Addr,
        deadline: u64,
        now: u64,
        router: Addr,
    ) -> (r: Result<(Vec<i128>, Vec<Action>), RouterError>)
        ensures
            r matches Err(e) ==> exact_in_error(self.factory, pools@, path@, amount_in as int, amount_out_min as int, deadline, now) == Some(e),
            r is Ok <==> exact_in_error(self.factory, pools@, path@, amount_in as int, amount_out_min as int, deadline, now) is None,
            r matches Ok(p) ==> p.0@ == seq![path_result(pools@, path@, amount_in as int)->Ok_0 as i128],
            r matches Ok(p) ==> swap_plan(pools@, path@, hop_outs(pools@, path@, amount_in as int), amount_in, to, router, p.1@),
    {
        let (final_out, actions) = match self.swap_exact_tokens_multi_hop(
            pools,
            path,
            amount_in,
            amount_out_min,
            to,
            deadline,
            now,
            router,
        ) {
            Ok(p) => p,
            Err(e) => return Err(e),
        };
        let mut amounts: Vec<i128> = Vec::new();
        amounts.push(final_out);
        Ok((amounts, actions))
    }
}


// ---------------------------------------------------------------------------
// Exact-output swaps
// ---------------------------------------------------------------------------

/// Input needed at hop `a -> b` to receive `amount_out`.
pub open spec fn hop_in_result(pools: Seq<PoolQuote>, a: Addr, b: Addr, amount_out: int) -> Result<int, RouterError> {
    match pool_for(pools, a, b) {
        None => Err(RouterError::PairNotFound),
        Some(q) => router_amount_in(amount_out, oriented(q, a).0, oriented(q, a).1, q.fee_bps as int),
    }
}

/// Amount that must enter hop `i` of `path` for `amount_out` to leave the
/// last hop, computed backwards from the end.
pub open spec fn need_result(pools: Seq<PoolQuote>, path: Seq<Addr>, amount_out: int, i: int) -> Result<int, RouterError>
    decreases path.len() - 1 - i,
{
    if i >= path.len() - 1 || i < 0 {
        Ok(amount_out)
    } else {
        match need_result(pools, path, amount_out, i + 1) {
            Ok(m) => hop_in_result(pools, path[i], path[i + 1], m),
            Err(e) => Err(e),
        }
    }
}

/// What each hop must yield for an exact-output swap: the input needed by
/// the next hop, and `amount_out` for the last one.
pub open spec fn needed_outs(pools: Seq<PoolQuote>, path: Seq<Addr>, amount_out: int) -> Seq<i128> {
    Seq::new((path.len() - 1) as nat, |i: int| need_result(pools, path, amount_out, i + 1)->Ok_0 as i128)
}

/// A backward chain that succeeds from hop `i` has a pool for every later
/// hop, and its errors are those of a missing pool or a hop that cannot
/// deliver.
pub proof fn lemma_need_ok_has_pools(pools: Seq<PoolQuote>, path: Seq<Addr>, amount_out: int, i: int)
    requires
        0 <= i <= path.len() - 1,
        need_result(pools, path, amount_out, i) is Ok,
    ensures
        forall|k: int| i <= k < path.len() - 1 ==> (#[trigger] pool_for(pools, path[k], path[k + 1])) is Some,
    decreases path.len() - 1 - i,
{
    if i < path.len() - 1 {
        lemma_need_ok_has_pools(pools, path, amount_out, i + 1);
    }
}

/// A backward chain from a positive amount yields positive amounts and fails
/// only for a missing pool, an empty reserve or an unpriceable input.
pub proof fn lemma_need_errors(pools: Seq<PoolQuote>, path: Seq<Addr>, amount_out: int, i: int)
    requires
        amount_out > 0,
        crate::math::fits_i128(amount_out),
        0 <= i,
    ensures
        need_result(pools, path, amount_out, i) matches Ok(v) ==> v > 0 && crate::math::fits_i128(v),
        need_result(pools, path, amount_out, i) matches Err(e) ==> (e == RouterError::PairNotFound || e
            == RouterError::InsufficientLiquidity || e == RouterError::InternalError),
    decreases path.len() - 1 - i,
{
    if i < path.len() - 1 {
        lemma_need_errors(pools, path, amount_out, i + 1);
        if need_result(pools, path, amount_out, i + 1) is Ok {
            let m = need_result(pools, path, amount_out, i + 1)->Ok_0;
            if pool_for(pools, path[i], path[i + 1]) is Some {
                let q = pool_for(pools, path[i], path[i + 1])->Some_0;
                crate::router_helpers::lemma_amount_in_positive(
                    m,
                    oriented(q, path[i]).0,
                    oriented(q, path[i]).1,
                    q.fee_bps as int,
                );
            }
        }
    }
}

/// Input needed at one hop (see [`hop_in_result`]).
fn hop_in(pools: &Vec<PoolQuote>, a: &Addr, b: &Addr, amount_out: i128) -> (r: Result<i128, RouterError>)
    ensures
        r matches Ok(v) ==> hop_in_result(pools@, *a, *b, amount_out as int) == Ok::<int, RouterError>(v as int),
        r matches Err(e) ==> hop_in_result(pools@, *a, *b, amount_out as int) == Err::<int, RouterError>(e),
{
    let q = match find_pool(pools, a, b) {
        Some(q) => q,
        None => return Err(RouterError::PairNotFound),
    };
    let (reserve_in, reserve_out) = if q.token_0 == *a {
        (q.reserve_0, q.reserve_1)
    } else {
        (q.reserve_1, q.reserve_0)
    };
    get_amount_in(amount_out, reserve_in, reserve_out, q.fee_bps)
}

impl Router {
    /// Plans a swap that delivers exactly `amount_out` of the last token of
    /// `path` (1 to 3 hops) to `to`, spending at most `amount_in_max`.
    /// Returns the input required, in a one-element list, and the steps to
    /// perform.
    pub fn swap_tokens_for_exact_tokens(
        &self,
        pools: &Vec<PoolQuote>,
        amount_out: i128,
        amount_in_max: i128,
        path: &Vec<Addr>,
        to: Addr,
        deadline: u64,
        now: u64,
        router: Addr,
    ) -> (r: Result<(Vec<i128>, Vec<Action>), RouterError>)
        ensures
            r == Err::<(Vec<i128>, Vec<Action>), RouterError>(RouterError::Expired) <==> deadline < now,
            r == Err::<(Vec<i128>, Vec<Action>), RouterError>(RouterError::ZeroAmount) <==> (deadline
                >= now && amount_out <= 0),
            r == Err::<(Vec<i128>, Vec<Action>), RouterError>(RouterError::InvalidPath) <==> (
            deadline >= now && amount_out > 0 && !(2 <= path@.len() <= 4)),
            r is Ok <==> (deadline >= now && amount_out > 0 && 2 <= path@.len() <= 4
                && self.factory is Some && need_result(pools@, path@, amount_out as int, 0) is Ok
                && need_result(pools@, path@, amount_out as int, 0)->Ok_0 <= amount_in_max),
            (deadline >= now && amount_out > 0 && 2 <= path@.len() <= 4 && self.factory is Some
                && need_result(pools@, path@, amount_out as int, 0) is Ok && need_result(
                pools@,
                path@,
                amount_out as int,
                0,
            )->Ok_0 > amount_in_max) ==> r == Err::<(Vec<i128>, Vec<Action>), RouterError>(
                RouterError::ExcessiveInputAmount,
            ),
            (deadline >= now && amount_out > 0 && 2 <= path@.len() <= 4 && self.factory is None) ==> r
                == Err::<(Vec<i128>, Vec<Action>), RouterError>(RouterError::PairNotFound),
            (deadline >= now && amount_out > 0 && 2 <= path@.len() <= 4 && self.factory is Some)
                ==> (need_result(pools@, path@, amount_out as int, 0) matches Err(e) ==> r == Err::<
                (Vec<i128>, Vec<Action>),
                RouterError,
            >(e)),
            r matches Ok(p) ==> p.0@ == seq![need_result(pools@, path@, amount_out as int, 0)->Ok_0 as i128]
                && swap_plan(
                pools@,
                path@,
                needed_outs(pools@, path@, amount_out as int),
                need_result(pools@, path@, amount_out as int, 0)->Ok_0 as i128,
                to,
                router,
                p.1@,
            ),
    {
        if deadline < now {
            return Err(RouterError::Expired);
        }
        if amount_out <= 0 {
            return Err(RouterError::ZeroAmount);
        }
        if path.len() < 2 || path.len() > 4 {
            return Err(RouterError::InvalidPath);
        }
        let hops = path.len() - 1;
        if self.factory.is_none() {
            return Err(RouterError::PairNotFound);
        }
        proof {
            lemma_need_errors(pools@, path@, amount_out as int, 0);
        }
        // Walk backwards from the final output; `backward[t]` is what hop
        // `hops - 1 - t` needs.
        let mut backward: Vec<i128> = Vec::new();
        let mut current = amount_out;
        let mut i = hops;
        while i > 0
            invariant
                hops == path@.len() - 1,
                1 <= hops <= 3,
                i <= hops,
                amount_out > 0,
                deadline >= now,
                self.factory is Some,
                backward@.len() == hops - i,
                need_result(pools@, path@, amount_out as int, i as int) == Ok::<int, RouterError>(current as int),
                forall|t: int|
                    0 <= t < backward@.len() ==> need_result(pools@, path@, amount_out as int, hops - 1 - t)
                        == Ok::<int, RouterError>(#[trigger] backward@[t] as int),
            decreases i,
        {
            i = i - 1;
            proof {
                lemma_need_errors(pools@, path@, amount_out as int, i as int + 1);
            }
            match hop_in(pools, &path[i], &path[i + 1], current) {
                Ok(v) => {
                    current = v;
                    backward.push(v);
                },
                Err(e) => {
                    proof {
                        lemma_need_err_persists(pools@, path@, amount_out as int, i as int);
                    }
                    return Err(e);
                },
            }
        }
        let amount_in_needed = current;
        if amount_in_needed > amount_in_max {
            return Err(RouterError::ExcessiveInputAmount);
        }
        // outs[k] = need(k + 1) = backward[hops - 2 - k] for k < hops - 1, and amount_out last.
        let mut outs: Vec<i128> = Vec::new();
        let mut k: usize = 0;
        while k < hops
            invariant
                hops == path@.len() - 1,
                1 <= hops <= 3,
                k <= hops,
                backward@.len() == hops,
                outs@.len() == k,
                forall|t: int|
                    0 <= t < backward@.len() ==> need_result(pools@, path@, amount_out as int, hops - 1 - t)
                        == Ok::<int, RouterError>(#[trigger] backward@[t] as int),
                forall|t: int|
                    0 <= t < k ==> #[trigger] outs@[t] == needed_outs(pools@, path@, amount_out as int)[t],
            decreases hops - k,
        {
            if k + 1 < hops {
                let v = backward[hops - 2 - k];
                assert(need_result(pools@, path@, amount_out as int, hops - 1 - (hops - 2 - k)) == Ok::<
                    int,
                    RouterError,
                >(backward@[hops - 2 - k] as int));
                outs.push(v);
            } else {
                assert(need_result(pools@, path@, amount_out as int, (k + 1) as int) == Ok::<int, RouterError>(amount_out as int));
                outs.push(amount_out);
            }
            k = k + 1;
        }
        proof {
            assert(outs@ =~= needed_outs(pools@, path@, amount_out as int));
            lemma_need_ok_has_pools(pools@, path@, amount_out as int, 0);
        }
        let actions = build_swap_plan(pools, path, &outs, amount_in_needed, to, router);
        let mut result: Vec<i128> = Vec::new();
        result.push(amount_in_needed);
        Ok((result, actions))
    }
}

/// The input `router_amount_in` asks for is enough: at a fee below 100%, a
/// pool with reserves `(ri, ro)` pays at least `amount_out` for it, since
/// `amount_out * (ri * 10_000 + x * f) < x * f * ro` with `f = 10_000 - fee`.
proof fn lemma_amount_in_suffices(amount_out: int, ri: int, ro: int, fee: int)
    requires
        router_amount_in(amount_out, ri, ro, fee) is Ok,
    ensures
        ({
            let x = router_amount_in(amount_out, ri, ro, fee)->Ok_0;
            let f = 10_000 - fee;
            &&& 0 < amount_out < ro
            &&& x > 0 && f > 0 && ri > 0
            &&& amount_out * (ri * 10_000 + x * f) < x * f * ro
        }),
{
    let x = router_amount_in(amount_out, ri, ro, fee)->Ok_0;
    let f = 10_000 - fee;
    let num = ri * amount_out * 10_000;
    let den = (ro - amount_out) * f;
    assert(den > 0) by (nonlinear_arith)
        requires
            den == (ro - amount_out) * f,
            ro - amount_out > 0,
            f > 0,
    ;
    assert(num > 0) by (nonlinear_arith)
        requires
            num == ri * amount_out * 10_000,
            ri > 0,
            amount_out > 0,
    ;
    vstd::arithmetic::div_mod::lemma_fundamental_div_mod(num, den);
    vstd::arithmetic::div_mod::lemma_mod_bound(num, den);
    vstd::arithmetic::div_mod::lemma_div_pos_is_pos(num, den);
    assert(x == num / den + 1);
    assert(x * den > num) by (nonlinear_arith)
        requires
            num == den * (num / den) + num % den,
            num % den < den,
            x == num / den + 1,
    ;
    assert(amount_out * (ri * 10_000 + x * f) < x * f * ro) by (nonlinear_arith)
        requires
            x * den > num,
            den == (ro - amount_out) * f,
            num == ri * amount_out * 10_000,
    ;
}

/// Hop `i` of a backward chain: its pool pays at least what the next hop
/// needs for the input this hop needs.
proof fn lemma_need_hop_suffices(pools: Seq<PoolQuote>, path: Seq<Addr>, amount_out: int, i: int)
    requires
        0 <= i < path.len() - 1,
        need_result(pools, path, amount_out, i) is Ok,
    ensures
        ({
            let input = need_result(pools, path, amount_out, i)->Ok_0;
            let out = need_result(pools, path, amount_out, i + 1)->Ok_0;
            let q = pool_for(pools, path[i], path[i + 1])->Some_0;
            let ri = oriented(q, path[i]).0;
            let ro = oriented(q, path[i]).1;
            let f = 10_000 - q.fee_bps;
            &&& need_result(pools, path, amount_out, i + 1) is Ok
            &&& pool_for(pools, path[i], path[i + 1]) is Some
            &&& 0 < out < ro
            &&& input > 0
            &&& out * (ri * 10_000 + input * f) < input * f * ro
        }),
{
    let q = pool_for(pools, path[i], path[i + 1])->Some_0;
    lemma_amount_in_suffices(
        need_result(pools, path, amount_out, i + 1)->Ok_0,
        oriented(q, path[i]).0,
        oriented(q, path[i]).1,
        q.fee_bps as int,
    );
}

/// Whether hop `i` of `path` can pay `out` for `input`: its pool exists,
/// holds more than `out` of the hop's output token, and, with reserves
/// `(ri, ro)` seen from the hop's input and `f = 10_000 - fee_bps` of that
/// pool, `out * (ri * 10_000 + input * f) < input * f * ro`, so the
/// constant-product output of `input` at the pool's own fee is at least
/// `out`.
#[verifier::opaque]
pub open spec fn hop_can_pay(pools: Seq<PoolQuote>, path: Seq<Addr>, i: int, input: int, out: int) -> bool {
    let q = pool_for(pools, path[i], path[i + 1])->Some_0;
    let ri = oriented(q, path[i]).0;
    let ro = oriented(q, path[i]).1;
    let f = 10_000 - q.fee_bps;
    &&& pool_for(pools, path[i], path[i + 1]) is Some
    &&& 0 < out < ro
    &&& input > 0
    &&& out * (ri * 10_000 + input * f) < input * f * ro
}

/// The amount an exact-output plan sends into hop `i`: the swap's input
/// for the first hop, what the previous hop is asked to yield otherwise.
pub open spec fn exact_output_hop_input(pools: Seq<PoolQuote>, path: Seq<Addr>, amount_out: int, i: int) -> int {
    if i == 0 {
        need_result(pools, path, amount_out, 0)->Ok_0
    } else {
        needed_outs(pools, path, amount_out)[i - 1] as int
    }
}

/// One hop of [`lemma_exact_output_hops_feasible`].
proof fn lemma_exact_output_hop(pools: Seq<PoolQuote>, path: Seq<Addr>, amount_out: int, i: int)
    requires
        0 <= i < path.len() - 1,
        0 < amount_out <= i128::MAX,
        need_result(pools, path, amount_out, 0) is Ok,
    ensures
        hop_can_pay(
            pools,
            path,
            i,
            exact_output_hop_input(pools, path, amount_out, i),
            needed_outs(pools, path, amount_out)[i] as int,
        ),
{
    let outs = needed_outs(pools, path, amount_out);
    if need_result(pools, path, amount_out, i) is Err {
        lemma_need_err_persists(pools, path, amount_out, i);
    }
    lemma_need_errors(pools, path, amount_out, i);
    lemma_need_errors(pools, path, amount_out, i + 1);
    lemma_need_hop_suffices(pools, path, amount_out, i);
    assert(outs[i] as int == need_result(pools, path, amount_out, i + 1)->Ok_0);
    if i > 0 {
        assert(outs[i - 1] as int == need_result(pools, path, amount_out, i)->Ok_0);
    }
    reveal(hop_can_pay);
}

/// An exact-output plan can be carried out hop by hop: the last hop is
/// asked for exactly `amount_out`, and every hop can pay what it is asked
/// for with the input the plan sends it (see [`hop_can_pay`] and
/// [`exact_output_hop_input`]), so each hop yields exactly the input the
/// next one needs.
pub proof fn lemma_exact_output_hops_feasible(pools: Seq<PoolQuote>, path: Seq<Addr>, amount_out: int)
    requires
        path.len() >= 2,
        0 < amount_out <= i128::MAX,
        need_result(pools, path, amount_out, 0) is Ok,
    ensures
        needed_outs(pools, path, amount_out).len() == path.len() - 1,
        needed_outs(pools, path, amount_out)[path.len() - 2] == amount_out,
        forall|i: int|
            0 <= i < path.len() - 1 ==> hop_can_pay(
                pools,
                path,
                i,
                exact_output_hop_input(pools, path, amount_out, i),
                #[trigger] needed_outs(pools, path, amount_out)[i] as int,
            ),
{
    let hops = path.len() - 1;
    assert forall|i: int| 0 <= i < hops implies hop_can_pay(
        pools,
        path,
        i,
        exact_output_hop_input(pools, path, amount_out, i),
        #[trigger] needed_outs(pools, path, amount_out)[i] as int,
    ) by {
        lemma_exact_output_hop(pools, path, amount_out, i);
    }
    assert(need_result(pools, path, amount_out, hops) == Ok::<int, RouterError>(amount_out));
}

/// Once a backward hop fails, every earlier hop reports the same error.
pub proof fn lemma_need_err_persists(pools: Seq<PoolQuote>, path: Seq<Addr>, amount_out: int, i: int)
    requires
        0 <= i < path.len() - 1,
        need_result(pools, path, amount_out, i) is Err,
    ensures
        forall|j: int| 0 <= j <= i ==> #[trigger] need_result(pools, path, amount_out, j) == need_result(
            pools,
            path,
            amount_out,
            i,
        ),
    decreases i,
{
    if i > 0 {
        lemma_need_err_persists(pools, path, amount_out, i - 1);
    }
}


// ---------------------------------------------------------------------------
// Liquidity
// ---------------------------------------------------------------------------

impl Router {
    /// Plans a deposit of up to the desired amounts of `token_a` and
    /// `token_b`, in the pool's ratio, minting LP tokens to `to`. Returns
    /// the amounts deposited and the steps to perform; the pair reports the
    /// liquidity minted.
    ///
    /// The pool's reserves are used in the pair's own token order, as the
    /// pair reports them.
    pub fn add_liquidity(
        &self,
        pools: &Vec<PoolQuote>,
        token_a: Addr,
        token_b: Addr,
        amount_a_desired: i128,
        amount_b_desired: i128,
        amount_a_min: i128,
        amount_b_min: i128,
        to: Addr,
        deadline: u64,
        now: u64,
    ) -> (r: Result<(i128, i128, Vec<Action>), RouterError>)
        ensures
            r == Err::<(i128, i128, Vec<Action>), RouterError>(RouterError::Expired) <==> deadline < now,
            r == Err::<(i128, i128, Vec<Action>), RouterError>(RouterError::ZeroAmount) <==> (
            deadline >= now && (amount_a_desired <= 0 || amount_b_desired <= 0)),
            r == Err::<(i128, i128, Vec<Action>), RouterError>(RouterError::IdenticalTokens) <==> (
            deadline >= now && amount_a_desired > 0 && amount_b_desired > 0 && token_a == token_b),
            (deadline >= now && amount_a_desired > 0 && amount_b_desired > 0 && token_a != token_b && (
            self.factory is None || pool_for(pools@, token_a, token_b) is None)) ==> r == Err::<
                (i128, i128, Vec<Action>),
                RouterError,
            >(RouterError::PairNotFound),
            (deadline >= now && amount_a_desired > 0 && amount_b_desired > 0 && token_a != token_b
                && self.factory is Some && pool_for(pools@, token_a, token_b) is Some) ==> ({
                let q = pool_for(pools@, token_a, token_b)->Some_0;
                let plan = optimal_amounts(
                    amount_a_desired as int,
                    amount_b_desired as int,
                    amount_a_min as int,
                    amount_b_min as int,
                    q.reserve_0 as int,
                    q.reserve_1 as int,
                );
                &&& plan matches Err(e) ==> r == Err::<(i128, i128, Vec<Action>), RouterError>(e)
                &&& plan matches Ok(amounts) ==> (r matches Ok(p) && p.0 as int == amounts.0 && p.1 as int
                    == amounts.1 && p.2@ == seq![
                    Action::RequireAuth { address: to },
                    Action::Transfer { token: token_a, from: to, to: q.pair, amount: p.0 },
                    Action::Transfer { token: token_b, from: to, to: q.pair, amount: p.1 },
                    Action::Mint { pair: q.pair, to },
                ])
            }),
    {
        if deadline < now {
            return Err(RouterError::Expired);
        }
        if amount_a_desired <= 0 || amount_b_desired <= 0 {
            return Err(RouterError::ZeroAmount);
        }
        if token_a == token_b {
            return Err(RouterError::IdenticalTokens);
        }
        if self.factory.is_none() {
            return Err(RouterError::PairNotFound);
        }
        let q = match find_pool(pools, &token_a, &token_b) {
            Some(q) => q,
            None => return Err(RouterError::PairNotFound),
        };
        let (amount_a, amount_b) = match compute_optimal_amounts(
            amount_a_desired,
            amount_b_desired,
            amount_a_min,
            amount_b_min,
            q.reserve_0,
            q.reserve_1,
        ) {
            Ok(p) => p,
            Err(e) => {
                proof {
                    // A computed deposit error is never one of the validation errors.
                    assert(e == RouterError::InsufficientLiquidity || e == RouterError::InternalError
                        || e == RouterError::SlippageExceeded);
                }
                return Err(e);
            },
        };
        let mut actions: Vec<Action> = Vec::new();
        actions.push(Action::RequireAuth { address: to });
        actions.push(Action::Transfer { token: token_a, from: to, to: q.pair, amount: amount_a });
        actions.push(Action::Transfer { token: token_b, from: to, to: q.pair, amount: amount_b });
        actions.push(Action::Mint { pair: q.pair, to });
        Ok((amount_a, amount_b, actions))
    }

    /// Plans a withdrawal of `liquidity` LP tokens of the pool of `token_a`
    /// and `token_b` on behalf of `to`: move the LP tokens into the pair and
    /// burn them, paying the underlying tokens to `to`. Returns the pair and
    /// the steps; [`check_withdrawal`] then judges the amounts the pair
    /// paid out.
    pub fn remove_liquidity(
        &self,
        pools: &Vec<PoolQuote>,
        token_a: Addr,
        token_b: Addr,
        liquidity: i128,
        to: Addr,
        deadline: u64,
        now: u64,
    ) -> (r: Result<(Addr, Vec<Action>), RouterError>)
        ensures
            r == Err::<(Addr, Vec<Action>), RouterError>(RouterError::Expired) <==> deadline < now,
            r == Err::<(Addr, Vec<Action>), RouterError>(RouterError::ZeroAmount) <==> (deadline >= now
                && liquidity <= 0),
            r == Err::<(Addr, Vec<Action>), RouterError>(RouterError::IdenticalTokens) <==> (deadline
                >= now && liquidity > 0 && token_a == token_b),
            r == Err::<(Addr, Vec<Action>), RouterError>(RouterError::PairNotFound) <==> (deadline
                >= now && liquidity > 0 && token_a != token_b && (self.factory is None || pool_for(
                pools@,
                token_a,
                token_b,
            ) is None)),
            r matches Ok(p) ==> p.0 == pool_for(pools@, token_a, token_b)->Some_0.pair && p.1@ == seq![
                Action::RequireAuth { address: to },
                Action::TransferLiquidity { pair: p.0, from: to, amount: liquidity },
                Action::Burn { pair: p.0, to },
            ],
    {
        if deadline < now {
            return Err(RouterError::Expired);
        }
        if liquidity <= 0 {
            return Err(RouterError::ZeroAmount);
        }
        if token_a == token_b {
            return Err(RouterError::IdenticalTokens);
        }
        if self.factory.is_none() {
            return Err(RouterError::PairNotFound);
        }
        let q = match find_pool(pools, &token_a, &token_b) {
            Some(q) => q,
            None => return Err(RouterError::PairNotFound),
        };
        let mut actions: Vec<Action> = Vec::new();
        actions.push(Action::RequireAuth { address: to });
        actions.push(Action::TransferLiquidity { pair: q.pair, from: to, amount: liquidity });
        actions.push(Action::Burn { pair: q.pair, to });
        proof {
            assert(actions@ =~= seq![
                Action::RequireAuth { address: to },
                Action::TransferLiquidity { pair: q.pair, from: to, amount: liquidity },
                Action::Burn { pair: q.pair, to },
            ]);
        }
        Ok((q.pair, actions))
    }
}

/// Enforces the minimum amounts of a withdrawal once the pair has paid out
/// `amount_a` and `amount_b`.
pub fn check_withdrawal(amount_a: i128, amount_b: i128, amount_a_min: i128, amount_b_min: i128) -> (r: Result<
    (i128, i128),
    RouterError,
>)
    ensures
        r == (if amount_a < amount_a_min || amount_b < amount_b_min {
            Err::<(i128, i128), RouterError>(RouterError::InsufficientOutputAmount)
        } else {
            Ok::<(i128, i128), RouterError>((amount_a, amount_b))
        }),
{
    if amount_a < amount_a_min || amount_b < amount_b_min {
        return Err(RouterError::InsufficientOutputAmount);
    }
    Ok((amount_a, amount_b))
}


// ---------------------------------------------------------------------------
// Commit-reveal
// ---------------------------------------------------------------------------

/// The pending commitment of `sender`: the first record for it.
pub open spec fn commit_of(commits: Seq<CommitRecord>, sender: Addr) -> Option<CommitEntry>
    decreases commits.len(),
{
    if commits.len() == 0 {
        None
    } else if commits[0].sender == sender {
        Some(commits[0].entry)
    } else {
        commit_of(commits.drop_first(), sender)
    }
}

/// Whether `sender` has consumed `nonce`.
pub open spec fn nonce_used(nonces: Seq<NonceRecord>, sender: Addr, nonce: u64) -> bool {
    exists|i: int| 0 <= i < nonces.len() && #[trigger] nonces[i] == (NonceRecord { sender, nonce })
}

/// The stored count of live commits; 0 until one is stored.
pub open spec fn commit_count_of(count: Option<u32>) -> u32 {
    match count {
        Some(n) => n,
        None => 0,
    }
}

/// The stored commit-reveal bounds; the defaults until others are stored.
pub open spec fn commit_config_of(config: Option<RouterCommitConfig>) -> RouterCommitConfig {
    match config {
        Some(c) => c,
        None => RouterCommitConfig {
            max_commits: DEFAULT_MAX_COMMITS,
            expiry_ledgers: DEFAULT_COMMIT_EXPIRY_LEDGERS,
        },
    }
}

/// Whether a commitment made at `entry.ledger` can still be revealed at
/// `ledger`: it is at most `expiry_ledgers` ledgers old.
pub open spec fn commit_live(entry: CommitEntry, ledger: u32, expiry_ledgers: u32) -> bool {
    ledger <= entry.ledger + expiry_ledgers
}

/// The stored commitments that are still live at `ledger`, in order.
pub open spec fn live_commits(commits: Seq<CommitRecord>, ledger: u32, expiry_ledgers: u32) -> Seq<CommitRecord>
    decreases commits.len(),
{
    if commits.len() == 0 {
        commits
    } else {
        let rest = live_commits(commits.drop_first(), ledger, expiry_ledgers);
        if commit_live(commits[0].entry, ledger, expiry_ledgers) {
            seq![commits[0]] + rest
        } else {
            rest
        }
    }
}

/// Whether a commitment by `sender` at `ledger` is refused: `sender` has no
/// live commitment and the live commitments have reached the cap.
pub open spec fn commit_refused(
    commits: Seq<CommitRecord>,
    config: RouterCommitConfig,
    sender: Addr,
    ledger: u32,
) -> bool {
    let live = live_commits(commits, ledger, config.expiry_ledgers);
    commit_of(live, sender) is None && live.len() >= config.max_commits
}

/// Keeping only the live commitments never adds any.
proof fn lemma_live_commits_len(commits: Seq<CommitRecord>, ledger: u32, expiry_ledgers: u32)
    ensures
        live_commits(commits, ledger, expiry_ledgers).len() <= commits.len(),
    decreases commits.len(),
{
    if commits.len() > 0 {
        lemma_live_commits_len(commits.drop_first(), ledger, expiry_ledgers);
    }
}

/// Looking up a sender among the live commitments finds only a live one.
proof fn lemma_live_commits_are_live(
    commits: Seq<CommitRecord>,
    ledger: u32,
    expiry_ledgers: u32,
    sender: Addr,
)
    ensures
        commit_of(live_commits(commits, ledger, expiry_ledgers), sender) matches Some(e) ==> commit_live(
            e,
            ledger,
            expiry_ledgers,
        ),
    decreases commits.len(),
{
    if commits.len() > 0 {
        let rest = live_commits(commits.drop_first(), ledger, expiry_ledgers);
        lemma_live_commits_are_live(commits.drop_first(), ledger, expiry_ledgers, sender);
        if commit_live(commits[0].entry, ledger, expiry_ledgers) {
            let live = seq![commits[0]] + rest;
            assert(live[0] == commits[0]);
            assert(live.drop_first() =~= rest);
        }
    }
}

/// Commitments past their expiry never count against the cap: when every
/// stored commitment has expired, a commitment is refused only under a cap
/// of zero.
pub proof fn lemma_expired_commits_never_block(
    commits: Seq<CommitRecord>,
    config: RouterCommitConfig,
    sender: Addr,
    ledger: u32,
)
    requires
        forall|i: int| 0 <= i < commits.len() ==> !commit_live(#[trigger] commits[i].entry, ledger, config.expiry_ledgers),
    ensures
        live_commits(commits, ledger, config.expiry_ledgers).len() == 0,
        commit_refused(commits, config, sender, ledger) <==> config.max_commits == 0,
    decreases commits.len(),
{
    if commits.len() > 0 {
        assert(!commit_live(commits[0].entry, ledger, config.expiry_ledgers));
        assert forall|i: int| 0 <= i < commits.drop_first().len() implies !commit_live(
            #[trigger] commits.drop_first()[i].entry,
            ledger,
            config.expiry_ledgers,
        ) by {
            assert(commits.drop_first()[i] == commits[i + 1]);
        }
        lemma_expired_commits_never_block(commits.drop_first(), config, sender, ledger);
    }
    let live = live_commits(commits, ledger, config.expiry_ledgers);
    assert(live =~= Seq::<CommitRecord>::empty());
}

/// The commit-reveal checks of a reveal, in order: a commitment must
/// exist, the current ledger must be past it but no more than
/// `expiry_ledgers` past it, the nonce must be unused and the revealed
/// parameters must hash to the committed hash. `None` when all pass.
pub open spec fn reveal_gate(
    commits: Seq<CommitRecord>,
    nonces: Seq<NonceRecord>,
    expiry_ledgers: u32,
    sender: Addr,
    nonce: u64,
    hash: Digest,
    ledger: u32,
) -> Option<RouterError> {
    match commit_of(commits, sender) {
        None => Some(RouterError::CommitNotFound),
        Some(e) => if ledger <= e.ledger {
            Some(RouterError::CommitRevealTooEarly)
        } else if ledger > e.ledger + expiry_ledgers {
            Some(RouterError::CommitExpired)
        } else if nonce_used(nonces, sender, nonce) {
            Some(RouterError::NonceAlreadyUsed)
        } else if e.hash != hash {
            Some(RouterError::CommitHashMismatch)
        } else {
            None
        },
    }
}

/// A nonce is spent once: after a reveal consumes `nonce` for `sender`,
/// every later reveal of that nonce by that sender is refused, whatever
/// commitment, hash and ledger it comes with.
pub proof fn lemma_revealed_nonce_is_spent(
    nonces: Seq<NonceRecord>,
    sender: Addr,
    nonce: u64,
    later_commits: Seq<CommitRecord>,
    later_expiry: u32,
    later_hash: Digest,
    later_ledger: u32,
)
    ensures
        reveal_gate(
            later_commits,
            nonces.push(NonceRecord { sender, nonce }),
            later_expiry,
            sender,
            nonce,
            later_hash,
            later_ledger,
        ) is Some,
{
    let pushed = nonces.push(NonceRecord { sender, nonce });
    assert(pushed[nonces.len() as int] == (NonceRecord { sender, nonce }));
    assert(nonce_used(pushed, sender, nonce));
}

/// A spent nonce stays spent through a fresh commitment: once `sender` has
/// consumed `nonce`, a reveal with that nonce after a new commitment, inside
/// that commitment's reveal window, is refused with `NonceAlreadyUsed`,
/// whatever hash it brings. `commit_swap` leaves the consumed nonces as
/// they are and a successful reveal only adds to them, so this holds over
/// any sequence of commits and reveals.
pub proof fn lemma_recommit_cannot_reuse_nonce(
    commits: Seq<CommitRecord>,
    nonces: Seq<NonceRecord>,
    expiry_ledgers: u32,
    sender: Addr,
    nonce: u64,
    hash: Digest,
    ledger: u32,
)
    requires
        nonce_used(nonces, sender, nonce),
        commit_of(commits, sender) matches Some(e) && e.ledger < ledger && ledger <= e.ledger + expiry_ledgers,
    ensures
        reveal_gate(commits, nonces, expiry_ledgers, sender, nonce, hash, ledger) == Some(
            RouterError::NonceAlreadyUsed,
        ),
{
}

/// Appending a record changes only the lookup of a sender without one.
pub proof fn lemma_commit_of_push(commits: Seq<CommitRecord>, record: CommitRecord, sender: Addr)
    ensures
        commit_of(commits.push(record), sender) == (match commit_of(commits, sender) {
            Some(e) => Some(e),
            None => if record.sender == sender {
                Some(record.entry)
            } else {
                None
            },
        }),
    decreases commits.len(),
{
    if commits.len() > 0 {
        assert(commits.push(record)[0] == commits[0]);
        assert(commits.push(record).drop_first() =~= commits.drop_first().push(record));
        lemma_commit_of_push(commits.drop_first(), record, sender);
    } else {
        assert(commits.push(record)[0] == record);
        assert(commits.push(record).drop_first() =~= Seq::<CommitRecord>::empty());
        assert(commit_of(Seq::<CommitRecord>::empty(), sender) is None);
    }
}

/// Looks up the pending commitment of `sender`.
pub fn get_commit(commits: &Vec<CommitRecord>, sender: &Addr) -> (r: Option<CommitEntry>)
    ensures
        r == commit_of(commits@, *sender),
{
    let mut i: usize = 0;
    proof {
        assert(commits@.subrange(0, commits@.len() as int) =~= commits@);
    }
    while i < commits.len()
        invariant
            i <= commits@.len(),
            commit_of(commits@, *sender) == commit_of(commits@.subrange(i as int, commits@.len() as int), *sender),
        decreases commits@.len() - i,
    {
        proof {
            let rest = commits@.subrange(i as int, commits@.len() as int);
            assert(rest.drop_first() =~= commits@.subrange(i + 1, commits@.len() as int));
        }
        if commits[i].sender == *sender {
            return Some(commits[i].entry);
        }
        i = i + 1;
    }
    None
}

/// Removes the commitment of `sender`, keeping every other one.
fn remove_commit(commits: &mut Vec<CommitRecord>, sender: &Addr)
    ensures
        forall|other: Addr| #[trigger] commit_of(final(commits)@, other) == if other == *sender {
            None
        } else {
            commit_of(old(commits)@, other)
        },
        final(commits)@.len() <= old(commits)@.len(),
{
    let ghost initial = commits@;
    let mut kept: Vec<CommitRecord> = Vec::new();
    let mut i: usize = 0;
    while i < commits.len()
        invariant
            commits@ == initial,
            i <= initial.len(),
            kept@.len() <= i,
            forall|other: Addr| #[trigger] commit_of(kept@, other) == if other == *sender {
                None
            } else {
                commit_of(initial.take(i as int), other)
            },
        decreases initial.len() - i,
    {
        let record = commits[i];
        let ghost before = kept@;
        proof {
            assert(initial.take(i + 1) =~= initial.take(i as int).push(record));
        }
        if record.sender != *sender {
            kept.push(record);
        }
        proof {
            assert forall|other: Addr| #[trigger] commit_of(kept@, other) == if other == *sender {
                None
            } else {
                commit_of(initial.take(i + 1), other)
            } by {
                lemma_commit_of_push(initial.take(i as int), record, other);
                if record.sender != *sender {
                    lemma_commit_of_push(before, record, other);
                }
            }
        }
        i = i + 1;
    }
    proof {
        assert(initial.take(initial.len() as int) =~= initial);
    }
    *commits = kept;
}

/// The commitments of `commits` still live at `ledger`, in order.
fn prune_expired(commits: &Vec<CommitRecord>, ledger: u32, expiry_ledgers: u32) -> (r: Vec<CommitRecord>)
    ensures
        r@ == live_commits(commits@, ledger, expiry_ledgers),
{
    let ghost all = commits@;
    let mut kept: Vec<CommitRecord> = Vec::new();
    let mut i: usize = 0;
    proof {
        assert(all.subrange(0, all.len() as int) =~= all);
        assert(kept@ + all =~= all);
    }
    while i < commits.len()
        invariant
            all == commits@,
            i <= all.len(),
            live_commits(all, ledger, expiry_ledgers) == kept@ + live_commits(
                all.subrange(i as int, all.len() as int),
                ledger,
                expiry_ledgers,
            ),
        decreases all.len() - i,
    {
        let record = commits[i];
        let ghost sub = all.subrange(i as int, all.len() as int);
        let ghost rest = live_commits(all.subrange(i + 1, all.len() as int), ledger, expiry_ledgers);
        proof {
            assert(sub.drop_first() =~= all.subrange(i + 1, all.len() as int));
            assert(sub[0] == record);
        }
        if ledger as u64 <= record.entry.ledger as u64 + expiry_ledgers as u64 {
            let ghost before = kept@;
            kept.push(record);
            proof {
                assert(before + (seq![record] + rest) =~= kept@ + rest);
            }
        }
        i = i + 1;
    }
    proof {
        assert(all.subrange(all.len() as int, all.len() as int) =~= Seq::<CommitRecord>::empty());
        assert(kept@ + Seq::<CommitRecord>::empty() =~= kept@);
    }
    kept
}

/// Whether `sender` has consumed `nonce`.
pub fn is_nonce_used(nonces: &Vec<NonceRecord>, sender: &Addr, nonce: u64) -> (b: bool)
    ensures
        b == nonce_used(nonces@, *sender, nonce),
{
    let mut i: usize = 0;
    while i < nonces.len()
        invariant
            i <= nonces@.len(),
            forall|k: int| 0 <= k < i ==> #[trigger] nonces@[k] != (NonceRecord { sender: *sender, nonce }),
        decreases nonces@.len() - i,
    {
        if nonces[i].sender == *sender && nonces[i].nonce == nonce {
            return true;
        }
        i = i + 1;
    }
    false
}

impl Router {
    /// A router with no factory, hubs, commitments or consumed nonces.
    pub fn new() -> (r: Router)
        ensures
            r.factory is None,
            r.hubs@.len() == 0,
            r.commits@.len() == 0,
            r.used_nonces@.len() == 0,
            r.commit_count is None,
            r.commit_config is None,
    {
        Router {
            factory: None,
            hubs: Vec::new(),
            commits: Vec::new(),
            used_nonces: Vec::new(),
            commit_count: None,
            commit_config: None,
        }
    }

    /// Sets the factory and the hub tokens, once: a router that already has
    /// a factory refuses with `AlreadyInitialized`.
    pub fn initialize(&mut self, factory: Addr, hubs: Vec<Addr>) -> (r: Result<(), RouterError>)
        ensures
            r == Err::<(), RouterError>(RouterError::AlreadyInitialized) <==> old(self).factory is Some,
            r is Ok <==> old(self).factory is None,
            r is Ok ==> final(self).factory == Some(factory) && final(self).hubs@ == hubs@,
            r is Err ==> final(self).factory == old(self).factory && final(self).hubs@ == old(self).hubs@,
            final(self).commits@ == old(self).commits@,
            final(self).used_nonces@ == old(self).used_nonces@,
            final(self).commit_count == old(self).commit_count,
            final(self).commit_config == old(self).commit_config,
    {
        if self.factory.is_some() {
            return Err(RouterError::AlreadyInitialized);
        }
        self.factory = Some(factory);
        self.hubs = hubs;
        Ok(())
    }

    /// Replaces the hub tokens used for multi-hop path discovery.
    pub fn set_hubs(&mut self, hubs: Vec<Addr>)
        ensures
            final(self).hubs@ == hubs@,
            final(self).factory == old(self).factory,
            final(self).commits@ == old(self).commits@,
            final(self).used_nonces@ == old(self).used_nonces@,
            final(self).commit_count == old(self).commit_count,
            final(self).commit_config == old(self).commit_config,
    {
        self.hubs = hubs;
    }

    /// The hub tokens.
    pub fn get_hubs(&self) -> (r: &Vec<Addr>)
        ensures
            r@ == self.hubs@,
    {
        &self.hubs
    }

    /// Records `sender`'s commitment `hash` made at ledger `ledger`,
    /// replacing any pending one. `sender` must have authorized the call.
    ///
    /// Only live commitments, those at most `expiry_ledgers` ledgers old,
    /// count against the cap: a sender without a live commitment is refused
    /// with `TooManyCommits` while the live commitments have reached
    /// `max_commits`. Otherwise the expired commitments are pruned, the new
    /// one is stored, and the count of live commits becomes the number of
    /// stored commitments. `ledger` is the current ledger sequence.
    pub fn commit_swap(&mut self, sender: Addr, hash: Digest, ledger: u32) -> (r: Result<(), RouterError>)
        requires
            old(self).commits@.len() < u32::MAX,
        ensures
            r == Err::<(), RouterError>(RouterError::TooManyCommits) <==> commit_refused(
                old(self).commits@,
                commit_config_of(old(self).commit_config),
                sender,
                ledger,
            ),
            r is Ok <==> !commit_refused(old(self).commits@, commit_config_of(old(self).commit_config), sender, ledger),
            r is Ok ==> commit_of(final(self).commits@, sender) == Some(CommitEntry { hash, ledger }),
            r is Ok ==> forall|other: Addr| other != sender ==> #[trigger] commit_of(final(self).commits@, other)
                == commit_of(
                live_commits(old(self).commits@, ledger, commit_config_of(old(self).commit_config).expiry_ledgers),
                other,
            ),
            r is Ok ==> forall|other: Addr| #[trigger] commit_of(final(self).commits@, other) matches Some(e)
                ==> commit_live(e, ledger, commit_config_of(old(self).commit_config).expiry_ledgers),
            r is Ok ==> final(self).commits@.len() <= u32::MAX && final(self).commit_count == Some(
                final(self).commits@.len() as u32,
            ),
            r is Err ==> final(self).commits@ == old(self).commits@ && final(self).commit_count == old(
                self,
            ).commit_count,
            final(self).used_nonces@ == old(self).used_nonces@,
            final(self).factory == old(self).factory,
            final(self).hubs@ == old(self).hubs@,
            final(self).commit_config == old(self).commit_config,
    {
        let config = self.get_commit_config();
        let live = prune_expired(&self.commits, ledger, config.expiry_ledgers);
        proof {
            lemma_live_commits_len(self.commits@, ledger, config.expiry_ledgers);
        }
        if get_commit(&live, &sender).is_none() && live.len() >= config.max_commits as usize {
            return Err(RouterError::TooManyCommits);
        }
        let ghost pruned = live@;
        self.commits = live;
        self.set_commit(sender, CommitEntry { hash, ledger });
        proof {
            assert forall|other: Addr| #[trigger] commit_of(self.commits@, other) is Some implies commit_live(
                commit_of(self.commits@, other)->Some_0,
                ledger,
                config.expiry_ledgers,
            ) by {
                if other != sender {
                    lemma_live_commits_are_live(old(self).commits@, ledger, config.expiry_ledgers, other);
                }
            }
        }
        let count = self.commits.len() as u32;
        self.set_commit_count(count);
        Ok(())
    }

    /// Stores `entry` as `sender`'s pending commitment, replacing any other.
    pub fn set_commit(&mut self, sender: Addr, entry: CommitEntry)
        ensures
            commit_of(final(self).commits@, sender) == Some(entry),
            forall|other: Addr| other != sender ==> #[trigger] commit_of(final(self).commits@, other) == commit_of(old(self).commits@, other),
            final(self).commits@.len() <= old(self).commits@.len() + 1,
            final(self).used_nonces@ == old(self).used_nonces@,
            final(self).factory == old(self).factory,
            final(self).hubs@ == old(self).hubs@,
            final(self).commit_count == old(self).commit_count,
            final(self).commit_config == old(self).commit_config,
    {
        remove_commit(&mut self.commits, &sender);
        let ghost removed = self.commits@;
        let record = CommitRecord { sender, entry };
        self.commits.push(record);
        proof {
            assert forall|other: Addr| #[trigger] commit_of(self.commits@, other) == if other == sender {
                Some(entry)
            } else {
                commit_of(removed, other)
            } by {
                lemma_commit_of_push(removed, record, other);
            }
        }
    }

    /// Reveals `sender`'s committed swap and plans it along the best route.
    ///
    /// In order: a commitment must exist (`CommitNotFound`); the current
    /// ledger `ledger` must be past the commitment's (`CommitRevealTooEarly`)
    /// by at most the configured expiry (`CommitExpired`); the nonce must be
    /// unused (`NonceAlreadyUsed`); the commitment of the revealed swap,
    /// [`compute_swap_hash`] of the XDR encodings of `sender`, `token_in`
    /// and `token_out`, the amounts, the nonce and `salt`, must equal the
    /// committed hash (`CommitHashMismatch`). The swap then follows
    /// [`Router::get_best_path`] and [`Router::swap_exact_tokens_multi_hop`]
    /// without a deadline. On success the commitment is cleared, the nonce
    /// consumed and the count of live commits lowered by one; on failure
    /// nothing changes.
    pub fn reveal_swap(
        &mut self,
        pools: &Vec<PoolQuote>,
        sender: Addr,
        token_in: Addr,
        token_out: Addr,
        amount_in: i128,
        min_out: i128,
        nonce: u64,
        env: &soroban_sdk::Env,
        sender_xdr: &Vec<u8>,
        token_in_xdr: &Vec<u8>,
        token_out_xdr: &Vec<u8>,
        salt: Digest,
        ledger: u32,
        now: u64,
        router: Addr,
    ) -> (r: Result<(i128, Vec<Action>), RouterError>)
        ensures
            r == Err::<(i128, Vec<Action>), RouterError>(RouterError::CommitNotFound) <==> reveal_gate(old(self).commits@, old(self).used_nonces@, commit_config_of(old(self).commit_config).expiry_ledgers, sender, nonce, swap_hash(sender_xdr@, token_in_xdr@, token_out_xdr@, amount_in, min_out, nonce, salt), ledger)
                == Some(RouterError::CommitNotFound),
            r == Err::<(i128, Vec<Action>), RouterError>(RouterError::CommitRevealTooEarly) <==> reveal_gate(old(self).commits@, old(self).used_nonces@, commit_config_of(old(self).commit_config).expiry_ledgers, sender, nonce, swap_hash(sender_xdr@, token_in_xdr@, token_out_xdr@, amount_in, min_out, nonce, salt), ledger)
                == Some(RouterError::CommitRevealTooEarly),
            r == Err::<(i128, Vec<Action>), RouterError>(RouterError::CommitExpired) <==> reveal_gate(old(self).commits@, old(self).used_nonces@, commit_config_of(old(self).commit_config).expiry_ledgers, sender, nonce, swap_hash(sender_xdr@, token_in_xdr@, token_out_xdr@, amount_in, min_out, nonce, salt), ledger)
                == Some(RouterError::CommitExpired),
            r == Err::<(i128, Vec<Action>), RouterError>(RouterError::NonceAlreadyUsed) <==> reveal_gate(old(self).commits@, old(self).used_nonces@, commit_config_of(old(self).commit_config).expiry_ledgers, sender, nonce, swap_hash(sender_xdr@, token_in_xdr@, token_out_xdr@, amount_in, min_out, nonce, salt), ledger)
                == Some(RouterError::NonceAlreadyUsed),
            r == Err::<(i128, Vec<Action>), RouterError>(RouterError::CommitHashMismatch) <==> reveal_gate(old(self).commits@, old(self).used_nonces@, commit_config_of(old(self).commit_config).expiry_ledgers, sender, nonce, swap_hash(sender_xdr@, token_in_xdr@, token_out_xdr@, amount_in, min_out, nonce, salt), ledger)
                == Some(RouterError::CommitHashMismatch),
            r is Ok ==> commit_of(final(self).commits@, sender) is None && nonce_used(
                final(self).used_nonces@,
                sender,
                nonce,
            ) && (forall|other: Addr| other != sender ==> #[trigger] commit_of(final(self).commits@, other)
                == commit_of(old(self).commits@, other)) && final(self).used_nonces@ == old(
                self,
            ).used_nonces@.push(NonceRecord { sender, nonce }),
            r is Ok ==> final(self).commit_count == Some(
                if commit_count_of(old(self).commit_count) > 0 {
                    (commit_count_of(old(self).commit_count) - 1) as u32
                } else {
                    0u32
                },
            ),
            reveal_gate(old(self).commits@, old(self).used_nonces@, commit_config_of(old(self).commit_config).expiry_ledgers, sender, nonce, swap_hash(sender_xdr@, token_in_xdr@, token_out_xdr@, amount_in, min_out, nonce, salt), ledger)
                matches Some(e) ==> r == Err::<(i128, Vec<Action>), RouterError>(e),
            r is Ok ==> reveal_gate(old(self).commits@, old(self).used_nonces@, commit_config_of(old(self).commit_config).expiry_ledgers, sender, nonce, swap_hash(sender_xdr@, token_in_xdr@, token_out_xdr@, amount_in, min_out, nonce, salt), ledger) is None,
            reveal_gate(old(self).commits@, old(self).used_nonces@, commit_config_of(old(self).commit_config).expiry_ledgers, sender, nonce, swap_hash(sender_xdr@, token_in_xdr@, token_out_xdr@, amount_in, min_out, nonce, salt), ledger) is None
                ==> ({
                let best = best_route(pools@, token_in, token_out, old(self).hubs@, amount_in as int);
                &&& token_in == token_out ==> r == Err::<(i128, Vec<Action>), RouterError>(
                    RouterError::IdenticalTokens,
                )
                &&& (token_in != token_out && amount_in <= 0) ==> r == Err::<(i128, Vec<Action>), RouterError>(
                    RouterError::ZeroAmount,
                )
                &&& (token_in != token_out && amount_in > 0 && (old(self).factory is None || best.1 < 0)) ==> r
                    == Err::<(i128, Vec<Action>), RouterError>(RouterError::PairNotFound)
                &&& (token_in != token_out && amount_in > 0 && old(self).factory is Some && 0 <= best.1 < min_out)
                    ==> r == Err::<(i128, Vec<Action>), RouterError>(RouterError::InsufficientOutputAmount)
                &&& (token_in != token_out && amount_in > 0 && old(self).factory is Some && best.1 >= 0 && best.1
                    >= min_out) ==> r is Ok
            }),
            r is Err ==> final(self).commits@ == old(self).commits@ && final(self).used_nonces@ == old(
                self,
            ).used_nonces@,
            final(self).factory == old(self).factory,
            final(self).hubs@ == old(self).hubs@,
            r is Err ==> final(self).commit_count == old(self).commit_count,
            final(self).commit_config == old(self).commit_config,
            r matches Ok(p) ==> ({
                let best = best_route(pools@, token_in, token_out, old(self).hubs@, amount_in as int);
                &&& best.1 >= 0
                &&& p.0 as int == path_result(pools@, best.0, amount_in as int)->Ok_0
                &&& p.0 >= min_out
                &&& swap_plan(
                    pools@,
                    best.0,
                    hop_outs(pools@, best.0, amount_in as int),
                    amount_in,
                    sender,
                    router,
                    p.1@,
                )
            }),
    {
        let commitment_hash = compute_swap_hash(
            env,
            sender_xdr,
            token_in_xdr,
            token_out_xdr,
            amount_in,
            min_out,
            nonce,
            salt,
        );
        let entry = match get_commit(&self.commits, &sender) {
            Some(e) => e,
            None => return Err(RouterError::CommitNotFound),
        };
        if ledger <= entry.ledger {
            return Err(RouterError::CommitRevealTooEarly);
        }
        let expiry = self.get_commit_config().expiry_ledgers;
        if ledger as u64 > entry.ledger as u64 + expiry as u64 {
            return Err(RouterError::CommitExpired);
        }
        if is_nonce_used(&self.used_nonces, &sender, nonce) {
            return Err(RouterError::NonceAlreadyUsed);
        }
        if commitment_hash != entry.hash {
            return Err(RouterError::CommitHashMismatch);
        }
        let (path, _) = match self.get_best_path(pools, token_in, token_out, amount_in) {
            Ok(p) => p,
            Err(e) => {
                proof {
                    assert(e == RouterError::IdenticalTokens || e == RouterError::ZeroAmount || e
                        == RouterError::PairNotFound);
                }
                return Err(e);
            },
        };
        proof {
            lemma_best_route_shape(pools@, token_in, token_out, self.hubs@, amount_in as int);
        }
        let plan = match self.swap_exact_tokens_multi_hop(
            pools,
            &path,
            amount_in,
            min_out,
            sender,
            u64::MAX,
            now,
            router,
        ) {
            Ok(p) => p,
            Err(e) => {
                proof {
                    lemma_chain_errors(pools@, path@, amount_in as int, (path@.len() - 1) as nat);
                }
                return Err(e);
            },
        };
        remove_commit(&mut self.commits, &sender);
        self.used_nonces.push(NonceRecord { sender, nonce });
        let count = self.get_commit_count();
        if count > 0 {
            self.set_commit_count(count - 1);
        } else {
            self.set_commit_count(0);
        }
        proof {
            let n = self.used_nonces@.len() - 1;
            assert(self.used_nonces@[n] == (NonceRecord { sender, nonce }));
        }
        Ok(plan)
    }

    /// Removes `sender`'s pending commitment; when there was one, the count
    /// of live commits goes down by one (not below zero).
    pub fn clear_commit(&mut self, sender: Addr)
        ensures
            commit_of(final(self).commits@, sender) is None,
            forall|other: Addr| other != sender ==> #[trigger] commit_of(final(self).commits@, other) == commit_of(old(self).commits@, other),
            commit_of(old(self).commits@, sender) is Some ==> final(self).commit_count == Some(
                if commit_count_of(old(self).commit_count) > 0 {
                    (commit_count_of(old(self).commit_count) - 1) as u32
                } else {
                    0u32
                },
            ),
            commit_of(old(self).commits@, sender) is None ==> final(self).commit_count == old(self).commit_count,
            final(self).used_nonces@ == old(self).used_nonces@,
            final(self).factory == old(self).factory,
            final(self).hubs@ == old(self).hubs@,
            final(self).commit_config == old(self).commit_config,
    {
        let had = get_commit(&self.commits, &sender).is_some();
        remove_commit(&mut self.commits, &sender);
        if had {
            let count = self.get_commit_count();
            if count > 0 {
                self.set_commit_count(count - 1);
            } else {
                self.set_commit_count(0);
            }
        }
    }

    /// Marks `nonce` as consumed by `sender`.
    pub fn set_nonce_used(&mut self, sender: Addr, nonce: u64)
        ensures
            nonce_used(final(self).used_nonces@, sender, nonce),
            forall|s: Addr, n: u64| #[trigger] nonce_used(final(self).used_nonces@, s, n) <==> (nonce_used(
                old(self).used_nonces@,
                s,
                n,
            ) || (s == sender && n == nonce)),
            final(self).commits@ == old(self).commits@,
            final(self).factory == old(self).factory,
            final(self).hubs@ == old(self).hubs@,
            final(self).commit_count == old(self).commit_count,
            final(self).commit_config == old(self).commit_config,
    {
        let ghost before = self.used_nonces@;
        self.used_nonces.push(NonceRecord { sender, nonce });
        proof {
            let n = before.len() as int;
            assert(self.used_nonces@[n] == (NonceRecord { sender, nonce }));
            assert forall|s: Addr, m: u64| #[trigger] nonce_used(self.used_nonces@, s, m) <==> (nonce_used(
                before,
                s,
                m,
            ) || (s == sender && m == nonce)) by {
                if nonce_used(before, s, m) {
                    let i = choose|i: int| 0 <= i < before.len() && #[trigger] before[i] == (NonceRecord { sender: s, nonce: m });
                    assert(self.used_nonces@[i] == before[i]);
                }
                if nonce_used(self.used_nonces@, s, m) && !(s == sender && m == nonce) {
                    let i = choose|i: int| 0 <= i < self.used_nonces@.len() && #[trigger] self.used_nonces@[i] == (NonceRecord { sender: s, nonce: m });
                    assert(i < n);
                    assert(before[i] == self.used_nonces@[i]);
                }
            }
        }
    }

    /// Records the factory.
    pub fn set_factory(&mut self, factory: Addr)
        ensures
            final(self).factory == Some(factory),
            final(self).hubs@ == old(self).hubs@,
            final(self).commits@ == old(self).commits@,
            final(self).used_nonces@ == old(self).used_nonces@,
            final(self).commit_count == old(self).commit_count,
            final(self).commit_config == old(self).commit_config,
    {
        self.factory = Some(factory);
    }

    /// The factory, if one was recorded.
    pub fn get_factory(&self) -> (r: Option<Addr>)
        ensures
            r == self.factory,
    {
        self.factory
    }

    /// The commit-reveal bounds; the defaults until others are stored.
    pub fn get_commit_config(&self) -> (c: RouterCommitConfig)
        ensures
            c == match self.commit_config {
                Some(c) => c,
                None => RouterCommitConfig {
                    max_commits: DEFAULT_MAX_COMMITS,
                    expiry_ledgers: DEFAULT_COMMIT_EXPIRY_LEDGERS,
                },
            },
    {
        match self.commit_config {
            Some(c) => c,
            None => default_commit_config(),
        }
    }

    /// Stores the commit-reveal bounds.
    pub fn set_commit_config(&mut self, config: &RouterCommitConfig)
        ensures
            final(self).commit_config == Some(*config),
            final(self).factory == old(self).factory,
            final(self).hubs@ == old(self).hubs@,
            final(self).commits@ == old(self).commits@,
            final(self).used_nonces@ == old(self).used_nonces@,
            final(self).commit_count == old(self).commit_count,
    {
        self.commit_config = Some(*config);
    }

    /// The stored count of live commits; 0 until one is stored.
    pub fn get_commit_count(&self) -> (n: u32)
        ensures
            n == match self.commit_count {
                Some(n) => n,
                None => 0,
            },
    {
        match self.commit_count {
            Some(n) => n,
            None => 0,
        }
    }

    /// Stores the count of live commits.
    pub fn set_commit_count(&mut self, count: u32)
        ensures
            final(self).commit_count == Some(count),
            final(self).factory == old(self).factory,
            final(self).hubs@ == old(self).hubs@,
            final(self).commits@ == old(self).commits@,
            final(self).used_nonces@ == old(self).used_nonces@,
            final(self).commit_config == old(self).commit_config,
    {
        self.commit_count = Some(count);
    }
}

/// Every pool of `pools` holds two different tokens, as every pool the
/// factory creates does.
pub open spec fn quotes_well_formed(pools: Seq<PoolQuote>) -> bool {
    forall|k: int| 0 <= k < pools.len() ==> (#[trigger] pools[k]).token_0 != pools[k].token_1
}

/// Among well-formed quotes, a pool is only found for two different tokens.
proof fn lemma_pool_for_distinct(pools: Seq<PoolQuote>, a: Addr, b: Addr)
    requires
        quotes_well_formed(pools),
        pool_for(pools, a, b) is Some,
    ensures
        a != b,
    decreases pools.len(),
{
    if pools.len() > 0 && !crate::routing::pool_matches(pools[0], a, b) {
        assert forall|k: int| 0 <= k < pools.drop_first().len() implies (#[trigger] pools.drop_first()[k]).token_0
            != pools.drop_first()[k].token_1 by {
            assert(pools.drop_first()[k] == pools[k + 1]);
        }
        lemma_pool_for_distinct(pools.drop_first(), a, b);
    }
}

/// A priced chain of hops never stays on the same token from one hop to
/// the next.
proof fn lemma_chain_steps_distinct(pools: Seq<PoolQuote>, path: Seq<Addr>, amount: int, k: nat)
    requires
        quotes_well_formed(pools),
        chain_result(pools, path, amount, k) is Ok,
    ensures
        forall|j: int| 0 <= j < k ==> #[trigger] path[j] != path[j + 1],
    decreases k,
{
    if k > 0 {
        lemma_chain_steps_distinct(pools, path, amount, (k - 1) as nat);
        lemma_pool_for_distinct(pools, path[k - 1], path[k as int]);
    }
}

/// Among pools that each hold two different tokens, the chosen route never
/// stays on the same token from one hop to the next: in particular a
/// three-hop route goes through two different hubs.
pub proof fn lemma_best_route_steps_distinct(
    pools: Seq<PoolQuote>,
    token_in: Addr,
    token_out: Addr,
    hubs: Seq<Addr>,
    amount: int,
)
    requires
        quotes_well_formed(pools),
    ensures
        ({
            let best = best_route(pools, token_in, token_out, hubs, amount);
            best.1 >= 0 ==> (forall|j: int| 0 <= j < best.0.len() - 1 ==> #[trigger] best.0[j] != best.0[j + 1])
                && (best.0.len() == 4 ==> best.0[1] != best.0[2])
        }),
{
    let best = best_route(pools, token_in, token_out, hubs, amount);
    lemma_best_route_shape(pools, token_in, token_out, hubs, amount);
    if best.1 >= 0 {
        lemma_chain_steps_distinct(pools, best.0, amount, (best.0.len() - 1) as nat);
    }
}

/// The chosen route, when one prices, is a route from `token_in` to
/// `token_out` of one to three hops whose output is the chosen output.
pub proof fn lemma_best_route_shape(
    pools: Seq<PoolQuote>,
    token_in: Addr,
    token_out: Addr,
    hubs: Seq<Addr>,
    amount: int,
)
    ensures
        ({
            let best = best_route(pools, token_in, token_out, hubs, amount);
            best.1 >= 0 ==> 2 <= best.0.len() <= 4 && path_result(pools, best.0, amount) == Ok::<
                int,
                RouterError,
            >(best.1)
        }),
{
    let start = (Seq::<Addr>::empty(), -1int);
    let direct = consider(pools, amount, start, seq![token_in, token_out], true);
    assert(good_choice(pools, amount, direct));
    lemma_after_two_good(pools, amount, token_in, token_out, hubs, hubs.len(), direct);
    let two = after_two_hop(pools, amount, token_in, token_out, hubs, hubs.len(), direct);
    lemma_after_three_good(pools, amount, token_in, token_out, hubs, hubs.len(), two);
}

/// A choice is either "none yet" (-1) or a priced route of one to three
/// hops with its output.
pub open spec fn good_choice(pools: Seq<PoolQuote>, amount: int, best: (Seq<Addr>, int)) -> bool {
    best.1 < 0 || (2 <= best.0.len() <= 4 && path_result(pools, best.0, amount) == Ok::<int, RouterError>(best.1))
}

proof fn lemma_after_two_good(
    pools: Seq<PoolQuote>,
    amount: int,
    token_in: Addr,
    token_out: Addr,
    hubs: Seq<Addr>,
    k: nat,
    start: (Seq<Addr>, int),
)
    requires
        good_choice(pools, amount, start),
    ensures
        good_choice(pools, amount, after_two_hop(pools, amount, token_in, token_out, hubs, k, start)),
    decreases k,
{
    if k > 0 {
        lemma_after_two_good(pools, amount, token_in, token_out, hubs, (k - 1) as nat, start);
    }
}

proof fn lemma_after_row_good(
    pools: Seq<PoolQuote>,
    amount: int,
    token_in: Addr,
    token_out: Addr,
    hubs: Seq<Addr>,
    i: int,
    k: nat,
    start: (Seq<Addr>, int),
)
    requires
        good_choice(pools, amount, start),
    ensures
        good_choice(pools, amount, after_three_hop_row(pools, amount, token_in, token_out, hubs, i, k, start)),
    decreases k,
{
    if k > 0 {
        lemma_after_row_good(pools, amount, token_in, token_out, hubs, i, (k - 1) as nat, start);
    }
}

proof fn lemma_after_three_good(
    pools: Seq<PoolQuote>,
    amount: int,
    token_in: Addr,
    token_out: Addr,
    hubs: Seq<Addr>,
    k: nat,
    start: (Seq<Addr>, int),
)
    requires
        good_choice(pools, amount, start),
    ensures
        good_choice(pools, amount, after_three_hop(pools, amount, token_in, token_out, hubs, k, start)),
    decreases k,
{
    if k > 0 {
        lemma_after_three_good(pools, amount, token_in, token_out, hubs, (k - 1) as nat, start);
        lemma_after_row_good(
            pools,
            amount,
            token_in,
            token_out,
            hubs,
            k - 1,
            hubs.len(),
            after_three_hop(pools, amount, token_in, token_out, hubs, (k - 1) as nat, start),
        );
    }
}


/// The routes the router compares: the direct route, the two-hop route
/// through each usable hub, and the three-hop route through each ordered
/// pair of distinct usable hubs.
pub open spec fn is_candidate_route(token_in: Addr, token_out: Addr, hubs: Seq<Addr>, route: Seq<Addr>) -> bool {
    ||| route == seq![token_in, token_out]
    ||| exists|k: int|
        0 <= k < hubs.len() && usable_hub(token_in, token_out, hubs[k]) && route == #[trigger] two_hop(
            token_in,
            token_out,
            hubs[k],
        )
    ||| exists|i: int, j: int|
        0 <= i < hubs.len() && 0 <= j < hubs.len() && i != j && usable_hub(token_in, token_out, hubs[i])
            && usable_hub(token_in, token_out, hubs[j]) && route == #[trigger] three_hop(
            token_in,
            token_out,
            hubs[i],
            hubs[j],
        )
}

/// The chosen output is at least the output of every candidate route that
/// prices: `get_best_path` finds the best of the routes it compares.
pub proof fn lemma_best_route_optimal(
    pools: Seq<PoolQuote>,
    token_in: Addr,
    token_out: Addr,
    hubs: Seq<Addr>,
    amount: int,
    route: Seq<Addr>,
)
    requires
        is_candidate_route(token_in, token_out, hubs, route),
        path_result(pools, route, amount) is Ok,
    ensures
        best_route(pools, token_in, token_out, hubs, amount).1 >= path_result(pools, route, amount)->Ok_0,
{
    let start = (Seq::<Addr>::empty(), -1int);
    let direct = consider(pools, amount, start, seq![token_in, token_out], true);
    let two = after_two_hop(pools, amount, token_in, token_out, hubs, hubs.len(), direct);
    let best = after_three_hop(pools, amount, token_in, token_out, hubs, hubs.len(), two);
    let o = path_result(pools, route, amount)->Ok_0;
    lemma_after_two_covers(pools, amount, token_in, token_out, hubs, hubs.len(), direct);
    lemma_after_three_covers(pools, amount, token_in, token_out, hubs, hubs.len(), two);
    if route == seq![token_in, token_out] {
        assert(direct.1 >= o);
    } else if exists|k: int|
        0 <= k < hubs.len() && usable_hub(token_in, token_out, hubs[k]) && route == #[trigger] two_hop(
            token_in,
            token_out,
            hubs[k],
        ) {
        let k = choose|k: int|
            0 <= k < hubs.len() && usable_hub(token_in, token_out, hubs[k]) && route == #[trigger] two_hop(
                token_in,
                token_out,
                hubs[k],
            );
        assert(two.1 >= path_result(pools, two_hop(token_in, token_out, hubs[k]), amount)->Ok_0);
    } else {
        let (i, j) = choose|i: int, j: int|
            0 <= i < hubs.len() && 0 <= j < hubs.len() && i != j && usable_hub(token_in, token_out, hubs[i])
                && usable_hub(token_in, token_out, hubs[j]) && route == #[trigger] three_hop(
                token_in,
                token_out,
                hubs[i],
                hubs[j],
            );
        assert(best.1 >= path_result(pools, three_hop(token_in, token_out, hubs[i], hubs[j]), amount)->Ok_0);
    }
}

proof fn lemma_after_two_covers(
    pools: Seq<PoolQuote>,
    amount: int,
    token_in: Addr,
    token_out: Addr,
    hubs: Seq<Addr>,
    k: nat,
    start: (Seq<Addr>, int),
)
    requires
        k <= hubs.len(),
    ensures
        after_two_hop(pools, amount, token_in, token_out, hubs, k, start).1 >= start.1,
        forall|m: int|
            0 <= m < k && usable_hub(token_in, token_out, hubs[m]) && path_result(
                pools,
                two_hop(token_in, token_out, hubs[m]),
                amount,
            ) is Ok ==> after_two_hop(pools, amount, token_in, token_out, hubs, k, start).1 >= path_result(
                pools,
                #[trigger] two_hop(token_in, token_out, hubs[m]),
                amount,
            )->Ok_0,
    decreases k,
{
    if k > 0 {
        lemma_after_two_covers(pools, amount, token_in, token_out, hubs, (k - 1) as nat, start);
    }
}

proof fn lemma_after_row_covers(
    pools: Seq<PoolQuote>,
    amount: int,
    token_in: Addr,
    token_out: Addr,
    hubs: Seq<Addr>,
    i: int,
    k: nat,
    start: (Seq<Addr>, int),
)
    requires
        0 <= i < hubs.len(),
        k <= hubs.len(),
    ensures
        after_three_hop_row(pools, amount, token_in, token_out, hubs, i, k, start).1 >= start.1,
        forall|m: int|
            0 <= m < k && i != m && usable_hub(token_in, token_out, hubs[i]) && usable_hub(
                token_in,
                token_out,
                hubs[m],
            ) && path_result(pools, three_hop(token_in, token_out, hubs[i], hubs[m]), amount) is Ok
                ==> after_three_hop_row(pools, amount, token_in, token_out, hubs, i, k, start).1
                >= path_result(pools, #[trigger] three_hop(token_in, token_out, hubs[i], hubs[m]), amount)->Ok_0,
    decreases k,
{
    if k > 0 {
        lemma_after_row_covers(pools, amount, token_in, token_out, hubs, i, (k - 1) as nat, start);
    }
}

proof fn lemma_after_three_covers(
    pools: Seq<PoolQuote>,
    amount: int,
    token_in: Addr,
    token_out: Addr,
    hubs: Seq<Addr>,
    k: nat,
    start: (Seq<Addr>, int),
)
    requires
        k <= hubs.len(),
    ensures
        after_three_hop(pools, amount, token_in, token_out, hubs, k, start).1 >= start.1,
        forall|i: int, m: int|
            0 <= i < k && 0 <= m < hubs.len() && i != m && usable_hub(token_in, token_out, hubs[i])
                && usable_hub(token_in, token_out, hubs[m]) && path_result(
                pools,
                three_hop(token_in, token_out, hubs[i], hubs[m]),
                amount,
            ) is Ok ==> after_three_hop(pools, amount, token_in, token_out, hubs, k, start).1
                >= path_result(pools, #[trigger] three_hop(token_in, token_out, hubs[i], hubs[m]), amount)->Ok_0,
    decreases k,
{
    if k > 0 {
        let prev = after_three_hop(pools, amount, token_in, token_out, hubs, (k - 1) as nat, start);
        lemma_after_three_covers(pools, amount, token_in, token_out, hubs, (k - 1) as nat, start);
        lemma_after_row_covers(pools, amount, token_in, token_out, hubs, k - 1, hubs.len(), prev);
    }
}

/// A choice is either "none yet" (-1) or one of the compared routes.
pub open spec fn candidate_choice(token_in: Addr, token_out: Addr, hubs: Seq<Addr>, best: (Seq<Addr>, int)) -> bool {
    best.1 < 0 || is_candidate_route(token_in, token_out, hubs, best.0)
}

proof fn lemma_after_two_candidate(
    pools: Seq<PoolQuote>,
    amount: int,
    token_in: Addr,
    token_out: Addr,
    hubs: Seq<Addr>,
    k: nat,
    start: (Seq<Addr>, int),
)
    requires
        k <= hubs.len(),
        candidate_choice(token_in, token_out, hubs, start),
    ensures
        candidate_choice(token_in, token_out, hubs, after_two_hop(pools, amount, token_in, token_out, hubs, k, start)),
    decreases k,
{
    if k > 0 {
        lemma_after_two_candidate(pools, amount, token_in, token_out, hubs, (k - 1) as nat, start);
        let h = hubs[k - 1];
        if usable_hub(token_in, token_out, h) {
            assert(two_hop(token_in, token_out, hubs[k - 1]) == two_hop(token_in, token_out, h));
            assert(is_candidate_route(token_in, token_out, hubs, two_hop(token_in, token_out, h)));
        }
    }
}

proof fn lemma_after_row_candidate(
    pools: Seq<PoolQuote>,
    amount: int,
    token_in: Addr,
    token_out: Addr,
    hubs: Seq<Addr>,
    i: int,
    k: nat,
    start: (Seq<Addr>, int),
)
    requires
        0 <= i < hubs.len(),
        k <= hubs.len(),
        candidate_choice(token_in, token_out, hubs, start),
    ensures
        candidate_choice(
            token_in,
            token_out,
            hubs,
            after_three_hop_row(pools, amount, token_in, token_out, hubs, i, k, start),
        ),
    decreases k,
{
    if k > 0 {
        lemma_after_row_candidate(pools, amount, token_in, token_out, hubs, i, (k - 1) as nat, start);
        let j = k - 1;
        if i != j && usable_hub(token_in, token_out, hubs[i]) && usable_hub(token_in, token_out, hubs[j]) {
            assert(is_candidate_route(token_in, token_out, hubs, three_hop(token_in, token_out, hubs[i], hubs[j])));
        }
    }
}

proof fn lemma_after_three_candidate(
    pools: Seq<PoolQuote>,
    amount: int,
    token_in: Addr,
    token_out: Addr,
    hubs: Seq<Addr>,
    k: nat,
    start: (Seq<Addr>, int),
)
    requires
        k <= hubs.len(),
        candidate_choice(token_in, token_out, hubs, start),
    ensures
        candidate_choice(token_in, token_out, hubs, after_three_hop(pools, amount, token_in, token_out, hubs, k, start)),
    decreases k,
{
    if k > 0 {
        lemma_after_three_candidate(pools, amount, token_in, token_out, hubs, (k - 1) as nat, start);
        lemma_after_row_candidate(
            pools,
            amount,
            token_in,
            token_out,
            hubs,
            k - 1,
            hubs.len(),
            after_three_hop(pools, amount, token_in, token_out, hubs, (k - 1) as nat, start),
        );
    }
}

/// The chosen route, when one prices, is one of the compared routes: it
/// starts at `token_in`, ends at `token_out`, and passes through one hub,
/// or two hubs at distinct positions of the hub list, none of which is
/// `token_in` or `token_out`.
pub proof fn lemma_best_route_is_candidate(
    pools: Seq<PoolQuote>,
    token_in: Addr,
    token_out: Addr,
    hubs: Seq<Addr>,
    amount: int,
)
    ensures
        ({
            let best = best_route(pools, token_in, token_out, hubs, amount);
            best.1 >= 0 ==> is_candidate_route(token_in, token_out, hubs, best.0) && best.0[0] == token_in
                && best.0.last() == token_out
        }),
{
    let start = (Seq::<Addr>::empty(), -1int);
    let direct = consider(pools, amount, start, seq![token_in, token_out], true);
    assert(candidate_choice(token_in, token_out, hubs, direct));
    lemma_after_two_candidate(pools, amount, token_in, token_out, hubs, hubs.len(), direct);
    let two = after_two_hop(pools, amount, token_in, token_out, hubs, hubs.len(), direct);
    lemma_after_three_candidate(pools, amount, token_in, token_out, hubs, hubs.len(), two);
    let best = best_route(pools, token_in, token_out, hubs, amount);
    if best.1 >= 0 {
        let r = best.0;
        if r == seq![token_in, token_out] {
        } else if exists|k: int|
            0 <= k < hubs.len() && usable_hub(token_in, token_out, hubs[k]) && r == #[trigger] two_hop(
                token_in,
                token_out,
                hubs[k],
            ) {
            let k = choose|k: int|
                0 <= k < hubs.len() && usable_hub(token_in, token_out, hubs[k]) && r == #[trigger] two_hop(
                    token_in,
                    token_out,
                    hubs[k],
                );
            assert(r[0] == token_in && r.last() == token_out);
        } else {
            let (i, j) = choose|i: int, j: int|
                0 <= i < hubs.len() && 0 <= j < hubs.len() && i != j && usable_hub(token_in, token_out, hubs[i])
                    && usable_hub(token_in, token_out, hubs[j]) && r == #[trigger] three_hop(
                    token_in,
                    token_out,
                    hubs[i],
                    hubs[j],
                );
            assert(r[0] == token_in && r.last() == token_out);
        }
    }
}

} // verus!
