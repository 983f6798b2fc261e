use coralswap::address::{Addr, Digest};
use coralswap::errors::RouterError;
use coralswap::hashing::compute_swap_hash;
use soroban_sdk::Env;
use coralswap::router::{
    check_withdrawal, default_commit_config, get_commit, is_nonce_used, Action, CommitEntry,
    Router, RouterCommitConfig, DEFAULT_COMMIT_EXPIRY_LEDGERS, DEFAULT_MAX_COMMITS,
};
use coralswap::router_helpers::{compute_optimal_amounts, get_amount_in, get_amount_out, sort_tokens};
use coralswap::routing::{find_pool, get_path_amounts_out, quote_path, PoolQuote};

fn addr(n: u128) -> Addr {
    Addr { kind: 1, hi: 0, lo: n }
}

/// A pool of `x` and `y` with reserves given in that order, stored sorted.
fn pool(x: Addr, y: Addr, reserve_x: i128, reserve_y: i128, fee_bps: u32, pair: Addr) -> PoolQuote {
    if x.lt(&y) {
        PoolQuote { token_0: x, token_1: y, pair, reserve_0: reserve_x, reserve_1: reserve_y, fee_bps }
    } else {
        PoolQuote { token_0: y, token_1: x, pair, reserve_0: reserve_y, reserve_1: reserve_x, fee_bps }
    }
}

fn router_with(hubs: Vec<Addr>) -> Router {
    let mut r = Router::new();
    r.initialize(addr(900), hubs).unwrap();
    r
}

const A: u128 = 1;
const B: u128 = 2;
const H1: u128 = 10;
const H2: u128 = 11;

#[test]
fn test_contract_compiles() {
    // Contract compiles and links correctly
}

#[test]
fn test_get_best_path_direct_pair() {
    let router = router_with(vec![]);
    let pools = vec![pool(addr(A), addr(B), 100_000, 100_000, 30, addr(500))];
    let (path, out) = router.get_best_path(&pools, addr(A), addr(B), 1_000).unwrap();
    assert_eq!(path, vec![addr(A), addr(B)]);
    assert_eq!(out, 987);
}

#[test]
fn test_get_best_path_two_hop() {
    let router = router_with(vec![addr(H1)]);
    let pools = vec![
        pool(addr(A), addr(H1), 100_000, 100_000, 30, addr(501)),
        pool(addr(H1), addr(B), 200_000, 200_000, 30, addr(502)),
    ];
    let (path, out) = router.get_best_path(&pools, addr(A), addr(B), 1_000).unwrap();
    assert_eq!(path.len(), 3, "2-hop path must have 3 entries");
    assert_eq!(path, vec![addr(A), addr(H1), addr(B)]);
    assert!(out > 0, "expected output must be positive");
    assert_eq!(out, 979);
}

#[test]
fn best_path_two_hop_through_uneven_pools() {
    let router = router_with(vec![addr(H1)]);
    let pools = vec![
        pool(addr(A), addr(H1), 100_000, 200_000, 30, addr(501)),
        pool(addr(H1), addr(B), 200_000, 100_000, 30, addr(502)),
    ];
    let (path, out) = router.get_best_path(&pools, addr(A), addr(B), 1_000).unwrap();
    assert_eq!(path, vec![addr(A), addr(H1), addr(B)]);
    assert_eq!(out, 974);
}

#[test]
fn test_get_best_path_prefers_highest_output() {
    let router = router_with(vec![addr(H1), addr(H2)]);
    let pools = vec![
        pool(addr(A), addr(B), 500, 500, 30, addr(500)),
        pool(addr(A), addr(H1), 100_000, 100_000, 30, addr(501)),
        pool(addr(H1), addr(B), 100_000, 100_000, 30, addr(502)),
        pool(addr(A), addr(H2), 1_000, 1_000, 30, addr(503)),
        pool(addr(H2), addr(B), 1_000, 1_000, 30, addr(504)),
    ];
    let (path, out) = router.get_best_path(&pools, addr(A), addr(B), 1_000).unwrap();
    assert_eq!(path, vec![addr(A), addr(H1), addr(B)]);
    assert_eq!(out, 974);
}

#[test]
fn test_get_best_path_three_hop() {
    let router = router_with(vec![addr(H1), addr(H2)]);
    let pools = vec![
        pool(addr(A), addr(H1), 100_000, 100_000, 30, addr(501)),
        pool(addr(H1), addr(H2), 100_000, 100_000, 30, addr(502)),
        pool(addr(H2), addr(B), 100_000, 100_000, 30, addr(503)),
    ];
    let (path, out) = router.get_best_path(&pools, addr(A), addr(B), 1_000).unwrap();
    assert_eq!(path, vec![addr(A), addr(H1), addr(H2), addr(B)]);
    assert_eq!(out, 961);
}

#[test]
fn test_get_best_path_identical_tokens() {
    let router = router_with(vec![]);
    let pools = vec![pool(addr(A), addr(B), 100_000, 100_000, 30, addr(500))];
    assert_eq!(router.get_best_path(&pools, addr(A), addr(A), 1_000), Err(RouterError::IdenticalTokens));
}

#[test]
fn test_get_best_path_zero_amount() {
    let router = router_with(vec![]);
    let pools = vec![pool(addr(A), addr(B), 100_000, 100_000, 30, addr(500))];
    assert_eq!(router.get_best_path(&pools, addr(A), addr(B), 0), Err(RouterError::ZeroAmount));
}

#[test]
fn test_get_best_path_no_factory_set() {
    let pools = vec![pool(addr(A), addr(B), 100_000, 100_000, 30, addr(500))];
    let uninitialized = Router::new();
    assert_eq!(uninitialized.get_best_path(&pools, addr(A), addr(B), 1_000), Err(RouterError::PairNotFound));
}

#[test]
fn test_get_best_path_no_route() {
    let router = router_with(vec![addr(H1)]);
    let pools: Vec<PoolQuote> = vec![];
    assert_eq!(router.get_best_path(&pools, addr(A), addr(B), 1_000), Err(RouterError::PairNotFound));
}

#[test]
fn multi_hop_swap_plan() {
    let router = router_with(vec![addr(H1)]);
    let pools = vec![
        pool(addr(A), addr(H1), 100_000, 200_000, 30, addr(501)),
        pool(addr(H1), addr(B), 200_000, 100_000, 30, addr(502)),
    ];
    let user = addr(77);
    let me = addr(88);
    let path = vec![addr(A), addr(H1), addr(B)];
    let (out, actions) =
        router.swap_exact_tokens_multi_hop(&pools, &path, 1_000, 900, user, 100, 50, me).unwrap();
    assert_eq!(out, 974);
    assert_eq!(
        actions,
        vec![
            Action::RequireAuth { address: user },
            Action::Transfer { token: addr(A), from: user, to: addr(501), amount: 1_000 },
            // A < H1: the pair pays out its second token.
            Action::Swap { pair: addr(501), amount_a_out: 0, amount_b_out: 1_974, to: me },
            Action::Transfer { token: addr(H1), from: me, to: addr(502), amount: 1_974 },
            // H1 > B: the pair pays out its first token.
            Action::Swap { pair: addr(502), amount_a_out: 974, amount_b_out: 0, to: user },
        ]
    );
}

#[test]
fn multi_hop_swap_errors() {
    let router = router_with(vec![]);
    let pools = vec![pool(addr(A), addr(B), 100_000, 100_000, 30, addr(500))];
    let path = vec![addr(A), addr(B)];
    let user = addr(77);
    let me = addr(88);
    assert_eq!(
        router.swap_exact_tokens_multi_hop(&pools, &path, 1_000, 0, user, 10, 11, me),
        Err(RouterError::Expired)
    );
    assert_eq!(
        router.swap_exact_tokens_multi_hop(&pools, &path, 0, 0, user, 10, 10, me),
        Err(RouterError::ZeroAmount)
    );
    assert_eq!(
        router.swap_exact_tokens_multi_hop(&pools, &vec![addr(A)], 1_000, 0, user, 10, 10, me),
        Err(RouterError::InvalidPath)
    );
    assert_eq!(
        router.swap_exact_tokens_multi_hop(&pools, &path, 1_000, 988, user, 10, 10, me),
        Err(RouterError::InsufficientOutputAmount)
    );
    assert_eq!(
        router.swap_exact_tokens_multi_hop(&pools, &vec![addr(A), addr(H1)], 1_000, 0, user, 10, 10, me),
        Err(RouterError::PairNotFound)
    );
    let (amounts, _) =
        router.swap_exact_tokens_for_tokens(&pools, 1_000, 987, &path, user, 10, 10, me).unwrap();
    assert_eq!(amounts, vec![987]);
}

#[test]
fn exact_output_swap() {
    let router = router_with(vec![]);
    let pools = vec![pool(addr(A), addr(B), 100_000, 100_000, 30, addr(500))];
    let user = addr(77);
    let me = addr(88);
    let path = vec![addr(A), addr(B)];
    let (amounts, actions) =
        router.swap_tokens_for_exact_tokens(&pools, 900, 1_000, &path, user, 10, 10, me).unwrap();
    assert_eq!(amounts, vec![911]);
    assert_eq!(
        actions,
        vec![
            Action::RequireAuth { address: user },
            Action::Transfer { token: addr(A), from: user, to: addr(500), amount: 911 },
            Action::Swap { pair: addr(500), amount_a_out: 0, amount_b_out: 900, to: user },
        ]
    );
    assert_eq!(
        router.swap_tokens_for_exact_tokens(&pools, 900, 910, &path, user, 10, 10, me),
        Err(RouterError::ExcessiveInputAmount)
    );
    assert_eq!(
        router.swap_tokens_for_exact_tokens(&pools, 100_000, 1_000_000, &path, user, 10, 10, me),
        Err(RouterError::InsufficientLiquidity)
    );
}

#[test]
fn exact_output_two_hops() {
    let router = router_with(vec![addr(H1)]);
    let pools = vec![
        pool(addr(A), addr(H1), 100_000, 200_000, 30, addr(501)),
        pool(addr(H1), addr(B), 200_000, 100_000, 30, addr(502)),
    ];
    let path = vec![addr(A), addr(H1), addr(B)];
    let (amounts, _) =
        router.swap_tokens_for_exact_tokens(&pools, 500, 10_000, &path, addr(77), 10, 10, addr(88)).unwrap();
    assert_eq!(amounts, vec![509]);
}

#[test]
fn liquidity_plans() {
    let router = router_with(vec![]);
    let user = addr(77);
    let pools = vec![pool(addr(A), addr(B), 100_000, 200_000, 30, addr(500))];
    let (a, b, actions) = router
        .add_liquidity(&pools, addr(A), addr(B), 1_000, 5_000, 0, 0, user, 10, 10)
        .unwrap();
    assert_eq!((a, b), (1_000, 2_000));
    assert_eq!(
        actions,
        vec![
            Action::RequireAuth { address: user },
            Action::Transfer { token: addr(A), from: user, to: addr(500), amount: 1_000 },
            Action::Transfer { token: addr(B), from: user, to: addr(500), amount: 2_000 },
            Action::Mint { pair: addr(500), to: user },
        ]
    );
    assert_eq!(
        router.add_liquidity(&pools, addr(A), addr(B), 1_000, 5_000, 0, 2_001, user, 10, 10),
        Err(RouterError::SlippageExceeded)
    );
    assert_eq!(
        router.add_liquidity(&pools, addr(A), addr(A), 1_000, 5_000, 0, 0, user, 10, 10),
        Err(RouterError::IdenticalTokens)
    );
    assert_eq!(
        router.add_liquidity(&pools, addr(A), addr(B), 0, 5_000, 0, 0, user, 10, 10),
        Err(RouterError::ZeroAmount)
    );

    let (pair, actions) = router.remove_liquidity(&pools, addr(B), addr(A), 700, user, 10, 10).unwrap();
    assert_eq!(pair, addr(500));
    assert_eq!(
        actions,
        vec![
            Action::RequireAuth { address: user },
            Action::TransferLiquidity { pair: addr(500), from: user, amount: 700 },
            Action::Burn { pair: addr(500), to: user },
        ]
    );
    assert_eq!(router.remove_liquidity(&pools, addr(B), addr(A), 0, user, 10, 10), Err(RouterError::ZeroAmount));
    assert_eq!(router.remove_liquidity(&pools, addr(B), addr(A), 5, user, 9, 10), Err(RouterError::Expired));
    assert_eq!(check_withdrawal(10, 20, 10, 20), Ok((10, 20)));
    assert_eq!(check_withdrawal(10, 20, 11, 20), Err(RouterError::InsufficientOutputAmount));
}

#[test]
fn optimal_amounts_and_quotes() {
    assert_eq!(compute_optimal_amounts(1_000, 1_000, 0, 0, 0, 0), Ok((1_000, 1_000)));
    assert_eq!(compute_optimal_amounts(1_000, 1_000, 0, 0, 100, 300), Ok((333, 1_000)));
    assert_eq!(compute_optimal_amounts(1_000, 1_000, 0, 0, 0, 300), Err(RouterError::InsufficientLiquidity));
    assert_eq!(compute_optimal_amounts(1_000, 1_000, 334, 0, 100, 300), Err(RouterError::SlippageExceeded));
    assert_eq!(get_amount_out(1_000, 100_000, 100_000, 30), Ok(987));
    assert_eq!(get_amount_out(0, 100_000, 100_000, 30), Err(RouterError::ZeroAmount));
    assert_eq!(get_amount_out(1_000, 0, 100_000, 30), Err(RouterError::InsufficientLiquidity));
    assert_eq!(get_amount_in(900, 100_000, 100_000, 30), Ok(911));
    assert_eq!(get_amount_in(100_000, 100_000, 100_000, 30), Err(RouterError::InsufficientLiquidity));
    assert_eq!(get_amount_in(900, 100_000, 100_000, 10_000), Err(RouterError::InternalError));
    // What get_amount_in asks for always buys at least the requested output.
    let need = get_amount_in(900, 100_000, 100_000, 30).unwrap();
    assert!(get_amount_out(need, 100_000, 100_000, 30).unwrap() >= 900);
    assert_eq!(sort_tokens(&addr(B), &addr(A)), Ok((addr(A), addr(B))));
    assert_eq!(sort_tokens(&addr(A), &addr(A)), Err(RouterError::IdenticalTokens));
}

#[test]
fn path_pricing() {
    let pools = vec![
        pool(addr(A), addr(H1), 100_000, 200_000, 30, addr(501)),
        pool(addr(H1), addr(B), 200_000, 100_000, 30, addr(502)),
    ];
    let path = vec![addr(A), addr(H1), addr(B)];
    assert_eq!(get_path_amounts_out(&pools, &path, 1_000), Ok(vec![1_974, 974]));
    assert_eq!(quote_path(&pools, &path, 1_000), Some(974));
    assert_eq!(quote_path(&pools, &vec![addr(A), addr(B)], 1_000), None);
    assert_eq!(find_pool(&pools, &addr(H1), &addr(A)).map(|q| q.pair), Some(addr(501)));
}

#[test]
fn commit_reveal_lifecycle() {
    let mut router = router_with(vec![]);
    let pools = vec![pool(addr(A), addr(B), 100_000, 100_000, 30, addr(500))];
    let user = addr(77);
    let me = addr(88);
    let hash = commitment(user, 1_000, 7);
    let env = env();
    let (x_user, x_a, x_b) = (xdr(user), xdr(addr(A)), xdr(addr(B)));

    assert_eq!(
        router.reveal_swap(&pools, user, addr(A), addr(B), 1_000, 0, 7, &env, &x_user, &x_a, &x_b, salt(1_000, 7), 101, 0, me),
        Err(RouterError::CommitNotFound)
    );
    router.commit_swap(user, hash, 100).unwrap();
    assert_eq!(get_commit(&router.commits, &user), Some(CommitEntry { hash, ledger: 100 }));
    assert_eq!(
        router.reveal_swap(&pools, user, addr(A), addr(B), 1_000, 0, 7, &env, &x_user, &x_a, &x_b, salt(1_000, 7), 100, 0, me),
        Err(RouterError::CommitRevealTooEarly)
    );
    assert_eq!(
        router.reveal_swap(&pools, user, addr(A), addr(B), 1_000, 0, 7, &env, &x_user, &x_a, &x_b, salt(1, 2), 101, 0, me),
        Err(RouterError::CommitHashMismatch)
    );
    let (out, actions) =
        router.reveal_swap(&pools, user, addr(A), addr(B), 1_000, 0, 7, &env, &x_user, &x_a, &x_b, salt(1_000, 7), 101, 0, me).unwrap();
    assert_eq!(out, 987);
    assert_eq!(actions.len(), 3);
    assert_eq!(get_commit(&router.commits, &user), None);
    assert!(is_nonce_used(&router.used_nonces, &user, 7));

    // A replayed nonce is refused even under a fresh commitment.
    router.commit_swap(user, hash, 200).unwrap();
    assert_eq!(
        router.reveal_swap(&pools, user, addr(A), addr(B), 1_000, 0, 7, &env, &x_user, &x_a, &x_b, salt(1_000, 7), 201, 0, me),
        Err(RouterError::NonceAlreadyUsed)
    );
    // A failed reveal leaves the commitment in place.
    assert_eq!(get_commit(&router.commits, &user), Some(CommitEntry { hash, ledger: 200 }));
}

#[test]
fn router_storage_accessors() {
    let mut router = Router::new();
    assert_eq!(router.get_factory(), None);
    assert_eq!(router.get_commit_count(), 0);
    assert_eq!(router.get_commit_config(), default_commit_config());
    assert_eq!(
        default_commit_config(),
        RouterCommitConfig { max_commits: DEFAULT_MAX_COMMITS, expiry_ledgers: DEFAULT_COMMIT_EXPIRY_LEDGERS }
    );
    assert_eq!((DEFAULT_MAX_COMMITS, DEFAULT_COMMIT_EXPIRY_LEDGERS), (32, 1_000));
    router.set_factory(addr(900));
    router.set_commit_count(3);
    router.set_commit_config(&RouterCommitConfig { max_commits: 5, expiry_ledgers: 60 });
    router.set_hubs(vec![addr(H1)]);
    assert_eq!(router.get_factory(), Some(addr(900)));
    assert_eq!(router.get_commit_count(), 3);
    assert_eq!(router.get_commit_config(), RouterCommitConfig { max_commits: 5, expiry_ledgers: 60 });
    assert_eq!(router.get_hubs(), &vec![addr(H1)]);

    router.set_commit(addr(1), CommitEntry { hash: Digest { hi: 0, lo: 1 }, ledger: 5 });
    router.set_commit(addr(2), CommitEntry { hash: Digest { hi: 0, lo: 2 }, ledger: 6 });
    router.clear_commit(addr(1));
    assert_eq!(get_commit(&router.commits, &addr(1)), None);
    assert_eq!(get_commit(&router.commits, &addr(2)).map(|e| e.ledger), Some(6));
    // Clearing a commitment lowers the count; clearing none leaves it.
    assert_eq!(router.get_commit_count(), 2);
    router.clear_commit(addr(1));
    assert_eq!(router.get_commit_count(), 2);
    router.set_nonce_used(addr(1), 9);
    assert!(is_nonce_used(&router.used_nonces, &addr(1), 9));
    assert!(!is_nonce_used(&router.used_nonces, &addr(2), 9));
}

#[test]
fn router_error_codes() {
    assert_eq!(RouterError::Expired.code(), 300);
    assert_eq!(RouterError::CommitHashMismatch.code(), 312);
    assert_eq!(RouterError::InvalidCommitConfig.code(), 317);
    assert_eq!(RouterError::AlreadyInitialized.code(), 318);
}

#[test]
fn test_swap_multi_hop_expired_deadline() {
    let router = router_with(vec![]);
    let path = vec![addr(A), addr(B)];
    // The deadline lies before the ledger timestamp 2000.
    assert_eq!(
        router.swap_exact_tokens_multi_hop(&vec![], &path, 1_000, 1, addr(77), 1, 2_000, addr(88)),
        Err(RouterError::Expired)
    );
}

#[test]
fn test_swap_multi_hop_zero_amount() {
    let router = router_with(vec![]);
    let path = vec![addr(A), addr(B)];
    assert_eq!(
        router.swap_exact_tokens_multi_hop(&vec![], &path, 0, 1, addr(77), u64::MAX, 0, addr(88)),
        Err(RouterError::ZeroAmount)
    );
}

#[test]
fn test_swap_multi_hop_invalid_path_too_short() {
    let router = router_with(vec![]);
    assert_eq!(
        router.swap_exact_tokens_multi_hop(&vec![], &vec![addr(A)], 1_000, 1, addr(77), u64::MAX, 0, addr(88)),
        Err(RouterError::InvalidPath)
    );
}

#[test]
fn test_swap_multi_hop_invalid_path_too_long() {
    let router = router_with(vec![]);
    let path = vec![addr(1), addr(2), addr(3), addr(4), addr(5)];
    assert_eq!(
        router.swap_exact_tokens_multi_hop(&vec![], &path, 1_000, 1, addr(77), u64::MAX, 0, addr(88)),
        Err(RouterError::InvalidPath)
    );
}

#[test]
fn test_swap_exact_out_expired_deadline() {
    let router = router_with(vec![]);
    let path = vec![addr(A), addr(B)];
    assert_eq!(
        router.swap_tokens_for_exact_tokens(&vec![], 100, 1_000, &path, addr(77), 1, 2_000, addr(88)),
        Err(RouterError::Expired)
    );
}

#[test]
fn test_swap_exact_out_zero_amount() {
    let router = router_with(vec![]);
    let path = vec![addr(A), addr(B)];
    assert_eq!(
        router.swap_tokens_for_exact_tokens(&vec![], 0, 1_000, &path, addr(77), u64::MAX, 0, addr(88)),
        Err(RouterError::ZeroAmount)
    );
}

#[test]
fn test_swap_exact_out_invalid_path() {
    let router = router_with(vec![]);
    assert_eq!(
        router.swap_tokens_for_exact_tokens(&vec![], 100, 1_000, &vec![addr(A)], addr(77), u64::MAX, 0, addr(88)),
        Err(RouterError::InvalidPath)
    );
}

/// Stand-in for the SHA-256 commitment the host computes over the swap's
/// preimage: distinct parameters give distinct digests here.
/// A stand-in for the XDR encoding of an address.
fn xdr(a: Addr) -> Vec<u8> {
    let mut v = vec![a.kind];
    v.extend_from_slice(&a.hi.to_be_bytes());
    v.extend_from_slice(&a.lo.to_be_bytes());
    v
}

fn env() -> Env {
    Env::default()
}

fn salt(amount_in: i128, nonce: u64) -> Digest {
    Digest { hi: amount_in as u128, lo: nonce as u128 }
}

/// The commitment of a swap of `amount_in` of A for B by `sender`, with no
/// minimum output.
fn commitment(sender: Addr, amount_in: i128, nonce: u64) -> Digest {
    compute_swap_hash(
        &env(),
        &xdr(sender),
        &xdr(addr(A)),
        &xdr(addr(B)),
        amount_in,
        0,
        nonce,
        salt(amount_in, nonce),
    )
}

#[test]
fn test_commit_swap_stores_entry() {
    let mut router = router_with(vec![]);
    let sender = addr(77);
    let hash = commitment(sender, 1_000, 1);
    router.commit_swap(sender, hash, 0).unwrap();
    assert_eq!(get_commit(&router.commits, &sender), Some(CommitEntry { hash, ledger: 0 }));
}

#[test]
fn test_reveal_without_commit_fails() {
    let mut router = router_with(vec![]);
    assert_eq!(
        router.reveal_swap(&vec![], addr(77), addr(A), addr(B), 1_000, 0, 1, &env(), &xdr(addr(77)), &xdr(addr(A)), &xdr(addr(B)), salt(1_000, 1), 1, 0, addr(88)),
        Err(RouterError::CommitNotFound)
    );
}

#[test]
fn test_reveal_same_ledger_fails() {
    let mut router = router_with(vec![]);
    router.commit_swap(addr(77), commitment(addr(77), 1_000, 1), 5).unwrap();
    assert_eq!(
        router.reveal_swap(&vec![], addr(77), addr(A), addr(B), 1_000, 0, 1, &env(), &xdr(addr(77)), &xdr(addr(A)), &xdr(addr(B)), salt(1_000, 1), 5, 0, addr(88)),
        Err(RouterError::CommitRevealTooEarly)
    );
}

#[test]
fn test_reveal_wrong_hash_fails() {
    let mut router = router_with(vec![]);
    router.commit_swap(addr(77), commitment(addr(77), 1_000, 1), 5).unwrap();
    assert_eq!(
        router.reveal_swap(&vec![], addr(77), addr(A), addr(B), 9_999, 0, 1, &env(), &xdr(addr(77)), &xdr(addr(A)), &xdr(addr(B)), salt(9_999, 1), 6, 0, addr(88)),
        Err(RouterError::CommitHashMismatch)
    );
}

#[test]
fn test_reveal_nonce_replay_fails() {
    let mut router = router_with(vec![]);
    router.set_nonce_used(addr(77), 42);
    router.commit_swap(addr(77), commitment(addr(77), 1_000, 42), 5).unwrap();
    assert_eq!(
        router.reveal_swap(&vec![], addr(77), addr(A), addr(B), 1_000, 0, 42, &env(), &xdr(addr(77)), &xdr(addr(A)), &xdr(addr(B)), salt(1_000, 42), 6, 0, addr(88)),
        Err(RouterError::NonceAlreadyUsed)
    );
}

#[test]
fn test_commit_reveal_full_lifecycle() {
    let mut router = router_with(vec![]);
    let pools = vec![pool(addr(A), addr(B), 1_000_000, 1_000_000, 30, addr(500))];
    let sender = addr(77);
    router.commit_swap(sender, commitment(sender, 1_000, 7), 5).unwrap();
    let (out, _) = router
        .reveal_swap(&pools, sender, addr(A), addr(B), 1_000, 0, 7, &env(), &xdr(sender), &xdr(addr(A)), &xdr(addr(B)), salt(1_000, 7), 6, 0, addr(88))
        .unwrap();
    assert!(out > 0, "revealed swap must return positive output");
    router.commit_swap(sender, commitment(sender, 1_000, 7), 6).unwrap();
    assert_eq!(
        router.reveal_swap(&pools, sender, addr(A), addr(B), 1_000, 0, 7, &env(), &xdr(sender), &xdr(addr(A)), &xdr(addr(B)), salt(1_000, 7), 7, 0, addr(88)),
        Err(RouterError::NonceAlreadyUsed)
    );
}

#[test]
fn router_initializes_once() {
    let mut router = router_with(vec![addr(H1)]);
    assert_eq!(router.initialize(addr(901), vec![]), Err(RouterError::AlreadyInitialized));
    assert_eq!(router.get_factory(), Some(addr(900)));
    assert_eq!(router.get_hubs(), &vec![addr(H1)]);
}

#[test]
fn empty_path_is_refused_after_deadline_and_amount() {
    let router = router_with(vec![]);
    let empty: Vec<Addr> = vec![];
    assert_eq!(
        router.swap_exact_tokens_multi_hop(&vec![], &empty, 1_000, 1, addr(77), 1, 2_000, addr(88)),
        Err(RouterError::Expired)
    );
    assert_eq!(
        router.swap_exact_tokens_multi_hop(&vec![], &empty, 0, 1, addr(77), u64::MAX, 0, addr(88)),
        Err(RouterError::ZeroAmount)
    );
    assert_eq!(
        router.swap_exact_tokens_multi_hop(&vec![], &empty, 1_000, 1, addr(77), u64::MAX, 0, addr(88)),
        Err(RouterError::InvalidPath)
    );
    assert_eq!(
        router.swap_exact_tokens_for_tokens(&vec![], 1_000, 1, &empty, addr(77), u64::MAX, 0, addr(88)),
        Err(RouterError::InvalidPath)
    );
    assert_eq!(
        router.swap_tokens_for_exact_tokens(&vec![], 100, 1_000, &empty, addr(77), u64::MAX, 0, addr(88)),
        Err(RouterError::InvalidPath)
    );
}

#[test]
fn expired_commit_cannot_be_revealed() {
    let mut router = router_with(vec![]);
    let pools = vec![pool(addr(A), addr(B), 1_000_000, 1_000_000, 30, addr(500))];
    router.commit_swap(addr(77), commitment(addr(77), 1_000, 1), 5).unwrap();
    // The default expiry is 1_000 ledgers: ledger 1_005 is the last one.
    assert_eq!(
        router.reveal_swap(&pools, addr(77), addr(A), addr(B), 1_000, 0, 1, &env(), &xdr(addr(77)), &xdr(addr(A)), &xdr(addr(B)), salt(1_000, 1), 1_006, 0, addr(88)),
        Err(RouterError::CommitExpired)
    );
    assert!(router
        .reveal_swap(&pools, addr(77), addr(A), addr(B), 1_000, 0, 1, &env(), &xdr(addr(77)), &xdr(addr(A)), &xdr(addr(B)), salt(1_000, 1), 1_005, 0, addr(88))
        .is_ok());
    router.set_commit_config(&RouterCommitConfig { max_commits: 32, expiry_ledgers: 10 });
    router.commit_swap(addr(78), commitment(addr(78), 1_000, 2), 5).unwrap();
    assert_eq!(
        router.reveal_swap(&pools, addr(78), addr(A), addr(B), 1_000, 0, 2, &env(), &xdr(addr(78)), &xdr(addr(A)), &xdr(addr(B)), salt(1_000, 2), 16, 0, addr(88)),
        Err(RouterError::CommitExpired)
    );
}

#[test]
fn live_commits_are_capped() {
    let mut router = router_with(vec![]);
    let pools = vec![pool(addr(A), addr(B), 1_000_000, 1_000_000, 30, addr(500))];
    router.set_commit_config(&RouterCommitConfig { max_commits: 2, expiry_ledgers: 1_000 });
    router.commit_swap(addr(1), commitment(addr(1), 1_000, 1), 5).unwrap();
    router.commit_swap(addr(2), commitment(addr(2), 1_000, 2), 5).unwrap();
    assert_eq!(router.get_commit_count(), 2);
    assert_eq!(router.commit_swap(addr(3), commitment(addr(3), 1_000, 3), 5), Err(RouterError::TooManyCommits));
    // A pending sender may still replace its own commitment.
    assert_eq!(router.commit_swap(addr(2), commitment(addr(2), 1_000, 4), 6), Ok(()));
    assert_eq!(router.get_commit_count(), 2);
    // A reveal frees a place.
    router
        .reveal_swap(&pools, addr(1), addr(A), addr(B), 1_000, 0, 1, &env(), &xdr(addr(1)), &xdr(addr(A)), &xdr(addr(B)), salt(1_000, 1), 6, 0, addr(88))
        .unwrap();
    assert_eq!(router.get_commit_count(), 1);
    assert_eq!(router.commit_swap(addr(3), commitment(addr(3), 1_000, 3), 7), Ok(()));
}

#[test]
fn expired_commits_do_not_count_against_the_cap() {
    let mut router = router_with(vec![]);
    router.set_commit_config(&RouterCommitConfig { max_commits: 2, expiry_ledgers: 10 });
    router.commit_swap(addr(1), commitment(addr(1), 1_000, 1), 5).unwrap();
    router.commit_swap(addr(2), commitment(addr(2), 1_000, 2), 5).unwrap();
    // At ledger 15 both are still live: a third sender is refused.
    assert_eq!(router.commit_swap(addr(3), commitment(addr(3), 1_000, 3), 15), Err(RouterError::TooManyCommits));
    // At ledger 16 both have expired: they are pruned and no longer count.
    assert_eq!(router.commit_swap(addr(3), commitment(addr(3), 1_000, 3), 16), Ok(()));
    assert_eq!(router.get_commit_count(), 1);
    assert_eq!(get_commit(&router.commits, &addr(1)), None);
    assert_eq!(get_commit(&router.commits, &addr(2)), None);
    assert_eq!(get_commit(&router.commits, &addr(3)).map(|e| e.ledger), Some(16));
    // One live commitment is left, so one more sender fits.
    assert_eq!(router.commit_swap(addr(4), commitment(addr(4), 1_000, 4), 17), Ok(()));
    assert_eq!(router.get_commit_count(), 2);
    assert_eq!(router.commit_swap(addr(5), commitment(addr(5), 1_000, 5), 17), Err(RouterError::TooManyCommits));
}
