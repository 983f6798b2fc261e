use coralswap::address::Addr;
use coralswap::ledger::{BurnMockToken, MintOneMockToken, MockToken};

fn addr(n: u128) -> Addr {
    Addr { kind: 1, hi: 0, lo: n }
}

#[test]
fn mock_token_balances() {
    let mut t = MockToken::new();
    assert_eq!(t.balance(addr(1)), 0);
    t.mint(addr(1), 1_000);
    t.mint(addr(2), 50);
    t.mint(addr(1), 10);
    assert_eq!(t.balance(addr(1)), 1_010);
    t.transfer(addr(1), addr(2), 300);
    assert_eq!((t.balance(addr(1)), t.balance(addr(2))), (710, 350));
    // Debit then credit: a transfer to oneself changes nothing.
    t.transfer(addr(2), addr(2), 100);
    assert_eq!(t.balance(addr(2)), 350);
    t.transfer_from(addr(9), addr(1), addr(2), 5);
    t.burn(addr(1), 5);
    t.burn_from(addr(9), addr(1), 5);
    t.approve(addr(1), addr(9), 5, 100);
    assert_eq!(t.balance(addr(1)), 710);
    assert_eq!(t.allowance(addr(1), addr(9)), 0);
    assert_eq!((t.decimals(), t.name(), t.symbol()), (7, "Mock", "MCK"));
}

#[test]
fn snapshot_token_balances() {
    let mut t = BurnMockToken::new();
    t.mint(addr(1), 1_000);
    t.transfer(addr(1), addr(2), 400);
    assert_eq!((t.balance(addr(1)), t.balance(addr(2))), (600, 400));
    // Both balances are read first, so a transfer to oneself credits it.
    t.transfer(addr(2), addr(2), 100);
    assert_eq!(t.balance(addr(2)), 500);
    let mut u: MintOneMockToken = MintOneMockToken::new();
    u.mint(addr(3), 7);
    assert_eq!(u.balance(addr(3)), 7);
}
