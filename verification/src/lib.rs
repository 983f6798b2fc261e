//! Verified core logic of the CoralSwap automated market maker: fixed-point
//! and 256-bit arithmetic, the pair's swap and single-sided liquidity math,
//! the reentrancy guard and oracle bookkeeping, the factory's pair registry
//! and governance rules, and the router's path finding, swap planning and
//! commit-reveal protection.

pub mod address;
pub mod errors;
pub mod wide;
pub mod math;
pub mod flash_loan;
pub mod router_helpers;
pub mod routing;
pub mod router;
pub mod factory;
pub mod pair;
pub mod events;
pub mod receivers;
pub mod ledger;
pub mod commitment;
pub mod hashing;
pub mod liquidity;
