use vstd::prelude::*;

verus! {

/// Errors raised by the pair's arithmetic and guard logic.
#[derive(Clone, Copy, Debug, PartialEq, Eq, Structural)]
pub enum PairError {
    Locked,
    InvalidInput,
    Overflow,
    FeeOverflow,
    FlashLoanFeeTooHigh,
}

} // verus!

verus! {

/// Errors raised by the router.
#[derive(Clone, Copy, Debug, PartialEq, Eq, Structural)]
pub enum RouterError {
    Expired,
    InsufficientOutputAmount,
    ExcessiveInputAmount,
    InvalidPath,
    PairNotFound,
    IdenticalTokens,
    ZeroAmount,
    InsufficientLiquidity,
    SlippageExceeded,
    InternalError,
    CommitNotFound,
    CommitRevealTooEarly,
    CommitHashMismatch,
    NonceAlreadyUsed,
    /// Dust amount below the minimum-reserve policy floor.
    DustAmount,
    /// Commit expired past its reveal window.
    CommitExpired,
    /// Too many live commits.
    TooManyCommits,
    /// Invalid commit-config values.
    InvalidCommitConfig,
    /// The router was already initialized.
    AlreadyInitialized,
}

/// The stable numeric code of a router error, in the router's range
/// 300–399.
pub open spec fn router_error_code(e: RouterError) -> u32 {
    match e {
        RouterError::Expired => 300,
        RouterError::InsufficientOutputAmount => 301,
        RouterError::ExcessiveInputAmount => 302,
        RouterError::InvalidPath => 303,
        RouterError::PairNotFound => 304,
        RouterError::IdenticalTokens => 305,
        RouterError::ZeroAmount => 306,
        RouterError::InsufficientLiquidity => 307,
        RouterError::SlippageExceeded => 308,
        RouterError::InternalError => 309,
        RouterError::CommitNotFound => 310,
        RouterError::CommitRevealTooEarly => 311,
        RouterError::CommitHashMismatch => 312,
        RouterError::NonceAlreadyUsed => 313,
        RouterError::DustAmount => 314,
        RouterError::CommitExpired => 315,
        RouterError::TooManyCommits => 316,
        RouterError::InvalidCommitConfig => 317,
        RouterError::AlreadyInitialized => 318,
    }
}

/// Distinct router errors have distinct codes, all within 300–399.
pub proof fn lemma_router_codes_distinct(a: RouterError, b: RouterError)
    ensures
        300 <= router_error_code(a) <= 399,
        a != b ==> router_error_code(a) != router_error_code(b),
{
}

impl RouterError {
    /// The stable numeric code of the error.
    pub fn code(&self) -> (c: u32)
        ensures
            c == router_error_code(*self),
    {
        match self {
            RouterError::Expired => 300,
            RouterError::InsufficientOutputAmount => 301,
            RouterError::ExcessiveInputAmount => 302,
            RouterError::InvalidPath => 303,
            RouterError::PairNotFound => 304,
            RouterError::IdenticalTokens => 305,
            RouterError::ZeroAmount => 306,
            RouterError::InsufficientLiquidity => 307,
            RouterError::SlippageExceeded => 308,
            RouterError::InternalError => 309,
            RouterError::CommitNotFound => 310,
            RouterError::CommitRevealTooEarly => 311,
            RouterError::CommitHashMismatch => 312,
            RouterError::NonceAlreadyUsed => 313,
            RouterError::DustAmount => 314,
            RouterError::CommitExpired => 315,
            RouterError::TooManyCommits => 316,
            RouterError::InvalidCommitConfig => 317,
            RouterError::AlreadyInitialized => 318,
        }
    }
}

} // verus!
