use vstd::prelude::*;

verus! {

/// Identity of an account: a lot's owner or a parked user.
pub type AccountId = u64;

/// Opaque content-derived key identifying a lot or a session record.
/// Keys are produced by an external collision-resistant generator; this
/// crate only stores and compares them.
pub type HashId = u64;

/// A timestamp in milliseconds, supplied by an external clock.
pub type Moment = u64;

/// An amount of money in the smallest currency unit.
pub type Balance = u64;

/// Every way an operation of this ledger can fail. All are recoverable and
/// reported to the caller; no operation leaves a partial state change behind.
#[derive(Clone, Copy, Debug, PartialEq, Eq, Structural)]
pub enum Error {
    /// Lot creation was asked for with a zero capacity or crossed price bounds.
    InvalidParameters,
    /// The named lot or session does not exist.
    NotFound,
    /// The lot has no free slot left.
    LotFull,
    /// The user already holds a live session.
    AlreadyParked,
    /// A checked step of the price interpolation left the numeric range.
    ArithmeticOverflow,
    /// The lot claims more free slots than its capacity.
    ArithmeticUnderflow,
    /// The fee product or the fee sum left the numeric range.
    FeeOverflow,
    /// The new timestamp lies before the old one.
    TimeOrderingViolation,
    /// The lot's maximum price lies below its minimum price.
    InvalidPriceRange,
    /// The external funds transfer was refused for lack of funds.
    InsufficientFunds,
    /// The external identity check refused the caller.
    Unauthorized,
}

} // verus!
