use vstd::prelude::*;

verus! {

/// The ways a call into the custody registry can fail.
///
/// Every failure aborts the whole call with no state change, with one
/// exception: `TransferFailed` is reported after a prepared fund movement
/// whose external transfer did not succeed, and it is always paired with an
/// exact restoration of the state captured when the movement was prepared.
#[derive(Clone, Copy, Debug, PartialEq, Eq, Structural)]
pub enum InheritanceError {
    /// The admin identity was already set.
    AlreadyInitialized,
    /// The caller is not the admin, owner or beneficiary the operation demands.
    Unauthorized,
    /// No live plan exists for the named owner.
    PlanNotFound,
    /// A live plan already exists for the caller.
    PlanAlreadyExists,
    /// A zero timeout, zero deposit, zero or duplicate beneficiary address,
    /// or an addition beyond the beneficiary cap.
    InvalidParameter,
    /// The plan is in a state that forbids the operation: share-locked where
    /// an edit is asked, not yet expired where expiry is required, or a
    /// beneficiary claiming twice.
    InvalidState,
    /// Nothing to redeem or withdraw.
    InsufficientFunds,
    /// A fund-moving call arrived while another one was in flight.
    ReentrancyRejected,
    /// The external value transfer failed; the prepared state was restored.
    TransferFailed,
}

} // verus!
