//! A verified dead-man's-switch fund-custody library.
//!
//! An owner deposits value and names up to five beneficiaries. If the owner
//! fails to reset a timer before a configured timeout elapses, anyone may
//! trigger share locking, which freezes a pro-rata distribution; each listed
//! beneficiary may then redeem its share, and a fixed protocol cut is withheld
//! for the operating admin. All fund-moving operations are serialized by a
//! single reentrancy guard and follow a two-phase protocol: a guarded state
//! mutation that yields a transfer request, then an acknowledgement of the
//! transfer outcome that either commits or restores the exact prior state.
//!
//! The ledger host (caller identity, current time, value transfer) is outside
//! this library: every operation takes those as plain arguments, and the host
//! reports each transfer outcome through [`contract::InheritanceContract::finish_transfer`].

pub mod contract;
pub mod errors;
pub mod laws;
pub mod plan;
pub mod shares;
