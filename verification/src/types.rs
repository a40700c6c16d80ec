//! Plain-value models of the host's opaque identifiers, and the error
//! taxonomy shared by every contract of the protocol.

use vstd::prelude::*;

verus! {

/// A chain-local account or contract identity.
///
/// The contracts only ever compare identities for equality, so an
/// identity is modelled as an opaque numeric handle; the host-facing
/// layer is responsible for mapping real account identifiers to
/// distinct handles.
#[derive(Clone, Copy, PartialEq, Eq, Structural, Debug, Hash)]
pub struct Address {
    pub id: u64,
}

/// A 32-byte value: a global asset identifier or a code hash, held as
/// two 128-bit halves in big-endian order (`hi` holds bytes 0..16).
#[derive(Clone, Copy, PartialEq, Eq, Structural, Debug, Hash)]
pub struct Bytes32 {
    pub hi: u128,
    pub lo: u128,
}

impl Bytes32 {
    /// Whether every byte of the value is zero.
    pub open spec fn spec_is_zero(&self) -> bool {
        self.hi == 0 && self.lo == 0
    }

    /// The all-zero value, used as the "no existing asset id" marker.
    pub fn zero() -> (r: Bytes32)
        ensures
            r.spec_is_zero(),
    {
        Bytes32 { hi: 0, lo: 0 }
    }

    /// Whether every byte of the value is zero.
    pub fn is_zero(&self) -> (r: bool)
        ensures
            r == self.spec_is_zero(),
    {
        self.hi == 0 && self.lo == 0
    }
}

/// Every way a call into the protocol can fail.  A failing call has no
/// effect: each entry point either commits all of its writes or none.
#[derive(Clone, Copy, PartialEq, Eq, Structural, Debug)]
pub enum Error {
    /// A one-time `initialize` was called a second time.
    AlreadyInitialized,
    /// The caller is not the required authority, or a required
    /// authorization proof was not supplied.
    Unauthorized,
    /// A referenced token, slot or binding does not exist.
    NotFound,
    /// `create_slot` was given a slot id that is already present.
    SlotExists,
    /// `mint` was given a slot id that is not present.
    SlotNotFound,
    /// `approve` named the token's own owner as the operator.
    SelfApproval,
    /// `transfer_from` was asked to move value between different slots.
    SameSlotRequired,
    /// The source token's balance is smaller than the requested value.
    InsufficientBalance,
    /// A non-owner caller's remaining allowance is smaller than the
    /// requested value.
    InsufficientAllowance,
    /// The factory already holds a contract for the decoded asset id.
    AlreadyDeployed,
    /// The registry already binds the asset id or the contract address.
    AlreadyBound,
    /// The deployment payload does not match the fixed argument schema.
    DecodeError,
    /// A deployed instance or a registry disagrees with the requested
    /// (asset type, version) classification.
    ClassificationMismatch,
    /// A required peer address or code hash has not been configured.
    ConfigMissing,
    /// An address string is not exactly 42 characters long.
    InvalidAddressLength,
    /// Two parallel argument lists have different lengths.
    LengthMismatch,
    /// A fresh deployment was requested together with an existing asset
    /// id, or an extension without one.
    IncorrectCallLogic,
    /// A token name shorter than 10 or longer than 512 characters.
    InvalidNameLength,
}

} // verus!
