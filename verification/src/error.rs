//! Why a resolution failed.

use vstd::prelude::*;
use crate::ident::{Address, Digest, ObjectId};

verus! {

/// What is wrong with a request.
#[derive(Clone, Debug, PartialEq, Eq)]
pub enum InvalidInput {
    /// The caller's digest is not the digest of the stored object.
    DigestMismatch { provided: Digest, actual: Digest },
    /// A called package is an object of another kind.
    NotAPackage(ObjectId),
    /// An input that was declared shared is not a shared object.
    NotShared(ObjectId),
    /// A called function is in none of the signature tables.
    FunctionNotFound { package: ObjectId, module: String, function: String },
    /// A call passes more arguments than the function has parameters.
    InvalidParameter,
}

/// What went wrong on the side of the service.
#[derive(Clone, Copy, Debug, PartialEq, Eq)]
pub enum InternalError {
    /// The service has no execution engine.
    ExecutorUnavailable,
    /// The protocol configuration of the current version is not known.
    ProtocolConfigUnavailable,
    /// The modules of a called package could not be decoded.
    UndecodablePackage(ObjectId),
    /// The execution engine did not return the cost of a trial run.
    SimulationFailed,
    /// The estimated budget does not fit in 64 bits.
    BudgetOutOfRange,
}

/// The failure of a resolution. The first three variants are the caller's
/// to mend, the last is the service's.
#[derive(Clone, Debug, PartialEq, Eq)]
pub enum ResolveError {
    /// An object, or one version of it, is not in the snapshot.
    NotFound { object_id: ObjectId, version: Option<u64> },
    InvalidInput(InvalidInput),
    /// The owner's gas coins do not cover the budget.
    InsufficientResources { owner: Address, budget: u64 },
    Internal(InternalError),
}

impl ResolveError {
    /// Whether the caller can mend the request.
    pub open spec fn client_attributable(self) -> bool {
        !(self is Internal)
    }

    /// Computes [`Self::client_attributable`].
    pub fn is_client_attributable(&self) -> (client: bool)
        ensures
            client == self.client_attributable(),
    {
        match self {
            ResolveError::Internal(_) => false,
            _ => true,
        }
    }
}

} // verus!
