//! A transaction as its caller knows it: objects perhaps named by
//! identifier alone, gas perhaps left open.

use vstd::prelude::*;
use crate::command::Command;
use crate::ident::{Address, Digest, ObjectId};

verus! {

/// What a caller knows of an object.
#[derive(Clone, Copy, Debug, PartialEq, Eq)]
pub struct UnresolvedObjectReference {
    pub object_id: ObjectId,
    pub version: Option<u64>,
    pub digest: Option<Digest>,
}

/// One input of an unresolved transaction.
#[derive(Clone, Debug, PartialEq, Eq)]
pub enum UnresolvedInputArgument {
    /// Plain bytes.
    Pure { value: Vec<u8> },
    /// An immutable object, or one that the sender owns.
    ImmutableOrOwned(UnresolvedObjectReference),
    /// A shared object. What the caller says of its initial version and of
    /// its mutability is not used.
    Shared { object_id: ObjectId, initial_shared_version: Option<u64>, mutable: Option<bool> },
    /// An object that the transaction receives.
    Receiving(UnresolvedObjectReference),
}

/// Until when a transaction may be executed.
#[derive(Clone, Copy, Debug, PartialEq, Eq)]
pub enum TransactionExpiration {
    /// At any time.
    Never,
    /// Up to and including this epoch.
    Epoch(u64),
}

/// What a caller says of the gas payment.
#[derive(Clone, Debug, PartialEq, Eq)]
pub struct UnresolvedGasPayment {
    pub objects: Vec<UnresolvedObjectReference>,
    pub owner: Address,
    pub price: Option<u64>,
    pub budget: Option<u64>,
}

/// Inputs and commands of an unresolved transaction.
#[derive(Debug, PartialEq, Eq)]
pub struct UnresolvedProgrammableTransaction {
    pub inputs: Vec<UnresolvedInputArgument>,
    pub commands: Vec<Command>,
}

/// A transaction that is yet to be resolved.
#[derive(Debug, PartialEq, Eq)]
pub struct UnresolvedTransaction {
    pub ptb: UnresolvedProgrammableTransaction,
    pub sender: Address,
    pub gas_payment: Option<UnresolvedGasPayment>,
    pub expiration: TransactionExpiration,
}

impl UnresolvedTransaction {
    /// The budget that the caller asked for, if any.
    pub open spec fn requested_budget(self) -> Option<u64> {
        match self.gas_payment {
            Some(payment) => payment.budget,
            None => None,
        }
    }

    /// Computes [`Self::requested_budget`].
    pub fn user_provided_budget(&self) -> (budget: Option<u64>)
        ensures
            budget == self.requested_budget(),
    {
        match &self.gas_payment {
            Some(payment) => payment.budget,
            None => None,
        }
    }
}

} // verus!
