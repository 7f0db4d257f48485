//! A resolved transaction: every object named by identifier, version and
//! digest, gas payment and budget fixed.

use vstd::prelude::*;
use crate::command::Command;
use crate::ident::{Address, ObjectId, ObjectRef};
use crate::request::TransactionExpiration;

verus! {

/// An object input of a resolved transaction.
#[derive(Clone, Copy, Debug, PartialEq, Eq)]
pub enum ObjectArg {
    /// An immutable object, or one that the sender owns.
    ImmOrOwnedObject(ObjectRef),
    /// A shared object, with the version at which it was shared and whether
    /// the transaction needs it mutably.
    SharedObject { id: ObjectId, initial_shared_version: u64, mutable: bool },
    /// An object that the transaction receives.
    Receiving(ObjectRef),
}

/// One input of a resolved transaction.
#[derive(Clone, Debug, PartialEq, Eq)]
pub enum CallArg {
    /// Plain bytes.
    Pure(Vec<u8>),
    /// An object.
    Object(ObjectArg),
}

/// Who pays for the execution, with what, and how much at most.
#[derive(Clone, Debug, PartialEq, Eq)]
pub struct GasData {
    pub payment: Vec<ObjectRef>,
    pub owner: Address,
    pub price: u64,
    pub budget: u64,
}

/// Inputs and commands of a resolved transaction.
#[derive(Debug, PartialEq, Eq)]
pub struct ProgrammableTransaction {
    pub inputs: Vec<CallArg>,
    pub commands: Vec<Command>,
}

/// A transaction that is ready to be signed or simulated.
#[derive(Debug, PartialEq, Eq)]
pub struct TransactionData {
    pub kind: ProgrammableTransaction,
    pub sender: Address,
    pub gas_data: GasData,
    pub expiration: TransactionExpiration,
}

/// The mathematical content of a [`TransactionData`].
pub ghost struct TransactionView {
    pub sender: Address,
    pub expiration: TransactionExpiration,
    pub inputs: Seq<CallArg>,
    pub commands: Seq<Command>,
    pub payment: Seq<ObjectRef>,
    pub gas_owner: Address,
    pub gas_price: u64,
    pub gas_budget: u64,
}

impl View for TransactionData {
    type V = TransactionView;

    open spec fn view(&self) -> TransactionView {
        TransactionView {
            sender: self.sender,
            expiration: self.expiration,
            inputs: self.kind.inputs@,
            commands: self.kind.commands@,
            payment: self.gas_data.payment@,
            gas_owner: self.gas_data.owner,
            gas_price: self.gas_data.price,
            gas_budget: self.gas_data.budget,
        }
    }
}

} // verus!
