//! The commands of a programmable transaction and the arguments they take.

use vstd::prelude::*;
use crate::ident::{Address, ObjectId};

verus! {

/// Where a command takes one of its operands from.
#[derive(Clone, Copy, Debug, PartialEq, Eq, Structural)]
pub enum Argument {
    /// The gas coin of the transaction.
    Gas,
    /// The transaction input at this position.
    Input(u16),
    /// The result of the command at this position.
    Result(u16),
    /// One of several results of the command at the first position.
    NestedResult(u16, u16),
}

/// A type named in a command. Resolution carries type tags through and
/// never looks inside them.
#[derive(Debug, PartialEq, Eq)]
pub enum TypeTag {
    U8,
    U16,
    U32,
    U64,
    U128,
    U256,
    Bool,
    Address,
    Signer,
    Vector(Box<TypeTag>),
    Struct(Box<StructTag>),
}

/// A struct type with its type parameters.
#[derive(Debug, PartialEq, Eq)]
pub struct StructTag {
    pub address: Address,
    pub module: String,
    pub name: String,
    pub type_params: Vec<TypeTag>,
}

/// Calls `package::module::function`.
#[derive(Debug, PartialEq, Eq)]
pub struct MoveCall {
    pub package: ObjectId,
    pub module: String,
    pub function: String,
    pub type_arguments: Vec<TypeTag>,
    pub arguments: Vec<Argument>,
}

/// Sends `objects` to `address`.
#[derive(Clone, Debug, PartialEq, Eq)]
pub struct TransferObjects {
    pub objects: Vec<Argument>,
    pub address: Argument,
}

/// Splits `amounts` off `coin`.
#[derive(Clone, Debug, PartialEq, Eq)]
pub struct SplitCoins {
    pub coin: Argument,
    pub amounts: Vec<Argument>,
}

/// Merges `coins_to_merge` into `coin`.
#[derive(Clone, Debug, PartialEq, Eq)]
pub struct MergeCoins {
    pub coin: Argument,
    pub coins_to_merge: Vec<Argument>,
}

/// Publishes a new package.
#[derive(Clone, Debug, PartialEq, Eq)]
pub struct Publish {
    pub modules: Vec<Vec<u8>>,
    pub dependencies: Vec<ObjectId>,
}

/// Builds a vector out of `elements`.
#[derive(Debug, PartialEq, Eq)]
pub struct MakeMoveVector {
    pub type_: Option<TypeTag>,
    pub elements: Vec<Argument>,
}

/// Upgrades `package`, authorised by `ticket`.
#[derive(Clone, Debug, PartialEq, Eq)]
pub struct Upgrade {
    pub modules: Vec<Vec<u8>>,
    pub dependencies: Vec<ObjectId>,
    pub package: ObjectId,
    pub ticket: Argument,
}

/// One step of a programmable transaction.
#[derive(Debug, PartialEq, Eq)]
pub enum Command {
    MoveCall(MoveCall),
    TransferObjects(TransferObjects),
    SplitCoins(SplitCoins),
    MergeCoins(MergeCoins),
    Publish(Publish),
    MakeMoveVector(MakeMoveVector),
    Upgrade(Upgrade),
}

} // verus!
