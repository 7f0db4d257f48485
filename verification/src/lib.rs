//! Resolution of partially specified transactions against a snapshot of
//! chain state.
//!
//! A caller may name the objects a transaction uses by id alone, leave the
//! gas payment and the gas budget open, and need not know whether a shared
//! object is used mutably. The functions of this crate turn such a request
//! into a concrete transaction: every reference is checked against the
//! snapshot, the mutability of each shared input is inferred from the
//! signatures of the functions that consume it, and gas coins are chosen to
//! cover the budget.
//!
//! All functions are pure in the snapshot they are given. What needs the
//! network or an execution engine is left to the embedding service, which
//! drives [`orchestrator::Resolution`] step by step.

pub mod ident;
pub mod command;
pub mod package;
pub mod snapshot;
pub mod error;
pub mod request;
pub mod transaction;
pub mod reference;
pub mod uses;
pub mod mutability;
pub mod outcomes;
pub mod argument;
pub mod body;
pub mod called;
pub mod gas;
pub mod resolve;
pub mod orchestrator;
pub mod reads;
