//! Resolution of a whole transaction, short of the choices that depend on
//! a trial run.

use vstd::prelude::*;
use crate::body::{resolve_ptb, resolved_inputs};
use crate::error::ResolveError;
use crate::ident::ObjectRef;
use crate::outcomes::{all_or_first_error, lemma_failure_is_final};
use crate::package::NormalizedPackage;
use crate::reference::{resolve_object_reference, resolved_reference};
use crate::request::{UnresolvedGasPayment, UnresolvedObjectReference, UnresolvedTransaction};
use crate::snapshot::{ChainSnapshot, SnapshotView};
use crate::transaction::{GasData, TransactionData, TransactionView};

verus! {

/// What resolving each of `references` gives.
pub open spec fn reference_outcomes(
    snapshot: SnapshotView,
    references: Seq<UnresolvedObjectReference>,
) -> Seq<Result<ObjectRef, ResolveError>> {
    Seq::new(references.len(), |i: int| resolved_reference(snapshot, references[i]))
}

/// The gas payment of a resolved transaction: the objects that the caller
/// listed, each resolved, in their order; or the error of the first that
/// cannot be resolved. Where the caller said nothing of gas, no object.
pub open spec fn resolved_payment(snapshot: SnapshotView, gas_payment: Option<UnresolvedGasPayment>)
    -> Result<Seq<ObjectRef>, ResolveError> {
    match gas_payment {
        Some(payment) => all_or_first_error(reference_outcomes(snapshot, payment.objects@)),
        None => Ok(Seq::empty()),
    }
}

/// The transaction that `unresolved` resolves to, before a budget is
/// estimated or gas coins are chosen.
///
/// The gas payment is resolved first and the inputs after it. Who pays is
/// the owner that the caller named, else the sender. The price is the
/// caller's, else the reference price; the budget is the caller's, else
/// the largest that a transaction may have.
pub open spec fn resolved_transaction(
    snapshot: SnapshotView,
    packages: Seq<NormalizedPackage>,
    reference_gas_price: u64,
    max_gas_budget: u64,
    unresolved: UnresolvedTransaction,
) -> Result<TransactionView, ResolveError> {
    match resolved_payment(snapshot, unresolved.gas_payment) {
        Err(error) => Err(error),
        Ok(payment) => match resolved_inputs(
            snapshot,
            packages,
            unresolved.ptb.commands@,
            unresolved.ptb.inputs@,
        ) {
            Err(error) => Err(error),
            Ok(inputs) => Ok(
                TransactionView {
                    sender: unresolved.sender,
                    expiration: unresolved.expiration,
                    inputs,
                    commands: unresolved.ptb.commands@,
                    payment,
                    gas_owner: match unresolved.gas_payment {
                        Some(gas) => gas.owner,
                        None => unresolved.sender,
                    },
                    gas_price: match unresolved.gas_payment {
                        Some(gas) => match gas.price {
                            Some(price) => price,
                            None => reference_gas_price,
                        },
                        None => reference_gas_price,
                    },
                    gas_budget: match unresolved.gas_payment {
                        Some(gas) => match gas.budget {
                            Some(budget) => budget,
                            None => max_gas_budget,
                        },
                        None => max_gas_budget,
                    },
                },
            ),
        },
    }
}

/// Resolves the objects that the caller listed as gas payment.
pub fn resolve_gas_objects(reader: &ChainSnapshot, objects: &Vec<UnresolvedObjectReference>) -> (
    payment: Result<Vec<ObjectRef>, ResolveError>)
    ensures
        match payment {
            Ok(references) => all_or_first_error(reference_outcomes(reader@, objects@)) == Ok::<
                Seq<ObjectRef>,
                ResolveError,
            >(references@),
            Err(error) => all_or_first_error(reference_outcomes(reader@, objects@)) == Err::<
                Seq<ObjectRef>,
                ResolveError,
            >(error),
        },
{
    let ghost outcomes = reference_outcomes(reader@, objects@);
    let mut payment: Vec<ObjectRef> = Vec::new();
    let mut i: usize = 0;
    proof {
        assert(outcomes.take(0) =~= Seq::<Result<ObjectRef, ResolveError>>::empty());
    }
    while i < objects.len()
        invariant
            i <= objects@.len(),
            outcomes == reference_outcomes(reader@, objects@),
            all_or_first_error(outcomes.take(i as int)) == Ok::<Seq<ObjectRef>, ResolveError>(
                payment@,
            ),
        decreases objects@.len() - i,
    {
        proof {
            assert(outcomes.take(i + 1).drop_last() =~= outcomes.take(i as int));
            assert(outcomes.take(i + 1).last() == outcomes[i as int]);
        }
        match resolve_object_reference(reader, objects[i]) {
            Ok(reference) => {
                payment.push(reference);
            },
            Err(error) => {
                proof {
                    lemma_failure_is_final(outcomes, i + 1);
                }
                return Err(error);
            },
        }
        i += 1;
    }
    proof {
        assert(outcomes.take(i as int) =~= outcomes);
    }
    Ok(payment)
}

/// Resolves a transaction: its gas payment as far as the caller gave one,
/// then its inputs. Gas coins are not chosen here, and where the caller
/// named no budget the largest possible stands in for it.
pub fn resolve_unresolved_transaction(
    reader: &ChainSnapshot,
    called_packages: &Vec<NormalizedPackage>,
    reference_gas_price: u64,
    max_gas_budget: u64,
    unresolved_transaction: UnresolvedTransaction,
) -> (resolved: Result<TransactionData, ResolveError>)
    ensures
        match resolved {
            Ok(transaction) => resolved_transaction(
                reader@,
                called_packages@,
                reference_gas_price,
                max_gas_budget,
                unresolved_transaction,
            ) == Ok::<TransactionView, ResolveError>(transaction@),
            Err(error) => resolved_transaction(
                reader@,
                called_packages@,
                reference_gas_price,
                max_gas_budget,
                unresolved_transaction,
            ) == Err::<TransactionView, ResolveError>(error),
        },
{
    let UnresolvedTransaction { ptb, sender, gas_payment, expiration } = unresolved_transaction;
    let gas_data = match gas_payment {
        Some(unresolved_gas_payment) => {
            let payment = match resolve_gas_objects(reader, &unresolved_gas_payment.objects) {
                Ok(payment) => payment,
                Err(error) => {
                    return Err(error);
                },
            };
            GasData {
                payment,
                owner: unresolved_gas_payment.owner,
                price: match unresolved_gas_payment.price {
                    Some(price) => price,
                    None => reference_gas_price,
                },
                budget: match unresolved_gas_payment.budget {
                    Some(budget) => budget,
                    None => max_gas_budget,
                },
            }
        },
        None => GasData {
            payment: Vec::new(),
            owner: sender,
            price: reference_gas_price,
            budget: max_gas_budget,
        },
    };
    let kind = match resolve_ptb(reader, called_packages, ptb) {
        Ok(kind) => kind,
        Err(error) => {
            return Err(error);
        },
    };
    Ok(TransactionData { kind, sender, gas_data, expiration })
}

} // verus!
