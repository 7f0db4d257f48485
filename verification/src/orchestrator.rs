//! The course of one resolution, from the request to the transaction that
//! answers it.
//!
//! A resolution needs the execution engine at most twice: for a trial run
//! where the caller named no budget, and for the simulation that the caller
//! may ask for. The engine is not called from here. A [`Resolution`] says
//! what is to be done next, and takes the result of the trial run.

use vstd::prelude::*;
use crate::called::{called_packages, normalized_packages};
use crate::error::{InternalError, ResolveError};
use crate::gas::{
    cannot_cover,
    checked_gas_budget_estimate,
    coin_references,
    eligible_gas_coins,
    estimated_budget,
    is_selection,
    lemma_gas_coins_are_distinct,
    lemma_gas_coins_avoid_inputs,
    select_gas,
    total_value,
    GasCostSummary,
};
use crate::ident::{ObjectId, ObjectRef};
use crate::request::UnresolvedTransaction;
use crate::resolve::{resolve_unresolved_transaction, resolved_transaction};
use crate::snapshot::{ChainSnapshot, SnapshotView};
use crate::transaction::{CallArg, ObjectArg, TransactionData, TransactionView};

verus! {

/// The endpoint that resolves transactions.
#[derive(Clone, Copy, Debug, PartialEq, Eq)]
pub struct ResolveTransaction;

impl ResolveTransaction {
    /// The path under which the endpoint is served.
    pub fn path(&self) -> (path: &'static str)
        ensures
            path@ == "/transactions/resolve"@,
    {
        "/transactions/resolve"
    }
}

/// What of a simulation is to be sent back with its result.
#[derive(Clone, Copy, Debug, PartialEq, Eq)]
pub struct SimulateTransactionQueryParameters {
    pub balance_changes: bool,
    pub input_objects: bool,
    pub output_objects: bool,
}

impl Default for SimulateTransactionQueryParameters {
    fn default() -> (parameters: Self)
        ensures
            !parameters.balance_changes,
            !parameters.input_objects,
            !parameters.output_objects,
    {
        SimulateTransactionQueryParameters {
            balance_changes: false,
            input_objects: false,
            output_objects: false,
        }
    }
}

/// The query parameters of a request for resolution.
#[derive(Clone, Copy, Debug, PartialEq, Eq)]
pub struct ResolveTransactionQueryParameters {
    /// Whether the resolved transaction is to be simulated, and the result
    /// sent back with it.
    pub simulate: bool,
    pub simulate_transaction_parameters: SimulateTransactionQueryParameters,
}

impl Default for ResolveTransactionQueryParameters {
    fn default() -> (parameters: Self)
        ensures
            !parameters.simulate,
            !parameters.simulate_transaction_parameters.balance_changes,
            !parameters.simulate_transaction_parameters.input_objects,
            !parameters.simulate_transaction_parameters.output_objects,
    {
        ResolveTransactionQueryParameters {
            simulate: false,
            simulate_transaction_parameters: SimulateTransactionQueryParameters {
                balance_changes: false,
                input_objects: false,
                output_objects: false,
            },
        }
    }
}

/// What the chain fixes for every transaction at the time of a resolution.
#[derive(Clone, Copy, Debug, PartialEq, Eq)]
pub struct ChainParameters {
    pub reference_gas_price: u64,
    /// The largest budget that a transaction may have.
    pub max_tx_gas: u64,
    /// The largest number of objects that may pay for a transaction.
    pub max_gas_payment_objects: u32,
}

/// What a resolution starts from: the parameters of the chain, where the
/// service has an execution engine and knows the protocol configuration of
/// the current version. The engine is asked for first.
pub open spec fn preflight_outcome(executor_available: bool, chain: Option<ChainParameters>) -> Result<
    ChainParameters,
    ResolveError,
> {
    if !executor_available {
        Err(ResolveError::Internal(InternalError::ExecutorUnavailable))
    } else {
        match chain {
            Some(parameters) => Ok(parameters),
            None => Err(ResolveError::Internal(InternalError::ProtocolConfigUnavailable)),
        }
    }
}

/// Computes [`preflight_outcome`].
pub fn preflight(executor_available: bool, chain: Option<ChainParameters>) -> (start: Result<
    ChainParameters,
    ResolveError,
>)
    ensures
        start == preflight_outcome(executor_available, chain),
{
    if !executor_available {
        return Err(ResolveError::Internal(InternalError::ExecutorUnavailable));
    }
    match chain {
        Some(parameters) => Ok(parameters),
        None => Err(ResolveError::Internal(InternalError::ProtocolConfigUnavailable)),
    }
}

/// How far a resolution has come.
#[derive(Debug, PartialEq, Eq)]
pub enum Resolution {
    /// The caller named no budget. The transaction, which carries the
    /// largest possible budget, is to be run on trial, and the cost of the
    /// run handed to [`Resolution::on_dry_run`].
    AwaitingDryRun { transaction: TransactionData },
    /// The transaction is resolved. `simulate` says whether the caller
    /// asked for its simulation.
    Resolved { transaction: TransactionData, simulate: bool },
}

/// The mathematical content of a [`Resolution`].
pub ghost enum ResolutionView {
    AwaitingDryRun { transaction: TransactionView },
    Resolved { transaction: TransactionView, simulate: bool },
}

impl View for Resolution {
    type V = ResolutionView;

    open spec fn view(&self) -> ResolutionView {
        match *self {
            Resolution::AwaitingDryRun { transaction } => ResolutionView::AwaitingDryRun {
                transaction: transaction@,
            },
            Resolution::Resolved { transaction, simulate } => ResolutionView::Resolved {
                transaction: transaction@,
                simulate,
            },
        }
    }
}

/// What is to be done next for a resolution.
#[derive(Clone, Copy, Debug, PartialEq, Eq, Structural)]
pub enum Action {
    /// Run the transaction on trial and report the cost.
    DryRun,
    /// Simulate the resolved transaction, then answer with both.
    Simulate,
    /// Answer with the resolved transaction.
    Respond,
}

/// The content of the outcome of a step.
pub open spec fn outcome_view(outcome: Result<Resolution, ResolveError>) -> Result<
    ResolutionView,
    ResolveError,
> {
    match outcome {
        Ok(resolution) => Ok(resolution@),
        Err(error) => Err(error),
    }
}

/// The object that an input passes, if it passes one: owned or immutable,
/// shared, or received.
pub open spec fn input_object(input: CallArg) -> Option<ObjectId> {
    match input {
        CallArg::Pure(_) => None,
        CallArg::Object(ObjectArg::ImmOrOwnedObject(reference)) => Some(reference.id),
        CallArg::Object(ObjectArg::SharedObject { id, .. }) => Some(id),
        CallArg::Object(ObjectArg::Receiving(reference)) => Some(reference.id),
    }
}

/// The objects that `inputs` pass, in the order of the inputs.
pub open spec fn input_objects(inputs: Seq<CallArg>) -> Seq<ObjectId>
    decreases inputs.len(),
{
    if inputs.len() == 0 {
        Seq::empty()
    } else {
        let earlier = input_objects(inputs.drop_last());
        match input_object(inputs.last()) {
            Some(id) => earlier.push(id),
            None => earlier,
        }
    }
}

/// Every object that one of `inputs` passes is among their objects.
pub proof fn lemma_input_objects_hold_every_input(inputs: Seq<CallArg>, position: int)
    requires
        0 <= position < inputs.len(),
        input_object(inputs[position]) is Some,
    ensures
        input_objects(inputs).contains(input_object(inputs[position])->0),
    decreases inputs.len(),
{
    let earlier = input_objects(inputs.drop_last());
    let objects = input_objects(inputs);
    if position == inputs.len() - 1 {
        assert(objects[earlier.len() as int] == input_object(inputs[position])->0);
    } else {
        lemma_input_objects_hold_every_input(inputs.drop_last(), position);
        let id = input_object(inputs[position])->0;
        let at = choose|at: int| 0 <= at < earlier.len() && earlier[at] == id;
        assert(objects[at] == id);
    }
}

/// The transaction that a request resolves to before its budget and its
/// gas coins are settled: the packages it calls are collected, then it is
/// resolved against their tables.
pub open spec fn base_resolution(
    snapshot: SnapshotView,
    chain: ChainParameters,
    unresolved: UnresolvedTransaction,
) -> Result<TransactionView, ResolveError> {
    match normalized_packages(snapshot, unresolved.ptb.commands@) {
        Err(error) => Err(error),
        Ok(packages) => resolved_transaction(
            snapshot,
            packages,
            chain.reference_gas_price,
            chain.max_tx_gas,
            unresolved,
        ),
    }
}

/// The gas coins among which the payment of `base` is chosen: those of its
/// gas owner that none of its inputs passes.
pub open spec fn payment_candidates(snapshot: SnapshotView, base: TransactionView) -> Seq<
    (ObjectRef, u64),
> {
    eligible_gas_coins(snapshot, base.gas_owner, input_objects(base.inputs))
}

/// Whether `settled` is what settling `base` with `budget` gives.
///
/// The budget is written into the transaction. A payment that is already
/// there stays. Where there is none, gas coins are selected for the budget
/// among the candidates; that they do not cover it is the one failure.
pub open spec fn is_settlement(
    snapshot: SnapshotView,
    chain: ChainParameters,
    base: TransactionView,
    budget: u64,
    settled: Result<TransactionView, ResolveError>,
) -> bool {
    let coins = payment_candidates(snapshot, base);
    if base.payment.len() > 0 {
        settled == Ok::<TransactionView, ResolveError>(
            TransactionView { gas_budget: budget, ..base },
        )
    } else {
        match settled {
            Ok(transaction) => {
                &&& transaction == TransactionView {
                    gas_budget: budget,
                    payment: transaction.payment,
                    ..base
                }
                &&& is_selection(
                    coins,
                    budget,
                    chain.max_gas_payment_objects,
                    transaction.payment.len() as int,
                )
                &&& transaction.payment == coin_references(
                    coins.take(transaction.payment.len() as int),
                )
            },
            Err(error) => {
                &&& cannot_cover(coins, budget, chain.max_gas_payment_objects)
                &&& error == ResolveError::InsufficientResources { owner: base.gas_owner, budget }
            },
        }
    }
}

/// Whether `outcome` is how a resolution ends once its budget is known.
pub open spec fn is_outcome_with_budget(
    snapshot: SnapshotView,
    chain: ChainParameters,
    parameters: ResolveTransactionQueryParameters,
    base: TransactionView,
    budget: u64,
    outcome: Result<ResolutionView, ResolveError>,
) -> bool {
    match outcome {
        Ok(ResolutionView::Resolved { transaction, simulate }) => simulate == parameters.simulate
            && is_settlement(snapshot, chain, base, budget, Ok(transaction)),
        Ok(ResolutionView::AwaitingDryRun { .. }) => false,
        Err(error) => is_settlement(snapshot, chain, base, budget, Err(error)),
    }
}

/// Whether `outcome` is the first step of the resolution of `unresolved`.
///
/// A failure to resolve the transaction is the outcome. Where the caller
/// named a budget, the resolution ends with it. Where not, it waits for a
/// trial run of the transaction.
pub open spec fn is_resolution_outcome(
    snapshot: SnapshotView,
    chain: ChainParameters,
    parameters: ResolveTransactionQueryParameters,
    unresolved: UnresolvedTransaction,
    outcome: Result<ResolutionView, ResolveError>,
) -> bool {
    match base_resolution(snapshot, chain, unresolved) {
        Err(error) => outcome == Err::<ResolutionView, ResolveError>(error),
        Ok(base) => match unresolved.requested_budget() {
            Some(budget) => is_outcome_with_budget(
                snapshot,
                chain,
                parameters,
                base,
                budget,
                outcome,
            ),
            None => outcome == Ok::<ResolutionView, ResolveError>(
                ResolutionView::AwaitingDryRun { transaction: base },
            ),
        },
    }
}

/// Whether `outcome` is how the resolution of `base` goes on after a trial
/// run that cost `cost`, or that failed where `cost` is `None`.
///
/// The budget is estimated from the cost at the reference price, and the
/// resolution ends with it. A failed run, and an estimate beyond 64 bits,
/// are failures of the service.
pub open spec fn is_dry_run_outcome(
    snapshot: SnapshotView,
    chain: ChainParameters,
    parameters: ResolveTransactionQueryParameters,
    base: TransactionView,
    cost: Option<GasCostSummary>,
    outcome: Result<ResolutionView, ResolveError>,
) -> bool {
    match cost {
        None => outcome == Err::<ResolutionView, ResolveError>(
            ResolveError::Internal(InternalError::SimulationFailed),
        ),
        Some(summary) => if estimated_budget(summary, chain.reference_gas_price) > u64::MAX {
            outcome == Err::<ResolutionView, ResolveError>(
                ResolveError::Internal(InternalError::BudgetOutOfRange),
            )
        } else {
            is_outcome_with_budget(
                snapshot,
                chain,
                parameters,
                base,
                estimated_budget(summary, chain.reference_gas_price) as u64,
                outcome,
            )
        },
    }
}

/// There is one selection at most.
pub proof fn lemma_selection_is_unique(
    coins: Seq<(ObjectRef, u64)>,
    budget: u64,
    max_gas_payment_objects: u32,
    first: int,
    second: int,
)
    requires
        is_selection(coins, budget, max_gas_payment_objects, first),
        is_selection(coins, budget, max_gas_payment_objects, second),
    ensures
        first == second,
{
    if first < second {
        assert(total_value(coins.take(first)) < budget);
    } else if second < first {
        assert(total_value(coins.take(second)) < budget);
    }
}

/// Where there is a selection, the coins cover the budget.
pub proof fn lemma_selection_excludes_failure(
    coins: Seq<(ObjectRef, u64)>,
    budget: u64,
    max_gas_payment_objects: u32,
    count: int,
)
    requires
        is_selection(coins, budget, max_gas_payment_objects, count),
    ensures
        !cannot_cover(coins, budget, max_gas_payment_objects),
{
    assert(total_value(coins.take(count)) >= budget);
}

/// Settling a transaction with a budget has one result.
pub proof fn lemma_settlement_is_unique(
    snapshot: SnapshotView,
    chain: ChainParameters,
    base: TransactionView,
    budget: u64,
    first: Result<TransactionView, ResolveError>,
    second: Result<TransactionView, ResolveError>,
)
    requires
        is_settlement(snapshot, chain, base, budget, first),
        is_settlement(snapshot, chain, base, budget, second),
    ensures
        first == second,
{
    let coins = payment_candidates(snapshot, base);
    let max = chain.max_gas_payment_objects;
    if base.payment.len() == 0 {
        match (first, second) {
            (Ok(a), Ok(b)) => {
                lemma_selection_is_unique(
                    coins,
                    budget,
                    max,
                    a.payment.len() as int,
                    b.payment.len() as int,
                );
            },
            (Ok(a), Err(_)) => {
                lemma_selection_excludes_failure(coins, budget, max, a.payment.len() as int);
            },
            (Err(_), Ok(b)) => {
                lemma_selection_excludes_failure(coins, budget, max, b.payment.len() as int);
            },
            (Err(_), Err(_)) => {},
        }
    }
}

/// Resolving the same request twice against the same snapshot, under the
/// same parameters, gives the same outcome.
pub proof fn lemma_resolution_is_repeatable(
    snapshot: SnapshotView,
    chain: ChainParameters,
    parameters: ResolveTransactionQueryParameters,
    unresolved: UnresolvedTransaction,
    first: Result<ResolutionView, ResolveError>,
    second: Result<ResolutionView, ResolveError>,
)
    requires
        is_resolution_outcome(snapshot, chain, parameters, unresolved, first),
        is_resolution_outcome(snapshot, chain, parameters, unresolved, second),
    ensures
        first == second,
{
    match base_resolution(snapshot, chain, unresolved) {
        Err(_) => {},
        Ok(base) => match unresolved.requested_budget() {
            Some(budget) => {
                lemma_outcome_with_budget_is_unique(
                    snapshot,
                    chain,
                    parameters,
                    base,
                    budget,
                    first,
                    second,
                );
            },
            None => {},
        },
    }
}

/// Once the budget is known, a resolution has one outcome.
pub proof fn lemma_outcome_with_budget_is_unique(
    snapshot: SnapshotView,
    chain: ChainParameters,
    parameters: ResolveTransactionQueryParameters,
    base: TransactionView,
    budget: u64,
    first: Result<ResolutionView, ResolveError>,
    second: Result<ResolutionView, ResolveError>,
)
    requires
        is_outcome_with_budget(snapshot, chain, parameters, base, budget, first),
        is_outcome_with_budget(snapshot, chain, parameters, base, budget, second),
    ensures
        first == second,
{
    let settled = |outcome: Result<ResolutionView, ResolveError>|
        match outcome {
            Ok(ResolutionView::Resolved { transaction, .. }) => Ok::<
                TransactionView,
                ResolveError,
            >(transaction),
            Ok(ResolutionView::AwaitingDryRun { transaction }) => Ok(transaction),
            Err(error) => Err(error),
        };
    lemma_settlement_is_unique(snapshot, chain, base, budget, settled(first), settled(second));
}

/// The same trial run, reported twice for the same transaction against
/// the same snapshot, leads to the same outcome.
pub proof fn lemma_dry_run_outcome_is_repeatable(
    snapshot: SnapshotView,
    chain: ChainParameters,
    parameters: ResolveTransactionQueryParameters,
    base: TransactionView,
    cost: Option<GasCostSummary>,
    first: Result<ResolutionView, ResolveError>,
    second: Result<ResolutionView, ResolveError>,
)
    requires
        is_dry_run_outcome(snapshot, chain, parameters, base, cost, first),
        is_dry_run_outcome(snapshot, chain, parameters, base, cost, second),
    ensures
        first == second,
{
    match cost {
        None => {},
        Some(summary) => {
            if estimated_budget(summary, chain.reference_gas_price) <= u64::MAX {
                lemma_outcome_with_budget_is_unique(
                    snapshot,
                    chain,
                    parameters,
                    base,
                    estimated_budget(summary, chain.reference_gas_price) as u64,
                    first,
                    second,
                );
            }
        },
    }
}

/// A payment that is selected holds none of the objects that the inputs
/// of the transaction pass, holds no object twice, covers the budget, and
/// is no longer than the chain allows.
pub proof fn lemma_selected_payment_is_sound(
    snapshot: SnapshotView,
    chain: ChainParameters,
    base: TransactionView,
    budget: u64,
    settled: TransactionView,
)
    requires
        snapshot.consistent(),
        base.payment.len() == 0,
        is_settlement(snapshot, chain, base, budget, Ok(settled)),
    ensures
        forall|i: int, position: int|
            0 <= i < settled.payment.len() && 0 <= position < settled.inputs.len()
                ==> input_object(#[trigger] settled.inputs[position]) != Some(
                (#[trigger] settled.payment[i]).id,
            ),
        forall|i: int, j: int|
            0 <= i < j < settled.payment.len() ==> (#[trigger] settled.payment[i]).id != (
            #[trigger] settled.payment[j]).id,
        total_value(payment_candidates(snapshot, base).take(settled.payment.len() as int))
            >= budget,
        settled.payment.len() <= chain.max_gas_payment_objects,
{
    let coins = payment_candidates(snapshot, base);
    lemma_gas_coins_avoid_inputs(
        snapshot,
        snapshot.owned_by(base.gas_owner),
        input_objects(base.inputs),
    );
    lemma_gas_coins_are_distinct(
        snapshot,
        snapshot.owned_by(base.gas_owner),
        input_objects(base.inputs),
    );
    assert forall|i: int| 0 <= i < settled.payment.len() implies (#[trigger] settled.payment[i])
        == coins[i].0 by {
        assert(settled.payment[i] == coins.take(settled.payment.len() as int)[i].0);
        assert(coins.take(settled.payment.len() as int)[i] == coins[i]);
    }
    assert forall|i: int, position: int|
        0 <= i < settled.payment.len() && 0 <= position < settled.inputs.len()
            implies input_object(#[trigger] settled.inputs[position]) != Some(
        (#[trigger] settled.payment[i]).id,
    ) by {
        if input_object(settled.inputs[position]) is Some {
            lemma_input_objects_hold_every_input(settled.inputs, position);
        }
    }
}

/// Lists the objects that `inputs` pass.
pub fn input_object_ids(inputs: &Vec<CallArg>) -> (ids: Vec<ObjectId>)
    ensures
        ids@ == input_objects(inputs@),
{
    let mut ids: Vec<ObjectId> = Vec::new();
    let mut i: usize = 0;
    proof {
        assert(inputs@.take(0) =~= Seq::<CallArg>::empty());
    }
    while i < inputs.len()
        invariant
            i <= inputs@.len(),
            ids@ == input_objects(inputs@.take(i as int)),
        decreases inputs@.len() - i,
    {
        proof {
            assert(inputs@.take(i + 1).drop_last() =~= inputs@.take(i as int));
            assert(inputs@.take(i + 1).last() == inputs@[i as int]);
        }
        match &inputs[i] {
            CallArg::Pure(_) => {},
            CallArg::Object(ObjectArg::ImmOrOwnedObject(reference)) => {
                ids.push(reference.id);
            },
            CallArg::Object(ObjectArg::SharedObject { id, .. }) => {
                ids.push(*id);
            },
            CallArg::Object(ObjectArg::Receiving(reference)) => {
                ids.push(reference.id);
            },
        }
        i += 1;
    }
    proof {
        assert(inputs@.take(i as int) =~= inputs@);
    }
    ids
}

/// Ends a resolution with the budget `budget`: writes it into the
/// transaction, and selects gas coins where the transaction has no
/// payment.
pub fn settle(
    reader: &ChainSnapshot,
    chain: &ChainParameters,
    parameters: &ResolveTransactionQueryParameters,
    transaction: TransactionData,
    budget: u64,
) -> (outcome: Result<Resolution, ResolveError>)
    ensures
        is_outcome_with_budget(
            reader@,
            *chain,
            *parameters,
            transaction@,
            budget,
            outcome_view(outcome),
        ),
{
    let ghost base = transaction@;
    let mut transaction = transaction;
    transaction.gas_data.budget = budget;
    if transaction.gas_data.payment.len() == 0 {
        let input_objects = input_object_ids(&transaction.kind.inputs);
        let gas_coins = match select_gas(
            reader,
            transaction.gas_data.owner,
            budget,
            chain.max_gas_payment_objects,
            &input_objects,
        ) {
            Ok(gas_coins) => gas_coins,
            Err(error) => {
                return Err(error);
            },
        };
        transaction.gas_data.payment = gas_coins;
    }
    Ok(Resolution::Resolved { transaction, simulate: parameters.simulate })
}

/// Begins the resolution of a transaction.
///
/// Collects the packages that the transaction calls and resolves it. Where
/// the caller named a budget the resolution ends at once; where not, it
/// waits for a trial run.
pub fn resolve_transaction(
    reader: &ChainSnapshot,
    chain: &ChainParameters,
    parameters: &ResolveTransactionQueryParameters,
    unresolved_transaction: UnresolvedTransaction,
) -> (outcome: Result<Resolution, ResolveError>)
    ensures
        is_resolution_outcome(
            reader@,
            *chain,
            *parameters,
            unresolved_transaction,
            outcome_view(outcome),
        ),
{
    let packages = match called_packages(reader, &unresolved_transaction) {
        Ok(packages) => packages,
        Err(error) => {
            return Err(error);
        },
    };
    let user_provided_budget = unresolved_transaction.user_provided_budget();
    let resolved_transaction = match resolve_unresolved_transaction(
        reader,
        &packages,
        chain.reference_gas_price,
        chain.max_tx_gas,
        unresolved_transaction,
    ) {
        Ok(transaction) => transaction,
        Err(error) => {
            return Err(error);
        },
    };
    match user_provided_budget {
        Some(budget) => settle(reader, chain, parameters, resolved_transaction, budget),
        None => Ok(Resolution::AwaitingDryRun { transaction: resolved_transaction }),
    }
}

impl Resolution {
    /// The transaction as far as it is resolved.
    pub fn transaction(&self) -> (transaction: &TransactionData)
        ensures
            *transaction == match *self {
                Resolution::AwaitingDryRun { transaction } => transaction,
                Resolution::Resolved { transaction, .. } => transaction,
            },
    {
        match self {
            Resolution::AwaitingDryRun { transaction } => transaction,
            Resolution::Resolved { transaction, .. } => transaction,
        }
    }

    /// What is to be done next.
    pub fn next_action(&self) -> (action: Action)
        ensures
            action == match *self {
                Resolution::AwaitingDryRun { .. } => Action::DryRun,
                Resolution::Resolved { simulate, .. } => if simulate {
                    Action::Simulate
                } else {
                    Action::Respond
                },
            },
    {
        match self {
            Resolution::AwaitingDryRun { .. } => Action::DryRun,
            Resolution::Resolved { simulate, .. } => if *simulate {
                Action::Simulate
            } else {
                Action::Respond
            },
        }
    }

    /// Takes the result of the trial run: its cost, or `None` where the
    /// run failed. A resolution that does not wait for one stays as it is.
    pub fn on_dry_run(
        self,
        reader: &ChainSnapshot,
        chain: &ChainParameters,
        parameters: &ResolveTransactionQueryParameters,
        cost: Option<GasCostSummary>,
    ) -> (outcome: Result<Resolution, ResolveError>)
        ensures
            match self {
                Resolution::AwaitingDryRun { transaction } => is_dry_run_outcome(
                    reader@,
                    *chain,
                    *parameters,
                    transaction@,
                    cost,
                    outcome_view(outcome),
                ),
                Resolution::Resolved { .. } => outcome == Ok::<Resolution, ResolveError>(self),
            },
    {
        match self {
            Resolution::AwaitingDryRun { transaction } => {
                let summary = match cost {
                    Some(summary) => summary,
                    None => {
                        return Err(ResolveError::Internal(InternalError::SimulationFailed));
                    },
                };
                let estimate = match checked_gas_budget_estimate(
                    &summary,
                    chain.reference_gas_price,
                ) {
                    Some(estimate) => estimate,
                    None => {
                        return Err(ResolveError::Internal(InternalError::BudgetOutOfRange));
                    },
                };
                settle(reader, chain, parameters, transaction, estimate)
            },
            Resolution::Resolved { transaction, simulate } => Ok(
                Resolution::Resolved { transaction, simulate },
            ),
        }
    }
}

} // verus!
