//! What a resolution asks the chain state, so that a snapshot can be
//! filled with exactly that.

use vstd::prelude::*;
use crate::argument::resolved_argument;
use crate::body::argument_outcomes;
use crate::called::{called_package, normalized_package, normalized_packages_upto};
use crate::command::Command;
use crate::error::ResolveError;
use crate::gas::{gas_coin_of, gas_coins_among, GasCostSummary};
use crate::ident::{Address, ObjectId, ObjectRef};
use crate::orchestrator::{
    base_resolution,
    is_dry_run_outcome,
    is_outcome_with_budget,
    is_resolution_outcome,
    is_settlement,
    payment_candidates,
    ChainParameters,
    ResolutionView,
    ResolveTransactionQueryParameters,
};
use crate::outcomes::lemma_all_or_first_error;
use crate::package::NormalizedPackage;
use crate::reference::{referenced_object, resolved_reference};
use crate::request::{UnresolvedInputArgument, UnresolvedObjectReference, UnresolvedTransaction};
use crate::resolve::{reference_outcomes, resolved_payment};
use crate::snapshot::{OwnedObjectInfo, SnapshotView};
use crate::transaction::TransactionView;

verus! {

/// One question to the chain state.
#[derive(Clone, Copy, Debug, PartialEq, Eq)]
pub enum Read {
    /// The object at its latest version.
    Latest(ObjectId),
    /// The object at the given version.
    AtVersion(ObjectId, u64),
    /// The entries of the index of owned objects that belong to the owner.
    OwnedObjects(Address),
}

/// The question behind an unresolved reference.
pub open spec fn reference_read(reference: UnresolvedObjectReference) -> Read {
    match reference.version {
        Some(version) => Read::AtVersion(reference.object_id, version),
        None => Read::Latest(reference.object_id),
    }
}

/// The question behind a command: a call asks for its package.
pub open spec fn command_read(command: Command) -> Option<Read> {
    match command {
        Command::MoveCall(call) => Some(Read::Latest(call.package)),
        _ => None,
    }
}

/// The question behind an input: an object is asked for, plain bytes are
/// not.
pub open spec fn input_read(input: UnresolvedInputArgument) -> Option<Read> {
    match input {
        UnresolvedInputArgument::Pure { .. } => None,
        UnresolvedInputArgument::ImmutableOrOwned(reference) => Some(reference_read(reference)),
        UnresolvedInputArgument::Shared { object_id, .. } => Some(Read::Latest(object_id)),
        UnresolvedInputArgument::Receiving(reference) => Some(reference_read(reference)),
    }
}

/// The questions behind `commands`, in their order.
pub open spec fn command_reads(commands: Seq<Command>) -> Seq<Read>
    decreases commands.len(),
{
    if commands.len() == 0 {
        Seq::empty()
    } else {
        let earlier = command_reads(commands.drop_last());
        match command_read(commands.last()) {
            Some(read) => earlier.push(read),
            None => earlier,
        }
    }
}

/// The questions behind `inputs`, in their order.
pub open spec fn input_reads(inputs: Seq<UnresolvedInputArgument>) -> Seq<Read>
    decreases inputs.len(),
{
    if inputs.len() == 0 {
        Seq::empty()
    } else {
        let earlier = input_reads(inputs.drop_last());
        match input_read(inputs.last()) {
            Some(read) => earlier.push(read),
            None => earlier,
        }
    }
}

/// The questions behind `references`, in their order.
pub open spec fn reference_reads(references: Seq<UnresolvedObjectReference>) -> Seq<Read> {
    Seq::new(references.len(), |i: int| reference_read(references[i]))
}

/// Who pays for the transaction: the owner that the caller named, else the
/// sender.
pub open spec fn gas_owner(transaction: UnresolvedTransaction) -> Address {
    match transaction.gas_payment {
        Some(payment) => payment.owner,
        None => transaction.sender,
    }
}

/// The objects that the caller listed as gas payment.
pub open spec fn listed_payment(transaction: UnresolvedTransaction) -> Seq<
    UnresolvedObjectReference,
> {
    match transaction.gas_payment {
        Some(payment) => payment.objects@,
        None => Seq::empty(),
    }
}

/// The questions about the gas payment: the objects that the caller
/// listed, or, where none is listed, the index of the owner's objects.
pub open spec fn payment_reads(transaction: UnresolvedTransaction) -> Seq<Read> {
    if listed_payment(transaction).len() == 0 {
        seq![Read::OwnedObjects(gas_owner(transaction))]
    } else {
        reference_reads(listed_payment(transaction))
    }
}

/// Everything that the resolution of `transaction` asks before it knows
/// the owner's objects: the packages called, the objects passed, and the
/// gas payment.
pub open spec fn reads_of(transaction: UnresolvedTransaction) -> Seq<Read> {
    command_reads(transaction.ptb.commands@) + input_reads(transaction.ptb.inputs@)
        + payment_reads(transaction)
}

/// What is asked once the owner's objects are known: each of them that is
/// typed as a gas coin, in the order of the index.
pub open spec fn coin_reads_of(infos: Seq<OwnedObjectInfo>) -> Seq<Read>
    decreases infos.len(),
{
    if infos.len() == 0 {
        Seq::empty()
    } else {
        let earlier = coin_reads_of(infos.drop_last());
        if infos.last().is_gas_coin {
            earlier.push(Read::Latest(infos.last().object_id))
        } else {
            earlier
        }
    }
}

/// Whether two snapshots give the same answer to `read`.
pub open spec fn answer_alike(first: SnapshotView, second: SnapshotView, read: Read) -> bool {
    match read {
        Read::Latest(id) => first.latest(id) == second.latest(id),
        Read::AtVersion(id, version) => first.object_at(id, version) == second.object_at(
            id,
            version,
        ),
        Read::OwnedObjects(owner) => first.owned_by(owner) == second.owned_by(owner),
    }
}

/// Whether two snapshots give the same answer to each of `reads`.
pub open spec fn answer_all_alike(first: SnapshotView, second: SnapshotView, reads: Seq<Read>)
    -> bool {
    forall|k: int| 0 <= k < reads.len() ==> answer_alike(first, second, #[trigger] reads[k])
}

/// The question behind each command is among the questions behind them
/// all.
pub proof fn lemma_command_reads_hold(commands: Seq<Command>, position: int)
    requires
        0 <= position < commands.len(),
        command_read(commands[position]) is Some,
    ensures
        command_reads(commands).contains(command_read(commands[position])->0),
    decreases commands.len(),
{
    let earlier = command_reads(commands.drop_last());
    let reads = command_reads(commands);
    let read = command_read(commands[position])->0;
    if position == commands.len() - 1 {
        assert(reads[earlier.len() as int] == read);
    } else {
        lemma_command_reads_hold(commands.drop_last(), position);
        let at = choose|at: int| 0 <= at < earlier.len() && earlier[at] == read;
        assert(reads[at] == read);
    }
}

/// The question behind each input is among the questions behind them all.
pub proof fn lemma_input_reads_hold(inputs: Seq<UnresolvedInputArgument>, position: int)
    requires
        0 <= position < inputs.len(),
        input_read(inputs[position]) is Some,
    ensures
        input_reads(inputs).contains(input_read(inputs[position])->0),
    decreases inputs.len(),
{
    let earlier = input_reads(inputs.drop_last());
    let reads = input_reads(inputs);
    let read = input_read(inputs[position])->0;
    if position == inputs.len() - 1 {
        assert(reads[earlier.len() as int] == read);
    } else {
        lemma_input_reads_hold(inputs.drop_last(), position);
        let at = choose|at: int| 0 <= at < earlier.len() && earlier[at] == read;
        assert(reads[at] == read);
    }
}

/// The question behind each gas coin of the index is among the questions
/// behind them all.
pub proof fn lemma_coin_reads_hold(infos: Seq<OwnedObjectInfo>, position: int)
    requires
        0 <= position < infos.len(),
        infos[position].is_gas_coin,
    ensures
        coin_reads_of(infos).contains(Read::Latest(infos[position].object_id)),
    decreases infos.len(),
{
    let earlier = coin_reads_of(infos.drop_last());
    let reads = coin_reads_of(infos);
    let read = Read::Latest(infos[position].object_id);
    if position == infos.len() - 1 {
        assert(reads[earlier.len() as int] == read);
    } else {
        lemma_coin_reads_hold(infos.drop_last(), position);
        let at = choose|at: int| 0 <= at < earlier.len() && earlier[at] == read;
        assert(reads[at] == read);
    }
}

/// Computes [`reference_read`].
pub fn read_for_reference(reference: &UnresolvedObjectReference) -> (read: Read)
    ensures
        read == reference_read(*reference),
{
    match reference.version {
        Some(version) => Read::AtVersion(reference.object_id, version),
        None => Read::Latest(reference.object_id),
    }
}

/// Lists everything that the resolution of `transaction` asks before it
/// knows the owner's objects.
pub fn required_reads(transaction: &UnresolvedTransaction) -> (reads: Vec<Read>)
    ensures
        reads@ == reads_of(*transaction),
{
    let mut reads: Vec<Read> = Vec::new();
    let commands = &transaction.ptb.commands;
    let mut c: usize = 0;
    proof {
        assert(commands@.take(0) =~= Seq::<Command>::empty());
    }
    while c < commands.len()
        invariant
            c <= commands@.len(),
            reads@ == command_reads(commands@.take(c as int)),
        decreases commands@.len() - c,
    {
        proof {
            assert(commands@.take(c + 1).drop_last() =~= commands@.take(c as int));
            assert(commands@.take(c + 1).last() == commands@[c as int]);
        }
        match &commands[c] {
            Command::MoveCall(call) => {
                reads.push(Read::Latest(call.package));
            },
            _ => {},
        }
        c += 1;
    }
    proof {
        assert(commands@.take(c as int) =~= commands@);
    }
    let inputs = &transaction.ptb.inputs;
    let ghost for_commands = reads@;
    let mut i: usize = 0;
    proof {
        assert(inputs@.take(0) =~= Seq::<UnresolvedInputArgument>::empty());
        assert(reads@ =~= for_commands + input_reads(inputs@.take(0)));
    }
    while i < inputs.len()
        invariant
            i <= inputs@.len(),
            reads@ == for_commands + input_reads(inputs@.take(i as int)),
        decreases inputs@.len() - i,
    {
        proof {
            assert(inputs@.take(i + 1).drop_last() =~= inputs@.take(i as int));
            assert(inputs@.take(i + 1).last() == inputs@[i as int]);
        }
        let ghost before = reads@;
        match &inputs[i] {
            UnresolvedInputArgument::Pure { .. } => {},
            UnresolvedInputArgument::ImmutableOrOwned(reference) => {
                reads.push(read_for_reference(reference));
            },
            UnresolvedInputArgument::Shared { object_id, .. } => {
                reads.push(Read::Latest(*object_id));
            },
            UnresolvedInputArgument::Receiving(reference) => {
                reads.push(read_for_reference(reference));
            },
        }
        i += 1;
        proof {
            assert(reads@ =~= for_commands + input_reads(inputs@.take(i as int)));
        }
    }
    proof {
        assert(inputs@.take(i as int) =~= inputs@);
    }
    let ghost for_body = reads@;
    match &transaction.gas_payment {
        Some(payment) => {
            if payment.objects.len() == 0 {
                reads.push(Read::OwnedObjects(payment.owner));
                proof {
                    assert(reads@ =~= for_body + payment_reads(*transaction));
                }
            } else {
                let mut g: usize = 0;
                while g < payment.objects.len()
                    invariant
                        g <= payment.objects@.len(),
                        reads@.len() == for_body.len() + g,
                        forall|k: int| 0 <= k < for_body.len() ==> reads@[k] == for_body[k],
                        forall|k: int|
                            0 <= k < g ==> #[trigger] reads@[for_body.len() + k] == reference_read(
                                payment.objects@[k],
                            ),
                    decreases payment.objects@.len() - g,
                {
                    reads.push(read_for_reference(&payment.objects[g]));
                    g += 1;
                }
                proof {
                    assert(reads@ =~= for_body + payment_reads(*transaction)) by {
                        let listed = reference_reads(payment.objects@);
                        assert forall|k: int| 0 <= k < reads@.len() implies reads@[k] == (for_body
                            + listed)[k] by {
                            if k >= for_body.len() {
                                assert(reads@[for_body.len() + (k - for_body.len())]
                                    == reference_read(payment.objects@[k - for_body.len()]));
                            }
                        }
                    }
                }
            }
        },
        None => {
            reads.push(Read::OwnedObjects(transaction.sender));
            proof {
                assert(reads@ =~= for_body + payment_reads(*transaction));
            }
        },
    }
    reads
}

/// Lists what is asked once the owner's objects are known.
pub fn coin_reads(infos: &Vec<OwnedObjectInfo>) -> (reads: Vec<Read>)
    ensures
        reads@ == coin_reads_of(infos@),
{
    let mut reads: Vec<Read> = Vec::new();
    let mut i: usize = 0;
    proof {
        assert(infos@.take(0) =~= Seq::<OwnedObjectInfo>::empty());
    }
    while i < infos.len()
        invariant
            i <= infos@.len(),
            reads@ == coin_reads_of(infos@.take(i as int)),
        decreases infos@.len() - i,
    {
        proof {
            assert(infos@.take(i + 1).drop_last() =~= infos@.take(i as int));
            assert(infos@.take(i + 1).last() == infos@[i as int]);
        }
        if infos[i].is_gas_coin {
            reads.push(Read::Latest(infos[i].object_id));
        }
        i += 1;
    }
    proof {
        assert(infos@.take(i as int) =~= infos@);
    }
    reads
}

/// Two snapshots that answer a list of questions alike answer each part
/// of the list alike.
pub proof fn lemma_alike_on_parts(
    first: SnapshotView,
    second: SnapshotView,
    front: Seq<Read>,
    back: Seq<Read>,
)
    requires
        answer_all_alike(first, second, front + back),
    ensures
        answer_all_alike(first, second, front),
        answer_all_alike(first, second, back),
{
    let whole = front + back;
    assert forall|k: int| 0 <= k < front.len() implies answer_alike(
        first,
        second,
        #[trigger] front[k],
    ) by {
        assert(whole[k] == front[k]);
    }
    assert forall|k: int| 0 <= k < back.len() implies answer_alike(
        first,
        second,
        #[trigger] back[k],
    ) by {
        assert(whole[front.len() + k] == back[k]);
    }
}

/// Two snapshots that hold the same packages under the names that the
/// commands call give the same packages.
pub proof fn lemma_packages_alike(
    first: SnapshotView,
    second: SnapshotView,
    commands: Seq<Command>,
    upto: int,
)
    requires
        answer_all_alike(first, second, command_reads(commands)),
        0 <= upto <= commands.len(),
    ensures
        normalized_packages_upto(first, commands, upto) == normalized_packages_upto(
            second,
            commands,
            upto,
        ),
    decreases upto,
{
    if upto > 0 {
        lemma_packages_alike(first, second, commands, upto - 1);
        let last = upto - 1;
        match called_package(commands[last]) {
            Some(id) => {
                lemma_command_reads_hold(commands, last);
                let reads = command_reads(commands);
                let at = choose|at: int| 0 <= at < reads.len() && reads[at] == Read::Latest(id);
                assert(answer_alike(first, second, reads[at]));
                assert(normalized_package(first, id) == normalized_package(second, id));
            },
            None => {},
        }
    }
}

/// Two snapshots that answer alike for each of `references` resolve them
/// alike.
pub proof fn lemma_references_alike(
    first: SnapshotView,
    second: SnapshotView,
    references: Seq<UnresolvedObjectReference>,
)
    requires
        answer_all_alike(first, second, reference_reads(references)),
    ensures
        reference_outcomes(first, references) == reference_outcomes(second, references),
{
    let reads = reference_reads(references);
    assert forall|i: int| 0 <= i < references.len() implies resolved_reference(
        first,
        references[i],
    ) == resolved_reference(second, references[i]) by {
        assert(answer_alike(first, second, reads[i]));
        assert(referenced_object(first, references[i]) == referenced_object(
            second,
            references[i],
        ));
    }
    assert(reference_outcomes(first, references) =~= reference_outcomes(second, references));
}

/// Two snapshots that answer alike for each of `inputs` resolve them
/// alike.
pub proof fn lemma_arguments_alike(
    first: SnapshotView,
    second: SnapshotView,
    packages: Seq<NormalizedPackage>,
    commands: Seq<Command>,
    inputs: Seq<UnresolvedInputArgument>,
)
    requires
        answer_all_alike(first, second, input_reads(inputs)),
    ensures
        argument_outcomes(first, packages, commands, inputs) == argument_outcomes(
            second,
            packages,
            commands,
            inputs,
        ),
{
    let reads = input_reads(inputs);
    assert forall|i: int| 0 <= i < inputs.len() implies resolved_argument(
        first,
        packages,
        commands,
        inputs[i],
        i as usize,
    ) == resolved_argument(second, packages, commands, inputs[i], i as usize) by {
        if input_read(inputs[i]) is Some {
            lemma_input_reads_hold(inputs, i);
            let read = input_read(inputs[i])->0;
            let at = choose|at: int| 0 <= at < reads.len() && reads[at] == read;
            assert(answer_alike(first, second, reads[at]));
            match inputs[i] {
                UnresolvedInputArgument::ImmutableOrOwned(reference) => {
                    assert(referenced_object(first, reference) == referenced_object(
                        second,
                        reference,
                    ));
                },
                UnresolvedInputArgument::Receiving(reference) => {
                    assert(referenced_object(first, reference) == referenced_object(
                        second,
                        reference,
                    ));
                },
                _ => {},
            }
        }
    }
    assert(argument_outcomes(first, packages, commands, inputs) =~= argument_outcomes(
        second,
        packages,
        commands,
        inputs,
    ));
}

/// Two snapshots that answer alike to everything that the resolution of
/// `transaction` asks resolve it alike, as far as the resolution goes
/// before its budget and its gas coins are settled.
pub proof fn lemma_base_resolution_alike(
    first: SnapshotView,
    second: SnapshotView,
    chain: ChainParameters,
    transaction: UnresolvedTransaction,
)
    requires
        answer_all_alike(first, second, reads_of(transaction)),
    ensures
        base_resolution(first, chain, transaction) == base_resolution(second, chain, transaction),
{
    let for_commands = command_reads(transaction.ptb.commands@);
    let for_inputs = input_reads(transaction.ptb.inputs@);
    let for_payment = payment_reads(transaction);
    lemma_alike_on_parts(first, second, for_commands + for_inputs, for_payment);
    lemma_alike_on_parts(first, second, for_commands, for_inputs);
    let commands = transaction.ptb.commands@;
    lemma_packages_alike(first, second, commands, commands.len() as int);
    match normalized_packages_upto(first, commands, commands.len() as int) {
        Ok(packages) => {
            lemma_arguments_alike(first, second, packages, commands, transaction.ptb.inputs@);
        },
        Err(_) => {},
    }
    if listed_payment(transaction).len() > 0 {
        lemma_references_alike(first, second, listed_payment(transaction));
    } else {
        match transaction.gas_payment {
            Some(payment) => {
                assert(reference_outcomes(first, payment.objects@) =~= reference_outcomes(
                    second,
                    payment.objects@,
                ));
            },
            None => {},
        }
    }
    assert(resolved_payment(first, transaction.gas_payment) == resolved_payment(
        second,
        transaction.gas_payment,
    ));
}

/// The questions behind the first entries of the index are the first
/// questions behind the whole.
pub proof fn lemma_coin_reads_of_front(infos: Seq<OwnedObjectInfo>)
    requires
        infos.len() > 0,
    ensures
        coin_reads_of(infos.drop_last()).len() <= coin_reads_of(infos).len(),
        forall|k: int|
            0 <= k < coin_reads_of(infos.drop_last()).len() ==> coin_reads_of(infos)[k]
                == #[trigger] coin_reads_of(infos.drop_last())[k],
{
}

/// Two snapshots that hold the same latest version of each gas coin of
/// the index find the same gas coins behind it.
pub proof fn lemma_gas_coins_alike(
    first: SnapshotView,
    second: SnapshotView,
    infos: Seq<OwnedObjectInfo>,
    input_objects: Seq<ObjectId>,
)
    requires
        answer_all_alike(first, second, coin_reads_of(infos)),
    ensures
        gas_coins_among(first, infos, input_objects) == gas_coins_among(
            second,
            infos,
            input_objects,
        ),
    decreases infos.len(),
{
    if infos.len() > 0 {
        lemma_coin_reads_of_front(infos);
        let front = coin_reads_of(infos.drop_last());
        let reads = coin_reads_of(infos);
        assert forall|k: int| 0 <= k < front.len() implies answer_alike(
            first,
            second,
            #[trigger] front[k],
        ) by {
            assert(reads[k] == front[k]);
        }
        lemma_gas_coins_alike(first, second, infos.drop_last(), input_objects);
        let info = infos.last();
        if info.is_gas_coin {
            assert(reads[front.len() as int] == Read::Latest(info.object_id));
            assert(answer_alike(first, second, reads[front.len() as int]));
        }
        assert(gas_coin_of(first, info, input_objects) == gas_coin_of(
            second,
            info,
            input_objects,
        ));
    }
}

/// Whether two snapshots agree on the gas coins among which the payment
/// of `base` is chosen: on the index of the owner and on the latest
/// version of each gas coin in it. Nothing is asked of them where the
/// transaction has a payment.
pub open spec fn agree_on_gas(first: SnapshotView, second: SnapshotView, base: TransactionView)
    -> bool {
    base.payment.len() == 0 ==> {
        &&& first.owned_by(base.gas_owner) == second.owned_by(base.gas_owner)
        &&& answer_all_alike(first, second, coin_reads_of(first.owned_by(base.gas_owner)))
    }
}

/// Whether two snapshots agree on everything that the resolution of
/// `transaction` asks: on what it asks at first, and, where no payment is
/// listed, on the latest version of each gas coin of the owner.
pub open spec fn agree_on_reads(
    first: SnapshotView,
    second: SnapshotView,
    transaction: UnresolvedTransaction,
) -> bool {
    &&& answer_all_alike(first, second, reads_of(transaction))
    &&& listed_payment(transaction).len() == 0 ==> answer_all_alike(
        first,
        second,
        coin_reads_of(first.owned_by(gas_owner(transaction))),
    )
}

/// Settling a transaction depends on the snapshot through the gas coins
/// of its owner alone.
pub proof fn lemma_settlement_alike(
    first: SnapshotView,
    second: SnapshotView,
    chain: ChainParameters,
    base: TransactionView,
    budget: u64,
    settled: Result<TransactionView, ResolveError>,
)
    requires
        agree_on_gas(first, second, base),
        is_settlement(first, chain, base, budget, settled),
    ensures
        is_settlement(second, chain, base, budget, settled),
{
    if base.payment.len() == 0 {
        lemma_gas_coins_alike(
            first,
            second,
            first.owned_by(base.gas_owner),
            crate::orchestrator::input_objects(base.inputs),
        );
        assert(payment_candidates(first, base) == payment_candidates(second, base));
    }
}

/// A resolution depends on the snapshot through the answers to its
/// questions alone: what is an outcome against one snapshot is an outcome
/// against every snapshot that answers them alike.
pub proof fn lemma_resolution_asks_only_its_reads(
    first: SnapshotView,
    second: SnapshotView,
    chain: ChainParameters,
    parameters: ResolveTransactionQueryParameters,
    transaction: UnresolvedTransaction,
    outcome: Result<ResolutionView, ResolveError>,
)
    requires
        agree_on_reads(first, second, transaction),
        is_resolution_outcome(first, chain, parameters, transaction, outcome),
    ensures
        is_resolution_outcome(second, chain, parameters, transaction, outcome),
{
    lemma_base_resolution_alike(first, second, chain, transaction);
    match base_resolution(first, chain, transaction) {
        Err(_) => {},
        Ok(base) => match transaction.requested_budget() {
            None => {},
            Some(budget) => {
                assert(agree_on_gas(first, second, base)) by {
                    if base.payment.len() == 0 {
                        assert(base.gas_owner == gas_owner(transaction));
                        match transaction.gas_payment {
                            Some(payment) => {
                                lemma_all_or_first_error(
                                    reference_outcomes(first, payment.objects@),
                                );
                            },
                            None => {},
                        }
                        assert(listed_payment(transaction).len() == 0);
                        let reads = reads_of(transaction);
                        let asked = Read::OwnedObjects(gas_owner(transaction));
                        assert(reads[reads.len() - 1] == asked);
                        assert(answer_alike(first, second, reads[reads.len() - 1]));
                    }
                }
                match outcome {
                    Ok(ResolutionView::Resolved { transaction: settled, .. }) => {
                        lemma_settlement_alike(first, second, chain, base, budget, Ok(settled));
                    },
                    Ok(ResolutionView::AwaitingDryRun { .. }) => {},
                    Err(error) => {
                        lemma_settlement_alike(first, second, chain, base, budget, Err(error));
                    },
                }
            },
        },
    }
}

/// The step after a trial run depends on the snapshot through the gas
/// coins of the owner alone.
pub proof fn lemma_dry_run_asks_only_for_gas(
    first: SnapshotView,
    second: SnapshotView,
    chain: ChainParameters,
    parameters: ResolveTransactionQueryParameters,
    base: TransactionView,
    cost: Option<GasCostSummary>,
    outcome: Result<ResolutionView, ResolveError>,
)
    requires
        agree_on_gas(first, second, base),
        is_dry_run_outcome(first, chain, parameters, base, cost, outcome),
    ensures
        is_dry_run_outcome(second, chain, parameters, base, cost, outcome),
{
    match cost {
        None => {},
        Some(summary) => {
            let estimate = crate::gas::estimated_budget(summary, chain.reference_gas_price);
            if estimate <= u64::MAX {
                match outcome {
                    Ok(ResolutionView::Resolved { transaction: settled, .. }) => {
                        lemma_settlement_alike(
                            first,
                            second,
                            chain,
                            base,
                            estimate as u64,
                            Ok(settled),
                        );
                    },
                    Ok(ResolutionView::AwaitingDryRun { .. }) => {},
                    Err(error) => {
                        lemma_settlement_alike(
                            first,
                            second,
                            chain,
                            base,
                            estimate as u64,
                            Err(error),
                        );
                    },
                }
            }
        },
    }
}

} // verus!
