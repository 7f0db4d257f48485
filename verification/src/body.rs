//! Resolution of the inputs and commands of a transaction.

use vstd::prelude::*;
use crate::argument::{resolve_arg, resolved_argument};
use crate::command::Command;
use crate::error::ResolveError;
use crate::outcomes::{all_or_first_error, lemma_failure_is_final};
use crate::package::NormalizedPackage;
use crate::request::{UnresolvedInputArgument, UnresolvedProgrammableTransaction};
use crate::snapshot::{ChainSnapshot, SnapshotView};
use crate::transaction::{CallArg, ProgrammableTransaction};

verus! {

/// What resolving each of `inputs` at its own position gives.
pub open spec fn argument_outcomes(
    snapshot: SnapshotView,
    packages: Seq<NormalizedPackage>,
    commands: Seq<Command>,
    inputs: Seq<UnresolvedInputArgument>,
) -> Seq<Result<CallArg, ResolveError>> {
    Seq::new(
        inputs.len(),
        |i: int| resolved_argument(snapshot, packages, commands, inputs[i], i as usize),
    )
}

/// The resolved inputs of a transaction: each input resolved at its own
/// position against all the commands, in the order of the inputs; or the
/// error of the first input that cannot be resolved.
pub open spec fn resolved_inputs(
    snapshot: SnapshotView,
    packages: Seq<NormalizedPackage>,
    commands: Seq<Command>,
    inputs: Seq<UnresolvedInputArgument>,
) -> Result<Seq<CallArg>, ResolveError> {
    all_or_first_error(argument_outcomes(snapshot, packages, commands, inputs))
}

/// Resolves the inputs of a transaction in their order and hands its
/// commands on as they are.
pub fn resolve_ptb(
    reader: &ChainSnapshot,
    called_packages: &Vec<NormalizedPackage>,
    unresolved_ptb: UnresolvedProgrammableTransaction,
) -> (resolved: Result<ProgrammableTransaction, ResolveError>)
    ensures
        match resolved {
            Ok(ptb) => resolved_inputs(
                reader@,
                called_packages@,
                unresolved_ptb.commands@,
                unresolved_ptb.inputs@,
            ) == Ok::<Seq<CallArg>, ResolveError>(ptb.inputs@) && ptb.commands
                == unresolved_ptb.commands,
            Err(error) => resolved_inputs(
                reader@,
                called_packages@,
                unresolved_ptb.commands@,
                unresolved_ptb.inputs@,
            ) == Err::<Seq<CallArg>, ResolveError>(error),
        },
{
    let UnresolvedProgrammableTransaction { inputs: unresolved_inputs, commands } = unresolved_ptb;
    let ghost outcomes = argument_outcomes(
        reader@,
        called_packages@,
        commands@,
        unresolved_inputs@,
    );
    let mut inputs: Vec<CallArg> = Vec::new();
    for arg in it: unresolved_inputs.into_iter()
        invariant
            it.seq() == unresolved_inputs@,
            unresolved_inputs == unresolved_ptb.inputs,
            commands == unresolved_ptb.commands,
            inputs@.len() == it.index(),
            outcomes == argument_outcomes(
                reader@,
                called_packages@,
                commands@,
                unresolved_inputs@,
            ),
            all_or_first_error(outcomes.take(it.index() as int)) == Ok::<
                Seq<CallArg>,
                ResolveError,
            >(inputs@),
    {
        let ghost i = it.index() as int;
        proof {
            assert(outcomes.take(i + 1).drop_last() =~= outcomes.take(i));
            assert(outcomes.take(i + 1).last() == outcomes[i]);
            assert(0 <= i < unresolved_inputs@.len());
            assert(arg == unresolved_inputs@[i]);
            assert(outcomes[i] == resolved_argument(
                reader@,
                called_packages@,
                commands@,
                arg,
                i as usize,
            ));
        }
        match resolve_arg(reader, called_packages, &commands, arg, inputs.len()) {
            Ok(resolved) => {
                inputs.push(resolved);
            },
            Err(error) => {
                proof {
                    lemma_failure_is_final(outcomes, i + 1);
                }
                return Err(error);
            },
        }
    }
    proof {
        assert(outcomes.take(outcomes.len() as int) =~= outcomes);
    }
    Ok(ProgrammableTransaction { inputs, commands })
}

} // verus!
