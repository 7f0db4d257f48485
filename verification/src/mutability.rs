//! Whether a transaction needs a shared input mutably, inferred from the
//! commands that use it.

use vstd::prelude::*;
use crate::command::{Command, MoveCall};
use crate::error::{InvalidInput, ResolveError};
use crate::package::{find_parameters, parameters_of, NormalizedPackage};
use crate::uses::{
    find_arg_uses,
    is_use_list,
    is_use_site,
    slot_count,
    slot_precedes,
    use_precedes,
    ArgUse,
};

verus! {

/// The error for a call whose function is in none of the tables.
pub open spec fn function_not_found(call: MoveCall) -> ResolveError {
    ResolveError::InvalidInput(
        InvalidInput::FunctionNotFound {
            package: call.package,
            module: call.module,
            function: call.function,
        },
    )
}

/// What one use says about the mutability of the input.
///
/// A call that passes the input at `slot` needs it mutably where the
/// parameter at that position is a mutable reference or a struct by value;
/// the function and the parameter must exist. A split, a merge and a
/// vector always need their operand mutably. No other use does.
pub open spec fn use_mutability(
    packages: Seq<NormalizedPackage>,
    command: Command,
    slot: Option<usize>,
) -> Result<bool, ResolveError> {
    match command {
        Command::MoveCall(call) => match slot {
            Some(position) => match parameters_of(
                packages,
                call.package,
                call.module@,
                call.function@,
            ) {
                None => Err(function_not_found(call)),
                Some(parameters) => if position < parameters.len() {
                    Ok(parameters[position as int].needs_mutable_access())
                } else {
                    Err(ResolveError::InvalidInput(InvalidInput::InvalidParameter))
                },
            },
            None => Ok(false),
        },
        Command::SplitCoins(_) => Ok(true),
        Command::MergeCoins(_) => Ok(true),
        Command::MakeMoveVector(_) => Ok(true),
        Command::TransferObjects(_) => Ok(false),
        Command::Publish(_) => Ok(false),
        Command::Upgrade(_) => Ok(false),
    }
}

/// What the uses of the input `arg_idx` at the positions of `command` from
/// `from` on say about its mutability. The uses are asked in order; the
/// first that needs the input mutably, or that fails, decides.
pub open spec fn slots_mutability_from(
    packages: Seq<NormalizedPackage>,
    command: Command,
    arg_idx: usize,
    from: int,
) -> Result<bool, ResolveError>
    decreases slot_count(command) - from,
{
    if from < 0 || from >= slot_count(command) {
        Ok(false)
    } else if is_use_site(command, arg_idx, Some(from as usize)) {
        match use_mutability(packages, command, Some(from as usize)) {
            Err(error) => Err(error),
            Ok(true) => Ok(true),
            Ok(false) => slots_mutability_from(packages, command, arg_idx, from + 1),
        }
    } else {
        slots_mutability_from(packages, command, arg_idx, from + 1)
    }
}

/// What `command` says about the mutability of the input `arg_idx`: what
/// its use without a position says where it has one, else what its uses at
/// its positions say, asked in order.
pub open spec fn command_mutability(
    packages: Seq<NormalizedPackage>,
    command: Command,
    arg_idx: usize,
) -> Result<bool, ResolveError> {
    if is_use_site(command, arg_idx, None) {
        use_mutability(packages, command, None)
    } else {
        slots_mutability_from(packages, command, arg_idx, 0)
    }
}

/// Whether the use of `command` at `slot` decides with `outcome`: it says
/// so, and every use of the command before it is content with immutable
/// access.
pub open spec fn decides_at(
    packages: Seq<NormalizedPackage>,
    command: Command,
    arg_idx: usize,
    slot: Option<usize>,
    outcome: Result<bool, ResolveError>,
) -> bool {
    &&& is_use_site(command, arg_idx, slot)
    &&& use_mutability(packages, command, slot) == outcome
    &&& forall|earlier: Option<usize>|
        (#[trigger] is_use_site(command, arg_idx, earlier)) && slot_precedes(earlier, slot)
            ==> use_mutability(packages, command, earlier) == Ok::<bool, ResolveError>(false)
}

proof fn lemma_slots_mutability(
    packages: Seq<NormalizedPackage>,
    command: Command,
    arg_idx: usize,
    from: int,
)
    requires
        0 <= from <= slot_count(command),
    ensures
        slots_mutability_from(packages, command, arg_idx, from) == Ok::<bool, ResolveError>(false)
            ==> forall|position: usize|
            from <= position && #[trigger] is_use_site(command, arg_idx, Some(position))
                ==> use_mutability(packages, command, Some(position)) == Ok::<bool, ResolveError>(
                false,
            ),
        slots_mutability_from(packages, command, arg_idx, from) != Ok::<bool, ResolveError>(false)
            ==> exists|position: usize|
            from <= position && #[trigger] is_use_site(command, arg_idx, Some(position))
                && use_mutability(packages, command, Some(position)) == slots_mutability_from(
                packages,
                command,
                arg_idx,
                from,
            ) && forall|earlier: usize|
                from <= earlier < position && #[trigger] is_use_site(
                    command,
                    arg_idx,
                    Some(earlier),
                ) ==> use_mutability(packages, command, Some(earlier)) == Ok::<
                    bool,
                    ResolveError,
                >(false),
    decreases slot_count(command) - from,
{
    let here = slots_mutability_from(packages, command, arg_idx, from);
    if from < slot_count(command) {
        let next = from + 1;
        lemma_slots_mutability(packages, command, arg_idx, next);
        let rest = slots_mutability_from(packages, command, arg_idx, next);
        let this = Some(from as usize);
        assert(from as usize == from);
        let said = use_mutability(packages, command, this);
        if is_use_site(command, arg_idx, this) && said != Ok::<bool, ResolveError>(false) {
            assert(here == said);
            assert(is_use_site(command, arg_idx, Some(from as usize)));
        } else {
            assert(here == rest);
            if rest == Ok::<bool, ResolveError>(false) {
                assert forall|position: usize|
                    from <= position && #[trigger] is_use_site(
                        command,
                        arg_idx,
                        Some(position),
                    ) implies use_mutability(packages, command, Some(position)) == Ok::<
                    bool,
                    ResolveError,
                >(false) by {
                    if position == from {
                        assert(Some(position) == this);
                    }
                }
            } else {
                let position = choose|position: usize|
                    next <= position && #[trigger] is_use_site(command, arg_idx, Some(position))
                        && use_mutability(packages, command, Some(position)) == rest && forall|
                        earlier: usize,
                    |
                        next <= earlier < position && #[trigger] is_use_site(
                            command,
                            arg_idx,
                            Some(earlier),
                        ) ==> use_mutability(packages, command, Some(earlier)) == Ok::<
                            bool,
                            ResolveError,
                        >(false);
                assert(is_use_site(command, arg_idx, Some(position)));
                assert forall|earlier: usize|
                    from <= earlier < position && #[trigger] is_use_site(
                        command,
                        arg_idx,
                        Some(earlier),
                    ) implies use_mutability(packages, command, Some(earlier)) == Ok::<
                    bool,
                    ResolveError,
                >(false) by {
                    if earlier == from {
                        assert(Some(earlier) == this);
                    }
                }
            }
        }
    }
}

/// What a command says is `false` exactly where each of its uses is content
/// with immutable access. Where it says anything else, one of its uses
/// says so, and every use before that one is content with immutable
/// access.
pub proof fn lemma_command_mutability_decided(
    packages: Seq<NormalizedPackage>,
    command: Command,
    arg_idx: usize,
)
    ensures
        command_mutability(packages, command, arg_idx) == Ok::<bool, ResolveError>(false)
            <==> forall|slot: Option<usize>| #[trigger]
            is_use_site(command, arg_idx, slot) ==> use_mutability(packages, command, slot)
                == Ok::<bool, ResolveError>(false),
        command_mutability(packages, command, arg_idx) != Ok::<bool, ResolveError>(false)
            ==> exists|slot: Option<usize>|
            decides_at(
                packages,
                command,
                arg_idx,
                slot,
                command_mutability(packages, command, arg_idx),
            ),
{
    let said = command_mutability(packages, command, arg_idx);
    if is_use_site(command, arg_idx, None) {
        assert forall|slot: Option<usize>| #[trigger]
            is_use_site(command, arg_idx, slot) implies slot is None by {
            if slot is Some {
                crate::uses::lemma_use_site_in_range(command, arg_idx, slot->0);
            }
        }
        if said != Ok::<bool, ResolveError>(false) {
            assert(decides_at(packages, command, arg_idx, None, said));
        }
    } else {
        lemma_slots_mutability(packages, command, arg_idx, 0);
        if said == Ok::<bool, ResolveError>(false) {
            assert forall|slot: Option<usize>| #[trigger]
                is_use_site(command, arg_idx, slot) implies use_mutability(packages, command, slot)
                == Ok::<bool, ResolveError>(false) by {
                let position = slot->0;
                assert(is_use_site(command, arg_idx, Some(position)));
            }
        } else {
            let position = choose|position: usize|
                0 <= position && #[trigger] is_use_site(command, arg_idx, Some(position))
                    && use_mutability(packages, command, Some(position)) == said && forall|
                    earlier: usize,
                |
                    0 <= earlier < position && #[trigger] is_use_site(
                        command,
                        arg_idx,
                        Some(earlier),
                    ) ==> use_mutability(packages, command, Some(earlier)) == Ok::<
                        bool,
                        ResolveError,
                    >(false);
            assert forall|earlier: Option<usize>|
                (#[trigger] is_use_site(command, arg_idx, earlier)) && slot_precedes(
                    earlier,
                    Some(position),
                ) implies use_mutability(packages, command, earlier) == Ok::<bool, ResolveError>(
                false,
            ) by {
                let lower = earlier->0;
                assert(is_use_site(command, arg_idx, Some(lower)));
            }
            assert(decides_at(packages, command, arg_idx, Some(position), said));
            assert(use_mutability(packages, command, Some(position)) != Ok::<bool, ResolveError>(
                false,
            ));
        }
    }
}

/// The use that decides for a command is the only one that can: where a
/// use says other than `false` and every use before it is content with
/// immutable access, the command says what that use says.
pub proof fn lemma_first_deciding_use(
    packages: Seq<NormalizedPackage>,
    command: Command,
    arg_idx: usize,
    slot: Option<usize>,
    outcome: Result<bool, ResolveError>,
)
    requires
        decides_at(packages, command, arg_idx, slot, outcome),
        outcome != Ok::<bool, ResolveError>(false),
    ensures
        command_mutability(packages, command, arg_idx) == outcome,
{
    lemma_command_mutability_decided(packages, command, arg_idx);
    let said = command_mutability(packages, command, arg_idx);
    assert(is_use_site(command, arg_idx, slot));
    if said != Ok::<bool, ResolveError>(false) {
        let other = choose|other: Option<usize>|
            decides_at(packages, command, arg_idx, other, said);
        assert(is_use_site(command, arg_idx, other));
        if other != slot {
            if slot is Some {
                crate::uses::lemma_use_site_in_range(command, arg_idx, slot->0);
            }
            if other is Some {
                crate::uses::lemma_use_site_in_range(command, arg_idx, other->0);
            }
            assert(slot_precedes(other, slot) || slot_precedes(slot, other));
        }
    }
}

/// The mutability of the input `arg_idx` as the commands from position
/// `from` on determine it. The commands are asked in order; the first that
/// needs the input mutably, or that fails, decides.
pub open spec fn shared_mutability_from(
    packages: Seq<NormalizedPackage>,
    commands: Seq<Command>,
    arg_idx: usize,
    from: int,
) -> Result<bool, ResolveError>
    decreases commands.len() - from,
{
    if from < 0 || from >= commands.len() {
        Ok(false)
    } else {
        match command_mutability(packages, commands[from], arg_idx) {
            Err(error) => Err(error),
            Ok(true) => Ok(true),
            Ok(false) => shared_mutability_from(packages, commands, arg_idx, from + 1),
        }
    }
}

/// The mutability of the input `arg_idx` in a transaction with these
/// commands.
pub open spec fn shared_mutability(
    packages: Seq<NormalizedPackage>,
    commands: Seq<Command>,
    arg_idx: usize,
) -> Result<bool, ResolveError> {
    shared_mutability_from(packages, commands, arg_idx, 0)
}

/// Whether the command at `position` is the first to need the input
/// mutably, and none of the commands from `from` up to it fails.
pub open spec fn decides_mutable(
    packages: Seq<NormalizedPackage>,
    commands: Seq<Command>,
    arg_idx: usize,
    from: int,
    position: int,
) -> bool {
    &&& 0 <= from <= position < commands.len()
    &&& command_mutability(packages, commands[position], arg_idx) == Ok::<bool, ResolveError>(
        true,
    )
    &&& forall|earlier: int|
        from <= earlier < position ==> #[trigger] command_mutability(
            packages,
            commands[earlier],
            arg_idx,
        ) == Ok::<bool, ResolveError>(false)
}

/// Commands that do not use the input can be passed over.
pub proof fn lemma_pass_over(
    packages: Seq<NormalizedPackage>,
    commands: Seq<Command>,
    arg_idx: usize,
    from: int,
    to: int,
)
    requires
        0 <= from <= to <= commands.len(),
        forall|c: int|
            from <= c < to ==> #[trigger] command_mutability(packages, commands[c], arg_idx)
                == Ok::<bool, ResolveError>(false),
    ensures
        shared_mutability_from(packages, commands, arg_idx, from) == shared_mutability_from(
            packages,
            commands,
            arg_idx,
            to,
        ),
    decreases to - from,
{
    if from < to {
        assert(command_mutability(packages, commands[from], arg_idx) == Ok::<bool, ResolveError>(
            false,
        ));
        lemma_pass_over(packages, commands, arg_idx, from + 1, to);
    }
}

/// The inferred mutability is `true` exactly where some command needs the
/// input mutably and no command before it fails, and `false` exactly where
/// every command is content with immutable access.
pub proof fn lemma_mutability_decided(
    packages: Seq<NormalizedPackage>,
    commands: Seq<Command>,
    arg_idx: usize,
    from: int,
)
    requires
        0 <= from <= commands.len(),
    ensures
        shared_mutability_from(packages, commands, arg_idx, from) == Ok::<bool, ResolveError>(true)
            <==> exists|position: int|
            decides_mutable(packages, commands, arg_idx, from, position),
        shared_mutability_from(packages, commands, arg_idx, from) == Ok::<bool, ResolveError>(
            false,
        ) <==> forall|c: int|
            from <= c < commands.len() ==> #[trigger] command_mutability(
                packages,
                commands[c],
                arg_idx,
            ) == Ok::<bool, ResolveError>(false),
    decreases commands.len() - from,
{
    let here = shared_mutability_from(packages, commands, arg_idx, from);
    if from < commands.len() {
        let next = from + 1;
        lemma_mutability_decided(packages, commands, arg_idx, next);
        let rest = shared_mutability_from(packages, commands, arg_idx, next);
        let first = command_mutability(packages, commands[from], arg_idx);
        if first == Ok::<bool, ResolveError>(true) {
            assert(decides_mutable(packages, commands, arg_idx, from, from));
        } else if first == Ok::<bool, ResolveError>(false) {
            assert(here == rest);
            if rest == Ok::<bool, ResolveError>(true) {
                let position = choose|position: int|
                    decides_mutable(packages, commands, arg_idx, next, position);
                assert(decides_mutable(packages, commands, arg_idx, from, position));
            }
            if exists|position: int| decides_mutable(packages, commands, arg_idx, from, position) {
                let position = choose|position: int|
                    decides_mutable(packages, commands, arg_idx, from, position);
                assert(position != from);
                assert(decides_mutable(packages, commands, arg_idx, next, position));
            }
        } else {
            assert(here is Err);
            assert forall|position: int|
                !decides_mutable(packages, commands, arg_idx, from, position) by {
                if decides_mutable(packages, commands, arg_idx, from, position) {
                    if position > from {
                        assert(command_mutability(packages, commands[from], arg_idx) == Ok::<
                            bool,
                            ResolveError,
                        >(false));
                    }
                }
            }
        }
    }
}

/// The inferred mutability is the disjunction over the uses of the input:
/// where the inference succeeds, its result is `true` if and only if some
/// command uses the input at a place that needs it mutably.
pub proof fn lemma_mutability_is_disjunction(
    packages: Seq<NormalizedPackage>,
    commands: Seq<Command>,
    arg_idx: usize,
)
    requires
        shared_mutability(packages, commands, arg_idx) is Ok,
    ensures
        shared_mutability(packages, commands, arg_idx) == Ok::<bool, ResolveError>(
            exists|c: int, slot: Option<usize>|
                0 <= c < commands.len() && #[trigger] is_use_site(commands[c], arg_idx, slot)
                    && use_mutability(packages, commands[c], slot) == Ok::<bool, ResolveError>(
                    true,
                ),
        ),
{
    lemma_mutability_decided(packages, commands, arg_idx, 0);
    let result = shared_mutability(packages, commands, arg_idx);
    if result == Ok::<bool, ResolveError>(true) {
        let position = choose|position: int|
            decides_mutable(packages, commands, arg_idx, 0, position);
        lemma_command_mutability_decided(packages, commands[position], arg_idx);
        let slot = choose|slot: Option<usize>|
            decides_at(
                packages,
                commands[position],
                arg_idx,
                slot,
                Ok::<bool, ResolveError>(true),
            );
        assert(is_use_site(commands[position], arg_idx, slot));
    } else {
        assert(result == Ok::<bool, ResolveError>(result->Ok_0));
        assert forall|c: int, slot: Option<usize>|
            0 <= c < commands.len() && #[trigger] is_use_site(
                commands[c],
                arg_idx,
                slot,
            ) implies use_mutability(packages, commands[c], slot) != Ok::<bool, ResolveError>(
            true,
        ) by {
            assert(command_mutability(packages, commands[c], arg_idx) == Ok::<bool, ResolveError>(
                false,
            ));
            lemma_command_mutability_decided(packages, commands[c], arg_idx);
        }
    }
}

/// Where no use of the input fails, the inference succeeds.
pub proof fn lemma_mutability_succeeds(
    packages: Seq<NormalizedPackage>,
    commands: Seq<Command>,
    arg_idx: usize,
    from: int,
)
    requires
        0 <= from <= commands.len(),
        forall|c: int, slot: Option<usize>|
            0 <= c < commands.len() && #[trigger] is_use_site(commands[c], arg_idx, slot)
                ==> use_mutability(packages, commands[c], slot) is Ok,
    ensures
        shared_mutability_from(packages, commands, arg_idx, from) is Ok,
    decreases commands.len() - from,
{
    if from < commands.len() {
        lemma_mutability_succeeds(packages, commands, arg_idx, from + 1);
        lemma_command_mutability_decided(packages, commands[from], arg_idx);
        let said = command_mutability(packages, commands[from], arg_idx);
        if said != Ok::<bool, ResolveError>(false) {
            let slot = choose|slot: Option<usize>|
                decides_at(packages, commands[from], arg_idx, slot, said);
            assert(is_use_site(commands[from], arg_idx, slot));
        }
    }
}

/// What the uses in `uses` from position `from` on say about the
/// mutability of the input. They are asked in order; the first that needs
/// the input mutably, or that fails, decides.
pub open spec fn use_list_mutability_from(
    packages: Seq<NormalizedPackage>,
    commands: Seq<Command>,
    uses: Seq<ArgUse>,
    from: int,
) -> Result<bool, ResolveError>
    decreases uses.len() - from,
{
    if from < 0 || from >= uses.len() {
        Ok(false)
    } else {
        match use_mutability(packages, commands[uses[from].command as int], uses[from].slot) {
            Err(error) => Err(error),
            Ok(true) => Ok(true),
            Ok(false) => use_list_mutability_from(packages, commands, uses, from + 1),
        }
    }
}

proof fn lemma_use_list_mutability(
    packages: Seq<NormalizedPackage>,
    commands: Seq<Command>,
    uses: Seq<ArgUse>,
    from: int,
)
    requires
        0 <= from <= uses.len(),
    ensures
        use_list_mutability_from(packages, commands, uses, from) == Ok::<bool, ResolveError>(false)
            ==> forall|k: int|
            from <= k < uses.len() ==> use_mutability(
                packages,
                commands[(#[trigger] uses[k]).command as int],
                uses[k].slot,
            ) == Ok::<bool, ResolveError>(false),
        use_list_mutability_from(packages, commands, uses, from) != Ok::<bool, ResolveError>(false)
            ==> exists|k: int|
            from <= k < uses.len() && use_mutability(
                packages,
                commands[(#[trigger] uses[k]).command as int],
                uses[k].slot,
            ) == use_list_mutability_from(packages, commands, uses, from) && forall|j: int|
                from <= j < k ==> use_mutability(
                    packages,
                    commands[(#[trigger] uses[j]).command as int],
                    uses[j].slot,
                ) == Ok::<bool, ResolveError>(false),
    decreases uses.len() - from,
{
    if from < uses.len() {
        let next = from + 1;
        lemma_use_list_mutability(packages, commands, uses, next);
        let rest = use_list_mutability_from(packages, commands, uses, next);
        let said = use_mutability(packages, commands[uses[from].command as int], uses[from].slot);
        if said != Ok::<bool, ResolveError>(false) {
            assert(uses[from] == uses[from]);
        } else if rest != Ok::<bool, ResolveError>(false) {
            let k = choose|k: int|
                next <= k < uses.len() && use_mutability(
                    packages,
                    commands[(#[trigger] uses[k]).command as int],
                    uses[k].slot,
                ) == rest && forall|j: int|
                    next <= j < k ==> use_mutability(
                        packages,
                        commands[(#[trigger] uses[j]).command as int],
                        uses[j].slot,
                    ) == Ok::<bool, ResolveError>(false);
            assert(uses[k] == uses[k]);
        }
    }
}

/// Asking the uses of a use list in order gives the inferred mutability.
pub proof fn lemma_use_list_decides(
    packages: Seq<NormalizedPackage>,
    commands: Seq<Command>,
    arg_idx: usize,
    uses: Seq<ArgUse>,
)
    requires
        is_use_list(uses, commands, arg_idx),
    ensures
        use_list_mutability_from(packages, commands, uses, 0) == shared_mutability(
            packages,
            commands,
            arg_idx,
        ),
{
    lemma_use_list_mutability(packages, commands, uses, 0);
    let listed = use_list_mutability_from(packages, commands, uses, 0);
    if listed == Ok::<bool, ResolveError>(false) {
        assert forall|c: int| 0 <= c < commands.len() implies #[trigger] command_mutability(
            packages,
            commands[c],
            arg_idx,
        ) == Ok::<bool, ResolveError>(false) by {
            lemma_command_mutability_decided(packages, commands[c], arg_idx);
            assert forall|slot: Option<usize>| #[trigger]
                is_use_site(commands[c], arg_idx, slot) implies use_mutability(
                packages,
                commands[c],
                slot,
            ) == Ok::<bool, ResolveError>(false) by {
                let k = choose|k: int|
                    0 <= k < uses.len() && (#[trigger] uses[k]).command == c && uses[k].slot
                        == slot;
                assert(uses[k].command == c);
            }
        }
        lemma_pass_over(packages, commands, arg_idx, 0, commands.len() as int);
    } else {
        let k = choose|k: int|
            0 <= k < uses.len() && use_mutability(
                packages,
                commands[(#[trigger] uses[k]).command as int],
                uses[k].slot,
            ) == listed && forall|j: int|
                0 <= j < k ==> use_mutability(
                    packages,
                    commands[(#[trigger] uses[j]).command as int],
                    uses[j].slot,
                ) == Ok::<bool, ResolveError>(false);
        let deciding = uses[k];
        let at = deciding.command as int;
        // Every use before the deciding one, in the order of the uses, is
        // listed before it.
        assert forall|c: int, slot: Option<usize>|
            0 <= c < commands.len() && (#[trigger] is_use_site(commands[c], arg_idx, slot)) && (c
                < at || (c == at && slot_precedes(slot, deciding.slot))) implies use_mutability(
            packages,
            commands[c],
            slot,
        ) == Ok::<bool, ResolveError>(false) by {
            let j = choose|j: int|
                0 <= j < uses.len() && (#[trigger] uses[j]).command == c && uses[j].slot == slot;
            if j > k {
                assert(use_precedes(uses[k], uses[j]));
            }
            assert(j != k);
            assert(uses[j].command == c);
        }
        assert forall|c: int| 0 <= c < at implies #[trigger] command_mutability(
            packages,
            commands[c],
            arg_idx,
        ) == Ok::<bool, ResolveError>(false) by {
            lemma_command_mutability_decided(packages, commands[c], arg_idx);
        }
        assert(decides_at(packages, commands[at], arg_idx, deciding.slot, listed));
        lemma_first_deciding_use(packages, commands[at], arg_idx, deciding.slot, listed);
        lemma_pass_over(packages, commands, arg_idx, 0, at);
    }
}

/// An input that is inferred mutable stays so when a command that does not
/// need it mutably is taken out.
pub proof fn lemma_removing_use_keeps_mutable(
    packages: Seq<NormalizedPackage>,
    commands: Seq<Command>,
    arg_idx: usize,
    removed: int,
)
    requires
        0 <= removed < commands.len(),
        shared_mutability(packages, commands, arg_idx) == Ok::<bool, ResolveError>(true),
        command_mutability(packages, commands[removed], arg_idx) != Ok::<bool, ResolveError>(
            true,
        ),
    ensures
        shared_mutability(packages, commands.remove(removed), arg_idx) == Ok::<
            bool,
            ResolveError,
        >(true),
{
    lemma_mutability_decided(packages, commands, arg_idx, 0);
    let position = choose|position: int| decides_mutable(packages, commands, arg_idx, 0, position);
    let shorter = commands.remove(removed);
    let moved = if position < removed {
        position
    } else {
        position - 1
    };
    assert(position != removed);
    assert(shorter[moved] == commands[position]);
    assert forall|earlier: int| 0 <= earlier < moved implies #[trigger] command_mutability(
        packages,
        shorter[earlier],
        arg_idx,
    ) == Ok::<bool, ResolveError>(false) by {
        if earlier < removed {
            assert(shorter[earlier] == commands[earlier]);
        } else {
            assert(shorter[earlier] == commands[earlier + 1]);
        }
    }
    assert(decides_mutable(packages, shorter, arg_idx, 0, moved));
    lemma_mutability_decided(packages, shorter, arg_idx, 0);
}

/// Adding a command that needs the input mutably, anywhere among commands
/// for which the inference succeeds, makes the input mutable: an input that
/// was mutable stays so.
pub proof fn lemma_adding_mutating_use_makes_mutable(
    packages: Seq<NormalizedPackage>,
    commands: Seq<Command>,
    arg_idx: usize,
    position: int,
    added: Command,
)
    requires
        0 <= position <= commands.len(),
        shared_mutability(packages, commands, arg_idx) is Ok,
        command_mutability(packages, added, arg_idx) == Ok::<bool, ResolveError>(true),
    ensures
        shared_mutability(packages, commands.insert(position, added), arg_idx) == Ok::<
            bool,
            ResolveError,
        >(true),
{
    lemma_mutability_decided(packages, commands, arg_idx, 0);
    let longer = commands.insert(position, added);
    let before = shared_mutability(packages, commands, arg_idx);
    assert(before == Ok::<bool, ResolveError>(before->Ok_0));
    assert(longer[position] == added);
    let witness = if shared_mutability(packages, commands, arg_idx) == Ok::<bool, ResolveError>(
        true,
    ) {
        let first = choose|first: int| decides_mutable(packages, commands, arg_idx, 0, first);
        if position <= first {
            position
        } else {
            assert(longer[first] == commands[first]);
            first
        }
    } else {
        position
    };
    assert forall|earlier: int| 0 <= earlier < witness implies #[trigger] command_mutability(
        packages,
        longer[earlier],
        arg_idx,
    ) == Ok::<bool, ResolveError>(false) by {
        assert(earlier < position);
        assert(longer[earlier] == commands[earlier]);
    }
    assert(decides_mutable(packages, longer, arg_idx, 0, witness));
    lemma_mutability_decided(packages, longer, arg_idx, 0);
}

/// Computes [`use_mutability`].
pub fn mutability_of_use(
    packages: &Vec<NormalizedPackage>,
    command: &Command,
    slot: Option<usize>,
) -> (mutable: Result<bool, ResolveError>)
    ensures
        mutable == use_mutability(packages@, *command, slot),
{
    match command {
        Command::MoveCall(call) => match slot {
            Some(position) => match find_parameters(
                packages,
                &call.package,
                &call.module,
                &call.function,
            ) {
                None => Err(
                    ResolveError::InvalidInput(
                        InvalidInput::FunctionNotFound {
                            package: call.package,
                            module: call.module.clone(),
                            function: call.function.clone(),
                        },
                    ),
                ),
                Some(parameters) => if position < parameters.len() {
                    Ok(parameters[position].takes_mutably())
                } else {
                    Err(ResolveError::InvalidInput(InvalidInput::InvalidParameter))
                },
            },
            None => Ok(false),
        },
        Command::SplitCoins(_) => Ok(true),
        Command::MergeCoins(_) => Ok(true),
        Command::MakeMoveVector(_) => Ok(true),
        Command::TransferObjects(_) => Ok(false),
        Command::Publish(_) => Ok(false),
        Command::Upgrade(_) => Ok(false),
    }
}

/// Infers whether the transaction needs the shared input `arg_idx`
/// mutably. Its uses are asked in order, up to the first that needs the
/// input mutably.
pub fn infer_mutability(
    packages: &Vec<NormalizedPackage>,
    commands: &Vec<Command>,
    arg_idx: usize,
) -> (mutable: Result<bool, ResolveError>)
    ensures
        mutable == shared_mutability(packages@, commands@, arg_idx),
{
    let uses = find_arg_uses(arg_idx, commands);
    proof {
        lemma_use_list_decides(packages@, commands@, arg_idx, uses@);
    }
    let mut k: usize = 0;
    while k < uses.len()
        invariant
            is_use_list(uses@, commands@, arg_idx),
            k <= uses@.len(),
            shared_mutability(packages@, commands@, arg_idx) == use_list_mutability_from(
                packages@,
                commands@,
                uses@,
                k as int,
            ),
        decreases uses@.len() - k,
    {
        let site = uses[k];
        assert(uses@[k as int].command < commands@.len());
        match mutability_of_use(packages, &commands[site.command], site.slot) {
            Err(error) => {
                return Err(error);
            },
            Ok(needed) => {
                if needed {
                    return Ok(true);
                }
            },
        }
        k += 1;
    }
    Ok(false)
}

} // verus!
