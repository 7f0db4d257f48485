//! Where the commands of a transaction use one of its inputs.

use vstd::prelude::*;
use crate::command::{Argument, Command};

verus! {

/// Whether `arg` is the transaction input at position `arg_idx`.
pub open spec fn names_input(arg: Argument, arg_idx: usize) -> bool {
    arg matches Argument::Input(position) && position as usize == arg_idx
}

/// Computes [`names_input`].
pub fn matches_input_arg(arg: Argument, arg_idx: usize) -> (matches: bool)
    ensures
        matches == names_input(arg, arg_idx),
{
    match arg {
        Argument::Input(position) => position as usize == arg_idx,
        _ => false,
    }
}

/// Whether `slot` is a position of `args` that names the input `arg_idx`.
pub open spec fn names_at(args: Seq<Argument>, arg_idx: usize, slot: Option<usize>) -> bool {
    slot matches Some(position) && position < args.len() && names_input(
        args[position as int],
        arg_idx,
    )
}

/// Whether `command` uses the input `arg_idx` at `slot`.
///
/// A call uses it at every position of its arguments that names it, a
/// transfer at every such position of its objects, a vector at every such
/// position of its elements. A split uses it as its coin and an upgrade as
/// its ticket, both without a position. A merge that names it as its target
/// uses it there, without a position, and nowhere else; another merge uses
/// it at every position of the coins to merge that names it. A publish uses
/// no input.
pub open spec fn is_use_site(command: Command, arg_idx: usize, slot: Option<usize>) -> bool {
    match command {
        Command::MoveCall(call) => names_at(call.arguments@, arg_idx, slot),
        Command::TransferObjects(transfer) => names_at(transfer.objects@, arg_idx, slot),
        Command::SplitCoins(split) => slot is None && names_input(split.coin, arg_idx),
        Command::MergeCoins(merge) => if names_input(merge.coin, arg_idx) {
            slot is None
        } else {
            names_at(merge.coins_to_merge@, arg_idx, slot)
        },
        Command::Publish(_) => false,
        Command::MakeMoveVector(vector) => names_at(vector.elements@, arg_idx, slot),
        Command::Upgrade(upgrade) => slot is None && names_input(upgrade.ticket, arg_idx),
    }
}

/// The number of positions at which `command` can use an input.
pub open spec fn slot_count(command: Command) -> usize {
    match command {
        Command::MoveCall(call) => call.arguments.len(),
        Command::TransferObjects(transfer) => transfer.objects.len(),
        Command::MergeCoins(merge) => merge.coins_to_merge.len(),
        Command::MakeMoveVector(vector) => vector.elements.len(),
        Command::SplitCoins(_) => 0,
        Command::Publish(_) => 0,
        Command::Upgrade(_) => 0,
    }
}

/// A use with a position lies within the positions of its command.
pub proof fn lemma_use_site_in_range(command: Command, arg_idx: usize, position: usize)
    requires
        is_use_site(command, arg_idx, Some(position)),
    ensures
        position < slot_count(command),
        !is_use_site(command, arg_idx, None),
{
}

/// Whether the use at `first` comes before the use at `second` within one
/// command: both have a position, and that of `first` is the lower.
pub open spec fn slot_precedes(first: Option<usize>, second: Option<usize>) -> bool {
    first matches Some(lower) && second matches Some(higher) && lower < higher
}

/// One use of an input: the position of the command, and the position
/// among its operands where the use has one.
#[derive(Clone, Copy, Debug, PartialEq, Eq)]
pub struct ArgUse {
    pub command: usize,
    pub slot: Option<usize>,
}

/// Whether `first` comes before `second`: in an earlier command, or in the
/// same command at a lower position.
pub open spec fn use_precedes(first: ArgUse, second: ArgUse) -> bool {
    first.command < second.command || (first.command == second.command && slot_precedes(
        first.slot,
        second.slot,
    ))
}

/// Whether `slots` lists the uses of the input `arg_idx` in `command`:
/// each entry is a use, the entries are in order, and no use is left out.
pub open spec fn is_slot_list(slots: Seq<Option<usize>>, command: Command, arg_idx: usize) -> bool {
    &&& forall|k: int| 0 <= k < slots.len() ==> is_use_site(command, arg_idx, #[trigger] slots[k])
    &&& forall|k: int, l: int|
        0 <= k < l < slots.len() ==> slot_precedes(#[trigger] slots[k], #[trigger] slots[l])
    &&& forall|slot: Option<usize>| #[trigger]
        is_use_site(command, arg_idx, slot) ==> slots.contains(slot)
}

/// Whether `uses` lists the uses of the input `arg_idx` in `commands`:
/// each entry is a use, the entries are in the order of the commands and,
/// within a command, of the positions, and no use is left out.
pub open spec fn is_use_list(uses: Seq<ArgUse>, commands: Seq<Command>, arg_idx: usize) -> bool {
    &&& forall|k: int|
        0 <= k < uses.len() ==> (#[trigger] uses[k]).command < commands.len() && is_use_site(
            commands[uses[k].command as int],
            arg_idx,
            uses[k].slot,
        )
    &&& forall|k: int, l: int|
        0 <= k < l < uses.len() ==> use_precedes(#[trigger] uses[k], #[trigger] uses[l])
    &&& forall|c: int, slot: Option<usize>|
        0 <= c < commands.len() && #[trigger] is_use_site(commands[c], arg_idx, slot)
            ==> exists|k: int|
            0 <= k < uses.len() && (#[trigger] uses[k]).command == c && uses[k].slot == slot
}

/// Finds every operand in `args` that names the input `arg_idx`.
pub fn positions_of_input(args: &Vec<Argument>, arg_idx: usize) -> (positions: Vec<Option<usize>>)
    ensures
        forall|k: int| 0 <= k < positions@.len() ==> names_at(args@, arg_idx, #[trigger] positions@[k]),
        forall|k: int, l: int|
            0 <= k < l < positions@.len() ==> slot_precedes(
                #[trigger] positions@[k],
                #[trigger] positions@[l],
            ),
        forall|slot: Option<usize>| #[trigger]
            names_at(args@, arg_idx, slot) ==> positions@.contains(slot),
{
    let mut positions: Vec<Option<usize>> = Vec::new();
    let mut i: usize = 0;
    while i < args.len()
        invariant
            i <= args.len(),
            forall|k: int|
                0 <= k < positions@.len() ==> names_at(args@, arg_idx, #[trigger] positions@[k])
                    && positions@[k]->0 < i,
            forall|k: int, l: int|
                0 <= k < l < positions@.len() ==> slot_precedes(
                    #[trigger] positions@[k],
                    #[trigger] positions@[l],
                ),
            forall|slot: Option<usize>|
                (#[trigger] names_at(args@, arg_idx, slot)) && slot->0 < i ==> positions@.contains(
                    slot,
                ),
        decreases args.len() - i,
    {
        if matches_input_arg(args[i], arg_idx) {
            let ghost before = positions@;
            positions.push(Some(i));
            proof {
                assert forall|slot: Option<usize>|
                    (#[trigger] names_at(args@, arg_idx, slot)) && slot->0 < i
                        + 1 implies positions@.contains(slot) by {
                    if slot->0 < i {
                        let k = choose|k: int| 0 <= k < before.len() && before[k] == slot;
                        assert(positions@[k] == slot);
                    } else {
                        assert(positions@[before.len() as int] == slot);
                    }
                }
            }
        }
        i += 1;
    }
    positions
}

proof fn lemma_positions_are_slot_list(
    slots: Seq<Option<usize>>,
    command: Command,
    args: Seq<Argument>,
    arg_idx: usize,
)
    requires
        forall|slot: Option<usize>|
            is_use_site(command, arg_idx, slot) == names_at(args, arg_idx, slot),
        forall|k: int| 0 <= k < slots.len() ==> names_at(args, arg_idx, #[trigger] slots[k]),
        forall|k: int, l: int|
            0 <= k < l < slots.len() ==> slot_precedes(#[trigger] slots[k], #[trigger] slots[l]),
        forall|slot: Option<usize>| #[trigger] names_at(args, arg_idx, slot) ==> slots.contains(slot),
    ensures
        is_slot_list(slots, command, arg_idx),
{
    assert forall|k: int| 0 <= k < slots.len() implies is_use_site(
        command,
        arg_idx,
        #[trigger] slots[k],
    ) by {
        assert(names_at(args, arg_idx, slots[k]));
    }
    assert forall|slot: Option<usize>| #[trigger]
        is_use_site(command, arg_idx, slot) implies slots.contains(slot) by {
        assert(names_at(args, arg_idx, slot));
    }
}

proof fn lemma_single_use_is_slot_list(
    slots: Seq<Option<usize>>,
    command: Command,
    arg_idx: usize,
    named: bool,
)
    requires
        forall|slot: Option<usize>| is_use_site(command, arg_idx, slot) == (named && slot is None),
        slots == if named {
            seq![None::<usize>]
        } else {
            Seq::<Option<usize>>::empty()
        },
    ensures
        is_slot_list(slots, command, arg_idx),
{
    assert forall|slot: Option<usize>| #[trigger]
        is_use_site(command, arg_idx, slot) implies slots.contains(slot) by {
        assert(slots[0] == slot);
    }
}

/// Finds every use of the input `arg_idx` in `command`.
pub fn find_uses_in_command(command: &Command, arg_idx: usize) -> (slots: Vec<Option<usize>>)
    ensures
        is_slot_list(slots@, *command, arg_idx),
{
    match command {
        Command::MoveCall(call) => {
            let slots = positions_of_input(&call.arguments, arg_idx);
            proof {
                lemma_positions_are_slot_list(slots@, *command, call.arguments@, arg_idx);
            }
            slots
        },
        Command::TransferObjects(transfer) => {
            let slots = positions_of_input(&transfer.objects, arg_idx);
            proof {
                lemma_positions_are_slot_list(slots@, *command, transfer.objects@, arg_idx);
            }
            slots
        },
        Command::SplitCoins(split) => {
            let named = matches_input_arg(split.coin, arg_idx);
            let slots = single_use(named);
            proof {
                lemma_single_use_is_slot_list(slots@, *command, arg_idx, named);
            }
            slots
        },
        Command::MergeCoins(merge) => {
            if matches_input_arg(merge.coin, arg_idx) {
                let slots = single_use(true);
                proof {
                    lemma_single_use_is_slot_list(slots@, *command, arg_idx, true);
                }
                slots
            } else {
                let slots = positions_of_input(&merge.coins_to_merge, arg_idx);
                proof {
                    lemma_positions_are_slot_list(
                        slots@,
                        *command,
                        merge.coins_to_merge@,
                        arg_idx,
                    );
                }
                slots
            }
        },
        Command::Publish(_) => {
            let slots = single_use(false);
            proof {
                lemma_single_use_is_slot_list(slots@, *command, arg_idx, false);
            }
            slots
        },
        Command::MakeMoveVector(vector) => {
            let slots = positions_of_input(&vector.elements, arg_idx);
            proof {
                lemma_positions_are_slot_list(slots@, *command, vector.elements@, arg_idx);
            }
            slots
        },
        Command::Upgrade(upgrade) => {
            let named = matches_input_arg(upgrade.ticket, arg_idx);
            let slots = single_use(named);
            proof {
                lemma_single_use_is_slot_list(slots@, *command, arg_idx, named);
            }
            slots
        },
    }
}

/// The uses of an operand that has no position: one where it names the
/// input, none where not.
fn single_use(named: bool) -> (slots: Vec<Option<usize>>)
    ensures
        slots@ == if named {
            seq![None::<usize>]
        } else {
            Seq::<Option<usize>>::empty()
        },
{
    let mut slots: Vec<Option<usize>> = Vec::new();
    if named {
        slots.push(None);
    }
    assert(slots@ =~= if named {
        seq![None::<usize>]
    } else {
        Seq::<Option<usize>>::empty()
    });
    slots
}

/// Given an input, finds all of its uses: every command that uses it with
/// every position at which it does, in order.
pub fn find_arg_uses(arg_idx: usize, commands: &Vec<Command>) -> (uses: Vec<ArgUse>)
    ensures
        is_use_list(uses@, commands@, arg_idx),
{
    let mut uses: Vec<ArgUse> = Vec::new();
    let mut c: usize = 0;
    while c < commands.len()
        invariant
            c <= commands.len(),
            forall|k: int|
                0 <= k < uses@.len() ==> (#[trigger] uses@[k]).command < c && is_use_site(
                    commands@[uses@[k].command as int],
                    arg_idx,
                    uses@[k].slot,
                ),
            forall|k: int, l: int|
                0 <= k < l < uses@.len() ==> use_precedes(#[trigger] uses@[k], #[trigger] uses@[l]),
            forall|d: int, slot: Option<usize>|
                0 <= d < c && #[trigger] is_use_site(commands@[d], arg_idx, slot) ==> exists|
                    k: int,
                |
                    0 <= k < uses@.len() && (#[trigger] uses@[k]).command == d && uses@[k].slot
                        == slot,
        decreases commands.len() - c,
    {
        let slots = find_uses_in_command(&commands[c], arg_idx);
        let ghost earlier = uses@;
        let mut s: usize = 0;
        while s < slots.len()
            invariant
                s <= slots@.len(),
                c < commands.len(),
                is_slot_list(slots@, commands@[c as int], arg_idx),
                uses@.len() == earlier.len() + s,
                forall|k: int| 0 <= k < earlier.len() ==> uses@[k] == earlier[k],
                forall|k: int| 0 <= k < earlier.len() ==> (#[trigger] earlier[k]).command < c,
                forall|k: int|
                    0 <= k < s ==> #[trigger] uses@[earlier.len() + k] == (ArgUse {
                        command: c,
                        slot: slots@[k],
                    }),
            decreases slots@.len() - s,
        {
            uses.push(ArgUse { command: c, slot: slots[s] });
            s += 1;
        }
        proof {
            let base = earlier.len() as int;
            assert forall|k: int| 0 <= k < uses@.len() implies (#[trigger] uses@[k]).command < c
                + 1 && is_use_site(
                commands@[uses@[k].command as int],
                arg_idx,
                uses@[k].slot,
            ) by {
                if k < base {
                    assert(uses@[k] == earlier[k]);
                } else {
                    assert(uses@[base + (k - base)] == (ArgUse {
                        command: c,
                        slot: slots@[k - base],
                    }));
                }
            }
            assert forall|k: int, l: int| 0 <= k < l < uses@.len() implies use_precedes(
                #[trigger] uses@[k],
                #[trigger] uses@[l],
            ) by {
                if l < base {
                    assert(uses@[k] == earlier[k] && uses@[l] == earlier[l]);
                } else {
                    assert(uses@[base + (l - base)] == (ArgUse {
                        command: c,
                        slot: slots@[l - base],
                    }));
                    if k < base {
                        assert(uses@[k] == earlier[k]);
                    } else {
                        assert(uses@[base + (k - base)] == (ArgUse {
                            command: c,
                            slot: slots@[k - base],
                        }));
                        assert(slot_precedes(slots@[k - base], slots@[l - base]));
                    }
                }
            }
            assert forall|d: int, slot: Option<usize>|
                0 <= d < c + 1 && #[trigger] is_use_site(
                    commands@[d],
                    arg_idx,
                    slot,
                ) implies exists|k: int|
                0 <= k < uses@.len() && (#[trigger] uses@[k]).command == d && uses@[k].slot
                    == slot by {
                if d < c {
                    let k = choose|k: int|
                        0 <= k < earlier.len() && (#[trigger] earlier[k]).command == d
                            && earlier[k].slot == slot;
                    assert(uses@[k] == earlier[k]);
                } else {
                    let k = choose|k: int| 0 <= k < slots@.len() && slots@[k] == slot;
                    assert(uses@[base + k] == (ArgUse { command: c, slot: slots@[k] }));
                }
            }
        }
        c += 1;
    }
    uses
}

} // verus!
