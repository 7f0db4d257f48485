use tx_resolver::argument::resolve_arg;
use tx_resolver::command::{
    Argument, Command, MakeMoveVector, MergeCoins, MoveCall, Publish, SplitCoins, TransferObjects,
    Upgrade,
};
use tx_resolver::error::{InvalidInput, ResolveError};
use tx_resolver::ident::{Address, Digest, ObjectId, ObjectRef};
use tx_resolver::mutability::{infer_mutability, mutability_of_use};
use tx_resolver::package::{
    find_package, find_parameters, ModuleTable, NormalizedFunction, NormalizedModule,
    NormalizedPackage, ParameterKind,
};
use tx_resolver::request::{UnresolvedInputArgument, UnresolvedObjectReference};
use tx_resolver::snapshot::{ChainSnapshot, Object, ObjectContents, Owner};
use tx_resolver::transaction::{CallArg, ObjectArg};
use tx_resolver::uses::{
    find_arg_uses, find_uses_in_command, matches_input_arg, positions_of_input, ArgUse,
};

fn id(n: u8) -> ObjectId {
    ObjectId { bytes: [n; 32] }
}

fn digest(n: u8) -> Digest {
    Digest { bytes: [n; 32] }
}

fn function(name: &str, parameters: Vec<ParameterKind>) -> NormalizedFunction {
    NormalizedFunction { name: name.to_string(), parameters }
}

fn modules() -> ModuleTable {
    let mut module = NormalizedModule::new("m".to_string());
    assert!(module.insert(function(
        "by_mut",
        vec![ParameterKind::MutableReference, ParameterKind::Value]
    )));
    assert!(module.insert(function("by_value", vec![ParameterKind::Value])));
    assert!(module.insert(function("by_ref", vec![ParameterKind::Reference])));
    assert!(module.insert(function("by_struct", vec![ParameterKind::Struct])));
    assert!(module.insert(function(
        "ref_then_mut",
        vec![ParameterKind::Reference, ParameterKind::MutableReference]
    )));
    let mut table = ModuleTable::new();
    assert!(table.insert(NormalizedModule::new("other".to_string())));
    assert!(table.insert(module));
    table
}

fn package(tables: &ModuleTable) -> NormalizedPackage<'_> {
    NormalizedPackage {
        package: ObjectRef { id: id(100), version: 1, digest: digest(1) },
        normalized_modules: tables,
    }
}

fn call(function: &str, arguments: Vec<Argument>) -> Command {
    Command::MoveCall(MoveCall {
        package: id(100),
        module: "m".to_string(),
        function: function.to_string(),
        type_arguments: vec![],
        arguments,
    })
}

fn transfer(objects: Vec<Argument>) -> Command {
    Command::TransferObjects(TransferObjects { objects, address: Argument::Input(9) })
}

fn split(coin: Argument) -> Command {
    Command::SplitCoins(SplitCoins { coin, amounts: vec![Argument::Input(8)] })
}

fn merge(coin: Argument, coins_to_merge: Vec<Argument>) -> Command {
    Command::MergeCoins(MergeCoins { coin, coins_to_merge })
}

fn vector(elements: Vec<Argument>) -> Command {
    Command::MakeMoveVector(MakeMoveVector { type_: None, elements })
}

fn publish() -> Command {
    Command::Publish(Publish { modules: vec![vec![1, 2]], dependencies: vec![id(0)] })
}

fn upgrade(ticket: Argument) -> Command {
    Command::Upgrade(Upgrade {
        modules: vec![],
        dependencies: vec![],
        package: id(100),
        ticket,
    })
}

fn shared_snapshot() -> ChainSnapshot {
    let mut snapshot = ChainSnapshot::new();
    assert!(snapshot.insert(Object {
        id: id(5),
        version: 12,
        digest: digest(12),
        owner: Owner::Shared { initial_shared_version: 3 },
        contents: ObjectContents::Other,
    }));
    assert!(snapshot.insert(Object {
        id: id(6),
        version: 2,
        digest: digest(2),
        owner: Owner::Address(Address { bytes: [1; 32] }),
        contents: ObjectContents::Other,
    }));
    snapshot
}

fn shared(n: u8) -> UnresolvedInputArgument {
    UnresolvedInputArgument::Shared {
        object_id: id(n),
        initial_shared_version: Some(999),
        mutable: Some(false),
    }
}

fn resolved_shared(mutable: bool) -> CallArg {
    CallArg::Object(ObjectArg::SharedObject { id: id(5), initial_shared_version: 3, mutable })
}

#[test]
fn matches_input_arg_wants_an_input_at_the_position() {
    assert!(matches_input_arg(Argument::Input(3), 3));
    assert!(!matches_input_arg(Argument::Input(3), 4));
    assert!(!matches_input_arg(Argument::Result(3), 3));
    assert!(!matches_input_arg(Argument::NestedResult(3, 3), 3));
    assert!(!matches_input_arg(Argument::Gas, 0));
    assert!(matches_input_arg(Argument::Input(65535), 65535));
    assert!(!matches_input_arg(Argument::Input(0), 65536));
}

#[test]
fn positions_of_input_are_all_matches_in_order() {
    let args = vec![Argument::Gas, Argument::Input(2), Argument::Input(1), Argument::Input(2)];
    assert_eq!(positions_of_input(&args, 2), vec![Some(1), Some(3)]);
    assert_eq!(positions_of_input(&args, 1), vec![Some(2)]);
    assert_eq!(positions_of_input(&args, 0), vec![]);
    assert_eq!(positions_of_input(&vec![], 0), vec![]);
}

#[test]
fn move_call_reports_every_position_among_its_arguments() {
    let command = call("by_mut", vec![Argument::Input(1), Argument::Input(0), Argument::Input(1)]);
    assert_eq!(find_uses_in_command(&command, 0), vec![Some(1)]);
    assert_eq!(find_uses_in_command(&command, 1), vec![Some(0), Some(2)]);
    assert_eq!(find_uses_in_command(&command, 2), vec![]);
}

#[test]
fn transfer_reports_the_positions_among_its_objects_only() {
    let command = transfer(vec![Argument::Result(0), Argument::Input(4), Argument::Input(4)]);
    assert_eq!(find_uses_in_command(&command, 4), vec![Some(1), Some(2)]);
    assert_eq!(find_uses_in_command(&command, 9), vec![]);
}

#[test]
fn split_reports_its_coin_without_position() {
    assert_eq!(find_uses_in_command(&split(Argument::Input(2)), 2), vec![None]);
    assert_eq!(find_uses_in_command(&split(Argument::Input(2)), 8), vec![]);
    assert_eq!(find_uses_in_command(&split(Argument::Gas), 0), vec![]);
}

#[test]
fn merge_asks_the_target_before_the_coins() {
    let command = merge(
        Argument::Input(1),
        vec![Argument::Input(1), Argument::Input(2), Argument::Input(2)],
    );
    assert_eq!(find_uses_in_command(&command, 1), vec![None]);
    assert_eq!(find_uses_in_command(&command, 2), vec![Some(1), Some(2)]);
    assert_eq!(find_uses_in_command(&command, 3), vec![]);
}

#[test]
fn vector_reports_every_position_among_its_elements() {
    let command = vector(vec![Argument::Input(7), Argument::Input(3), Argument::Input(7)]);
    assert_eq!(find_uses_in_command(&command, 3), vec![Some(1)]);
    assert_eq!(find_uses_in_command(&command, 7), vec![Some(0), Some(2)]);
    assert_eq!(find_uses_in_command(&command, 0), vec![]);
}

#[test]
fn upgrade_reports_its_ticket_without_position() {
    assert_eq!(find_uses_in_command(&upgrade(Argument::Input(6)), 6), vec![None]);
    assert_eq!(find_uses_in_command(&upgrade(Argument::Input(6)), 5), vec![]);
}

#[test]
fn publish_uses_no_input() {
    assert_eq!(find_uses_in_command(&publish(), 0), vec![]);
}

#[test]
fn find_arg_uses_lists_every_use_in_order() {
    let commands = vec![
        publish(),
        call("by_ref", vec![Argument::Gas, Argument::Input(0), Argument::Input(0)]),
        transfer(vec![Argument::Input(1)]),
        split(Argument::Input(0)),
        merge(Argument::Input(2), vec![Argument::Input(0), Argument::Input(0)]),
        upgrade(Argument::Input(0)),
    ];
    assert_eq!(
        find_arg_uses(0, &commands),
        vec![
            ArgUse { command: 1, slot: Some(1) },
            ArgUse { command: 1, slot: Some(2) },
            ArgUse { command: 3, slot: None },
            ArgUse { command: 4, slot: Some(0) },
            ArgUse { command: 4, slot: Some(1) },
            ArgUse { command: 5, slot: None },
        ]
    );
    assert_eq!(find_arg_uses(1, &commands), vec![ArgUse { command: 2, slot: Some(0) }]);
    assert_eq!(find_arg_uses(2, &commands), vec![ArgUse { command: 4, slot: None }]);
    assert_eq!(find_arg_uses(5, &commands), vec![]);
    assert_eq!(find_arg_uses(0, &vec![]), vec![]);
}

#[test]
fn tables_refuse_a_second_entry_of_the_same_name() {
    let mut module = NormalizedModule::new("m".to_string());
    assert!(module.insert(function("f", vec![ParameterKind::Value])));
    assert!(!module.insert(function("f", vec![ParameterKind::Struct])));
    assert!(module.insert(function("g", vec![])));
    assert_eq!(module.get(&"f".to_string()), Some(&function("f", vec![ParameterKind::Value])));
    assert_eq!(module.get(&"g".to_string()), Some(&function("g", vec![])));
    assert_eq!(module.get(&"h".to_string()), None);
    let mut table = ModuleTable::new();
    assert!(table.insert(module));
    assert!(!table.insert(NormalizedModule::new("m".to_string())));
    assert!(table.insert(NormalizedModule::new("n".to_string())));
    assert!(table.get(&"m".to_string()).is_some());
    assert_eq!(table.get(&"n".to_string()), Some(&NormalizedModule::new("n".to_string())));
    assert_eq!(table.get(&"o".to_string()), None);
}

#[test]
fn find_package_goes_by_the_identifier() {
    let tables = modules();
    let packages = vec![package(&tables)];
    assert_eq!(find_package(&packages, &id(100)), Some(&package(&tables)));
    assert_eq!(find_package(&packages, &id(101)), None);
}

#[test]
fn takes_mutably_for_mutable_references_and_structs() {
    assert!(ParameterKind::MutableReference.takes_mutably());
    assert!(ParameterKind::Struct.takes_mutably());
    assert!(!ParameterKind::Reference.takes_mutably());
    assert!(!ParameterKind::Value.takes_mutably());
}

#[test]
fn find_parameters_walks_package_module_and_function() {
    let tables = modules();
    let packages = vec![package(&tables)];
    let m = "m".to_string();
    assert_eq!(
        find_parameters(&packages, &id(100), &m, &"by_mut".to_string()),
        Some(&vec![ParameterKind::MutableReference, ParameterKind::Value])
    );
    assert_eq!(find_parameters(&packages, &id(101), &m, &"by_mut".to_string()), None);
    assert_eq!(
        find_parameters(&packages, &id(100), &"n".to_string(), &"by_mut".to_string()),
        None
    );
    assert_eq!(find_parameters(&packages, &id(100), &m, &"absent".to_string()), None);
    assert_eq!(
        find_parameters(&packages, &id(100), &"other".to_string(), &"by_mut".to_string()),
        None
    );
}

#[test]
fn mutability_of_use_follows_the_parameter() {
    let tables = modules();
    let packages = vec![package(&tables)];
    let command = call("by_mut", vec![Argument::Input(0), Argument::Input(1)]);
    assert_eq!(mutability_of_use(&packages, &command, Some(0)), Ok(true));
    assert_eq!(mutability_of_use(&packages, &command, Some(1)), Ok(false));
    assert_eq!(mutability_of_use(&packages, &command, None), Ok(false));
    assert_eq!(
        mutability_of_use(&packages, &command, Some(2)),
        Err(ResolveError::InvalidInput(InvalidInput::InvalidParameter))
    );
    assert_eq!(mutability_of_use(&packages, &transfer(vec![]), Some(0)), Ok(false));
    assert_eq!(mutability_of_use(&packages, &publish(), None), Ok(false));
    assert_eq!(mutability_of_use(&packages, &upgrade(Argument::Gas), None), Ok(false));
    assert_eq!(mutability_of_use(&packages, &split(Argument::Gas), None), Ok(true));
    assert_eq!(mutability_of_use(&packages, &merge(Argument::Gas, vec![]), Some(0)), Ok(true));
    assert_eq!(mutability_of_use(&packages, &vector(vec![]), Some(0)), Ok(true));
}

#[test]
fn shared_argument_by_mutable_reference_is_mutable() {
    let snapshot = shared_snapshot();
    let tables = modules();
    let packages = vec![package(&tables)];
    let commands = vec![call("by_mut", vec![Argument::Input(0)])];
    assert_eq!(
        resolve_arg(&snapshot, &packages, &commands, shared(5), 0),
        Ok(resolved_shared(true))
    );
}

#[test]
fn shared_argument_by_plain_value_is_immutable() {
    let snapshot = shared_snapshot();
    let tables = modules();
    let packages = vec![package(&tables)];
    let commands = vec![call("by_value", vec![Argument::Input(0)])];
    assert_eq!(
        resolve_arg(&snapshot, &packages, &commands, shared(5), 0),
        Ok(resolved_shared(false))
    );
}

#[test]
fn shared_argument_passed_twice_is_mutable_where_one_parameter_is() {
    let snapshot = shared_snapshot();
    let tables = modules();
    let packages = vec![package(&tables)];
    let twice = vec![call("ref_then_mut", vec![Argument::Input(0), Argument::Input(0)])];
    assert_eq!(
        resolve_arg(&snapshot, &packages, &twice, shared(5), 0),
        Ok(resolved_shared(true))
    );
    let once = vec![call("ref_then_mut", vec![Argument::Input(0), Argument::Input(1)])];
    assert_eq!(resolve_arg(&snapshot, &packages, &once, shared(5), 0), Ok(resolved_shared(false)));
    assert_eq!(resolve_arg(&snapshot, &packages, &once, shared(5), 1), Ok(resolved_shared(true)));
}

#[test]
fn later_position_beyond_the_parameters_is_invalid_input() {
    let tables = modules();
    let packages = vec![package(&tables)];
    let commands = vec![call("by_ref", vec![Argument::Input(0), Argument::Input(0)])];
    assert_eq!(
        infer_mutability(&packages, &commands, 0),
        Err(ResolveError::InvalidInput(InvalidInput::InvalidParameter))
    );
    let mutable_first = vec![call("by_mut", vec![Argument::Input(0), Argument::Gas, Argument::Input(0)])];
    assert_eq!(infer_mutability(&packages, &mutable_first, 0), Ok(true));
}

#[test]
fn shared_argument_by_struct_is_mutable_and_by_reference_is_not() {
    let snapshot = shared_snapshot();
    let tables = modules();
    let packages = vec![package(&tables)];
    let by_struct = vec![call("by_struct", vec![Argument::Input(0)])];
    let by_ref = vec![call("by_ref", vec![Argument::Input(0)])];
    assert_eq!(
        resolve_arg(&snapshot, &packages, &by_struct, shared(5), 0),
        Ok(resolved_shared(true))
    );
    assert_eq!(
        resolve_arg(&snapshot, &packages, &by_ref, shared(5), 0),
        Ok(resolved_shared(false))
    );
}

#[test]
fn unused_shared_argument_is_immutable() {
    let snapshot = shared_snapshot();
    let packages = vec![];
    assert_eq!(
        resolve_arg(&snapshot, &packages, &vec![publish()], shared(5), 0),
        Ok(resolved_shared(false))
    );
    assert_eq!(resolve_arg(&snapshot, &packages, &vec![], shared(5), 0), Ok(resolved_shared(false)));
}

#[test]
fn coin_and_vector_commands_always_need_mutable_access() {
    let packages = vec![];
    assert_eq!(infer_mutability(&packages, &vec![split(Argument::Input(0))], 0), Ok(true));
    assert_eq!(
        infer_mutability(&packages, &vec![merge(Argument::Input(0), vec![])], 0),
        Ok(true)
    );
    assert_eq!(
        infer_mutability(&packages, &vec![merge(Argument::Gas, vec![Argument::Input(0)])], 0),
        Ok(true)
    );
    assert_eq!(infer_mutability(&packages, &vec![vector(vec![Argument::Input(0)])], 0), Ok(true));
}

#[test]
fn transfer_and_upgrade_do_not_need_mutable_access() {
    let packages = vec![];
    let commands = vec![transfer(vec![Argument::Input(0)]), upgrade(Argument::Input(0))];
    assert_eq!(infer_mutability(&packages, &commands, 0), Ok(false));
}

#[test]
fn mutability_is_the_disjunction_over_the_uses() {
    let tables = modules();
    let packages = vec![package(&tables)];
    let reading = || call("by_ref", vec![Argument::Input(0)]);
    let writing = || call("by_mut", vec![Argument::Input(0)]);
    assert_eq!(infer_mutability(&packages, &vec![reading(), reading()], 0), Ok(false));
    assert_eq!(infer_mutability(&packages, &vec![reading(), writing()], 0), Ok(true));
    assert_eq!(infer_mutability(&packages, &vec![writing(), reading()], 0), Ok(true));
    assert_eq!(infer_mutability(&packages, &vec![writing(), writing()], 0), Ok(true));
}

#[test]
fn removing_a_reading_use_keeps_the_argument_mutable() {
    let tables = modules();
    let packages = vec![package(&tables)];
    let with_reader = vec![
        call("by_ref", vec![Argument::Input(0)]),
        call("by_mut", vec![Argument::Input(0)]),
    ];
    let without_reader = vec![call("by_mut", vec![Argument::Input(0)])];
    assert_eq!(infer_mutability(&packages, &with_reader, 0), Ok(true));
    assert_eq!(infer_mutability(&packages, &without_reader, 0), Ok(true));
}

#[test]
fn adding_a_writing_use_keeps_the_argument_mutable() {
    let tables = modules();
    let packages = vec![package(&tables)];
    let before = vec![split(Argument::Input(0)), call("by_ref", vec![Argument::Input(0)])];
    let in_front = vec![
        call("by_struct", vec![Argument::Input(0)]),
        split(Argument::Input(0)),
        call("by_ref", vec![Argument::Input(0)]),
    ];
    let behind = vec![
        split(Argument::Input(0)),
        call("by_ref", vec![Argument::Input(0)]),
        vector(vec![Argument::Input(0)]),
    ];
    assert_eq!(infer_mutability(&packages, &before, 0), Ok(true));
    assert_eq!(infer_mutability(&packages, &in_front, 0), Ok(true));
    assert_eq!(infer_mutability(&packages, &behind, 0), Ok(true));
}

#[test]
fn unknown_function_is_invalid_input() {
    let tables = modules();
    let packages = vec![package(&tables)];
    let commands = vec![call("absent", vec![Argument::Input(0)])];
    assert_eq!(
        infer_mutability(&packages, &commands, 0),
        Err(ResolveError::InvalidInput(InvalidInput::FunctionNotFound {
            package: id(100),
            module: "m".to_string(),
            function: "absent".to_string(),
        }))
    );
    assert_eq!(infer_mutability(&packages, &commands, 1), Ok(false));
}

#[test]
fn argument_beyond_the_parameters_is_invalid_input() {
    let tables = modules();
    let packages = vec![package(&tables)];
    let commands = vec![call("by_value", vec![Argument::Gas, Argument::Input(0)])];
    assert_eq!(
        infer_mutability(&packages, &commands, 0),
        Err(ResolveError::InvalidInput(InvalidInput::InvalidParameter))
    );
}

#[test]
fn scan_stops_at_the_first_use_that_needs_mutable_access() {
    let tables = modules();
    let packages = vec![package(&tables)];
    let mutable_first = vec![
        split(Argument::Input(0)),
        call("absent", vec![Argument::Input(0)]),
    ];
    let failure_first = vec![
        call("absent", vec![Argument::Input(0)]),
        split(Argument::Input(0)),
    ];
    assert_eq!(infer_mutability(&packages, &mutable_first, 0), Ok(true));
    assert!(infer_mutability(&packages, &failure_first, 0).is_err());
}

#[test]
fn shared_argument_must_be_a_shared_object() {
    let snapshot = shared_snapshot();
    let packages = vec![];
    assert_eq!(
        resolve_arg(&snapshot, &packages, &vec![], shared(6), 0),
        Err(ResolveError::InvalidInput(InvalidInput::NotShared(id(6))))
    );
    assert_eq!(
        resolve_arg(&snapshot, &packages, &vec![], shared(7), 0),
        Err(ResolveError::NotFound { object_id: id(7), version: None })
    );
}

#[test]
fn pure_argument_passes_through() {
    let snapshot = shared_snapshot();
    let packages = vec![];
    let arg = UnresolvedInputArgument::Pure { value: vec![1, 2, 3] };
    assert_eq!(
        resolve_arg(&snapshot, &packages, &vec![], arg, 0),
        Ok(CallArg::Pure(vec![1, 2, 3]))
    );
    let empty = UnresolvedInputArgument::Pure { value: vec![] };
    assert_eq!(resolve_arg(&snapshot, &packages, &vec![], empty, 4), Ok(CallArg::Pure(vec![])));
}

#[test]
fn owned_and_receiving_arguments_resolve_as_references() {
    let snapshot = shared_snapshot();
    let packages = vec![];
    let reference = UnresolvedObjectReference { object_id: id(6), version: None, digest: None };
    let resolved = ObjectRef { id: id(6), version: 2, digest: digest(2) };
    assert_eq!(
        resolve_arg(
            &snapshot,
            &packages,
            &vec![],
            UnresolvedInputArgument::ImmutableOrOwned(reference),
            0
        ),
        Ok(CallArg::Object(ObjectArg::ImmOrOwnedObject(resolved)))
    );
    assert_eq!(
        resolve_arg(&snapshot, &packages, &vec![], UnresolvedInputArgument::Receiving(reference), 0),
        Ok(CallArg::Object(ObjectArg::Receiving(resolved)))
    );
    let missing = UnresolvedObjectReference { object_id: id(6), version: Some(1), digest: None };
    assert_eq!(
        resolve_arg(&snapshot, &packages, &vec![], UnresolvedInputArgument::Receiving(missing), 0),
        Err(ResolveError::NotFound { object_id: id(6), version: Some(1) })
    );
}
