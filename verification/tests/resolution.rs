use tx_resolver::body::resolve_ptb;
use tx_resolver::called::{called_packages, fetch_package};
use tx_resolver::command::{
    Argument, Command, MoveCall, Publish, SplitCoins, StructTag, TransferObjects, TypeTag,
};
use tx_resolver::error::{InternalError, InvalidInput, ResolveError};
use tx_resolver::gas::GasCostSummary;
use tx_resolver::ident::{Address, Digest, ObjectId, ObjectRef};
use tx_resolver::orchestrator::{
    input_object_ids, preflight, resolve_transaction, settle, Action, ChainParameters, Resolution,
    ResolveTransaction, ResolveTransactionQueryParameters, SimulateTransactionQueryParameters,
};
use tx_resolver::package::{
    ModuleTable, NormalizedFunction, NormalizedModule, NormalizedPackage, ParameterKind,
};
use tx_resolver::reads::{coin_reads, read_for_reference, required_reads, Read};
use tx_resolver::request::{
    TransactionExpiration, UnresolvedGasPayment, UnresolvedInputArgument,
    UnresolvedObjectReference, UnresolvedProgrammableTransaction, UnresolvedTransaction,
};
use tx_resolver::resolve::{resolve_gas_objects, resolve_unresolved_transaction};
use tx_resolver::snapshot::{
    ChainSnapshot, Object, ObjectContents, OwnedObjectInfo, Owner, PackageTables,
};
use tx_resolver::transaction::{
    CallArg, GasData, ObjectArg, ProgrammableTransaction, TransactionData,
};

const PACKAGE: u8 = 100;
const SENDER: u8 = 1;
const SHARED: u8 = 5;
const OWNED: u8 = 6;

fn id(n: u8) -> ObjectId {
    ObjectId { bytes: [n; 32] }
}

fn digest(n: u8) -> Digest {
    Digest { bytes: [n; 32] }
}

fn address(n: u8) -> Address {
    Address { bytes: [n; 32] }
}

fn reference(n: u8, version: u64) -> ObjectRef {
    ObjectRef { id: id(n), version, digest: digest(n) }
}

fn tables(kind: ParameterKind) -> ModuleTable {
    let mut module = NormalizedModule::new("m".to_string());
    assert!(module.insert(NormalizedFunction { name: "f".to_string(), parameters: vec![kind] }));
    let mut table = ModuleTable::new();
    assert!(table.insert(module));
    table
}

fn stored(n: u8, version: u64, owner: Owner, contents: ObjectContents) -> Object {
    Object { id: id(n), version, digest: digest(n), owner, contents }
}

fn add_coin(snapshot: &mut ChainSnapshot, owner: u8, n: u8, balance: u64) {
    assert!(snapshot.insert(stored(
        n,
        1,
        Owner::Address(address(owner)),
        ObjectContents::GasCoin { balance }
    )));
    snapshot.record_owned(OwnedObjectInfo { owner: address(owner), object_id: id(n), is_gas_coin: true });
}

fn chain_state(kind: ParameterKind) -> ChainSnapshot {
    let mut snapshot = ChainSnapshot::new();
    assert!(snapshot.insert(stored(
        PACKAGE,
        1,
        Owner::Immutable,
        ObjectContents::Package(PackageTables::Decoded(tables(kind)))
    )));
    assert!(snapshot.insert(stored(
        SHARED,
        12,
        Owner::Shared { initial_shared_version: 3 },
        ObjectContents::Other
    )));
    assert!(snapshot.insert(stored(OWNED, 2, Owner::Address(address(SENDER)), ObjectContents::Other)));
    add_coin(&mut snapshot, SENDER, 10, 100);
    add_coin(&mut snapshot, SENDER, 11, 50);
    add_coin(&mut snapshot, SENDER, 12, 30);
    snapshot
}

fn call(package: u8, function: &str, arguments: Vec<Argument>) -> Command {
    Command::MoveCall(MoveCall {
        package: id(package),
        module: "m".to_string(),
        function: function.to_string(),
        type_arguments: vec![TypeTag::Vector(Box::new(TypeTag::Struct(Box::new(StructTag {
            address: address(2),
            module: "coin".to_string(),
            name: "Coin".to_string(),
            type_params: vec![TypeTag::U64],
        }))))],
        arguments,
    })
}

fn shared_input() -> UnresolvedInputArgument {
    UnresolvedInputArgument::Shared {
        object_id: id(SHARED),
        initial_shared_version: None,
        mutable: None,
    }
}

fn owned_input() -> UnresolvedInputArgument {
    UnresolvedInputArgument::ImmutableOrOwned(UnresolvedObjectReference {
        object_id: id(OWNED),
        version: None,
        digest: None,
    })
}

fn request(
    inputs: Vec<UnresolvedInputArgument>,
    commands: Vec<Command>,
    gas_payment: Option<UnresolvedGasPayment>,
) -> UnresolvedTransaction {
    UnresolvedTransaction {
        ptb: UnresolvedProgrammableTransaction { inputs, commands },
        sender: address(SENDER),
        gas_payment,
        expiration: TransactionExpiration::Epoch(44),
    }
}

fn shared_call_request(gas_payment: Option<UnresolvedGasPayment>) -> UnresolvedTransaction {
    request(vec![shared_input()], vec![call(PACKAGE, "f", vec![Argument::Input(0)])], gas_payment)
}

fn gas(objects: Vec<UnresolvedObjectReference>, price: Option<u64>, budget: Option<u64>) -> UnresolvedGasPayment {
    UnresolvedGasPayment { objects, owner: address(SENDER), price, budget }
}

fn chain() -> ChainParameters {
    ChainParameters { reference_gas_price: 10, max_tx_gas: 50_000, max_gas_payment_objects: 5 }
}

fn plain() -> ResolveTransactionQueryParameters {
    ResolveTransactionQueryParameters::default()
}

fn shared_arg(mutable: bool) -> CallArg {
    CallArg::Object(ObjectArg::SharedObject { id: id(SHARED), initial_shared_version: 3, mutable })
}

fn expected(inputs: Vec<CallArg>, commands: Vec<Command>, payment: Vec<ObjectRef>, budget: u64) -> TransactionData {
    TransactionData {
        kind: ProgrammableTransaction { inputs, commands },
        sender: address(SENDER),
        gas_data: GasData { payment, owner: address(SENDER), price: 10, budget },
        expiration: TransactionExpiration::Epoch(44),
    }
}

#[test]
fn resolution_needs_an_executor_and_a_protocol_configuration() {
    assert_eq!(preflight(true, Some(chain())), Ok(chain()));
    assert_eq!(
        preflight(false, Some(chain())),
        Err(ResolveError::Internal(InternalError::ExecutorUnavailable))
    );
    assert_eq!(preflight(false, None), Err(ResolveError::Internal(InternalError::ExecutorUnavailable)));
    assert_eq!(
        preflight(true, None),
        Err(ResolveError::Internal(InternalError::ProtocolConfigUnavailable))
    );
}

#[test]
fn endpoint_path() {
    assert_eq!(ResolveTransaction.path(), "/transactions/resolve");
}

#[test]
fn default_parameters_ask_for_nothing() {
    let parameters = ResolveTransactionQueryParameters::default();
    assert!(!parameters.simulate);
    assert_eq!(
        parameters.simulate_transaction_parameters,
        SimulateTransactionQueryParameters {
            balance_changes: false,
            input_objects: false,
            output_objects: false,
        }
    );
    assert_eq!(SimulateTransactionQueryParameters::default(), parameters.simulate_transaction_parameters);
}

#[test]
fn fetch_package_tells_the_failures_apart() {
    let mut snapshot = chain_state(ParameterKind::Value);
    assert!(snapshot.insert(stored(
        101,
        1,
        Owner::Immutable,
        ObjectContents::Package(PackageTables::Undecodable)
    )));
    let decoded = tables(ParameterKind::Value);
    assert_eq!(
        fetch_package(&snapshot, id(PACKAGE)),
        Ok(NormalizedPackage { package: reference(PACKAGE, 1), normalized_modules: &decoded })
    );
    assert_eq!(
        fetch_package(&snapshot, id(102)),
        Err(ResolveError::NotFound { object_id: id(102), version: None })
    );
    assert_eq!(
        fetch_package(&snapshot, id(OWNED)),
        Err(ResolveError::InvalidInput(InvalidInput::NotAPackage(id(OWNED))))
    );
    assert_eq!(
        fetch_package(&snapshot, id(10)),
        Err(ResolveError::InvalidInput(InvalidInput::NotAPackage(id(10))))
    );
    assert_eq!(
        fetch_package(&snapshot, id(101)),
        Err(ResolveError::Internal(InternalError::UndecodablePackage(id(101))))
    );
}

#[test]
fn called_packages_holds_each_called_package_once() {
    let mut snapshot = chain_state(ParameterKind::Value);
    assert!(snapshot.insert(stored(
        103,
        4,
        Owner::Immutable,
        ObjectContents::Package(PackageTables::Decoded(ModuleTable::new()))
    )));
    let transaction = request(
        vec![],
        vec![
            call(103, "g", vec![]),
            Command::Publish(Publish { modules: vec![], dependencies: vec![id(104)] }),
            call(PACKAGE, "f", vec![]),
            call(103, "h", vec![]),
        ],
        None,
    );
    let first = tables(ParameterKind::Value);
    let second = ModuleTable::new();
    assert_eq!(
        called_packages(&snapshot, &transaction),
        Ok(vec![
            NormalizedPackage { package: reference(103, 4), normalized_modules: &second },
            NormalizedPackage { package: reference(PACKAGE, 1), normalized_modules: &first },
        ])
    );
    assert_eq!(called_packages(&snapshot, &request(vec![], vec![], None)), Ok(vec![]));
}

#[test]
fn called_packages_fails_with_the_first_package_that_cannot_be_had() {
    let snapshot = chain_state(ParameterKind::Value);
    let transaction = request(
        vec![],
        vec![call(PACKAGE, "f", vec![]), call(OWNED, "f", vec![]), call(200, "f", vec![])],
        None,
    );
    assert_eq!(
        called_packages(&snapshot, &transaction),
        Err(ResolveError::InvalidInput(InvalidInput::NotAPackage(id(OWNED))))
    );
    let missing = request(vec![], vec![call(200, "f", vec![]), call(OWNED, "f", vec![])], None);
    assert_eq!(
        called_packages(&snapshot, &missing),
        Err(ResolveError::NotFound { object_id: id(200), version: None })
    );
}

#[test]
fn inputs_are_resolved_in_order_and_commands_kept() {
    let snapshot = chain_state(ParameterKind::Reference);
    let decoded = tables(ParameterKind::Reference);
    let packages = vec![NormalizedPackage { package: reference(PACKAGE, 1), normalized_modules: &decoded }];
    let commands = || {
        vec![
            call(PACKAGE, "f", vec![Argument::Input(2)]),
            Command::TransferObjects(TransferObjects {
                objects: vec![Argument::Input(1)],
                address: Argument::Input(0),
            }),
            Command::SplitCoins(SplitCoins { coin: Argument::Input(3), amounts: vec![] }),
        ]
    };
    let unresolved = UnresolvedProgrammableTransaction {
        inputs: vec![
            UnresolvedInputArgument::Pure { value: vec![9, 9] },
            owned_input(),
            shared_input(),
            shared_input(),
        ],
        commands: commands(),
    };
    assert_eq!(
        resolve_ptb(&snapshot, &packages, unresolved),
        Ok(ProgrammableTransaction {
            inputs: vec![
                CallArg::Pure(vec![9, 9]),
                CallArg::Object(ObjectArg::ImmOrOwnedObject(reference(OWNED, 2))),
                shared_arg(false),
                shared_arg(true),
            ],
            commands: commands(),
        })
    );
}

#[test]
fn first_input_that_fails_decides_the_error() {
    let snapshot = chain_state(ParameterKind::Reference);
    let packages = vec![];
    let missing = |n: u8| {
        UnresolvedInputArgument::Receiving(UnresolvedObjectReference {
            object_id: id(n),
            version: Some(1),
            digest: None,
        })
    };
    let unresolved = UnresolvedProgrammableTransaction {
        inputs: vec![owned_input(), missing(70), missing(71)],
        commands: vec![],
    };
    assert_eq!(
        resolve_ptb(&snapshot, &packages, unresolved),
        Err(ResolveError::NotFound { object_id: id(70), version: Some(1) })
    );
}

#[test]
fn gas_objects_are_resolved_in_order() {
    let snapshot = chain_state(ParameterKind::Value);
    let listed = vec![
        UnresolvedObjectReference { object_id: id(11), version: None, digest: None },
        UnresolvedObjectReference { object_id: id(10), version: Some(1), digest: Some(digest(10)) },
    ];
    assert_eq!(resolve_gas_objects(&snapshot, &listed), Ok(vec![reference(11, 1), reference(10, 1)]));
    assert_eq!(resolve_gas_objects(&snapshot, &vec![]), Ok(vec![]));
    let broken = vec![
        UnresolvedObjectReference { object_id: id(11), version: None, digest: Some(digest(0)) },
        UnresolvedObjectReference { object_id: id(99), version: None, digest: None },
    ];
    assert_eq!(
        resolve_gas_objects(&snapshot, &broken),
        Err(ResolveError::InvalidInput(InvalidInput::DigestMismatch {
            provided: digest(0),
            actual: digest(11),
        }))
    );
}

#[test]
fn transaction_without_gas_gets_sender_reference_price_and_largest_budget() {
    let snapshot = chain_state(ParameterKind::MutableReference);
    let decoded = tables(ParameterKind::MutableReference);
    let packages = vec![NormalizedPackage { package: reference(PACKAGE, 1), normalized_modules: &decoded }];
    assert_eq!(
        resolve_unresolved_transaction(&snapshot, &packages, 10, 50_000, shared_call_request(None)),
        Ok(expected(
            vec![shared_arg(true)],
            vec![call(PACKAGE, "f", vec![Argument::Input(0)])],
            vec![],
            50_000
        ))
    );
}

#[test]
fn transaction_with_gas_keeps_the_callers_price_budget_and_owner() {
    let snapshot = chain_state(ParameterKind::Value);
    let packages = vec![];
    let payment = UnresolvedGasPayment {
        objects: vec![UnresolvedObjectReference { object_id: id(12), version: None, digest: None }],
        owner: address(8),
        price: Some(77),
        budget: Some(1234),
    };
    let resolved = resolve_unresolved_transaction(
        &snapshot,
        &packages,
        10,
        50_000,
        request(vec![], vec![], Some(payment)),
    );
    assert_eq!(
        resolved,
        Ok(TransactionData {
            kind: ProgrammableTransaction { inputs: vec![], commands: vec![] },
            sender: address(SENDER),
            gas_data: GasData {
                payment: vec![reference(12, 1)],
                owner: address(8),
                price: 77,
                budget: 1234,
            },
            expiration: TransactionExpiration::Epoch(44),
        })
    );
}

#[test]
fn gas_payment_is_resolved_before_the_inputs() {
    let snapshot = chain_state(ParameterKind::Value);
    let packages = vec![];
    let payment = gas(
        vec![UnresolvedObjectReference { object_id: id(98), version: None, digest: None }],
        None,
        None,
    );
    let broken_input = UnresolvedInputArgument::ImmutableOrOwned(UnresolvedObjectReference {
        object_id: id(97),
        version: None,
        digest: None,
    });
    assert_eq!(
        resolve_unresolved_transaction(
            &snapshot,
            &packages,
            10,
            50_000,
            request(vec![broken_input], vec![], Some(payment))
        ),
        Err(ResolveError::NotFound { object_id: id(98), version: None })
    );
}

#[test]
fn shared_argument_by_mutable_reference_waits_for_a_trial_run() {
    let snapshot = chain_state(ParameterKind::MutableReference);
    let outcome = resolve_transaction(&snapshot, &chain(), &plain(), shared_call_request(None));
    let resolution = outcome.unwrap();
    assert_eq!(resolution.next_action(), Action::DryRun);
    assert_eq!(
        resolution.transaction(),
        &expected(
            vec![shared_arg(true)],
            vec![call(PACKAGE, "f", vec![Argument::Input(0)])],
            vec![],
            50_000
        )
    );
}

#[test]
fn shared_argument_by_plain_value_resolves_immutable() {
    let snapshot = chain_state(ParameterKind::Value);
    let resolution =
        resolve_transaction(&snapshot, &chain(), &plain(), shared_call_request(None)).unwrap();
    assert_eq!(resolution.transaction().kind.inputs, vec![shared_arg(false)]);
}

#[test]
fn trial_run_sets_the_budget_and_selects_gas() {
    let snapshot = chain_state(ParameterKind::MutableReference);
    let waiting =
        resolve_transaction(&snapshot, &chain(), &plain(), shared_call_request(None)).unwrap();
    let cost = GasCostSummary {
        computation_cost: 100,
        storage_cost: 40,
        storage_rebate: 20,
        non_refundable_storage_fee: 0,
    };
    let parameters = ResolveTransactionQueryParameters { simulate: true, ..plain() };
    let cheap = ChainParameters { reference_gas_price: 0, ..chain() };
    let done = waiting.on_dry_run(&snapshot, &cheap, &parameters, Some(cost)).unwrap();
    assert_eq!(done.next_action(), Action::Simulate);
    assert_eq!(
        done,
        Resolution::Resolved {
            transaction: expected(
                vec![shared_arg(true)],
                vec![call(PACKAGE, "f", vec![Argument::Input(0)])],
                vec![reference(10, 1), reference(11, 1)],
                120
            ),
            simulate: true,
        }
    );
}

#[test]
fn trial_run_that_costs_too_much_finds_insufficient_gas() {
    let snapshot = chain_state(ParameterKind::MutableReference);
    let waiting =
        resolve_transaction(&snapshot, &chain(), &plain(), shared_call_request(None)).unwrap();
    let cost = GasCostSummary {
        computation_cost: 100,
        storage_cost: 0,
        storage_rebate: 0,
        non_refundable_storage_fee: 0,
    };
    assert_eq!(
        waiting.on_dry_run(&snapshot, &chain(), &plain(), Some(cost)),
        Err(ResolveError::InsufficientResources { owner: address(SENDER), budget: 10_100 })
    );
}

#[test]
fn failed_trial_run_is_an_internal_error() {
    let snapshot = chain_state(ParameterKind::MutableReference);
    let waiting =
        resolve_transaction(&snapshot, &chain(), &plain(), shared_call_request(None)).unwrap();
    assert_eq!(
        waiting.on_dry_run(&snapshot, &chain(), &plain(), None),
        Err(ResolveError::Internal(InternalError::SimulationFailed))
    );
}

#[test]
fn estimate_beyond_64_bits_is_an_internal_error() {
    let snapshot = chain_state(ParameterKind::MutableReference);
    let waiting =
        resolve_transaction(&snapshot, &chain(), &plain(), shared_call_request(None)).unwrap();
    let cost = GasCostSummary {
        computation_cost: u64::MAX,
        storage_cost: 0,
        storage_rebate: 0,
        non_refundable_storage_fee: 0,
    };
    assert_eq!(
        waiting.on_dry_run(&snapshot, &chain(), &plain(), Some(cost)),
        Err(ResolveError::Internal(InternalError::BudgetOutOfRange))
    );
}

#[test]
fn resolved_resolution_ignores_a_trial_run() {
    let snapshot = chain_state(ParameterKind::Value);
    let done = resolve_transaction(
        &snapshot,
        &chain(),
        &plain(),
        shared_call_request(Some(gas(vec![], None, Some(120)))),
    )
    .unwrap();
    assert_eq!(done.next_action(), Action::Respond);
    let again = resolve_transaction(
        &snapshot,
        &chain(),
        &plain(),
        shared_call_request(Some(gas(vec![], None, Some(120)))),
    )
    .unwrap();
    assert_eq!(done.on_dry_run(&snapshot, &chain(), &plain(), None), Ok(again));
}

#[test]
fn explicit_budget_resolves_at_once_and_selects_gas() {
    let snapshot = chain_state(ParameterKind::Value);
    let outcome = resolve_transaction(
        &snapshot,
        &chain(),
        &plain(),
        shared_call_request(Some(gas(vec![], None, Some(120)))),
    );
    assert_eq!(
        outcome,
        Ok(Resolution::Resolved {
            transaction: expected(
                vec![shared_arg(false)],
                vec![call(PACKAGE, "f", vec![Argument::Input(0)])],
                vec![reference(10, 1), reference(11, 1)],
                120
            ),
            simulate: false,
        })
    );
}

#[test]
fn explicit_budget_beyond_the_coins_is_insufficient() {
    let snapshot = chain_state(ParameterKind::Value);
    let outcome = resolve_transaction(
        &snapshot,
        &chain(),
        &plain(),
        shared_call_request(Some(gas(vec![], None, Some(500)))),
    );
    assert_eq!(
        outcome,
        Err(ResolveError::InsufficientResources { owner: address(SENDER), budget: 500 })
    );
}

#[test]
fn explicit_payment_is_kept() {
    let snapshot = chain_state(ParameterKind::Value);
    let listed = vec![UnresolvedObjectReference { object_id: id(12), version: None, digest: None }];
    let outcome = resolve_transaction(
        &snapshot,
        &chain(),
        &plain(),
        shared_call_request(Some(gas(listed, Some(3), Some(500)))),
    );
    let mut transaction = expected(
        vec![shared_arg(false)],
        vec![call(PACKAGE, "f", vec![Argument::Input(0)])],
        vec![reference(12, 1)],
        500,
    );
    transaction.gas_data.price = 3;
    assert_eq!(outcome, Ok(Resolution::Resolved { transaction, simulate: false }));
}

#[test]
fn selected_gas_avoids_owned_inputs() {
    let mut snapshot = chain_state(ParameterKind::Value);
    snapshot.record_owned(OwnedObjectInfo { owner: address(SENDER), object_id: id(OWNED), is_gas_coin: false });
    let coin_input = UnresolvedInputArgument::ImmutableOrOwned(UnresolvedObjectReference {
        object_id: id(10),
        version: None,
        digest: None,
    });
    let outcome = resolve_transaction(
        &snapshot,
        &chain(),
        &plain(),
        request(vec![coin_input, owned_input()], vec![], Some(gas(vec![], None, Some(60)))),
    );
    match outcome {
        Ok(Resolution::Resolved { transaction, .. }) => {
            assert_eq!(transaction.gas_data.payment, vec![reference(11, 1), reference(12, 1)]);
        }
        other => panic!("unexpected outcome {:?}", other),
    }
}

#[test]
fn input_object_ids_lists_every_object_input() {
    let inputs = vec![
        CallArg::Pure(vec![1]),
        CallArg::Object(ObjectArg::ImmOrOwnedObject(reference(6, 2))),
        shared_arg(true),
        CallArg::Object(ObjectArg::Receiving(reference(7, 2))),
        CallArg::Object(ObjectArg::ImmOrOwnedObject(reference(8, 1))),
    ];
    assert_eq!(input_object_ids(&inputs), vec![id(6), id(SHARED), id(7), id(8)]);
    assert_eq!(input_object_ids(&vec![]), vec![]);
    assert_eq!(input_object_ids(&vec![CallArg::Pure(vec![])]), vec![]);
}

#[test]
fn selected_gas_avoids_received_inputs() {
    let snapshot = chain_state(ParameterKind::Value);
    let received = UnresolvedInputArgument::Receiving(UnresolvedObjectReference {
        object_id: id(10),
        version: None,
        digest: None,
    });
    let ask = |budget: u64| {
        resolve_transaction(
            &snapshot,
            &chain(),
            &plain(),
            request(
                vec![UnresolvedInputArgument::Receiving(UnresolvedObjectReference {
                    object_id: id(10),
                    version: None,
                    digest: None,
                })],
                vec![],
                Some(gas(vec![], None, Some(budget))),
            ),
        )
    };
    assert_eq!(
        resolve_arg_is_receiving(&snapshot, received),
        CallArg::Object(ObjectArg::Receiving(reference(10, 1)))
    );
    match ask(50) {
        Ok(Resolution::Resolved { transaction, .. }) => {
            assert_eq!(transaction.gas_data.payment, vec![reference(11, 1)]);
        }
        other => panic!("unexpected outcome {:?}", other),
    }
    assert_eq!(
        ask(81),
        Err(ResolveError::InsufficientResources { owner: address(SENDER), budget: 81 })
    );
}

fn resolve_arg_is_receiving(snapshot: &ChainSnapshot, input: UnresolvedInputArgument) -> CallArg {
    let ptb = UnresolvedProgrammableTransaction { inputs: vec![input], commands: vec![] };
    let mut resolved = resolve_ptb(snapshot, &vec![], ptb).unwrap();
    resolved.inputs.remove(0)
}

#[test]
fn required_reads_name_packages_inputs_and_the_owners_objects() {
    let by_version = UnresolvedInputArgument::Receiving(UnresolvedObjectReference {
        object_id: id(7),
        version: Some(3),
        digest: None,
    });
    let transaction = request(
        vec![UnresolvedInputArgument::Pure { value: vec![1] }, shared_input(), owned_input(), by_version],
        vec![
            call(PACKAGE, "f", vec![Argument::Input(1)]),
            Command::Publish(Publish { modules: vec![], dependencies: vec![id(104)] }),
            call(103, "g", vec![]),
        ],
        None,
    );
    assert_eq!(
        required_reads(&transaction),
        vec![
            Read::Latest(id(PACKAGE)),
            Read::Latest(id(103)),
            Read::Latest(id(SHARED)),
            Read::Latest(id(OWNED)),
            Read::AtVersion(id(7), 3),
            Read::OwnedObjects(address(SENDER)),
        ]
    );
}

#[test]
fn required_reads_name_the_listed_payment_instead_of_the_index() {
    let listed = vec![
        UnresolvedObjectReference { object_id: id(11), version: None, digest: None },
        UnresolvedObjectReference { object_id: id(10), version: Some(1), digest: None },
    ];
    let mut payment = gas(listed, None, None);
    payment.owner = address(8);
    assert_eq!(
        required_reads(&request(vec![], vec![], Some(payment))),
        vec![Read::Latest(id(11)), Read::AtVersion(id(10), 1)]
    );
    let mut open = gas(vec![], None, Some(5));
    open.owner = address(8);
    assert_eq!(
        required_reads(&request(vec![], vec![], Some(open))),
        vec![Read::OwnedObjects(address(8))]
    );
}

#[test]
fn coin_reads_name_the_gas_coins_of_the_index() {
    let infos = vec![
        OwnedObjectInfo { owner: address(1), object_id: id(10), is_gas_coin: true },
        OwnedObjectInfo { owner: address(1), object_id: id(6), is_gas_coin: false },
        OwnedObjectInfo { owner: address(1), object_id: id(11), is_gas_coin: true },
    ];
    assert_eq!(coin_reads(&infos), vec![Read::Latest(id(10)), Read::Latest(id(11))]);
    assert_eq!(coin_reads(&vec![]), vec![]);
}

#[test]
fn read_for_reference_goes_by_the_version() {
    let latest = UnresolvedObjectReference { object_id: id(1), version: None, digest: None };
    let fixed = UnresolvedObjectReference { object_id: id(1), version: Some(9), digest: None };
    assert_eq!(read_for_reference(&latest), Read::Latest(id(1)));
    assert_eq!(read_for_reference(&fixed), Read::AtVersion(id(1), 9));
}

#[test]
fn snapshot_filled_with_the_required_reads_resolves_like_the_whole() {
    let whole = chain_state(ParameterKind::MutableReference);
    let ask = || request(vec![shared_input(), owned_input()], vec![call(PACKAGE, "f", vec![Argument::Input(0)])], Some(gas(vec![], None, Some(120))));
    let mut partial = ChainSnapshot::new();
    for read in required_reads(&ask()) {
        match read {
            Read::Latest(object) => {
                let found = whole.get_object(&object).unwrap();
                partial.insert(stored_copy(found));
            }
            Read::AtVersion(object, version) => {
                let found = whole.get_object_by_key(&object, version).unwrap();
                partial.insert(stored_copy(found));
            }
            Read::OwnedObjects(owner) => {
                let infos = whole.account_owned_objects_info(&owner);
                for info in &infos {
                    partial.record_owned(*info);
                }
                for read in coin_reads(&infos) {
                    if let Read::Latest(object) = read {
                        partial.insert(stored_copy(whole.get_object(&object).unwrap()));
                    }
                }
            }
        }
    }
    assert_eq!(
        resolve_transaction(&partial, &chain(), &plain(), ask()),
        resolve_transaction(&whole, &chain(), &plain(), ask())
    );
}

fn stored_copy(object: &Object) -> Object {
    let contents = match &object.contents {
        ObjectContents::Package(PackageTables::Decoded(_)) => {
            ObjectContents::Package(PackageTables::Decoded(tables(ParameterKind::MutableReference)))
        }
        ObjectContents::Package(PackageTables::Undecodable) => {
            ObjectContents::Package(PackageTables::Undecodable)
        }
        ObjectContents::GasCoin { balance } => ObjectContents::GasCoin { balance: *balance },
        ObjectContents::Other => ObjectContents::Other,
    };
    Object {
        id: object.id,
        version: object.version,
        digest: object.digest,
        owner: object.owner,
        contents,
    }
}

#[test]
fn settle_writes_the_budget() {
    let snapshot = chain_state(ParameterKind::Value);
    let transaction = expected(vec![], vec![], vec![reference(12, 1)], 50_000);
    assert_eq!(
        settle(&snapshot, &chain(), &plain(), transaction, 9),
        Ok(Resolution::Resolved {
            transaction: expected(vec![], vec![], vec![reference(12, 1)], 9),
            simulate: false,
        })
    );
}

#[test]
fn resolving_twice_gives_the_same_transaction() {
    let snapshot = chain_state(ParameterKind::MutableReference);
    let ask = || {
        resolve_transaction(
            &snapshot,
            &chain(),
            &ResolveTransactionQueryParameters { simulate: true, ..plain() },
            request(
                vec![shared_input(), owned_input(), UnresolvedInputArgument::Pure { value: vec![7] }],
                vec![call(PACKAGE, "f", vec![Argument::Input(0)])],
                Some(gas(vec![], Some(4), Some(130))),
            ),
        )
    };
    let first = ask();
    assert!(first.is_ok());
    assert_eq!(first, ask());
}

#[test]
fn resolution_fails_with_the_package_before_the_inputs() {
    let snapshot = chain_state(ParameterKind::Value);
    let outcome = resolve_transaction(
        &snapshot,
        &chain(),
        &plain(),
        request(vec![shared_input()], vec![call(SHARED, "f", vec![Argument::Input(0)])], None),
    );
    assert_eq!(outcome, Err(ResolveError::InvalidInput(InvalidInput::NotAPackage(id(SHARED)))));
}

#[test]
fn user_provided_budget_is_read_from_the_gas_payment() {
    assert_eq!(request(vec![], vec![], None).user_provided_budget(), None);
    assert_eq!(request(vec![], vec![], Some(gas(vec![], None, None))).user_provided_budget(), None);
    assert_eq!(
        request(vec![], vec![], Some(gas(vec![], None, Some(5)))).user_provided_budget(),
        Some(5)
    );
}
