use tx_resolver::error::{InternalError, InvalidInput, ResolveError};
use tx_resolver::ident::{bytes_equal, Address, Digest, ObjectId, ObjectRef};
use tx_resolver::reference::resolve_object_reference;
use tx_resolver::request::UnresolvedObjectReference;
use tx_resolver::snapshot::{ChainSnapshot, Object, ObjectContents, OwnedObjectInfo, Owner};

fn id(n: u8) -> ObjectId {
    ObjectId { bytes: [n; 32] }
}

fn digest(n: u8) -> Digest {
    Digest { bytes: [n; 32] }
}

fn address(n: u8) -> Address {
    Address { bytes: [n; 32] }
}

fn object(n: u8, version: u64, d: u8) -> Object {
    Object {
        id: id(n),
        version,
        digest: digest(d),
        owner: Owner::Address(address(9)),
        contents: ObjectContents::Other,
    }
}

fn snapshot() -> ChainSnapshot {
    let mut snapshot = ChainSnapshot::new();
    assert!(snapshot.insert(object(1, 3, 30)));
    assert!(snapshot.insert(object(1, 7, 70)));
    assert!(snapshot.insert(object(1, 5, 50)));
    assert!(snapshot.insert(object(2, 4, 40)));
    snapshot
}

fn unresolved(n: u8, version: Option<u64>, d: Option<u8>) -> UnresolvedObjectReference {
    UnresolvedObjectReference { object_id: id(n), version, digest: d.map(digest) }
}

#[test]
fn bytes_equal_tells_the_last_byte_apart() {
    let a = [7u8; 32];
    let mut b = [7u8; 32];
    assert!(bytes_equal(&a, &b));
    b[31] = 8;
    assert!(!bytes_equal(&a, &b));
    b[31] = 7;
    b[0] = 0;
    assert!(!bytes_equal(&a, &b));
}

#[test]
fn identifiers_compare_by_their_bytes() {
    assert_eq!(id(1), id(1));
    assert_ne!(id(1), id(2));
    assert_eq!(digest(4), digest(4));
    assert_ne!(digest(4), digest(5));
    assert_eq!(address(4), address(4));
    assert_ne!(address(4), address(6));
}

#[test]
fn insert_refuses_a_second_object_at_the_same_version() {
    let mut snapshot = snapshot();
    assert!(!snapshot.insert(object(1, 7, 99)));
    assert_eq!(snapshot.get_object_by_key(&id(1), 7), Some(&object(1, 7, 70)));
    assert!(snapshot.insert(object(1, 8, 80)));
    assert_eq!(snapshot.get_object(&id(1)), Some(&object(1, 8, 80)));
}

#[test]
fn get_object_returns_the_highest_version() {
    let snapshot = snapshot();
    assert_eq!(snapshot.get_object(&id(1)), Some(&object(1, 7, 70)));
    assert_eq!(snapshot.get_object(&id(2)), Some(&object(2, 4, 40)));
    assert_eq!(snapshot.get_object(&id(3)), None);
}

#[test]
fn get_object_by_key_returns_the_version_asked_for() {
    let snapshot = snapshot();
    assert_eq!(snapshot.get_object_by_key(&id(1), 3), Some(&object(1, 3, 30)));
    assert_eq!(snapshot.get_object_by_key(&id(1), 5), Some(&object(1, 5, 50)));
    assert_eq!(snapshot.get_object_by_key(&id(1), 4), None);
    assert_eq!(snapshot.get_object_by_key(&id(3), 3), None);
}

#[test]
fn compute_object_reference_names_the_object() {
    assert_eq!(
        object(1, 3, 30).compute_object_reference(),
        ObjectRef { id: id(1), version: 3, digest: digest(30) }
    );
}

#[test]
fn owned_objects_are_listed_per_owner_in_index_order() {
    let mut snapshot = ChainSnapshot::new();
    let first = OwnedObjectInfo { owner: address(1), object_id: id(10), is_gas_coin: true };
    let other = OwnedObjectInfo { owner: address(2), object_id: id(11), is_gas_coin: true };
    let second = OwnedObjectInfo { owner: address(1), object_id: id(12), is_gas_coin: false };
    snapshot.record_owned(first);
    snapshot.record_owned(other);
    snapshot.record_owned(second);
    assert_eq!(snapshot.account_owned_objects_info(&address(1)), vec![first, second]);
    assert_eq!(snapshot.account_owned_objects_info(&address(2)), vec![other]);
    assert_eq!(snapshot.account_owned_objects_info(&address(3)), vec![]);
}

#[test]
fn reference_without_version_resolves_to_latest() {
    let snapshot = snapshot();
    let expected = ObjectRef { id: id(1), version: 7, digest: digest(70) };
    assert_eq!(resolve_object_reference(&snapshot, unresolved(1, None, None)), Ok(expected));
    assert_eq!(resolve_object_reference(&snapshot, unresolved(1, None, None)), Ok(expected));
}

#[test]
fn reference_with_version_resolves_to_the_stored_digest() {
    let snapshot = snapshot();
    assert_eq!(
        resolve_object_reference(&snapshot, unresolved(1, Some(3), None)),
        Ok(ObjectRef { id: id(1), version: 3, digest: digest(30) })
    );
    assert_eq!(
        resolve_object_reference(&snapshot, unresolved(1, Some(5), Some(50))),
        Ok(ObjectRef { id: id(1), version: 5, digest: digest(50) })
    );
}

#[test]
fn matching_digest_is_accepted_without_version() {
    let snapshot = snapshot();
    assert_eq!(
        resolve_object_reference(&snapshot, unresolved(1, None, Some(70))),
        Ok(ObjectRef { id: id(1), version: 7, digest: digest(70) })
    );
}

#[test]
fn mismatching_digest_is_refused_though_the_version_is_right() {
    let snapshot = snapshot();
    assert_eq!(
        resolve_object_reference(&snapshot, unresolved(1, Some(5), Some(70))),
        Err(ResolveError::InvalidInput(InvalidInput::DigestMismatch {
            provided: digest(70),
            actual: digest(50),
        }))
    );
}

#[test]
fn digest_of_an_older_version_is_refused_for_the_latest() {
    let snapshot = snapshot();
    assert_eq!(
        resolve_object_reference(&snapshot, unresolved(1, None, Some(50))),
        Err(ResolveError::InvalidInput(InvalidInput::DigestMismatch {
            provided: digest(50),
            actual: digest(70),
        }))
    );
}

#[test]
fn missing_version_is_not_found_with_the_version() {
    let snapshot = snapshot();
    assert_eq!(
        resolve_object_reference(&snapshot, unresolved(1, Some(4), None)),
        Err(ResolveError::NotFound { object_id: id(1), version: Some(4) })
    );
}

#[test]
fn missing_object_is_not_found_without_version() {
    let snapshot = snapshot();
    assert_eq!(
        resolve_object_reference(&snapshot, unresolved(3, None, Some(1))),
        Err(ResolveError::NotFound { object_id: id(3), version: None })
    );
}

#[test]
fn only_internal_errors_are_the_services() {
    assert!(ResolveError::NotFound { object_id: id(1), version: None }.is_client_attributable());
    assert!(ResolveError::InvalidInput(InvalidInput::InvalidParameter).is_client_attributable());
    assert!(ResolveError::InsufficientResources { owner: address(1), budget: 1 }
        .is_client_attributable());
    assert!(!ResolveError::Internal(InternalError::SimulationFailed).is_client_attributable());
}
