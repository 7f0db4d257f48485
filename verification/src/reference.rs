//! From what a caller knows of an object to a reference that the snapshot
//! confirms.

use vstd::prelude::*;
use crate::error::{InvalidInput, ResolveError};
use crate::ident::ObjectRef;
use crate::request::UnresolvedObjectReference;
use crate::snapshot::{lemma_latest_exists, ChainSnapshot, Object, SnapshotView};

verus! {

/// The object that an unresolved reference points at: the one stored at
/// the given version, or the latest where no version is given.
pub open spec fn referenced_object(
    snapshot: SnapshotView,
    unresolved: UnresolvedObjectReference,
) -> Option<Object> {
    match unresolved.version {
        Some(version) => snapshot.object_at(unresolved.object_id, version),
        None => snapshot.latest(unresolved.object_id),
    }
}

/// What resolving `unresolved` against `snapshot` gives.
///
/// The object must be there, and a digest that the caller supplies must be
/// the stored one. The version and the digest of the result are those of
/// the stored object.
pub open spec fn resolved_reference(
    snapshot: SnapshotView,
    unresolved: UnresolvedObjectReference,
) -> Result<ObjectRef, ResolveError> {
    match referenced_object(snapshot, unresolved) {
        None => Err(
            ResolveError::NotFound {
                object_id: unresolved.object_id,
                version: unresolved.version,
            },
        ),
        Some(object) => {
            if unresolved.digest is Some && unresolved.digest->0 != object.digest {
                Err(
                    ResolveError::InvalidInput(
                        InvalidInput::DigestMismatch {
                            provided: unresolved.digest->0,
                            actual: object.digest,
                        },
                    ),
                )
            } else {
                Ok(
                    ObjectRef {
                        id: unresolved.object_id,
                        version: object.version,
                        digest: object.digest,
                    },
                )
            }
        },
    }
}

/// A reference without a version resolves to the highest version that the
/// snapshot holds of the object, with the digest stored there. It fails as
/// not found only where the snapshot holds no version of the object, and
/// otherwise only over a digest that the caller supplied.
pub proof fn lemma_unversioned_reference_is_latest(
    snapshot: SnapshotView,
    unresolved: UnresolvedObjectReference,
)
    requires
        snapshot.consistent(),
        unresolved.version is None,
    ensures
        match resolved_reference(snapshot, unresolved) {
            Ok(reference) => {
                &&& reference.id == unresolved.object_id
                &&& snapshot.is_latest_version(unresolved.object_id, reference.version)
                &&& reference.digest == snapshot.objects[(
                    unresolved.object_id,
                    reference.version,
                )].digest
            },
            Err(ResolveError::NotFound { object_id, version }) => {
                &&& object_id == unresolved.object_id
                &&& version is None
                &&& forall|stored: u64|
                    !snapshot.objects.contains_key((unresolved.object_id, stored))
            },
            Err(_) => unresolved.digest is Some,
        },
{
    let id = unresolved.object_id;
    if exists|stored: u64| snapshot.objects.contains_key((id, stored)) {
        let stored = choose|stored: u64| snapshot.objects.contains_key((id, stored));
        lemma_latest_exists(snapshot, id, stored);
        let highest = choose|highest: u64| snapshot.is_latest_version(id, highest);
        assert(snapshot.objects.contains_key((id, highest)));
    }
}

/// A reference to a version that the snapshot holds resolves to exactly
/// the digest stored at that version. A digest that the caller supplies
/// must be that one: another is refused, though the version is right.
pub proof fn lemma_versioned_reference_has_stored_digest(
    snapshot: SnapshotView,
    unresolved: UnresolvedObjectReference,
    version: u64,
)
    requires
        snapshot.consistent(),
        unresolved.version == Some(version),
        snapshot.objects.contains_key((unresolved.object_id, version)),
    ensures
        ({
            let stored = snapshot.objects[(unresolved.object_id, version)].digest;
            if unresolved.digest is None || unresolved.digest == Some(stored) {
                resolved_reference(snapshot, unresolved) == Ok::<ObjectRef, ResolveError>(
                    ObjectRef { id: unresolved.object_id, version, digest: stored },
                )
            } else {
                resolved_reference(snapshot, unresolved) == Err::<ObjectRef, ResolveError>(
                    ResolveError::InvalidInput(
                        InvalidInput::DigestMismatch {
                            provided: unresolved.digest->0,
                            actual: stored,
                        },
                    ),
                )
            }
        }),
{
}

/// Resolves a reference against the snapshot.
pub fn resolve_object_reference(
    reader: &ChainSnapshot,
    unresolved_object_reference: UnresolvedObjectReference,
) -> (resolved: Result<ObjectRef, ResolveError>)
    ensures
        resolved == resolved_reference(reader@, unresolved_object_reference),
{
    let UnresolvedObjectReference { object_id, version, digest } = unresolved_object_reference;
    let found = match version {
        Some(version) => reader.get_object_by_key(&object_id, version),
        None => reader.get_object(&object_id),
    };
    let object = match found {
        Some(object) => object,
        None => {
            return Err(ResolveError::NotFound { object_id, version });
        },
    };
    match digest {
        Some(provided) => {
            if provided != object.digest {
                return Err(
                    ResolveError::InvalidInput(
                        InvalidInput::DigestMismatch { provided, actual: object.digest },
                    ),
                );
            }
        },
        None => {},
    }
    Ok(ObjectRef { id: object_id, version: object.version, digest: object.digest })
}

} // verus!
