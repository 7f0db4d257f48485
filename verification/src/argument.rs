//! Resolution of one input of a transaction.

use vstd::prelude::*;
use crate::command::Command;
use crate::error::{InvalidInput, ResolveError};
use crate::ident::ObjectId;
use crate::mutability::{infer_mutability, shared_mutability};
use crate::package::NormalizedPackage;
use crate::reference::{resolve_object_reference, resolved_reference};
use crate::request::UnresolvedInputArgument;
use crate::snapshot::{ChainSnapshot, Owner, SnapshotView};
use crate::transaction::{CallArg, ObjectArg};

verus! {

/// What resolving the shared input `arg_idx`, declared to be the object
/// `object_id`, gives.
///
/// The latest version of the object must be a shared object. The result
/// carries the version at which the object was shared, as the snapshot
/// records it, and the mutability that the commands imply.
pub open spec fn resolved_shared_argument(
    snapshot: SnapshotView,
    packages: Seq<NormalizedPackage>,
    commands: Seq<Command>,
    object_id: ObjectId,
    arg_idx: usize,
) -> Result<CallArg, ResolveError> {
    match snapshot.latest(object_id) {
        None => Err(ResolveError::NotFound { object_id, version: None }),
        Some(object) => match object.owner {
            Owner::Shared { initial_shared_version } => match shared_mutability(
                packages,
                commands,
                arg_idx,
            ) {
                Err(error) => Err(error),
                Ok(mutable) => Ok(
                    CallArg::Object(
                        ObjectArg::SharedObject { id: object_id, initial_shared_version, mutable },
                    ),
                ),
            },
            _ => Err(ResolveError::InvalidInput(InvalidInput::NotShared(object_id))),
        },
    }
}

/// What resolving the input `arg`, which stands at position `arg_idx`,
/// gives.
///
/// Plain bytes pass through. An owned, immutable or received object is
/// resolved as a reference. For a shared object, what the caller says of
/// its initial version and mutability plays no part.
pub open spec fn resolved_argument(
    snapshot: SnapshotView,
    packages: Seq<NormalizedPackage>,
    commands: Seq<Command>,
    arg: UnresolvedInputArgument,
    arg_idx: usize,
) -> Result<CallArg, ResolveError> {
    match arg {
        UnresolvedInputArgument::Pure { value } => Ok(CallArg::Pure(value)),
        UnresolvedInputArgument::ImmutableOrOwned(reference) => match resolved_reference(
            snapshot,
            reference,
        ) {
            Ok(resolved) => Ok(CallArg::Object(ObjectArg::ImmOrOwnedObject(resolved))),
            Err(error) => Err(error),
        },
        UnresolvedInputArgument::Shared { object_id, .. } => resolved_shared_argument(
            snapshot,
            packages,
            commands,
            object_id,
            arg_idx,
        ),
        UnresolvedInputArgument::Receiving(reference) => match resolved_reference(
            snapshot,
            reference,
        ) {
            Ok(resolved) => Ok(CallArg::Object(ObjectArg::Receiving(resolved))),
            Err(error) => Err(error),
        },
    }
}

/// Resolves one input of a transaction.
pub fn resolve_arg(
    reader: &ChainSnapshot,
    called_packages: &Vec<NormalizedPackage>,
    commands: &Vec<Command>,
    arg: UnresolvedInputArgument,
    arg_idx: usize,
) -> (resolved: Result<CallArg, ResolveError>)
    ensures
        resolved == resolved_argument(reader@, called_packages@, commands@, arg, arg_idx),
{
    match arg {
        UnresolvedInputArgument::Pure { value } => Ok(CallArg::Pure(value)),
        UnresolvedInputArgument::ImmutableOrOwned(reference) => {
            match resolve_object_reference(reader, reference) {
                Ok(resolved) => Ok(CallArg::Object(ObjectArg::ImmOrOwnedObject(resolved))),
                Err(error) => Err(error),
            }
        },
        UnresolvedInputArgument::Shared { object_id, initial_shared_version: _, mutable: _ } => {
            let object = match reader.get_object(&object_id) {
                Some(object) => object,
                None => {
                    return Err(ResolveError::NotFound { object_id, version: None });
                },
            };
            let initial_shared_version = match object.owner {
                Owner::Shared { initial_shared_version } => initial_shared_version,
                _ => {
                    return Err(ResolveError::InvalidInput(InvalidInput::NotShared(object_id)));
                },
            };
            match infer_mutability(called_packages, commands, arg_idx) {
                Err(error) => Err(error),
                Ok(mutable) => Ok(
                    CallArg::Object(
                        ObjectArg::SharedObject { id: object_id, initial_shared_version, mutable },
                    ),
                ),
            }
        },
        UnresolvedInputArgument::Receiving(reference) => {
            match resolve_object_reference(reader, reference) {
                Ok(resolved) => Ok(CallArg::Object(ObjectArg::Receiving(resolved))),
                Err(error) => Err(error),
            }
        },
    }
}

} // verus!
