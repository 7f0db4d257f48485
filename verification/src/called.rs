//! The packages that a transaction calls, each with its signature tables.

use vstd::prelude::*;
use crate::command::Command;
use crate::error::{InternalError, InvalidInput, ResolveError};
use crate::ident::{ObjectId, ObjectRef};
use crate::package::{
    find_package,
    package_with_id,
    package_with_id_from,
    NormalizedPackage,
};
use crate::request::UnresolvedTransaction;
use crate::snapshot::{ChainSnapshot, ObjectContents, PackageTables, SnapshotView};

verus! {

/// The package `id` with its signature tables, as the snapshot holds it.
///
/// The latest version of the object must be there, must be a package, and
/// its modules must have been decoded.
pub open spec fn normalized_package<'a>(snapshot: SnapshotView, id: ObjectId) -> Result<
    NormalizedPackage<'a>,
    ResolveError,
> {
    match snapshot.latest(id) {
        None => Err(ResolveError::NotFound { object_id: id, version: None }),
        Some(object) => match object.contents {
            ObjectContents::Package(PackageTables::Decoded(modules)) => Ok(
                NormalizedPackage {
                    package: ObjectRef { id, version: object.version, digest: object.digest },
                    normalized_modules: &modules,
                },
            ),
            ObjectContents::Package(PackageTables::Undecodable) => Err(
                ResolveError::Internal(InternalError::UndecodablePackage(id)),
            ),
            _ => Err(ResolveError::InvalidInput(InvalidInput::NotAPackage(id))),
        },
    }
}

/// The package that `command` calls, if it is a call.
pub open spec fn called_package(command: Command) -> Option<ObjectId> {
    match command {
        Command::MoveCall(call) => Some(call.package),
        _ => None,
    }
}

/// The packages that the first `upto` commands call, each once, in the
/// order in which they are first called; or the error of the first call
/// whose package cannot be had.
pub open spec fn normalized_packages_upto<'a>(
    snapshot: SnapshotView,
    commands: Seq<Command>,
    upto: int,
) -> Result<Seq<NormalizedPackage<'a>>, ResolveError>
    decreases upto,
{
    if upto <= 0 || upto > commands.len() {
        Ok(Seq::empty())
    } else {
        match normalized_packages_upto(snapshot, commands, upto - 1) {
            Err(error) => Err(error),
            Ok(found) => match called_package(commands[upto - 1]) {
                None => Ok(found),
                Some(id) => if package_with_id(found, id) is Some {
                    Ok(found)
                } else {
                    match normalized_package(snapshot, id) {
                        Ok(package) => Ok(found.push(package)),
                        Err(error) => Err(error),
                    }
                },
            },
        }
    }
}

/// The packages that `commands` call.
pub open spec fn normalized_packages<'a>(snapshot: SnapshotView, commands: Seq<Command>) -> Result<
    Seq<NormalizedPackage<'a>>,
    ResolveError,
> {
    normalized_packages_upto(snapshot, commands, commands.len() as int)
}

/// A package is found by its identifier exactly where one of the packages
/// from `from` on has it, and the one found is the first such.
pub proof fn lemma_package_with_id_from(packages: Seq<NormalizedPackage>, id: ObjectId, from: int)
    requires
        0 <= from <= packages.len(),
    ensures
        match package_with_id_from(packages, id, from) {
            Some(package) => exists|k: int|
                from <= k < packages.len() && #[trigger] packages[k] == package && package.package.id
                    == id && forall|j: int| from <= j < k ==> (#[trigger] packages[j]).package.id != id,
            None => forall|k: int| from <= k < packages.len() ==> (#[trigger] packages[k]).package.id != id,
        },
    decreases packages.len() - from,
{
    if from < packages.len() {
        if packages[from].package.id == id {
            assert(packages[from] == packages[from]);
        } else {
            lemma_package_with_id_from(packages, id, from + 1);
            match package_with_id_from(packages, id, from + 1) {
                Some(package) => {
                    let next = from + 1;
                    let k = choose|k: int|
                        next <= k < packages.len() && #[trigger] packages[k] == package
                            && package.package.id == id && forall|j: int|
                            next <= j < k ==> (#[trigger] packages[j]).package.id != id;
                    assert(packages[k] == package);
                },
                None => {},
            }
        }
    }
}

/// A failure among the first commands is the failure of the whole.
pub proof fn lemma_package_failure_is_final(
    snapshot: SnapshotView,
    commands: Seq<Command>,
    upto: int,
    longer: int,
)
    requires
        0 <= upto <= longer <= commands.len(),
        normalized_packages_upto(snapshot, commands, upto) is Err,
    ensures
        normalized_packages_upto(snapshot, commands, longer) == normalized_packages_upto(
            snapshot,
            commands,
            upto,
        ),
    decreases longer - upto,
{
    if upto < longer {
        lemma_package_failure_is_final(snapshot, commands, upto, longer - 1);
    }
}

/// What the packages found say of the commands: no package stands twice;
/// each stands as the snapshot holds it and is called by one of the first
/// `upto` commands; and each package that one of them calls is found.
/// Where there is a failure, it is that of a call before which every call
/// had its package.
pub proof fn lemma_normalized_packages(snapshot: SnapshotView, commands: Seq<Command>, upto: int)
    requires
        0 <= upto <= commands.len(),
    ensures
        match normalized_packages_upto(snapshot, commands, upto) {
            Ok(found) => {
                &&& forall|k: int, l: int|
                    0 <= k < l < found.len() ==> (#[trigger] found[k]).package.id != (
                    #[trigger] found[l]).package.id
                &&& forall|k: int|
                    0 <= k < found.len() ==> normalized_package(
                        snapshot,
                        (#[trigger] found[k]).package.id,
                    ) == Ok::<NormalizedPackage, ResolveError>(found[k]) && exists|c: int|
                        0 <= c < upto && #[trigger] called_package(commands[c]) == Some(
                            found[k].package.id,
                        )
                &&& forall|c: int|
                    0 <= c < upto && (#[trigger] called_package(commands[c])) is Some
                        ==> package_with_id(found, called_package(commands[c])->0)
                        == normalized_package(snapshot, called_package(commands[c])->0).ok()
                        && normalized_package(snapshot, called_package(commands[c])->0) is Ok
            },
            Err(error) => exists|c: int|
                0 <= c < upto && (#[trigger] called_package(commands[c])) is Some
                    && normalized_package(snapshot, called_package(commands[c])->0) == Err::<
                    NormalizedPackage,
                    ResolveError,
                >(error) && forall|d: int|
                    0 <= d < c && (#[trigger] called_package(commands[d])) is Some
                        ==> normalized_package(snapshot, called_package(commands[d])->0) is Ok,
        },
    decreases upto,
{
    if upto > 0 {
        lemma_normalized_packages(snapshot, commands, upto - 1);
        let last = upto - 1;
        match normalized_packages_upto(snapshot, commands, last) {
            Err(error) => {
                let c = choose|c: int|
                    0 <= c < last && (#[trigger] called_package(commands[c])) is Some
                        && normalized_package(snapshot, called_package(commands[c])->0) == Err::<
                        NormalizedPackage,
                        ResolveError,
                    >(error) && forall|d: int|
                        0 <= d < c && (#[trigger] called_package(commands[d])) is Some
                            ==> normalized_package(snapshot, called_package(commands[d])->0) is Ok;
                assert(called_package(commands[c]) is Some);
            },
            Ok(found) => match called_package(commands[last]) {
                None => {
                    assert forall|k: int| 0 <= k < found.len() implies exists|c: int|
                        0 <= c < upto && #[trigger] called_package(commands[c]) == Some(
                            (#[trigger] found[k]).package.id,
                        ) by {
                        let c = choose|c: int|
                            0 <= c < last && #[trigger] called_package(commands[c]) == Some(
                                found[k].package.id,
                            );
                        assert(called_package(commands[c]) == Some(found[k].package.id));
                    }
                },
                Some(id) => {
                    lemma_package_with_id_from(found, id, 0);
                    if package_with_id(found, id) is Some {
                        let package = package_with_id(found, id)->0;
                        let k = choose|k: int|
                            0 <= k < found.len() && #[trigger] found[k] == package
                                && package.package.id == id && forall|j: int|
                                0 <= j < k ==> (#[trigger] found[j]).package.id != id;
                        assert(found[k].package.id == id);
                        assert forall|k: int| 0 <= k < found.len() implies exists|c: int|
                            0 <= c < upto && #[trigger] called_package(commands[c]) == Some(
                                (#[trigger] found[k]).package.id,
                            ) by {
                            let c = choose|c: int|
                                0 <= c < last && #[trigger] called_package(commands[c]) == Some(
                                    found[k].package.id,
                                );
                            assert(called_package(commands[c]) == Some(found[k].package.id));
                        }
                    } else {
                        match normalized_package(snapshot, id) {
                            Ok(package) => {
                                let grown = found.push(package);
                                assert(package.package.id == id);
                                assert forall|k: int, l: int|
                                    0 <= k < l < grown.len() implies (
                                #[trigger] grown[k]).package.id != (
                                #[trigger] grown[l]).package.id by {
                                    if l == found.len() {
                                        assert(found[k].package.id != id);
                                    } else {
                                        assert(grown[k] == found[k] && grown[l] == found[l]);
                                    }
                                }
                                assert forall|k: int| 0 <= k < grown.len() implies normalized_package(
                                    snapshot,
                                    (#[trigger] grown[k]).package.id,
                                ) == Ok::<NormalizedPackage, ResolveError>(grown[k]) && exists|
                                    c: int,
                                |
                                    0 <= c < upto && #[trigger] called_package(commands[c])
                                        == Some(grown[k].package.id) by {
                                    if k == found.len() {
                                        assert(called_package(commands[last]) == Some(
                                            grown[k].package.id,
                                        ));
                                    } else {
                                        assert(grown[k] == found[k]);
                                        let c = choose|c: int|
                                            0 <= c < last && #[trigger] called_package(commands[c])
                                                == Some(found[k].package.id);
                                        assert(called_package(commands[c]) == Some(
                                            grown[k].package.id,
                                        ));
                                    }
                                }
                                assert forall|c: int|
                                    0 <= c < upto && (#[trigger] called_package(
                                        commands[c],
                                    )) is Some implies package_with_id(
                                    grown,
                                    called_package(commands[c])->0,
                                ) == normalized_package(
                                    snapshot,
                                    called_package(commands[c])->0,
                                ).ok() && normalized_package(
                                    snapshot,
                                    called_package(commands[c])->0,
                                ) is Ok by {
                                    let wanted = called_package(commands[c])->0;
                                    lemma_package_with_id_from(grown, wanted, 0);
                                    lemma_package_with_id_from(found, wanted, 0);
                                    if wanted == id {
                                        let at = found.len() as int;
                                        assert(grown[at] == package);
                                        assert forall|j: int| 0 <= j < at implies (
                                        #[trigger] grown[j]).package.id != id by {
                                            assert(grown[j] == found[j]);
                                        }
                                        lemma_first_with_id(grown, id, at);
                                    } else {
                                        let earlier = package_with_id(found, wanted)->0;
                                        let at = choose|k: int|
                                            0 <= k < found.len() && #[trigger] found[k] == earlier
                                                && earlier.package.id == wanted && forall|j: int|
                                                0 <= j < k ==> (#[trigger] found[j]).package.id
                                                    != wanted;
                                        assert(grown[at] == found[at]);
                                        assert forall|j: int| 0 <= j < at implies (
                                        #[trigger] grown[j]).package.id != wanted by {
                                            assert(grown[j] == found[j]);
                                        }
                                        lemma_first_with_id(grown, wanted, at);
                                    }
                                }
                            },
                            Err(error) => {
                                assert(called_package(commands[last]) is Some);
                            },
                        }
                    }
                },
            },
        }
    }
}

/// The package at position `at` is the one found by its identifier where
/// no package before it has the same.
pub proof fn lemma_first_with_id(packages: Seq<NormalizedPackage>, id: ObjectId, at: int)
    requires
        0 <= at < packages.len(),
        packages[at].package.id == id,
        forall|j: int| 0 <= j < at ==> (#[trigger] packages[j]).package.id != id,
    ensures
        package_with_id(packages, id) == Some(packages[at]),
{
    lemma_first_with_id_from(packages, id, at, 0);
}

proof fn lemma_first_with_id_from(
    packages: Seq<NormalizedPackage>,
    id: ObjectId,
    at: int,
    from: int,
)
    requires
        0 <= from <= at < packages.len(),
        packages[at].package.id == id,
        forall|j: int| 0 <= j < at ==> (#[trigger] packages[j]).package.id != id,
    ensures
        package_with_id_from(packages, id, from) == Some(packages[at]),
    decreases at - from,
{
    if from < at {
        assert(packages[from].package.id != id);
        lemma_first_with_id_from(packages, id, at, from + 1);
    }
}

/// Reads the package `id` from the snapshot.
pub fn fetch_package<'a>(reader: &'a ChainSnapshot, id: ObjectId) -> (package: Result<
    NormalizedPackage<'a>,
    ResolveError,
>)
    ensures
        package == normalized_package(reader@, id),
{
    let object = match reader.get_object(&id) {
        Some(object) => object,
        None => {
            return Err(ResolveError::NotFound { object_id: id, version: None });
        },
    };
    match &object.contents {
        ObjectContents::Package(PackageTables::Decoded(modules)) => Ok(
            NormalizedPackage {
                package: ObjectRef { id, version: object.version, digest: object.digest },
                normalized_modules: modules,
            },
        ),
        ObjectContents::Package(PackageTables::Undecodable) => Err(
            ResolveError::Internal(InternalError::UndecodablePackage(id)),
        ),
        _ => Err(ResolveError::InvalidInput(InvalidInput::NotAPackage(id))),
    }
}

/// Collects the packages that the transaction calls, each once, with the
/// signature tables that the snapshot holds for its latest version. No
/// two of the packages collected share an identifier.
pub fn called_packages<'a>(
    reader: &'a ChainSnapshot,
    unresolved_transaction: &UnresolvedTransaction,
) -> (packages: Result<Vec<NormalizedPackage<'a>>, ResolveError>)
    ensures
        match packages {
            Ok(found) => normalized_packages(reader@, unresolved_transaction.ptb.commands@) == Ok::<
                Seq<NormalizedPackage>,
                ResolveError,
            >(found@) && forall|k: int, l: int|
                0 <= k < l < found@.len() ==> (#[trigger] found@[k]).package.id != (
                #[trigger] found@[l]).package.id,
            Err(error) => normalized_packages(reader@, unresolved_transaction.ptb.commands@)
                == Err::<Seq<NormalizedPackage>, ResolveError>(error),
        },
{
    let commands = &unresolved_transaction.ptb.commands;
    let mut packages: Vec<NormalizedPackage<'a>> = Vec::new();
    let mut c: usize = 0;
    while c < commands.len()
        invariant
            c <= commands@.len(),
            commands@ == unresolved_transaction.ptb.commands@,
            normalized_packages_upto(reader@, commands@, c as int) == Ok::<
                Seq<NormalizedPackage>,
                ResolveError,
            >(packages@),
        decreases commands@.len() - c,
    {
        match &commands[c] {
            Command::MoveCall(call) => {
                if find_package(&packages, &call.package).is_none() {
                    match fetch_package(reader, call.package) {
                        Ok(package) => {
                            packages.push(package);
                        },
                        Err(error) => {
                            proof {
                                lemma_package_failure_is_final(
                                    reader@,
                                    commands@,
                                    c + 1,
                                    commands@.len() as int,
                                );
                            }
                            return Err(error);
                        },
                    }
                }
            },
            _ => {},
        }
        c += 1;
    }
    proof {
        lemma_normalized_packages(reader@, commands@, commands@.len() as int);
    }
    Ok(packages)
}

} // verus!
