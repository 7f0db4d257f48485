//! A snapshot of chain state: the objects that resolution may look up, each
//! at one or more versions, and the index of the objects that accounts own.

use vstd::prelude::*;
use crate::ident::{Address, Digest, ObjectId, ObjectRef};
use crate::package::ModuleTable;

verus! {

/// Who may use an object.
#[derive(Clone, Copy, Debug, PartialEq, Eq)]
pub enum Owner {
    /// One account.
    Address(Address),
    /// Another object.
    Object(ObjectId),
    /// Everyone, since the version at which the object was shared.
    Shared { initial_shared_version: u64 },
    /// Nobody: the object can no longer change.
    Immutable,
}

/// The signature tables of a package, where its modules could be decoded.
#[derive(Debug, PartialEq, Eq)]
pub enum PackageTables {
    Decoded(ModuleTable),
    Undecodable,
}

/// What an object holds, as far as resolution is concerned.
#[derive(Debug, PartialEq, Eq)]
pub enum ObjectContents {
    /// Published code.
    Package(PackageTables),
    /// A coin that can pay for gas.
    GasCoin { balance: u64 },
    /// Anything else.
    Other,
}

/// One object at one version.
#[derive(Debug, PartialEq, Eq)]
pub struct Object {
    pub id: ObjectId,
    pub version: u64,
    pub digest: Digest,
    pub owner: Owner,
    pub contents: ObjectContents,
}

impl Object {
    /// The triple that names this object at this version.
    pub open spec fn reference(self) -> ObjectRef {
        ObjectRef { id: self.id, version: self.version, digest: self.digest }
    }

    /// Computes [`Self::reference`].
    pub fn compute_object_reference(&self) -> (reference: ObjectRef)
        ensures
            reference == self.reference(),
    {
        ObjectRef { id: self.id, version: self.version, digest: self.digest }
    }
}

/// One entry of the index of owned objects.
#[derive(Clone, Copy, Debug, PartialEq, Eq)]
pub struct OwnedObjectInfo {
    pub owner: Address,
    pub object_id: ObjectId,
    /// Whether the object's type is that of a gas coin.
    pub is_gas_coin: bool,
}

/// The mathematical content of a [`ChainSnapshot`].
pub ghost struct SnapshotView {
    /// The stored objects by identifier and version.
    pub objects: Map<(ObjectId, u64), Object>,
    /// The index of owned objects, in the order in which it is walked.
    pub owned: Seq<OwnedObjectInfo>,
}

impl SnapshotView {
    /// Every object is filed under its own identifier and version.
    pub open spec fn consistent(self) -> bool {
        forall|id: ObjectId, version: u64| #[trigger]
            self.objects.contains_key((id, version)) ==> self.objects[(id, version)].id == id
                && self.objects[(id, version)].version == version
    }

    /// The object `id` at `version`, if the snapshot holds it.
    pub open spec fn object_at(self, id: ObjectId, version: u64) -> Option<Object> {
        if self.objects.contains_key((id, version)) {
            Some(self.objects[(id, version)])
        } else {
            None
        }
    }

    /// Whether `version` is the highest version of `id` in the snapshot.
    pub open spec fn is_latest_version(self, id: ObjectId, version: u64) -> bool {
        &&& self.objects.contains_key((id, version))
        &&& forall|other: u64| #[trigger]
            self.objects.contains_key((id, other)) ==> other <= version
    }

    /// The object `id` at its highest version, if the snapshot holds it at
    /// any.
    pub open spec fn latest(self, id: ObjectId) -> Option<Object> {
        if exists|version: u64| self.is_latest_version(id, version) {
            Some(self.objects[(id, choose|version: u64| self.is_latest_version(id, version))])
        } else {
            None
        }
    }

    /// The entries of the index that belong to `owner`, in index order.
    pub open spec fn owned_by(self, owner: Address) -> Seq<OwnedObjectInfo> {
        self.owned.filter(|info: OwnedObjectInfo| info.owner == owner)
    }
}

/// `latest` is the object filed under the highest version, whichever
/// witness is used to find it.
pub proof fn lemma_latest_is(view: SnapshotView, id: ObjectId, version: u64)
    requires
        view.is_latest_version(id, version),
    ensures
        view.latest(id) == Some(view.objects[(id, version)]),
{
    let chosen = choose|v: u64| view.is_latest_version(id, v);
    assert(view.is_latest_version(id, chosen));
    assert(chosen <= version && version <= chosen);
}

/// An object that is stored at some version has a latest version.
pub proof fn lemma_latest_exists(view: SnapshotView, id: ObjectId, version: u64)
    requires
        view.objects.contains_key((id, version)),
    ensures
        exists|highest: u64| view.is_latest_version(id, highest),
        view.latest(id) is Some,
    decreases u64::MAX - version,
{
    if !view.is_latest_version(id, version) {
        let other = choose|other: u64|
            #[trigger] view.objects.contains_key((id, other)) && other > version;
        lemma_latest_exists(view, id, other);
    }
}

/// Where no version of `id` is stored, there is no latest one.
pub proof fn lemma_latest_absent(view: SnapshotView, id: ObjectId)
    requires
        forall|version: u64| !view.objects.contains_key((id, version)),
    ensures
        view.latest(id) is None,
{
}

/// An in-memory snapshot of chain state. No two stored objects share both
/// identifier and version.
#[derive(Debug)]
pub struct ChainSnapshot {
    objects: Vec<Object>,
    owned: Vec<OwnedObjectInfo>,
}

impl View for ChainSnapshot {
    type V = SnapshotView;

    closed spec fn view(&self) -> SnapshotView {
        SnapshotView {
            objects: Map::new(
                |key: (ObjectId, u64)| self.position_of(key.0, key.1) is Some,
                |key: (ObjectId, u64)| self.objects@[self.position_of(key.0, key.1).unwrap()],
            ),
            owned: self.owned@,
        }
    }
}

impl ChainSnapshot {
    #[verifier::type_invariant]
    spec fn keys_are_unique(&self) -> bool {
        forall|i: int, j: int|
            0 <= i < j < self.objects@.len() ==> !(self.objects@[i].id == self.objects@[j].id
                && self.objects@[i].version == self.objects@[j].version)
    }

    spec fn stored_at(&self, i: int, id: ObjectId, version: u64) -> bool {
        0 <= i < self.objects@.len() && self.objects@[i].id == id && self.objects@[i].version
            == version
    }

    spec fn position_of(&self, id: ObjectId, version: u64) -> Option<int> {
        if exists|i: int| self.stored_at(i, id, version) {
            Some(choose|i: int| self.stored_at(i, id, version))
        } else {
            None
        }
    }

    /// The view of every snapshot is consistent.
    pub proof fn lemma_view_consistent(&self)
        ensures
            self@.consistent(),
    {
        assert forall|id: ObjectId, version: u64| #[trigger]
            self@.objects.contains_key((id, version)) implies self@.objects[(id, version)].id == id
            && self@.objects[(id, version)].version == version by {
            let i = self.position_of(id, version).unwrap();
            assert(self.stored_at(i, id, version));
        }
    }

    /// A snapshot that holds nothing.
    pub fn new() -> (snapshot: Self)
        ensures
            snapshot@.objects == Map::<(ObjectId, u64), Object>::empty(),
            snapshot@.owned == Seq::<OwnedObjectInfo>::empty(),
    {
        let snapshot = ChainSnapshot { objects: Vec::new(), owned: Vec::new() };
        assert(snapshot@.objects =~= Map::<(ObjectId, u64), Object>::empty()) by {
            assert forall|key: (ObjectId, u64)| !snapshot@.objects.contains_key(key) by {
                assert(forall|i: int| !snapshot.stored_at(i, key.0, key.1));
            }
        }
        snapshot
    }

    fn index_of(&self, id: &ObjectId, version: u64) -> (found: Option<usize>)
        ensures
            match found {
                Some(i) => self.stored_at(i as int, *id, version) && self.position_of(*id, version)
                    == Some(i as int),
                None => self.position_of(*id, version) is None,
            },
    {
        proof {
            use_type_invariant(self);
        }
        let mut i: usize = 0;
        while i < self.objects.len()
            invariant
                i <= self.objects@.len(),
                forall|j: int| 0 <= j < i ==> !self.stored_at(j, *id, version),
            decreases self.objects@.len() - i,
        {
            if self.objects[i].id == *id && self.objects[i].version == version {
                proof {
                    use_type_invariant(self);
                    assert(self.stored_at(i as int, *id, version));
                    let chosen = self.position_of(*id, version).unwrap();
                    assert(self.stored_at(chosen, *id, version));
                    assert(chosen == i as int);
                }
                return Some(i);
            }
            i += 1;
        }
        None
    }

    /// Stores `object`, unless the snapshot already holds an object with
    /// its identifier at its version. Returns whether it was stored.
    pub fn insert(&mut self, object: Object) -> (inserted: bool)
        ensures
            inserted == !old(self)@.objects.contains_key((object.id, object.version)),
            inserted ==> final(self)@.objects == old(self)@.objects.insert(
                (object.id, object.version),
                object,
            ),
            !inserted ==> final(self)@.objects == old(self)@.objects,
            final(self)@.owned == old(self)@.owned,
    {
        proof {
            use_type_invariant(&*self);
        }
        match self.index_of(&object.id, object.version) {
            Some(_) => false,
            None => {
                let ghost before = *self;
                let ghost key = (object.id, object.version);
                let mut taken = ChainSnapshot { objects: Vec::new(), owned: Vec::new() };
                core::mem::swap(self, &mut taken);
                proof {
                    use_type_invariant(&taken);
                    assert(forall|i: int| !taken.stored_at(i, key.0, key.1));
                }
                let ChainSnapshot { objects: mut objects, owned } = taken;
                objects.push(object);
                proof {
                    assert forall|i: int, j: int| 0 <= i < j < objects@.len() implies !(
                    objects@[i].id == objects@[j].id && objects@[i].version
                        == objects@[j].version) by {
                        if j == before.objects@.len() {
                            assert(!before.stored_at(i, key.0, key.1));
                        } else {
                            assert(objects@[i] == before.objects@[i]);
                            assert(objects@[j] == before.objects@[j]);
                        }
                    }
                }
                *self = ChainSnapshot { objects, owned };
                proof {
                    let after = *self;
                    assert(after.stored_at(before.objects@.len() as int, key.0, key.1));
                    assert forall|k: (ObjectId, u64)|
                        after@.objects.contains_key(k) == before@.objects.insert(
                            key,
                            object,
                        ).contains_key(k) by {
                        if k == key {
                        } else if before.position_of(k.0, k.1) is Some {
                            let i = before.position_of(k.0, k.1).unwrap();
                            assert(before.stored_at(i, k.0, k.1));
                            assert(after.stored_at(i, k.0, k.1));
                        } else if after.position_of(k.0, k.1) is Some {
                            let i = after.position_of(k.0, k.1).unwrap();
                            assert(after.stored_at(i, k.0, k.1));
                            assert(before.stored_at(i, k.0, k.1));
                        }
                    }
                    assert forall|k: (ObjectId, u64)| after@.objects.contains_key(k) implies (
                    #[trigger] after@.objects[k]) == before@.objects.insert(key, object)[k] by {
                        let i = after.position_of(k.0, k.1).unwrap();
                        assert(after.stored_at(i, k.0, k.1));
                        if k != key {
                            assert(before.stored_at(i, k.0, k.1));
                            let j = before.position_of(k.0, k.1).unwrap();
                            assert(before.stored_at(j, k.0, k.1));
                            assert(after.stored_at(j, k.0, k.1));
                            assert(i == j);
                        } else {
                            assert(i == before.objects@.len());
                        }
                    }
                    assert(after@.objects =~= before@.objects.insert(key, object));
                }
                true
            },
        }
    }

    /// Appends `info` to the index of owned objects.
    pub fn record_owned(&mut self, info: OwnedObjectInfo)
        ensures
            final(self)@.objects == old(self)@.objects,
            final(self)@.owned == old(self)@.owned.push(info),
    {
        proof {
            use_type_invariant(&*self);
        }
        let ghost before = *self;
        let mut taken = ChainSnapshot { objects: Vec::new(), owned: Vec::new() };
        core::mem::swap(self, &mut taken);
        proof {
            use_type_invariant(&taken);
        }
        let ChainSnapshot { objects, owned: mut owned } = taken;
        owned.push(info);
        *self = ChainSnapshot { objects, owned };
        proof {
            let after = *self;
            assert(forall|i: int, id: ObjectId, version: u64|
                after.stored_at(i, id, version) == before.stored_at(i, id, version));
            assert forall|k: (ObjectId, u64)|
                after.position_of(k.0, k.1) == before.position_of(k.0, k.1) by {
                if before.position_of(k.0, k.1) is Some {
                    let i = before.position_of(k.0, k.1).unwrap();
                    assert(before.stored_at(i, k.0, k.1));
                    assert(after.stored_at(i, k.0, k.1));
                    let j = after.position_of(k.0, k.1).unwrap();
                    assert(after.stored_at(j, k.0, k.1));
                    assert(i == j);
                } else if after.position_of(k.0, k.1) is Some {
                    let j = after.position_of(k.0, k.1).unwrap();
                    assert(after.stored_at(j, k.0, k.1));
                    assert(before.stored_at(j, k.0, k.1));
                }
            }
            assert(after@.objects =~= before@.objects);
        }
    }

    /// The object `id` at exactly `version`.
    pub fn get_object_by_key(&self, id: &ObjectId, version: u64) -> (found: Option<&Object>)
        ensures
            match found {
                Some(object) => self@.object_at(*id, version) == Some(*object),
                None => self@.object_at(*id, version) is None,
            },
    {
        match self.index_of(id, version) {
            Some(i) => Some(&self.objects[i]),
            None => None,
        }
    }

    /// The object `id` at the highest version that the snapshot holds.
    pub fn get_object(&self, id: &ObjectId) -> (found: Option<&Object>)
        ensures
            match found {
                Some(object) => self@.latest(*id) == Some(*object),
                None => self@.latest(*id) is None,
            },
    {
        proof {
            use_type_invariant(self);
        }
        let mut best: Option<usize> = None;
        let mut i: usize = 0;
        while i < self.objects.len()
            invariant
                i <= self.objects@.len(),
                match best {
                    Some(b) => b < i && self.objects@[b as int].id == *id && forall|j: int|
                        0 <= j < i && self.objects@[j].id == *id ==> self.objects@[j].version
                            <= self.objects@[b as int].version,
                    None => forall|j: int| 0 <= j < i ==> self.objects@[j].id != *id,
                },
            decreases self.objects@.len() - i,
        {
            if self.objects[i].id == *id {
                let better = match best {
                    Some(b) => self.objects[b].version < self.objects[i].version,
                    None => true,
                };
                if better {
                    best = Some(i);
                }
            }
            i += 1;
        }
        match best {
            Some(b) => {
                proof {
                    let version = self.objects@[b as int].version;
                    assert(self.stored_at(b as int, *id, version));
                    assert(self@.objects.contains_key((*id, version)));
                    assert forall|other: u64| #[trigger]
                        self@.objects.contains_key((*id, other)) implies other <= version by {
                        let j = self.position_of(*id, other).unwrap();
                        assert(self.stored_at(j, *id, other));
                    }
                    lemma_latest_is(self@, *id, version);
                    let p = self.position_of(*id, version).unwrap();
                    assert(self.stored_at(p, *id, version));
                    assert(p == b as int);
                }
                Some(&self.objects[b])
            },
            None => {
                proof {
                    assert forall|version: u64| !self@.objects.contains_key((*id, version)) by {
                        if self.position_of(*id, version) is Some {
                            let j = self.position_of(*id, version).unwrap();
                            assert(self.stored_at(j, *id, version));
                        }
                    }
                    lemma_latest_absent(self@, *id);
                }
                None
            },
        }
    }

    /// The entries of the index of owned objects that belong to `owner`, in
    /// index order.
    pub fn account_owned_objects_info(&self, owner: &Address) -> (infos: Vec<OwnedObjectInfo>)
        ensures
            infos@ == self@.owned_by(*owner),
    {
        let ghost belongs = |info: OwnedObjectInfo| info.owner == *owner;
        let mut infos: Vec<OwnedObjectInfo> = Vec::new();
        let mut i: usize = 0;
        proof {
            reveal(Seq::filter);
            assert(self.owned@.take(0) =~= Seq::<OwnedObjectInfo>::empty());
        }
        while i < self.owned.len()
            invariant
                i <= self.owned@.len(),
                belongs == |info: OwnedObjectInfo| info.owner == *owner,
                infos@ == self.owned@.take(i as int).filter(belongs),
            decreases self.owned@.len() - i,
        {
            let info = self.owned[i];
            proof {
                reveal(Seq::filter);
                assert(self.owned@.take(i + 1).drop_last() =~= self.owned@.take(i as int));
            }
            if info.owner == *owner {
                infos.push(info);
            }
            i += 1;
        }
        assert(self.owned@.take(i as int) =~= self.owned@);
        infos
    }
}

} // verus!
