//! The registry of a room: who is connected, and under which name.
//!
//! The registry keeps two things side by side: the ids of the connected
//! clients, in the order in which they joined, and the name of each.
//! At every moment the two speak of the same clients.

use std::collections::HashMap;
use vstd::prelude::*;
use vstd::std_specs::hash::*;
use crate::packet::roster_view;

verus! {

broadcast use group_hash_axioms;

/// What a [`Registry`] holds.
pub struct RegistryView {
    /// The ids of the connected clients, in the order in which they joined.
    pub ids: Seq<u64>,
    /// The name of each client, by id.
    pub names: Map<u64, Seq<char>>,
    /// The id that the next client gets.
    pub next_id: u64,
}

/// The test that every id but `id` passes.
pub open spec fn other_than(id: u64) -> spec_fn(u64) -> bool {
    |other: u64| other != id
}

impl RegistryView {
    /// The registry of a room that nobody has joined yet.
    pub open spec fn empty() -> RegistryView {
        RegistryView { ids: Seq::empty(), names: Map::empty(), next_id: 0 }
    }

    /// The two halves agree: the connected clients are exactly those that
    /// have a name. No id is listed twice, and every id in use is below the
    /// one that is handed out next.
    pub open spec fn consistent(self) -> bool {
        &&& self.ids.no_duplicates()
        &&& self.ids.to_set() == self.names.dom()
        &&& forall|i: int| 0 <= i < self.ids.len() ==> self.ids[i] < self.next_id
    }

    /// Whether the client `id` is in the room.
    pub open spec fn registered(self, id: u64) -> bool {
        self.names.contains_key(id)
    }

    /// Whether there is an id left for one more client.
    pub open spec fn has_spare_id(self) -> bool {
        self.next_id < u64::MAX
    }

    /// The registry after a client named `name` has been taken in, if there
    /// is an id left for it.
    pub open spec fn register(self, name: Seq<char>) -> RegistryView {
        if self.has_spare_id() {
            RegistryView {
                ids: self.ids.push(self.next_id),
                names: self.names.insert(self.next_id, name),
                next_id: (self.next_id + 1) as u64,
            }
        } else {
            self
        }
    }

    /// The registry without the client `id`.
    pub open spec fn remove(self, id: u64) -> RegistryView {
        RegistryView {
            ids: self.ids.filter(other_than(id)),
            names: self.names.remove(id),
            next_id: self.next_id,
        }
    }

    /// The registry after the client `id` has taken the name `name`. Nothing
    /// changes if no such client is in the room.
    pub open spec fn rename(self, id: u64, name: Seq<char>) -> RegistryView {
        if self.registered(id) {
            RegistryView { ids: self.ids, names: self.names.insert(id, name), next_id: self.next_id }
        } else {
            self
        }
    }

    /// Name and id of every client, in the order in which they joined.
    pub open spec fn roster(self) -> Seq<(Seq<char>, u64)> {
        self.ids.map_values(|id: u64| (self.names[id], id))
    }
}

/// The ids and names of the clients of one room.
pub struct Registry {
    ids: Vec<u64>,
    names: HashMap<u64, String>,
    next_id: u64,
}

impl View for Registry {
    type V = RegistryView;

    closed spec fn view(&self) -> RegistryView {
        RegistryView {
            ids: self.ids@,
            names: self.names@.map_values(|name: String| name@),
            next_id: self.next_id,
        }
    }
}

impl Registry {
    /// What holds of every registry at all times: see
    /// [`RegistryView::consistent`].
    #[verifier::type_invariant]
    pub open spec fn wf(&self) -> bool {
        self@.consistent()
    }

    /// The registry of a room that nobody has joined yet.
    pub fn new() -> (registry: Registry)
        ensures
            registry@ == RegistryView::empty(),
            registry.wf(),
    {
        let ids: Vec<u64> = Vec::new();
        let names: HashMap<u64, String> = HashMap::new();
        assert(names@.map_values(|name: String| name@) =~= Map::empty());
        assert(ids@.to_set() =~= Set::empty());
        Registry { ids, names, next_id: 0 }
    }

    /// The ids of the connected clients, in the order in which they joined.
    pub fn ids(&self) -> (ids: &Vec<u64>)
        ensures
            ids@ == self@.ids,
    {
        &self.ids
    }

    /// The id that the next client gets.
    pub fn next_id(&self) -> (id: u64)
        ensures
            id == self@.next_id,
    {
        self.next_id
    }

    /// Whether the client `id` is in the room.
    pub fn contains(&self, id: u64) -> (found: bool)
        ensures
            found == self@.registered(id),
    {
        self.names.contains_key(&id)
    }

    /// The name of the client `id`, if it is in the room.
    pub fn name_of(&self, id: u64) -> (name: Option<&String>)
        ensures
            name is Some <==> self@.registered(id),
            name is Some ==> name->Some_0@ == self@.names[id],
    {
        self.names.get(&id)
    }

    /// Takes a client named `name` into the room and returns its id. The ids
    /// are handed out in order, starting at 0, and none is handed out twice.
    /// Once the ids are used up, nobody is taken in any more.
    pub fn register(&mut self, name: String) -> (id: Option<u64>)
        ensures
            final(self).wf(),
            final(self)@ == old(self)@.register(name@),
            id == if old(self)@.has_spare_id() {
                Some(old(self)@.next_id)
            } else {
                None
            },
    {
        proof {
            use_type_invariant(&*self);
            lemma_register_consistent(self@, name@);
        }
        if self.next_id == u64::MAX {
            return None;
        }
        let mut taken = Registry::new();
        std::mem::swap(self, &mut taken);
        let Registry { ids, names, next_id } = taken;
        let mut ids = ids;
        let mut names = names;
        let ghost before = names@;
        ids.push(next_id);
        names.insert(next_id, name);
        assert(names@.map_values(|name: String| name@) =~= before.map_values(
            |name: String| name@,
        ).insert(next_id, name@));
        *self = Registry { ids, names, next_id: next_id + 1 };
        Some(next_id)
    }

    /// Removes the client `id` and returns the name it had, if it was in the
    /// room. The other clients keep their order.
    pub fn remove(&mut self, id: u64) -> (name: Option<String>)
        ensures
            final(self).wf(),
            final(self)@ == old(self)@.remove(id),
            name is Some <==> old(self)@.registered(id),
            name is Some ==> name->Some_0@ == old(self)@.names[id],
    {
        proof {
            use_type_invariant(&*self);
            lemma_remove_consistent(self@, id);
        }
        let mut taken = Registry::new();
        std::mem::swap(self, &mut taken);
        let Registry { ids, names, next_id } = taken;
        let mut names = names;
        let ghost before = names@;
        let mut kept: Vec<u64> = Vec::new();
        let mut i: usize = 0;
        while i < ids.len()
            invariant
                i <= ids.len(),
                kept@ == ids@.take(i as int).filter(other_than(id)),
            decreases ids.len() - i,
        {
            proof {
                ids@.take(i as int).lemma_filter_push(ids@[i as int], other_than(id));
                assert(ids@.take(i + 1) =~= ids@.take(i as int).push(ids@[i as int]));
            }
            if ids[i] != id {
                kept.push(ids[i]);
            }
            i += 1;
        }
        assert(ids@.take(i as int) =~= ids@);
        let name = names.remove(&id);
        assert(names@.map_values(|name: String| name@) =~= before.map_values(
            |name: String| name@,
        ).remove(id));
        *self = Registry { ids: kept, names, next_id };
        name
    }

    /// Gives the client `id` the name `name`, if it is in the room, and says
    /// whether it was.
    pub fn rename(&mut self, id: u64, name: String) -> (renamed: bool)
        ensures
            final(self).wf(),
            final(self)@ == old(self)@.rename(id, name@),
            renamed == old(self)@.registered(id),
    {
        proof {
            use_type_invariant(&*self);
            lemma_rename_consistent(self@, id, name@);
        }
        if !self.names.contains_key(&id) {
            return false;
        }
        let mut taken = Registry::new();
        std::mem::swap(self, &mut taken);
        let Registry { ids, names, next_id } = taken;
        let mut names = names;
        let ghost before = names@;
        names.insert(id, name);
        assert(names@.map_values(|name: String| name@) =~= before.map_values(
            |name: String| name@,
        ).insert(id, name@));
        *self = Registry { ids, names, next_id };
        true
    }

    /// Name and id of every client, in the order in which they joined.
    pub fn roster(&self) -> (entries: Vec<(String, u64)>)
        ensures
            roster_view(entries@) == self@.roster(),
    {
        proof {
            use_type_invariant(self);
        }
        let mut entries: Vec<(String, u64)> = Vec::new();
        let mut i: usize = 0;
        while i < self.ids.len()
            invariant
                self.wf(),
                i <= self.ids.len(),
                entries.len() == i,
                forall|j: int|
                    0 <= j < i ==> entries[j].0@ == self@.names[self.ids[j]] && entries[j].1
                        == self.ids[j],
            decreases self.ids.len() - i,
        {
            let id = self.ids[i];
            assert(self@.ids.to_set().contains(id)) by {
                assert(self@.ids[i as int] == id);
            }
            let name = self.names.get(&id).unwrap();
            entries.push((name.clone(), id));
            i += 1;
        }
        assert(roster_view(entries@) =~= self@.roster());
        entries
    }
}

/// Taking a client in keeps the registry consistent.
pub proof fn lemma_register_consistent(registry: RegistryView, name: Seq<char>)
    requires
        registry.consistent(),
    ensures
        registry.register(name).consistent(),
{
    if registry.has_spare_id() {
        let after = registry.register(name);
        assert(after.ids.to_set() =~= after.names.dom()) by {
            assert forall|id: u64| after.ids.to_set().contains(id) <==> after.names.dom().contains(
                id,
            ) by {
                if after.ids.to_set().contains(id) {
                    let i = choose|i: int| 0 <= i < after.ids.len() && after.ids[i] == id;
                    if i < registry.ids.len() {
                        assert(registry.ids[i] == id);
                        assert(registry.ids.to_set().contains(id));
                    }
                }
                if after.names.dom().contains(id) {
                    if id == registry.next_id {
                        assert(after.ids[registry.ids.len() as int] == id);
                    } else {
                        assert(registry.ids.to_set().contains(id));
                        let i = choose|i: int| 0 <= i < registry.ids.len() && registry.ids[i] == id;
                        assert(after.ids[i] == id);
                    }
                }
            }
        }
    }
}

/// Removing a client keeps the registry consistent.
pub proof fn lemma_remove_consistent(registry: RegistryView, id: u64)
    requires
        registry.consistent(),
    ensures
        registry.remove(id).consistent(),
{
    let keep = other_than(id);
    let after = registry.remove(id);
    registry.ids.lemma_filter_len(keep);
    assert forall|i: int| 0 <= i < after.ids.len() implies after.ids[i] != id
        && registry.ids.contains(after.ids[i]) by {
        registry.ids.lemma_filter_pred(keep, i);
        assert(after.ids.contains(after.ids[i]));
        registry.ids.lemma_filter_contains_rev(keep, after.ids[i]);
    }
    lemma_filter_no_duplicates(registry.ids, keep);
    assert(after.ids.to_set() =~= after.names.dom()) by {
        assert forall|other: u64| after.ids.to_set().contains(other) <==> after.names.dom().contains(
            other,
        ) by {
            if after.ids.to_set().contains(other) {
                let i = choose|i: int| 0 <= i < after.ids.len() && after.ids[i] == other;
                assert(registry.ids.to_set().contains(other));
            }
            if after.names.dom().contains(other) {
                assert(registry.ids.to_set().contains(other));
                let j = choose|j: int| 0 <= j < registry.ids.len() && registry.ids[j] == other;
                registry.ids.lemma_filter_contains(keep, j);
            }
        }
    }
    assert forall|i: int| 0 <= i < after.ids.len() implies after.ids[i] < after.next_id by {
        let j = choose|j: int| 0 <= j < registry.ids.len() && registry.ids[j] == after.ids[i];
    }
}

/// A selection from a sequence without duplicates has no duplicates.
proof fn lemma_filter_no_duplicates(ids: Seq<u64>, keep: spec_fn(u64) -> bool)
    requires
        ids.no_duplicates(),
    ensures
        ids.filter(keep).no_duplicates(),
    decreases ids.len(),
{
    reveal(Seq::filter);
    if ids.len() > 0 {
        let rest = ids.drop_last();
        lemma_filter_no_duplicates(rest, keep);
        if keep(ids.last()) && rest.filter(keep).contains(ids.last()) {
            rest.lemma_filter_contains_rev(keep, ids.last());
            let j = choose|j: int| 0 <= j < rest.len() && rest[j] == ids.last();
            assert(ids[j] == ids[ids.len() - 1]);
        }
    }
}

/// Renaming a client keeps the registry consistent.
pub proof fn lemma_rename_consistent(registry: RegistryView, id: u64, name: Seq<char>)
    requires
        registry.consistent(),
    ensures
        registry.rename(id, name).consistent(),
{
    if registry.registered(id) {
        assert(registry.rename(id, name).names.dom() =~= registry.names.dom());
    }
}

/// Removing a client that is not in the room changes nothing.
pub proof fn lemma_remove_absent(registry: RegistryView, id: u64)
    requires
        registry.consistent(),
        !registry.registered(id),
    ensures
        registry.remove(id) == registry,
{
    let keep = other_than(id);
    assert(registry.ids.filter(keep) == registry.ids) by {
        assert forall|i: int| 0 <= i < registry.ids.len() implies keep(registry.ids[i]) by {
            assert(registry.ids.to_set().contains(registry.ids[i]));
        }
        lemma_filter_all(registry.ids, keep);
    }
    assert(registry.names.remove(id) =~= registry.names);
}

/// A selection that every element passes leaves a sequence as it is.
proof fn lemma_filter_all(ids: Seq<u64>, keep: spec_fn(u64) -> bool)
    requires
        forall|i: int| 0 <= i < ids.len() ==> keep(ids[i]),
    ensures
        ids.filter(keep) == ids,
    decreases ids.len(),
{
    reveal(Seq::filter);
    if ids.len() > 0 {
        lemma_filter_all(ids.drop_last(), keep);
        assert(ids.drop_last().push(ids.last()) =~= ids);
    }
}

/// One change to a registry.
pub enum RegistryOp {
    /// A client of this name joins.
    Register(Seq<char>),
    /// The client of this id leaves.
    Remove(u64),
    /// The client of this id takes this name.
    Rename(u64, Seq<char>),
}

impl RegistryView {
    /// The registry after one change.
    pub open spec fn apply(self, op: RegistryOp) -> RegistryView {
        match op {
            RegistryOp::Register(name) => self.register(name),
            RegistryOp::Remove(id) => self.remove(id),
            RegistryOp::Rename(id, name) => self.rename(id, name),
        }
    }

    /// The registry after a series of changes, made in order.
    pub open spec fn apply_all(self, ops: Seq<RegistryOp>) -> RegistryView
        decreases ops.len(),
    {
        if ops.len() == 0 {
            self
        } else {
            self.apply_all(ops.drop_last()).apply(ops.last())
        }
    }
}

/// Whatever clients join, leave and change their names, and in whatever
/// order, the connected clients stay exactly those that have a name, and no
/// id is handed out that is in use or was handed out before.
pub proof fn lemma_registry_stays_consistent(registry: RegistryView, ops: Seq<RegistryOp>)
    requires
        registry.consistent(),
    ensures
        registry.apply_all(ops).consistent(),
        registry.apply_all(ops).ids.to_set() == registry.apply_all(ops).names.dom(),
        registry.apply_all(ops).next_id >= registry.next_id,
    decreases ops.len(),
{
    if ops.len() > 0 {
        let before = registry.apply_all(ops.drop_last());
        lemma_registry_stays_consistent(registry, ops.drop_last());
        match ops.last() {
            RegistryOp::Register(name) => lemma_register_consistent(before, name),
            RegistryOp::Remove(id) => lemma_remove_consistent(before, id),
            RegistryOp::Rename(id, name) => lemma_rename_consistent(before, id, name),
        }
    }
}

} // verus!
