//! The entity reconciliation engine and the client's screen-flow states.
//!
//! The entity table maps each stable id to the client-owned entity that
//! mirrors it. Reconciling a snapshot walks its object list in order: an id
//! already in the table has only its pose overwritten; an unseen id has a
//! fresh entity synthesized, its renderable resource resolved from its type
//! tag. No deletion pass exists: ids absent from a snapshot are retained
//! unchanged.

use vstd::prelude::*;

use crate::objects::{model_slot, NetworkObject, Object};

verus! {

/// The table as a mapping from entity id to entity. Later entries shadow
/// earlier ones, though a well-formed table has no duplicate ids.
pub open spec fn table_map(s: Seq<Object>) -> Map<u32, Object>
    decreases s.len(),
{
    if s.len() == 0 {
        Map::empty()
    } else {
        table_map(s.drop_last()).insert(s.last().id, s.last())
    }
}

/// No two entries share an id.
pub open spec fn distinct_ids(s: Seq<Object>) -> bool {
    forall|i: int, j: int| 0 <= i < j < s.len() ==> s[i].id != s[j].id
}

/// What one snapshot object does to the table: an existing entity has its
/// pose overwritten in place; an unseen id gets a fresh entity whose
/// renderable resource comes from the object's type tag.
pub open spec fn apply_object(m: Map<u32, Object>, o: NetworkObject) -> Map<u32, Object> {
    if m.contains_key(o.id) {
        m.insert(o.id, Object { position: o.position, rotation: o.rotation, ..m[o.id] })
    } else {
        m.insert(
            o.id,
            Object {
                model: model_slot(o.kind),
                id: o.id,
                kind: o.kind,
                position: o.position,
                rotation: o.rotation,
            },
        )
    }
}

/// The table after a whole snapshot's object list, applied in order.
pub open spec fn spec_reconcile(m: Map<u32, Object>, os: Seq<NetworkObject>) -> Map<u32, Object>
    decreases os.len(),
{
    if os.len() == 0 {
        m
    } else {
        spec_reconcile(apply_object(m, os[0]), os.drop_first())
    }
}

/// Whether the snapshot's object list names this id.
pub open spec fn snapshot_has_id(os: Seq<NetworkObject>, id: u32) -> bool
    decreases os.len(),
{
    if os.len() == 0 {
        false
    } else {
        os[0].id == id || snapshot_has_id(os.drop_first(), id)
    }
}

/// Every id the snapshot's object list names.
pub open spec fn snapshot_ids(os: Seq<NetworkObject>) -> Set<u32>
    decreases os.len(),
{
    if os.len() == 0 {
        Set::empty()
    } else {
        snapshot_ids(os.drop_first()).insert(os[0].id)
    }
}

/// The last object with this id: the occurrence whose pose wins.
/// Meaningful only when the snapshot names the id.
pub open spec fn last_obj(os: Seq<NetworkObject>, id: u32) -> NetworkObject
    decreases os.len(),
{
    if os.len() == 0 {
        os[0]
    } else if snapshot_has_id(os.drop_first(), id) {
        last_obj(os.drop_first(), id)
    } else {
        os[0]
    }
}

/// The first object with this id: the occurrence whose type tag names the
/// renderable resource. Meaningful only when the snapshot names the id.
pub open spec fn first_obj(os: Seq<NetworkObject>, id: u32) -> NetworkObject
    decreases os.len(),
{
    if os.len() == 0 {
        os[0]
    } else if os[0].id == id {
        os[0]
    } else {
        first_obj(os.drop_first(), id)
    }
}

/// Retention: reconciliation never removes an entity, and an entity whose
/// id is absent from the snapshot keeps its exact entry.
pub proof fn lemma_reconcile_retains(m: Map<u32, Object>, os: Seq<NetworkObject>, id: u32)
    ensures
        m.contains_key(id) ==> spec_reconcile(m, os).contains_key(id),
        !snapshot_has_id(os, id) && m.contains_key(id) ==> spec_reconcile(m, os)[id] == m[id],
        !snapshot_has_id(os, id) && !m.contains_key(id) ==> !spec_reconcile(m, os).contains_key(
            id,
        ),
    decreases os.len(),
{
    if os.len() > 0 {
        lemma_reconcile_retains(apply_object(m, os[0]), os.drop_first(), id);
    }
}

/// Updating an existing entity touches only its pose: its id, type, and
/// renderable resource are exactly what they were, and the pose comes from
/// the snapshot's last occurrence of the id.
pub proof fn lemma_reconcile_updates_existing(
    m: Map<u32, Object>,
    os: Seq<NetworkObject>,
    id: u32,
)
    requires
        m.contains_key(id),
    ensures
        spec_reconcile(m, os).contains_key(id),
        spec_reconcile(m, os)[id].id == m[id].id,
        spec_reconcile(m, os)[id].kind == m[id].kind,
        spec_reconcile(m, os)[id].model == m[id].model,
        snapshot_has_id(os, id) ==> spec_reconcile(m, os)[id].position == last_obj(os, id).position
            && spec_reconcile(m, os)[id].rotation == last_obj(os, id).rotation,
        !snapshot_has_id(os, id) ==> spec_reconcile(m, os)[id] == m[id],
    decreases os.len(),
{
    if os.len() > 0 {
        let m1 = apply_object(m, os[0]);
        lemma_reconcile_updates_existing(m1, os.drop_first(), id);
    }
}

/// A previously unseen id is inserted exactly once: keyed by the id, typed
/// and resourced from the snapshot's first occurrence, posed from its last.
pub proof fn lemma_reconcile_inserts_new(m: Map<u32, Object>, os: Seq<NetworkObject>, id: u32)
    requires
        !m.contains_key(id),
        snapshot_has_id(os, id),
    ensures
        spec_reconcile(m, os).contains_key(id),
        spec_reconcile(m, os)[id].id == id,
        spec_reconcile(m, os)[id].kind == first_obj(os, id).kind,
        spec_reconcile(m, os)[id].model == model_slot(first_obj(os, id).kind),
        spec_reconcile(m, os)[id].position == last_obj(os, id).position,
        spec_reconcile(m, os)[id].rotation == last_obj(os, id).rotation,
    decreases os.len(),
{
    let m1 = apply_object(m, os[0]);
    if os[0].id == id {
        if snapshot_has_id(os.drop_first(), id) {
            lemma_reconcile_updates_existing(m1, os.drop_first(), id);
        } else {
            lemma_reconcile_retains(m1, os.drop_first(), id);
        }
    } else {
        lemma_reconcile_inserts_new(m1, os.drop_first(), id);
    }
}

/// The reconciled table holds exactly the old ids and the snapshot's ids.
pub proof fn lemma_reconcile_dom(m: Map<u32, Object>, os: Seq<NetworkObject>)
    ensures
        spec_reconcile(m, os).dom() == m.dom() + snapshot_ids(os),
    decreases os.len(),
{
    if os.len() == 0 {
        assert(m.dom() + snapshot_ids(os) =~= m.dom());
    } else {
        let m1 = apply_object(m, os[0]);
        lemma_reconcile_dom(m1, os.drop_first());
        assert(m1.dom() =~= m.dom().insert(os[0].id));
        assert(m.dom().insert(os[0].id) + snapshot_ids(os.drop_first()) =~= m.dom()
            + snapshot_ids(os));
    }
}

/// Table membership matches the entries, duplicates or not.
proof fn lemma_table_map_contains(s: Seq<Object>, id: u32)
    ensures
        table_map(s).contains_key(id) <==> exists|i: int|
            0 <= i < s.len() && (#[trigger] s[i]).id == id,
    decreases s.len(),
{
    if s.len() > 0 {
        lemma_table_map_contains(s.drop_last(), id);
        if table_map(s).contains_key(id) {
            if id == s.last().id {
                assert(s[s.len() - 1].id == id);
            } else {
                let i = choose|i: int|
                    0 <= i < s.drop_last().len() && (#[trigger] s.drop_last()[i]).id == id;
                assert(s[i].id == id);
            }
        }
        if exists|i: int| 0 <= i < s.len() && (#[trigger] s[i]).id == id {
            let i = choose|i: int| 0 <= i < s.len() && (#[trigger] s[i]).id == id;
            if i < s.len() - 1 {
                assert(s.drop_last()[i].id == id);
            }
        }
    }
}

/// Each entry of a duplicate-free table is found under its id.
proof fn lemma_table_map_index(s: Seq<Object>, i: int)
    requires
        distinct_ids(s),
        0 <= i < s.len(),
    ensures
        table_map(s).contains_key(s[i].id),
        table_map(s)[s[i].id] == s[i],
    decreases s.len(),
{
    if i < s.len() - 1 {
        assert(s.drop_last()[i] == s[i]);
        lemma_table_map_index(s.drop_last(), i);
        assert(s.last().id != s[i].id);
    }
}

/// Overwriting an entry in place is one map update.
proof fn lemma_table_map_update(s: Seq<Object>, i: int, v: Object)
    requires
        distinct_ids(s),
        0 <= i < s.len(),
        v.id == s[i].id,
    ensures
        table_map(s.update(i, v)) == table_map(s).insert(v.id, v),
        distinct_ids(s.update(i, v)),
    decreases s.len(),
{
    let t = s.update(i, v);
    assert forall|p: int, q: int| 0 <= p < q < t.len() implies t[p].id != t[q].id by {
        assert(s[p].id != s[q].id);
    }
    if i == s.len() - 1 {
        assert(t.drop_last() =~= s.drop_last());
        assert(t.last() == v);
        assert(table_map(s.drop_last()).insert(v.id, v) =~= table_map(s.drop_last()).insert(
            s.last().id,
            s.last(),
        ).insert(v.id, v));
    } else {
        assert(s.drop_last()[i] == s[i]);
        lemma_table_map_update(s.drop_last(), i, v);
        assert(t.drop_last() =~= s.drop_last().update(i, v));
        assert(t.last() == s.last());
        assert(v.id != s.last().id);
        assert(table_map(s.drop_last()).insert(v.id, v).insert(s.last().id, s.last())
            =~= table_map(s.drop_last()).insert(s.last().id, s.last()).insert(v.id, v));
    }
}

/// Appending an entry with a fresh id is one map insertion.
proof fn lemma_table_map_push(s: Seq<Object>, v: Object)
    requires
        distinct_ids(s),
        forall|i: int| 0 <= i < s.len() ==> (#[trigger] s[i]).id != v.id,
    ensures
        table_map(s.push(v)) == table_map(s).insert(v.id, v),
        distinct_ids(s.push(v)),
{
    let t = s.push(v);
    assert(t.drop_last() =~= s);
    assert(t.last() == v);
    assert forall|p: int, q: int| 0 <= p < q < t.len() implies t[p].id != t[q].id by {
        if q < s.len() {
            assert(s[p].id != s[q].id);
        } else {
            assert(t[q] == v);
            assert(s[p].id != v.id);
        }
    }
}

/// A duplicate-free table has exactly one mapping per entry.
proof fn lemma_table_map_len(s: Seq<Object>)
    requires
        distinct_ids(s),
    ensures
        table_map(s).dom().finite(),
        table_map(s).dom().len() == s.len(),
    decreases s.len(),
{
    if s.len() == 0 {
        assert(table_map(s).dom() =~= Set::<u32>::empty());
    } else {
        lemma_table_map_len(s.drop_last());
        lemma_table_map_contains(s.drop_last(), s.last().id);
        assert(forall|i: int|
            0 <= i < s.drop_last().len() ==> (#[trigger] s.drop_last()[i]).id != s.last().id);
        assert(!table_map(s.drop_last()).contains_key(s.last().id));
        assert(table_map(s).dom() =~= table_map(s.drop_last()).dom().insert(s.last().id));
    }
}

/// The client's table of world entities, keyed by stable id, owned by the
/// client and mutated only by reconciliation.
pub struct EntityTable {
    entries: Vec<Object>,
}

impl View for EntityTable {
    type V = Map<u32, Object>;

    closed spec fn view(&self) -> Map<u32, Object> {
        table_map(self.entries@)
    }
}

impl EntityTable {
    /// No two entries share an id.
    pub closed spec fn wf(self) -> bool {
        distinct_ids(self.entries@)
    }

    /// An empty table.
    pub fn new() -> (r: Self)
        ensures
            r.wf(),
            r@ == Map::<u32, Object>::empty(),
    {
        EntityTable { entries: Vec::new() }
    }

    /// How many entities the table holds.
    pub fn len(&self) -> (n: usize)
        requires
            self.wf(),
        ensures
            n == self@.dom().len(),
            self@.dom().finite(),
    {
        proof {
            lemma_table_map_len(self.entries@);
        }
        self.entries.len()
    }

    /// The index of the entity with this id, if the table holds one.
    fn find_index(&self, id: u32) -> (r: Option<usize>)
        ensures
            match r {
                Some(i) => i < self.entries@.len() && self.entries@[i as int].id == id,
                None => forall|i: int|
                    0 <= i < self.entries@.len() ==> (#[trigger] self.entries@[i]).id != id,
            },
    {
        let mut k: usize = 0;
        while k < self.entries.len()
            invariant
                k <= self.entries@.len(),
                forall|i: int| 0 <= i < k ==> (#[trigger] self.entries@[i]).id != id,
            decreases self.entries@.len() - k,
        {
            if self.entries[k].id == id {
                return Some(k);
            }
            k = k + 1;
        }
        None
    }

    /// The entity with this id, if the table holds one.
    pub fn get(&self, id: u32) -> (r: Option<Object>)
        requires
            self.wf(),
        ensures
            match r {
                Some(o) => self@.contains_key(id) && o == self@[id],
                None => !self@.contains_key(id),
            },
    {
        proof {
            lemma_table_map_contains(self.entries@, id);
        }
        match self.find_index(id) {
            Some(i) => {
                proof {
                    lemma_table_map_index(self.entries@, i as int);
                }
                Some(self.entries[i])
            },
            None => None,
        }
    }

    /// Merges one snapshot's object list into the table, in order: entities
    /// the snapshot names are updated or created; all others are retained.
    pub fn reconcile(&mut self, objects: &Vec<NetworkObject>)
        requires
            old(self).wf(),
        ensures
            final(self).wf(),
            final(self)@ == spec_reconcile(old(self)@, objects@),
    {
        let ghost m0 = self@;
        let mut k: usize = 0;
        proof {
            assert(objects@.skip(0) =~= objects@);
        }
        while k < objects.len()
            invariant
                k <= objects@.len(),
                self.wf(),
                spec_reconcile(m0, objects@) == spec_reconcile(self@, objects@.skip(k as int)),
            decreases objects@.len() - k,
        {
            let ghost before = self@;
            let o = objects[k];
            proof {
                lemma_table_map_contains(self.entries@, o.id);
            }
            match self.find_index(o.id) {
                Some(i) => {
                    proof {
                        lemma_table_map_index(self.entries@, i as int);
                    }
                    let mut e = self.entries[i];
                    e.update(&o);
                    proof {
                        lemma_table_map_update(self.entries@, i as int, e);
                    }
                    self.entries.set(i, e);
                },
                None => {
                    let e = Object::new(o.id, o.kind, o.position, o.rotation);
                    proof {
                        lemma_table_map_push(self.entries@, e);
                    }
                    self.entries.push(e);
                },
            }
            k = k + 1;
            proof {
                assert(self@ == apply_object(before, o));
                assert(objects@.skip(k as int - 1)[0] == o);
                assert(objects@.skip(k as int - 1).drop_first() =~= objects@.skip(k as int));
            }
        }
        proof {
            assert(objects@.skip(objects@.len() as int) =~= Seq::<NetworkObject>::empty());
        }
    }
}

/// The client's screens: the menus, the running game, and the screen that
/// surfaces a server rejection.
#[derive(Clone, Copy, Debug, PartialEq, Eq, Structural)]
pub enum GameState {
    MainMenu,
    CreateMenu,
    JoinMenu,
    InGame,
    ErrorMessage,
}

/// What can move the client between screens: a menu choice, or the outcome
/// of a session request.
#[derive(Clone, Copy, Debug, PartialEq, Eq, Structural)]
pub enum GameEvent {
    CreateSelected,
    JoinSelected,
    BackSelected,
    SessionAccepted,
    SessionRejected,
}

/// The screen the client shows after an event: menus navigate among
/// themselves, an accepted session enters the game for good, and a
/// rejected one shows the server's explanation until dismissed.
pub open spec fn game_transition(state: GameState, event: GameEvent) -> GameState {
    match state {
        GameState::MainMenu => match event {
            GameEvent::CreateSelected => GameState::CreateMenu,
            GameEvent::JoinSelected => GameState::JoinMenu,
            _ => GameState::MainMenu,
        },
        GameState::CreateMenu => match event {
            GameEvent::BackSelected => GameState::MainMenu,
            GameEvent::SessionAccepted => GameState::InGame,
            GameEvent::SessionRejected => GameState::ErrorMessage,
            _ => GameState::CreateMenu,
        },
        GameState::JoinMenu => match event {
            GameEvent::BackSelected => GameState::MainMenu,
            GameEvent::SessionAccepted => GameState::InGame,
            GameEvent::SessionRejected => GameState::ErrorMessage,
            _ => GameState::JoinMenu,
        },
        GameState::InGame => GameState::InGame,
        GameState::ErrorMessage => match event {
            GameEvent::BackSelected => GameState::MainMenu,
            _ => GameState::ErrorMessage,
        },
    }
}

/// Executable form of [`game_transition`]; the rendering layer calls it
/// with the event it sampled and draws the screen it returns.
pub fn next_state(state: GameState, event: GameEvent) -> (r: GameState)
    ensures
        r == game_transition(state, event),
{
    match state {
        GameState::MainMenu => match event {
            GameEvent::CreateSelected => GameState::CreateMenu,
            GameEvent::JoinSelected => GameState::JoinMenu,
            _ => GameState::MainMenu,
        },
        GameState::CreateMenu => match event {
            GameEvent::BackSelected => GameState::MainMenu,
            GameEvent::SessionAccepted => GameState::InGame,
            GameEvent::SessionRejected => GameState::ErrorMessage,
            _ => GameState::CreateMenu,
        },
        GameState::JoinMenu => match event {
            GameEvent::BackSelected => GameState::MainMenu,
            GameEvent::SessionAccepted => GameState::InGame,
            GameEvent::SessionRejected => GameState::ErrorMessage,
            _ => GameState::JoinMenu,
        },
        GameState::InGame => GameState::InGame,
        GameState::ErrorMessage => match event {
            GameEvent::BackSelected => GameState::MainMenu,
            _ => GameState::ErrorMessage,
        },
    }
}

} // verus!
