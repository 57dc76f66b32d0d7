use vstd::prelude::*;

use crate::actions::action::ActionData;
use crate::controllers::player::{PlayerController, PlayerInput};
use crate::models::coordinate::Coordinate;
use crate::models::entity::{Entity, EntityType};
use crate::models::first_match::{
    any_of,
    first_index,
    first_of,
    is_first,
    lemma_first_at,
    lemma_first_index,
    lemma_none_of,
};

verus! {

/// Matches the entity with identity `id`.
pub open spec fn with_id(id: i32) -> spec_fn(Entity) -> bool {
    |e: Entity| e.id == id
}

/// Matches every entity but the one with identity `id`.
pub open spec fn other_than(id: i32) -> spec_fn(Entity) -> bool {
    |e: Entity| e.id != id
}

/// Matches the entities standing on the cell `(x, y)`.
pub open spec fn on_cell(x: int, y: int) -> spec_fn(Entity) -> bool {
    |e: Entity| e.coord.x == x && e.coord.y == y
}

/// Matches the entities of player number `n`.
pub open spec fn of_player(n: i8) -> spec_fn(Entity) -> bool {
    |e: Entity| e.entity_type == EntityType::Player(n)
}

/// The entity with identity `id`.
pub open spec fn lookup(s: Seq<Entity>, id: i32) -> Option<Entity> {
    first_of(s, with_id(id))
}

/// The entity on the cell `(x, y)`; where several share the cell, the one
/// stored first.
pub open spec fn entity_at(s: Seq<Entity>, x: int, y: int) -> Option<Entity> {
    first_of(s, on_cell(x, y))
}

/// Some entity stands on the cell `(x, y)`.
pub open spec fn occupied(s: Seq<Entity>, x: int, y: int) -> bool {
    any_of(s, on_cell(x, y))
}

/// `s` with `e` stored under its id: it replaces the entity that had that id,
/// or is appended when none had.
pub open spec fn upserted(s: Seq<Entity>, e: Entity) -> Seq<Entity> {
    if any_of(s, with_id(e.id)) {
        s.update(first_index(s, with_id(e.id)), e)
    } else {
        s.push(e)
    }
}

/// `s` without the entity with identity `id`.
pub open spec fn without_id(s: Seq<Entity>, id: i32) -> Seq<Entity> {
    s.filter(other_than(id))
}

/// Matches the input entry of entity `id`.
pub open spec fn input_of(id: i32) -> spec_fn((i32, PlayerInput)) -> bool {
    |entry: (i32, PlayerInput)| entry.0 == id
}

/// `s` with `input` recorded for entity `id`, replacing an earlier input of
/// that entity.
pub open spec fn input_upserted(s: Seq<(i32, PlayerInput)>, id: i32, input: PlayerInput) -> Seq<
    (i32, PlayerInput),
> {
    if any_of(s, input_of(id)) {
        s.update(first_index(s, input_of(id)), (id, input))
    } else {
        s.push((id, input))
    }
}

/// The authoritative state of a game session.
///
/// Entities are kept in the order in which they were first stored; storing
/// an entity whose id is present replaces the entity with that id, so ids stay
/// unique: that is the invariant `wf`, which every method that changes a world
/// keeps. Every
/// lookup that could match several entities answers with the one stored
/// first. Player inputs map entity ids to inputs in the same way, and are
/// kept in the order of first entry.
#[derive(Clone)]
pub struct World {
    current_id: i32,
    pub left_edge: Coordinate,
    pub right_edge: Coordinate,
    pub entities: Vec<Entity>,
    pub player_controllers: Vec<PlayerController>,
    pub player_inputs: Vec<(i32, PlayerInput)>,
    actions: Vec<ActionData>,
}

/// Position of the first entity of `v` with identity `id`.
fn index_of_id(v: &Vec<Entity>, id: i32) -> (r: Option<usize>)
    ensures
        match r {
            Some(i) => is_first(v@, with_id(id), i as int),
            None => !any_of(v@, with_id(id)),
        },
{
    let mut i: usize = 0;
    while i < v.len()
        invariant
            0 <= i <= v@.len(),
            forall|j: int| 0 <= j < i ==> !(#[trigger] with_id(id)(v@[j])),
        decreases v@.len() - i,
    {
        if v[i].id == id {
            return Some(i);
        }
        i += 1;
    }
    None
}

/// Position of the input entry of entity `id` in `v`.
fn index_of_input(v: &Vec<(i32, PlayerInput)>, id: i32) -> (r: Option<usize>)
    ensures
        match r {
            Some(i) => is_first(v@, input_of(id), i as int),
            None => !any_of(v@, input_of(id)),
        },
{
    let mut i: usize = 0;
    while i < v.len()
        invariant
            0 <= i <= v@.len(),
            forall|j: int| 0 <= j < i ==> !(#[trigger] input_of(id)(v@[j])),
        decreases v@.len() - i,
    {
        if v[i].0 == id {
            return Some(i);
        }
        i += 1;
    }
    None
}

/// No two entities of `s` share an id.
pub open spec fn ids_unique(s: Seq<Entity>) -> bool {
    forall|i: int, j: int| 0 <= i < j < s.len() ==> (#[trigger] s[i]).id != (#[trigger] s[j]).id
}

/// Storing an entity keeps the ids unique.
pub proof fn lemma_upserted_ids_unique(s: Seq<Entity>, e: Entity)
    requires
        ids_unique(s),
    ensures
        ids_unique(upserted(s, e)),
{
    let p = with_id(e.id);
    let t = upserted(s, e);
    if any_of(s, p) {
        lemma_first_index(s, p);
        let k = first_index(s, p);
        assert forall|i: int, j: int| 0 <= i < j < t.len() implies (#[trigger] t[i]).id != (
        #[trigger] t[j]).id by {
            if i != k && j != k {
                assert(s[i].id != s[j].id);
            } else if i == k {
                assert(s[k].id != s[j].id);
            } else {
                assert(s[i].id != s[k].id);
            }
        }
    } else {
        assert forall|i: int, j: int| 0 <= i < j < t.len() implies (#[trigger] t[i]).id != (
        #[trigger] t[j]).id by {
            if j == s.len() {
                assert(!p(s[i]));
            } else {
                assert(s[i].id != s[j].id);
            }
        }
    }
}

/// Removing an entity keeps the ids unique, and keeps only entities that
/// were there.
pub proof fn lemma_without_id_ids_unique(s: Seq<Entity>, id: i32)
    requires
        ids_unique(s),
    ensures
        ids_unique(without_id(s, id)),
        forall|i: int|
            0 <= i < without_id(s, id).len() ==> s.contains(#[trigger] without_id(s, id)[i]),
    decreases s.len(),
{
    reveal(Seq::filter);
    if s.len() > 0 {
        let rest = s.drop_last();
        assert forall|i: int, j: int| 0 <= i < j < rest.len() implies (#[trigger] rest[i]).id != (
        #[trigger] rest[j]).id by {
            assert(s[i].id != s[j].id);
        }
        lemma_without_id_ids_unique(rest, id);
        let kept = without_id(rest, id);
        let t = without_id(s, id);
        assert forall|i: int| 0 <= i < kept.len() implies s.contains(#[trigger] kept[i]) by {
            assert(rest.contains(kept[i]));
            let k = choose|k: int| 0 <= k < rest.len() && rest[k] == kept[i];
            assert(s[k] == kept[i]);
        }
        if other_than(id)(s.last()) {
            assert(t == kept.push(s.last()));
            assert forall|i: int, j: int| 0 <= i < j < t.len() implies (#[trigger] t[i]).id != (
            #[trigger] t[j]).id by {
                if j == kept.len() {
                    assert(rest.contains(kept[i]));
                    let k = choose|k: int| 0 <= k < rest.len() && rest[k] == kept[i];
                    assert(s[k].id != s[s.len() - 1].id);
                } else {
                    assert(kept[i].id != kept[j].id);
                }
            }
            assert(s.contains(s.last()));
        } else {
            assert(t == kept);
        }
    }
}

/// `after` and `r` are what registering `entity` in `before` gives: the copy
/// of `entity` with the id after the last one handed out, stored in the
/// world, which is otherwise unchanged.
pub open spec fn register_step(before: World, entity: Entity, after: World, r: Entity) -> bool {
    &&& r == (Entity { id: (before.last_id() + 1) as i32, ..entity })
    &&& after.last_id() == before.last_id() + 1
    &&& after.same_but_entities_and_ids(&before)
    &&& after.entity_list() == upserted(before.entity_list(), r)
}

/// How many of the first `k` calls in `calls` are registrations (`Some`).
pub open spec fn registrations(calls: Seq<Option<Entity>>, k: int) -> int
    decreases k,
{
    if k <= 0 {
        0
    } else {
        registrations(calls, k - 1) + if calls[k - 1] is Some {
            1int
        } else {
            0int
        }
    }
}

/// A call `k` of a run on a world: `worlds[k + 1]` is what it leaves of
/// `worlds[k]`. Where `calls[k]` is `Some(e)` the call registers `e` and
/// returns `result`; any other call keeps the id counter, as every other
/// method of `World` does.
pub open spec fn call_step(before: World, call: Option<Entity>, after: World, result: Entity) -> bool {
    match call {
        Some(e) => register_step(before, e, after, result),
        None => after.last_id() == before.last_id(),
    }
}

/// On a world made by `new` or `create`, whatever other calls come between
/// them, registrations hand out the ids 1, 2, 3, ... in order, whatever ids
/// the entities carried: each id is larger than every id handed out before
/// it.
pub proof fn lemma_register_ids(worlds: Seq<World>, calls: Seq<Option<Entity>>, results: Seq<Entity>)
    requires
        worlds.len() == calls.len() + 1,
        results.len() == calls.len(),
        worlds[0].is_fresh(worlds[0].right()),
        calls.len() < i32::MAX,
        forall|k: int|
            0 <= k < calls.len() ==> call_step(
                worlds[k],
                #[trigger] calls[k],
                worlds[k + 1],
                results[k],
            ),
    ensures
        forall|k: int|
            0 <= k < calls.len() && calls[k] is Some ==> (#[trigger] results[k]).id
                == registrations(calls, k) + 1,
        forall|j: int, k: int|
            0 <= j < k < calls.len() && calls[j] is Some && calls[k] is Some ==> (
            #[trigger] results[j]).id < (#[trigger] results[k]).id,
{
    assert forall|k: int| 0 <= k <= calls.len() implies (#[trigger] worlds[k]).last_id()
        == registrations(calls, k) && 0 <= registrations(calls, k) <= k by {
        lemma_register_count(worlds, calls, results, k);
    }
    assert forall|k: int| 0 <= k < calls.len() && calls[k] is Some implies (
    #[trigger] results[k]).id == registrations(calls, k) + 1 by {
        assert(worlds[k].last_id() == registrations(calls, k));
        assert(call_step(worlds[k], calls[k], worlds[k + 1], results[k]));
    }
    assert forall|j: int, k: int|
        0 <= j < k < calls.len() && calls[j] is Some && calls[k] is Some implies (
        #[trigger] results[j]).id < (#[trigger] results[k]).id by {
        lemma_registrations_grow(calls, j + 1, k);
        assert(registrations(calls, j + 1) == registrations(calls, j) + 1);
    }
}

/// Registrations only accumulate.
proof fn lemma_registrations_grow(calls: Seq<Option<Entity>>, j: int, k: int)
    requires
        0 <= j <= k <= calls.len(),
    ensures
        registrations(calls, j) <= registrations(calls, k),
    decreases k - j,
{
    if j < k {
        lemma_registrations_grow(calls, j, k - 1);
    }
}

/// After the first `k` calls on a fresh world, the counter holds the number
/// of registrations among them.
proof fn lemma_register_count(
    worlds: Seq<World>,
    calls: Seq<Option<Entity>>,
    results: Seq<Entity>,
    k: int,
)
    requires
        worlds.len() == calls.len() + 1,
        results.len() == calls.len(),
        worlds[0].last_id() == 0,
        calls.len() < i32::MAX,
        forall|k: int|
            0 <= k < calls.len() ==> call_step(
                worlds[k],
                #[trigger] calls[k],
                worlds[k + 1],
                results[k],
            ),
        0 <= k <= calls.len(),
    ensures
        worlds[k].last_id() == registrations(calls, k),
        0 <= registrations(calls, k) <= k,
    decreases k,
{
    if k > 0 {
        lemma_register_count(worlds, calls, results, k - 1);
        assert(call_step(worlds[k - 1], calls[k - 1], worlds[k], results[k - 1]));
    }
}

/// After `e` is stored, looking up its id finds `e`.
pub proof fn lemma_lookup_upserted(s: Seq<Entity>, e: Entity)
    ensures
        lookup(upserted(s, e), e.id) == Some(e),
{
    let p = with_id(e.id);
    let t = upserted(s, e);
    if any_of(s, p) {
        lemma_first_index(s, p);
        let i = first_index(s, p);
        assert(is_first(t, p, i));
        lemma_first_at(t, p, i);
    } else {
        assert(is_first(t, p, s.len() as int));
        lemma_first_at(t, p, s.len() as int);
    }
}

/// After the entity with id `id` is removed, that id finds nothing, and every
/// other id finds what it found before.
pub proof fn lemma_lookup_without(s: Seq<Entity>, id: i32, other: i32)
    ensures
        lookup(without_id(s, id), id) is None,
        other != id && lookup(s, other) is Some ==> lookup(without_id(s, id), other) is Some,
{
    broadcast use vstd::seq_lib::group_filter_ensures;

    let t = without_id(s, id);
    assert forall|j: int| 0 <= j < t.len() implies !(#[trigger] with_id(id)(t[j])) by {
        assert(other_than(id)(t[j]));
    }
    lemma_none_of(t, with_id(id));
    if other != id && lookup(s, other) is Some {
        lemma_first_index(s, with_id(other));
        let i = first_index(s, with_id(other));
        assert(other_than(id)(s[i]));
        assert(t.contains(s[i]));
        let k = choose|k: int| 0 <= k < t.len() && t[k] == s[i];
        assert(with_id(other)(t[k]));
    }
}

impl World {
    /// The entities in storage order.
    pub closed spec fn entity_list(&self) -> Seq<Entity> {
        self.entities@
    }

    /// The inclusive lower corner of the map.
    pub closed spec fn left(&self) -> Coordinate {
        self.left_edge
    }

    /// The inclusive upper corner of the map.
    pub closed spec fn right(&self) -> Coordinate {
        self.right_edge
    }

    /// The registered player controllers, in registration order.
    pub closed spec fn controllers(&self) -> Seq<PlayerController> {
        self.player_controllers@
    }

    /// The player inputs gathered since the last turn.
    pub closed spec fn inputs(&self) -> Seq<(i32, PlayerInput)> {
        self.player_inputs@
    }

    /// The last id handed out by `register`.
    pub closed spec fn last_id(&self) -> int {
        self.current_id as int
    }

    /// The id counter is an `i32`.
    pub proof fn lemma_last_id_bounds(&self)
        ensures
            i32::MIN <= self.last_id() <= i32::MAX,
    {
    }

    /// The actions queued for the next turn, in submission order.
    pub closed spec fn queued(&self) -> Seq<ActionData> {
        self.actions@
    }

    /// The id counter, the bounds and the controllers agree in both worlds.
    pub open spec fn same_setup(&self, other: &World) -> bool {
        &&& self.last_id() == other.last_id()
        &&& self.left() == other.left()
        &&& self.right() == other.right()
        &&& self.controllers() == other.controllers()
    }

    /// Only the entities may differ between the two worlds.
    pub open spec fn same_but_entities(&self, other: &World) -> bool {
        &&& self.same_setup(other)
        &&& self.queued() == other.queued()
        &&& self.inputs() == other.inputs()
    }

    /// Only the entities and the id counter may differ between the two
    /// worlds.
    pub open spec fn same_but_entities_and_ids(&self, other: &World) -> bool {
        &&& self.left() == other.left()
        &&& self.right() == other.right()
        &&& self.controllers() == other.controllers()
        &&& self.queued() == other.queued()
        &&& self.inputs() == other.inputs()
    }

    /// The invariant of a world: no two entities share an id, so the
    /// entities form a map from id to entity. `new` and `create` establish it
    /// and every method that changes the world keeps it.
    pub open spec fn wf(&self) -> bool {
        ids_unique(self.entity_list())
    }

    /// A fresh world: no entities, nothing queued, bounds (0,0) to `edge`.
    pub open spec fn is_fresh(&self, edge: Coordinate) -> bool {
        &&& self.last_id() == 0
        &&& self.left() == Coordinate { x: 0, y: 0 }
        &&& self.right() == edge
        &&& self.entity_list() == Seq::<Entity>::empty()
        &&& self.controllers() == Seq::<PlayerController>::empty()
        &&& self.inputs() == Seq::<(i32, PlayerInput)>::empty()
        &&& self.queued() == Seq::<ActionData>::empty()
    }

    /// A world with the default bounds (0,0) to (8,4).
    pub fn new() -> (r: World)
        ensures
            r.is_fresh(Coordinate { x: 8, y: 4 }),
            r.wf(),
    {
        World::create(Coordinate::new(8, 4))
    }

    /// A world with bounds (0,0) to `edge`.
    pub fn create(edge: Coordinate) -> (r: World)
        ensures
            r.is_fresh(edge),
            r.wf(),
    {
        World {
            current_id: 0,
            left_edge: Coordinate::new(0, 0),
            right_edge: edge,
            entities: Vec::new(),
            player_controllers: Vec::new(),
            player_inputs: Vec::new(),
            actions: Vec::new(),
        }
    }

    /// Records `input` for entity `entity_id`, replacing an earlier one.
    pub fn register_player_input(&mut self, entity_id: i32, input: PlayerInput)
        ensures
            old(self).wf() ==> final(self).wf(),
            final(self).same_setup(old(self)),
            final(self).entity_list() == old(self).entity_list(),
            final(self).queued() == old(self).queued(),
            final(self).inputs() == input_upserted(
                old(self).inputs(),
                entity_id,
                input,
            ),
    {
        match index_of_input(&self.player_inputs, entity_id) {
            Some(i) => {
                proof {
                    lemma_first_at(self.player_inputs@, input_of(entity_id), i as int);
                }
                self.player_inputs[i] = (entity_id, input);
            },
            None => {
                self.player_inputs.push((entity_id, input));
            },
        }
    }

    pub fn clear_player_inputs(&mut self)
        ensures
            old(self).wf() ==> final(self).wf(),
            final(self).same_setup(old(self)),
            final(self).entity_list() == old(self).entity_list(),
            final(self).queued() == old(self).queued(),
            final(self).inputs() == Seq::<(i32, PlayerInput)>::empty(),
    {
        self.player_inputs.clear();
    }

    /// A copy of the entity with identity `entity_id`.
    pub fn get_entity(&self, entity_id: i32) -> (r: Option<Entity>)
        ensures
            r == lookup(self.entity_list(), entity_id),
    {
        match index_of_id(&self.entities, entity_id) {
            Some(i) => {
                proof {
                    lemma_first_at(self.entities@, with_id(entity_id), i as int);
                }
                Some(self.entities[i])
            },
            None => None,
        }
    }

    /// The entity standing on `coord`; where several do, the one stored
    /// first.
    pub fn on_coord(&self, coord: Coordinate) -> (r: Option<&Entity>)
        ensures
            match r {
                Some(e) => {
                    &&& entity_at(self.entity_list(), coord.x as int, coord.y as int) == Some(*e)
                    &&& self.wf() ==> lookup(self.entity_list(), e.id) == Some(*e)
                },
                None => entity_at(self.entity_list(), coord.x as int, coord.y as int) is None,
            },
    {
        let mut i: usize = 0;
        while i < self.entities.len()
            invariant
                0 <= i <= self.entities@.len(),
                forall|j: int|
                    0 <= j < i ==> !(#[trigger] on_cell(coord.x as int, coord.y as int)(
                        self.entities@[j],
                    )),
            decreases self.entities@.len() - i,
        {
            if self.entities[i].coord == coord {
                proof {
                    lemma_first_at(
                        self.entities@,
                        on_cell(coord.x as int, coord.y as int),
                        i as int,
                    );
                    if self.wf() {
                        let id = self.entities@[i as int].id;
                        assert forall|j: int| 0 <= j < i implies !(#[trigger] with_id(id)(
                            self.entities@[j],
                        )) by {
                            assert(self.entities@[j].id != self.entities@[i as int].id);
                        }
                        lemma_first_at(self.entities@, with_id(id), i as int);
                    }
                }
                return Some(&self.entities[i]);
            }
            i += 1;
        }
        proof {
            lemma_none_of(self.entities@, on_cell(coord.x as int, coord.y as int));
        }
        None
    }

    /// Stores `entity` under its id, replacing the entity that had that id.
    pub fn update_entity(&mut self, entity: Entity)
        ensures
            old(self).wf() ==> final(self).wf(),
            final(self).same_setup(old(self)),
            final(self).queued() == old(self).queued(),
            final(self).inputs() == old(self).inputs(),
            final(self).entity_list() == upserted(old(self).entity_list(), entity),
    {
        proof {
            if old(self).wf() {
                lemma_upserted_ids_unique(old(self).entity_list(), entity);
            }
        }
        match index_of_id(&self.entities, entity.id) {
            Some(i) => {
                proof {
                    lemma_first_at(self.entities@, with_id(entity.id), i as int);
                }
                self.entities[i] = entity;
            },
            None => {
                self.entities.push(entity);
            },
        }
    }

    /// Deletes the entity with the id of `entity`; nothing happens when there
    /// is none.
    pub fn remove_entity(&mut self, entity: Entity)
        ensures
            old(self).wf() ==> final(self).wf(),
            final(self).same_setup(old(self)),
            final(self).queued() == old(self).queued(),
            final(self).inputs() == old(self).inputs(),
            final(self).entity_list() == without_id(old(self).entity_list(), entity.id),
    {
        proof {
            if old(self).wf() {
                lemma_without_id_ids_unique(old(self).entity_list(), entity.id);
            }
        }
        let mut kept: Vec<Entity> = Vec::new();
        let mut i: usize = 0;
        while i < self.entities.len()
            invariant
                0 <= i <= self.entities@.len(),
                kept@ == self.entities@.subrange(0, i as int).filter(other_than(entity.id)),
            decreases self.entities@.len() - i,
        {
            proof {
                reveal(Seq::filter);
                assert(self.entities@.subrange(0, i + 1).drop_last() == self.entities@.subrange(
                    0,
                    i as int,
                ));
            }
            if self.entities[i].id != entity.id {
                kept.push(self.entities[i]);
            }
            i += 1;
        }
        proof {
            assert(self.entities@.subrange(0, self.entities@.len() as int) == self.entities@);
        }
        self.entities = kept;
    }

    /// Stores a copy of `entity` under a fresh id, the one after the last
    /// handed out, and returns that copy. The id that `entity` carried is
    /// ignored.
    pub fn register(&mut self, entity: Entity) -> (r: Entity)
        requires
            old(self).last_id() < i32::MAX,
        ensures
            old(self).wf() ==> final(self).wf(),
            register_step(*old(self), entity, *final(self), r),
    {
        self.current_id = self.current_id + 1;
        let new_entity = entity.with_id(self.current_id);
        self.update_entity(new_entity);
        new_entity
    }

    /// The entity of player number `player_number`; where several match, the
    /// one stored first.
    pub fn get_player(&self, player_number: i8) -> (r: Option<Entity>)
        ensures
            r == first_of(self.entity_list(), of_player(player_number)),
    {
        let mut i: usize = 0;
        while i < self.entities.len()
            invariant
                0 <= i <= self.entities@.len(),
                forall|j: int| 0 <= j < i ==> !(#[trigger] of_player(player_number)(self.entities@[j])),
            decreases self.entities@.len() - i,
        {
            let found = match self.entities[i].entity_type {
                EntityType::Player(number) => number == player_number,
                _ => false,
            };
            if found {
                proof {
                    lemma_first_at(self.entities@, of_player(player_number), i as int);
                }
                return Some(self.entities[i]);
            }
            i += 1;
        }
        proof {
            lemma_none_of(self.entities@, of_player(player_number));
        }
        None
    }

    pub fn register_player(&mut self, controller: PlayerController)
        ensures
            old(self).wf() ==> final(self).wf(),
            final(self).last_id() == old(self).last_id(),
            final(self).left() == old(self).left(),
            final(self).right() == old(self).right(),
            final(self).entity_list() == old(self).entity_list(),
            final(self).queued() == old(self).queued(),
            final(self).inputs() == old(self).inputs(),
            final(self).controllers() == old(self).controllers().push(controller),
    {
        self.player_controllers.push(controller);
    }

    /// Queues `action` for the next turn; it is checked only when applied.
    pub fn register_action(&mut self, action: ActionData)
        ensures
            old(self).wf() ==> final(self).wf(),
            final(self).same_setup(old(self)),
            final(self).entity_list() == old(self).entity_list(),
            final(self).inputs() == old(self).inputs(),
            final(self).queued() == old(self).queued().push(action),
    {
        self.actions.push(action);
    }

    pub fn has_actions(&self) -> (r: bool)
        ensures
            r == (self.queued().len() > 0),
    {
        self.actions.len() > 0
    }

    pub fn clear_actions(&mut self)
        ensures
            old(self).wf() ==> final(self).wf(),
            final(self).same_setup(old(self)),
            final(self).entity_list() == old(self).entity_list(),
            final(self).inputs() == old(self).inputs(),
            final(self).queued() == Seq::<ActionData>::empty(),
    {
        self.actions.clear();
    }

    pub fn get_actions(&self) -> (r: &Vec<ActionData>)
        ensures
            r@ == self.queued(),
    {
        &self.actions
    }
    /// The last id handed out by `register`; 0 before the first.
    pub fn current_id(&self) -> (r: i32)
        ensures
            r == self.last_id(),
    {
        self.current_id
    }

    /// The inclusive corners of the map, lower then upper.
    pub fn bounds(&self) -> (r: (Coordinate, Coordinate))
        ensures
            r == (self.left(), self.right()),
    {
        (self.left_edge, self.right_edge)
    }

    pub fn get_player_inputs(&self) -> (r: &Vec<(i32, PlayerInput)>)
        ensures
            r@ == self.inputs(),
    {
        &self.player_inputs
    }

    pub fn get_player_controllers(&self) -> (r: &Vec<PlayerController>)
        ensures
            r@ == self.controllers(),
    {
        &self.player_controllers
    }
}

impl Default for World {
    /// A world with the default bounds (0,0) to (8,4).
    fn default() -> (r: World)
        ensures
            r.is_fresh(Coordinate { x: 8, y: 4 }),
            r.wf(),
    {
        World::new()
    }
}

} // verus!
