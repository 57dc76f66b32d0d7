use vstd::prelude::*;

use crate::actions::action::{ActionData, ActionType};
use crate::actions::common::get_entity;
use crate::actions::error::ActionError;
use crate::actions::processor::actions_outcome;
use crate::actions::result::ActionResult;
use crate::models::coordinate::{cell_within, Coordinate};
use crate::models::direction;
use crate::models::direction::Direction;
use crate::models::entity::Entity;
use crate::models::first_match::{first_index, lemma_first_index};
use crate::models::world::{
    lemma_lookup_upserted,
    lookup,
    occupied,
    on_cell,
    upserted,
    with_id,
    World,
};

verus! {

/// The move of entity `entity_id` one step along `d`.
pub open spec fn move_action(entity_id: i32, d: Direction) -> ActionData {
    ActionData {
        entity_id,
        target_entity_id: None,
        action_type: ActionType::Move,
        direction: Some(d),
    }
}

/// What the move `action` does to the entities `s` of a map with inclusive
/// corners `left` and `right`: the entities afterwards, and the outcome.
///
/// The actor must exist. A move without a direction changes nothing. The
/// cell one step along the direction must lie on the map and be free; then
/// the actor stands there, with everything else about it kept. A move that
/// fails changes nothing.
pub open spec fn move_outcome(
    s: Seq<Entity>,
    left: Coordinate,
    right: Coordinate,
    action: ActionData,
) -> (Seq<Entity>, ActionResult<()>) {
    match lookup(s, action.entity_id) {
        None => (s, Err(ActionError::InvalidEntityId(action.entity_id))),
        Some(actor) => match action.direction {
            None => (s, Ok(())),
            Some(d) => {
                let x = actor.coord.x + d.dx;
                let y = actor.coord.y + d.dy;
                if !cell_within(x, y, left, right) {
                    (s, Err(ActionError::OutOfMapCoordinate(x as i64, y as i64)))
                } else if occupied(s, x, y) {
                    (s, Err(ActionError::PositionOccupied(x as i64, y as i64)))
                } else {
                    (upserted(s, actor.at(Coordinate { x: x as i32, y: y as i32 })), Ok(()))
                }
            },
        },
    }
}

/// A move of an existing entity `id` along `d` succeeds exactly when the
/// cell one step away lies on the map and is free. Then the entity stands on
/// that cell; otherwise nothing changes, and the error names the cell: out of
/// the map before occupied.
pub proof fn lemma_move_legality(
    s: Seq<Entity>,
    left: Coordinate,
    right: Coordinate,
    id: i32,
    d: Direction,
)
    requires
        lookup(s, id) is Some,
    ensures
        ({
            let actor = lookup(s, id)->0;
            let x = actor.coord.x + d.dx;
            let y = actor.coord.y + d.dy;
            let (after, r) = move_outcome(s, left, right, move_action(id, d));
            &&& r is Ok <==> cell_within(x, y, left, right) && !occupied(s, x, y)
            &&& r is Ok ==> lookup(after, id) == Some(
                actor.at(Coordinate { x: x as i32, y: y as i32 }),
            )
            &&& !cell_within(x, y, left, right) ==> after == s && r == ActionResult::<()>::Err(
                ActionError::OutOfMapCoordinate(x as i64, y as i64),
            )
            &&& cell_within(x, y, left, right) && occupied(s, x, y) ==> after == s && r
                == ActionResult::<()>::Err(ActionError::PositionOccupied(x as i64, y as i64))
        }),
{
    let actor = lookup(s, id)->0;
    lemma_first_index(s, with_id(id));
    assert(actor.id == id);
    lemma_lookup_upserted(
        s,
        actor.at(Coordinate { x: (actor.coord.x + d.dx) as i32, y: (actor.coord.y + d.dy) as i32 }),
    );
}

/// No two entities of `s` stand on the same cell: a query by cell can match
/// one entity at most.
pub open spec fn cells_distinct(s: Seq<Entity>) -> bool {
    forall|i: int, j: int|
        0 <= i < j < s.len() ==> (#[trigger] s[i]).coord != (#[trigger] s[j]).coord
}

/// A move keeps the entities on distinct cells.
pub proof fn lemma_move_keeps_cells_distinct(
    s: Seq<Entity>,
    left: Coordinate,
    right: Coordinate,
    action: ActionData,
)
    requires
        cells_distinct(s),
    ensures
        cells_distinct(move_outcome(s, left, right, action).0),
{
    let (after, r) = move_outcome(s, left, right, action);
    if after != s {
        let actor = lookup(s, action.entity_id)->0;
        let d = action.direction->0;
        let x = actor.coord.x + d.dx;
        let y = actor.coord.y + d.dy;
        let p = with_id(action.entity_id);
        lemma_first_index(s, p);
        let k = first_index(s, p);
        let moved = actor.at(Coordinate { x: x as i32, y: y as i32 });
        assert(after == s.update(k, moved));
        assert forall|i: int, j: int| 0 <= i < j < after.len() implies (#[trigger] after[i]).coord
            != (#[trigger] after[j]).coord by {
            if i == k {
                assert(!on_cell(x, y)(s[j]));
            } else if j == k {
                assert(!on_cell(x, y)(s[i]));
            } else {
                assert(s[i].coord != s[j].coord);
            }
        }
    }
}

/// After any sequence of moves, the entities still stand on distinct cells
/// if they did before: a query by cell never has two entities to choose
/// from.
pub proof fn lemma_moves_keep_cells_distinct(
    s: Seq<Entity>,
    left: Coordinate,
    right: Coordinate,
    moves: Seq<ActionData>,
)
    requires
        cells_distinct(s),
        forall|k: int| 0 <= k < moves.len() ==> (#[trigger] moves[k]).action_type == ActionType::Move,
    ensures
        cells_distinct(actions_outcome(s, left, right, moves).0),
    decreases moves.len(),
{
    if moves.len() > 0 {
        lemma_move_keeps_cells_distinct(s, left, right, moves[0]);
        let next = move_outcome(s, left, right, moves[0]).0;
        let rest = moves.drop_first();
        assert forall|k: int| 0 <= k < rest.len() implies (#[trigger] rest[k]).action_type
            == ActionType::Move by {
            assert(rest[k] == moves[k + 1]);
        }
        lemma_moves_keep_cells_distinct(next, left, right, rest);
    }
}

pub fn left(entity_id: i32) -> (r: ActionData)
    ensures
        r == move_action(entity_id, Direction { dx: -1i32, dy: 0 }),
{
    ActionData {
        entity_id,
        target_entity_id: None,
        action_type: ActionType::Move,
        direction: Some(direction::left()),
    }
}

pub fn right(entity_id: i32) -> (r: ActionData)
    ensures
        r == move_action(entity_id, Direction { dx: 1, dy: 0 }),
{
    ActionData {
        entity_id,
        target_entity_id: None,
        action_type: ActionType::Move,
        direction: Some(direction::right()),
    }
}

pub fn up(entity_id: i32) -> (r: ActionData)
    ensures
        r == move_action(entity_id, Direction { dx: 0, dy: -1i32 }),
{
    ActionData {
        entity_id,
        target_entity_id: None,
        action_type: ActionType::Move,
        direction: Some(direction::up()),
    }
}

pub fn down(entity_id: i32) -> (r: ActionData)
    ensures
        r == move_action(entity_id, Direction { dx: 0, dy: 1 }),
{
    ActionData {
        entity_id,
        target_entity_id: None,
        action_type: ActionType::Move,
        direction: Some(direction::down()),
    }
}

/// Applies the move `action` to `world`.
pub fn process(world: &mut World, action: ActionData) -> (r: ActionResult<()>)
    ensures
        old(world).wf() ==> final(world).wf(),
        final(world).same_but_entities(old(world)),
        (final(world).entity_list(), r) == move_outcome(
            old(world).entity_list(),
            old(world).left(),
            old(world).right(),
            action,
        ),
{
    let entity = match get_entity(world, action.entity_id) {
        Ok(entity) => entity,
        Err(e) => return Err(e),
    };
    if let Some(dir) = action.direction {
        let x: i64 = entity.coord.x as i64 + dir.dx as i64;
        let y: i64 = entity.coord.y as i64 + dir.dy as i64;
        if let Err(e) = is_inside_world(world, x, y) {
            return Err(e);
        }
        let new_coord = Coordinate::new(x as i32, y as i32);
        if let Err(e) = is_position_available(world, new_coord) {
            return Err(e);
        }
        world.update_entity(entity.with_coordinate(new_coord));
    }
    Ok(())
}

/// `Ok` when the cell `(x, y)` lies on the map.
fn is_inside_world(world: &World, x: i64, y: i64) -> (r: ActionResult<()>)
    ensures
        r == if cell_within(x as int, y as int, world.left(), world.right()) {
            Ok(())
        } else {
            ActionResult::<()>::Err(ActionError::OutOfMapCoordinate(x, y))
        },
{
    let (left_edge, right_edge) = world.bounds();
    if x < left_edge.x as i64 || y < left_edge.y as i64 || x > right_edge.x as i64 || y
        > right_edge.y as i64 {
        Err(ActionError::OutOfMapCoordinate(x, y))
    } else {
        Ok(())
    }
}

/// `Ok` when no entity stands on `coord`.
fn is_position_available(world: &World, coord: Coordinate) -> (r: ActionResult<()>)
    ensures
        r == if occupied(world.entity_list(), coord.x as int, coord.y as int) {
            ActionResult::<()>::Err(
                ActionError::PositionOccupied(coord.x as i64, coord.y as i64),
            )
        } else {
            Ok(())
        },
{
    match world.on_coord(coord) {
        Some(_) => Err(ActionError::PositionOccupied(coord.x as i64, coord.y as i64)),
        None => Ok(()),
    }
}

/// `coord` moved one step along `direction`; the result must be
/// representable.
pub fn operate(coord: Coordinate, direction: Direction) -> (r: Coordinate)
    requires
        i32::MIN <= coord.x + direction.dx <= i32::MAX,
        i32::MIN <= coord.y + direction.dy <= i32::MAX,
    ensures
        r.x == coord.x + direction.dx,
        r.y == coord.y + direction.dy,
{
    Coordinate { x: coord.x + direction.dx, y: coord.y + direction.dy }
}

} // verus!
