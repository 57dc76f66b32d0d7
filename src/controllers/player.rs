use vstd::prelude::*;

use crate::actions;
use crate::actions::action::ActionData;
use crate::actions::attack::attack_action;
use crate::actions::movement::move_action;
use crate::controllers::controller::{Controller, ControllerType};
use crate::models::coordinate::Coordinate;
use crate::models::direction::{self, Direction};
use crate::models::entity::{Entity, EntityType};
use crate::models::first_match::lemma_none_of;
use crate::models::world::{entity_at, lookup, on_cell, World};

verus! {

/// How many cells a player's input looks ahead for a target.
pub const RANGE: i32 = 9;

/// Resolves the directional input of a human player for one entity.
#[derive(Clone, Copy, Debug, PartialEq, Eq, Structural)]
pub struct PlayerController {
    pub entity_id: i32,
}

/// One directional input of a player.
#[derive(Clone, Copy, Debug, PartialEq, Eq, Structural)]
pub struct PlayerInput {
    pub direction: Direction,
}

/// The first entity worth attacking that a ray from `origin` along `d` meets
/// among `s`, looking at the cells `n` to `RANGE` steps away in turn.
///
/// An obstacle ends the search with no target; an enemy or a player is the
/// target; a hole or an empty cell lets the ray go on.
pub open spec fn ray_target(s: Seq<Entity>, origin: Coordinate, d: Direction, n: int) -> Option<
    Entity,
>
    decreases RANGE + 1 - n,
{
    if n > RANGE {
        None
    } else {
        match entity_at(s, origin.x + d.dx * n, origin.y + d.dy * n) {
            Some(e) => match e.entity_type {
                EntityType::Obstacle(_) => None,
                EntityType::Enemy(_) => Some(e),
                EntityType::Player(_) => Some(e),
                EntityType::Hole(_) => ray_target(s, origin, d, n + 1),
            },
            None => ray_target(s, origin, d, n + 1),
        }
    }
}

/// The plain move for input direction `d`: one of the four unit steps, with
/// any other direction taken as a step down.
pub open spec fn movement_for(entity_id: i32, d: Direction) -> ActionData {
    if d == (Direction { dx: -1i32, dy: 0 }) || d == (Direction { dx: 1, dy: 0 }) || d == (
    Direction { dx: 0, dy: -1i32 }) {
        move_action(entity_id, d)
    } else {
        move_action(entity_id, Direction { dx: 0, dy: 1 })
    }
}

/// The target that the input of `controller` aims at among `s`: the ray starts
/// at the controlled entity, if it exists.
pub open spec fn target_of(controller: PlayerController, s: Seq<Entity>, input: PlayerInput) -> Option<
    Entity,
> {
    match lookup(s, controller.entity_id) {
        Some(player) => ray_target(s, player.coord, input.direction, 1),
        None => None,
    }
}

/// The action that `input` resolves to: an attack on the target it aims at,
/// or else a move in its direction.
pub open spec fn resolved_action(
    controller: PlayerController,
    s: Seq<Entity>,
    input: PlayerInput,
) -> ActionData {
    match target_of(controller, s, input) {
        Some(target) => attack_action(controller.entity_id, target.id),
        None => movement_for(controller.entity_id, input.direction),
    }
}

impl PlayerInput {
    pub fn new(direction: Direction) -> (r: PlayerInput)
        ensures
            r.direction == direction,
    {
        PlayerInput { direction }
    }
}

impl PlayerController {
    pub fn new(entity_id: i32) -> (r: PlayerController)
        ensures
            r.entity_id == entity_id,
    {
        PlayerController { entity_id }
    }

    /// Resolves `input` against the current world and queues the action.
    pub fn run(self, world: &mut World, input: PlayerInput)
        ensures
            final(world).same_setup(old(world)),
            final(world).entity_list() == old(world).entity_list(),
            final(world).inputs() == old(world).inputs(),
            final(world).queued() == old(world).queued().push(
                resolved_action(self, old(world).entity_list(), input),
            ),
    {
        let action = self.resolve_action(world, input);
        world.register_action(action)
    }

    fn resolve_action(self, world: &World, input: PlayerInput) -> (r: ActionData)
        ensures
            r == resolved_action(self, world.entity_list(), input),
    {
        if let Some(target) = self.get_target(world, input) {
            actions::attack::direct(self.entity_id, target.id)
        } else {
            self.get_movement_action(input)
        }
    }

    fn get_movement_action(self, input: PlayerInput) -> (r: ActionData)
        ensures
            r == movement_for(self.entity_id, input.direction),
    {
        if input.direction == direction::left() {
            actions::movement::left(self.entity_id)
        } else if input.direction == direction::right() {
            actions::movement::right(self.entity_id)
        } else if input.direction == direction::up() {
            actions::movement::up(self.entity_id)
        } else {
            actions::movement::down(self.entity_id)
        }
    }

    fn get_target(self, world: &World, input: PlayerInput) -> (r: Option<Entity>)
        ensures
            r == target_of(self, world.entity_list(), input),
    {
        let range: i32 = RANGE;
        let ghost s = world.entity_list();
        if let Some(player) = world.get_entity(self.entity_id) {
            let d = input.direction;
            let mut n: i32 = 1;
            while n <= range
                invariant
                    1 <= n <= range + 1,
                    range == RANGE,
                    s == world.entity_list(),
                    d == input.direction,
                    lookup(s, self.entity_id) == Some(player),
                    target_of(self, s, input) == ray_target(s, player.coord, d, n as int),
                decreases range + 1 - n,
            {
                assert(-2147483648 * 9 <= d.dx * n <= 2147483647 * 9) by (nonlinear_arith)
                    requires
                        -2147483648 <= d.dx <= 2147483647,
                        1 <= n <= 9,
                ;
                assert(-2147483648 * 9 <= d.dy * n <= 2147483647 * 9) by (nonlinear_arith)
                    requires
                        -2147483648 <= d.dy <= 2147483647,
                        1 <= n <= 9,
                ;
                let x: i64 = player.coord.x as i64 + d.dx as i64 * n as i64;
                let y: i64 = player.coord.y as i64 + d.dy as i64 * n as i64;
                if x < i32::MIN as i64 || x > i32::MAX as i64 || y < i32::MIN as i64 || y
                    > i32::MAX as i64 {
                    proof {
                        lemma_none_of(s, on_cell(x as int, y as int));
                    }
                } else if let Some(entity) = world.on_coord(Coordinate::new(x as i32, y as i32)) {
                    match entity.entity_type {
                        EntityType::Obstacle(_) => return None,
                        EntityType::Enemy(_) => return Some(*entity),
                        EntityType::Player(_) => return Some(*entity),
                        _ => {},
                    }
                }
                n += 1;
            }
        }
        None
    }
}

impl Controller for PlayerController {
    open spec fn kind(&self) -> ControllerType {
        ControllerType::Player
    }

    fn get_type(self) -> (r: ControllerType) {
        ControllerType::Player
    }
}

} // verus!
