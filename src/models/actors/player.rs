use vstd::prelude::*;

use crate::models::coordinate::Coordinate;
use crate::models::entity::{Entity, EntityType};

verus! {

/// The entity of player number `number`, with three hit points.
pub open spec fn player(number: i8, coord: Coordinate) -> Entity {
    Entity { id: 0, coord, entity_type: EntityType::Player(number), hit_points: Some(3) }
}

pub fn create_at(number: i8, coord: Coordinate) -> (r: Entity)
    ensures
        r == player(number, coord),
{
    Entity {
        entity_type: EntityType::Player(number),
        coord,
        hit_points: Some(3),
        ..Default::default()
    }
}

} // verus!
