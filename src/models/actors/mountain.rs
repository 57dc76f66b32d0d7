use vstd::prelude::*;

use crate::models::coordinate::Coordinate;
use crate::models::entity::{Entity, EntityType};

verus! {

/// A mountain: an obstacle drawn as '#'.
pub open spec fn mountain(coord: Coordinate) -> Entity {
    Entity { id: 0, coord, entity_type: EntityType::Obstacle('#'), hit_points: None }
}

pub fn create_at(coord: Coordinate) -> (r: Entity)
    ensures
        r == mountain(coord),
{
    Entity { entity_type: EntityType::Obstacle('#'), coord, ..Default::default() }
}

} // verus!
