use vstd::prelude::*;

use crate::models::coordinate::Coordinate;
use crate::models::entity::{Entity, EntityType};

verus! {

/// Water: a hole drawn as '~'.
pub open spec fn water(coord: Coordinate) -> Entity {
    Entity { id: 0, coord, entity_type: EntityType::Hole('~'), hit_points: None }
}

pub fn create_at(coord: Coordinate) -> (r: Entity)
    ensures
        r == water(coord),
{
    Entity { entity_type: EntityType::Hole('~'), coord, ..Default::default() }
}

} // verus!
