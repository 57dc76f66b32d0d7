use vstd::prelude::*;

use crate::models::coordinate::Coordinate;
use crate::models::entity::{Entity, EntityType};

verus! {

/// A bandit: an enemy drawn as 'B' that dies from one attack.
pub open spec fn bandit(coord: Coordinate) -> Entity {
    Entity { id: 0, coord, entity_type: EntityType::Enemy('B'), hit_points: Some(1) }
}

pub fn create_at(coord: Coordinate) -> (r: Entity)
    ensures
        r == bandit(coord),
{
    Entity { entity_type: EntityType::Enemy('B'), coord, hit_points: Some(1), ..Default::default() }
}

} // verus!
