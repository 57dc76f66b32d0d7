use vstd::prelude::*;

use crate::models::coordinate::Coordinate;

verus! {

/// What an entity is. Obstacles and holes are terrain: they carry no hit
/// points and are never chosen as the target of an attack.
#[derive(Clone, Copy, Debug, PartialEq, Eq, Structural)]
pub enum EntityType {
    Player(i8),
    Enemy(char),
    Obstacle(char),
    Hole(char),
}

/// An object of the world. `hit_points` of `None` marks an entity that takes
/// no damage; `Some(hp)` one that dies when its hit points reach zero.
///
/// Entities are values: every update builds a new entity and leaves the one
/// it was made from untouched.
#[derive(Clone, Copy, Debug, PartialEq, Eq, Structural)]
pub struct Entity {
    pub id: i32,
    pub coord: Coordinate,
    pub entity_type: EntityType,
    pub hit_points: Option<i32>,
}

/// `hp - damage`, held inside the range of `i32`.
pub open spec fn reduced_hit_points(hp: i32, damage: i32) -> i32 {
    if hp - damage < i32::MIN {
        i32::MIN
    } else if hp - damage > i32::MAX {
        i32::MAX
    } else {
        (hp - damage) as i32
    }
}

impl Entity {
    /// This entity, moved to `coord`.
    pub open spec fn at(self, coord: Coordinate) -> Entity {
        Entity { coord, ..self }
    }

    /// This entity after taking `damage`; an entity without hit points is
    /// unaffected.
    pub open spec fn damaged(self, damage: i32) -> Entity {
        match self.hit_points {
            Some(hp) => Entity { hit_points: Some(reduced_hit_points(hp, damage)), ..self },
            None => self,
        }
    }

    /// A plain enemy without hit points.
    pub fn new(id: i32, coord: Coordinate) -> (r: Entity)
        ensures
            r == (Entity { id, coord, entity_type: EntityType::Enemy('?'), hit_points: None }),
    {
        Entity { id, coord, entity_type: EntityType::Enemy('?'), hit_points: None }
    }

    pub fn with_coordinate(&self, coord: Coordinate) -> (r: Entity)
        ensures
            r == self.at(coord),
    {
        Entity { coord, ..*self }
    }

    pub fn with_id(&self, new_id: i32) -> (r: Entity)
        ensures
            r == (Entity { id: new_id, ..*self }),
    {
        Entity { id: new_id, ..*self }
    }

    pub fn take_damage(&self, damage: i32) -> (r: Entity)
        ensures
            r == self.damaged(damage),
    {
        match self.hit_points {
            Some(hp) => {
                let left: i64 = hp as i64 - damage as i64;
                let reduced: i32 = if left < i32::MIN as i64 {
                    i32::MIN
                } else if left > i32::MAX as i64 {
                    i32::MAX
                } else {
                    left as i32
                };
                Entity { hit_points: Some(reduced), ..*self }
            },
            None => *self,
        }
    }
}

impl Default for Entity {
    /// The first player at the origin, without hit points.
    fn default() -> (r: Entity)
        ensures
            r == (Entity {
                id: 0,
                coord: Coordinate { x: 0, y: 0 },
                entity_type: EntityType::Player(1),
                hit_points: None,
            }),
    {
        Entity {
            id: 0,
            coord: Coordinate::new(0, 0),
            entity_type: EntityType::Player(1),
            hit_points: None,
        }
    }
}

} // verus!
