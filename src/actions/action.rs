use vstd::prelude::*;

use crate::models::direction::Direction;

verus! {

#[derive(Clone, Copy, Debug, PartialEq, Eq, Structural)]
pub enum ActionType {
    Move,
    Attack,
}

/// An intent submitted for the next turn. A move carries a direction, an
/// attack a target; the processors check for what they need.
#[derive(Clone, Copy, Debug, PartialEq, Eq, Structural)]
pub struct ActionData {
    pub entity_id: i32,
    pub target_entity_id: Option<i32>,
    pub action_type: ActionType,
    pub direction: Option<Direction>,
}

impl Default for ActionData {
    /// A move of entity 0 without a direction.
    fn default() -> (r: ActionData)
        ensures
            r == (ActionData {
                entity_id: 0,
                target_entity_id: None,
                action_type: ActionType::Move,
                direction: None,
            }),
    {
        ActionData {
            entity_id: 0,
            target_entity_id: None,
            action_type: ActionType::Move,
            direction: None,
        }
    }
}

} // verus!
