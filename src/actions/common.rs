use vstd::prelude::*;

use crate::actions::action::ActionData;
use crate::actions::error::ActionError;
use crate::actions::result::ActionResult;
use crate::models::entity::Entity;
use crate::models::world::{lookup, World};

verus! {

/// The acting entity `entity_id`, or `InvalidEntityId` when the world has
/// none with that id.
pub fn get_entity(world: &World, entity_id: i32) -> (r: ActionResult<Entity>)
    ensures
        r == match lookup(world.entity_list(), entity_id) {
            Some(e) => Ok(e),
            None => ActionResult::<Entity>::Err(ActionError::InvalidEntityId(entity_id)),
        },
{
    if let Some(entity) = world.get_entity(entity_id) {
        return Ok(entity);
    }
    Err(ActionError::InvalidEntityId(entity_id))
}

/// The target of `action`, or `EmptyTargetEntityId` when it names none.
pub fn get_target_id(action: ActionData) -> (r: ActionResult<i32>)
    ensures
        r == match action.target_entity_id {
            Some(id) => Ok(id),
            None => ActionResult::<i32>::Err(ActionError::EmptyTargetEntityId),
        },
{
    if let Some(id) = action.target_entity_id {
        Ok(id)
    } else {
        Err(ActionError::EmptyTargetEntityId)
    }
}

} // verus!
