use vstd::prelude::*;

use crate::actions::action::{ActionData, ActionType};
use crate::actions::attack::{self, attack_outcome};
use crate::actions::movement::{self, move_outcome};
use crate::actions::result::ActionResult;
use crate::models::coordinate::Coordinate;
use crate::models::entity::Entity;
use crate::models::world::World;

verus! {

/// What `action` does to the entities `s` of a map with inclusive corners
/// `left` and `right`, by its kind.
pub open spec fn action_outcome(
    s: Seq<Entity>,
    left: Coordinate,
    right: Coordinate,
    action: ActionData,
) -> (Seq<Entity>, ActionResult<()>) {
    match action.action_type {
        ActionType::Move => move_outcome(s, left, right, action),
        ActionType::Attack => attack_outcome(s, action),
    }
}

/// What `actions`, applied in order, do to the entities `s`: each applies to
/// the entities that the one before left, and the first error ends the run
/// with the entities as they stand.
pub open spec fn actions_outcome(
    s: Seq<Entity>,
    left: Coordinate,
    right: Coordinate,
    actions: Seq<ActionData>,
) -> (Seq<Entity>, ActionResult<()>)
    decreases actions.len(),
{
    if actions.len() == 0 {
        (s, Ok(()))
    } else {
        let (next, r) = action_outcome(s, left, right, actions[0]);
        match r {
            Ok(_) => actions_outcome(next, left, right, actions.drop_first()),
            Err(e) => (next, Err(e)),
        }
    }
}

/// Applies `actions` to `world` in order, stopping at the first error.
pub fn process_actions(world: &mut World, actions: &[ActionData]) -> (r: ActionResult<()>)
    ensures
        old(world).wf() ==> final(world).wf(),
        final(world).same_but_entities(old(world)),
        (final(world).entity_list(), r) == actions_outcome(
            old(world).entity_list(),
            old(world).left(),
            old(world).right(),
            actions@,
        ),
{
    let mut i: usize = 0;
    proof {
        assert(actions@.subrange(0, actions@.len() as int) == actions@);
    }
    while i < actions.len()
        invariant
            0 <= i <= actions@.len(),
            world.same_but_entities(old(world)),
            old(world).wf() ==> world.wf(),
            actions_outcome(old(world).entity_list(), old(world).left(), old(world).right(), actions@)
                == actions_outcome(
                world.entity_list(),
                world.left(),
                world.right(),
                actions@.subrange(i as int, actions@.len() as int),
            ),
        decreases actions@.len() - i,
    {
        let rest = Ghost(actions@.subrange(i as int, actions@.len() as int));
        proof {
            assert(rest@.drop_first() == actions@.subrange(i + 1, actions@.len() as int));
        }
        let r = process_action(world, actions[i]);
        if let Err(e) = r {
            return Err(e);
        }
        i += 1;
    }
    proof {
        assert(actions@.subrange(i as int, actions@.len() as int).len() == 0);
    }
    Ok(())
}

/// Applies `action` to `world` through the processor of its kind.
fn process_action(world: &mut World, action: ActionData) -> (r: ActionResult<()>)
    ensures
        old(world).wf() ==> final(world).wf(),
        final(world).same_but_entities(old(world)),
        (final(world).entity_list(), r) == action_outcome(
            old(world).entity_list(),
            old(world).left(),
            old(world).right(),
            action,
        ),
{
    match action.action_type {
        ActionType::Move => movement::process(world, action),
        ActionType::Attack => attack::process(world, action),
    }
}

} // verus!
