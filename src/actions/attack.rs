use vstd::prelude::*;

use crate::actions::action::{ActionData, ActionType};
use crate::actions::common::{get_entity, get_target_id};
use crate::actions::error::ActionError;
use crate::actions::result::ActionResult;
use crate::models::entity::Entity;
use crate::models::first_match::lemma_first_index;
use crate::models::world::{lemma_lookup_without, lookup, upserted, with_id, without_id, World};

verus! {

/// The hit points that one attack takes away.
pub const DAMAGE: i32 = 1;

/// The attack of entity `entity_id` on entity `target_entity_id`.
pub open spec fn attack_action(entity_id: i32, target_entity_id: i32) -> ActionData {
    ActionData {
        entity_id,
        target_entity_id: Some(target_entity_id),
        action_type: ActionType::Attack,
        direction: None,
    }
}

/// What the attack `action` does to the entities `s`: the entities
/// afterwards, and the outcome.
///
/// The attacker must exist and the action must name a target. A target that
/// no longer exists, or that has no hit points, is left as it is. Otherwise
/// the target loses `DAMAGE` hit points, and is removed once they do not stay
/// above zero.
pub open spec fn attack_outcome(s: Seq<Entity>, action: ActionData) -> (
    Seq<Entity>,
    ActionResult<()>,
) {
    if lookup(s, action.entity_id) is None {
        (s, Err(ActionError::InvalidEntityId(action.entity_id)))
    } else {
        match action.target_entity_id {
            None => (s, Err(ActionError::EmptyTargetEntityId)),
            Some(t) => match lookup(s, t) {
                None => (s, Ok(())),
                Some(target) => match target.hit_points {
                    None => (s, Ok(())),
                    Some(hp) => if hp - DAMAGE <= 0 {
                        (without_id(s, t), Ok(()))
                    } else {
                        (upserted(s, target.damaged(DAMAGE)), Ok(()))
                    },
                },
            },
        }
    }
}

/// Attacking a target with one hit point twice in a row, by an attacker
/// other than the target: the first attack succeeds and removes the target,
/// the second succeeds too and changes nothing; the target stays absent.
pub proof fn lemma_attack_twice(s: Seq<Entity>, attacker: i32, target: i32)
    requires
        lookup(s, attacker) is Some,
        attacker != target,
        lookup(s, target) matches Some(t) && t.hit_points == Some(1i32),
    ensures
        ({
            let action = attack_action(attacker, target);
            let (once, first) = attack_outcome(s, action);
            let (twice, second) = attack_outcome(once, action);
            &&& first == ActionResult::<()>::Ok(())
            &&& lookup(once, target) is None
            &&& second == ActionResult::<()>::Ok(())
            &&& twice == once
            &&& lookup(twice, target) is None
        }),
{
    lemma_lookup_without(s, target, attacker);
}

pub fn direct(entity_id: i32, target_entity_id: i32) -> (r: ActionData)
    ensures
        r == attack_action(entity_id, target_entity_id),
{
    ActionData {
        entity_id,
        target_entity_id: Some(target_entity_id),
        action_type: ActionType::Attack,
        direction: None,
    }
}

/// Applies the attack `action` to `world`.
pub fn process(world: &mut World, action: ActionData) -> (r: ActionResult<()>)
    ensures
        old(world).wf() ==> final(world).wf(),
        final(world).same_but_entities(old(world)),
        (final(world).entity_list(), r) == attack_outcome(old(world).entity_list(), action),
{
    if let Err(e) = get_entity(world, action.entity_id) {
        return Err(e);
    }
    let target_id = match get_target_id(action) {
        Ok(id) => id,
        Err(e) => return Err(e),
    };
    if let Some(target) = world.get_entity(target_id) {
        proof {
            lemma_first_index(world.entity_list(), with_id(target_id));
        }
        let new_target = target.take_damage(DAMAGE);
        if let Some(hit_points) = new_target.hit_points {
            if hit_points <= 0 {
                world.remove_entity(new_target);
            } else {
                world.update_entity(new_target);
            }
        }
    }
    Ok(())
}

} // verus!
