use vstd::prelude::*;

use crate::actions::action::ActionData;
use crate::actions::processor::{self, actions_outcome};
use crate::actions::result::ActionResult;
use crate::controllers::player::{resolved_action, PlayerController, PlayerInput};
use crate::engine_result::EngineResult;
use crate::error::{engine_error_of, EngineError};
use crate::models::entity::Entity;
use crate::models::first_match::{first_of, lemma_first_at, lemma_none_of};
use crate::models::world::World;

verus! {

/// Matches the controllers of entity `id`.
pub open spec fn controls(id: i32) -> spec_fn(PlayerController) -> bool {
    |c: PlayerController| c.entity_id == id
}

/// The actions that the inputs `inputs` resolve to against the entities `s`,
/// in input order. An input is resolved by the first controller of its entity;
/// an input whose entity has no controller gives no action.
pub open spec fn resolved_inputs(
    controllers: Seq<PlayerController>,
    s: Seq<Entity>,
    inputs: Seq<(i32, PlayerInput)>,
) -> Seq<ActionData>
    decreases inputs.len(),
{
    if inputs.len() == 0 {
        Seq::empty()
    } else {
        let before = resolved_inputs(controllers, s, inputs.drop_last());
        let (id, input) = inputs.last();
        match first_of(controllers, controls(id)) {
            Some(c) => before.push(resolved_action(c, s, input)),
            None => before,
        }
    }
}

/// The actions that a turn of `world` applies: those queued before it, then
/// those that the players' inputs resolve to.
pub open spec fn turn_actions(world: World) -> Seq<ActionData> {
    world.queued() + resolved_inputs(world.controllers(), world.entity_list(), world.inputs())
}

/// The result of a turn that ended with `r`.
pub open spec fn engine_result_of(r: ActionResult<()>) -> EngineResult<()> {
    match r {
        Ok(_) => Ok(()),
        Err(e) => Err(engine_error_of(e)),
    }
}

/// Plays one turn of `world`: resolves the players' inputs into actions,
/// applies all queued actions in order up to the first error, and then
/// empties the queue and the inputs whether or not an action failed.
pub fn run(world: &mut World) -> (r: EngineResult<()>)
    ensures
        old(world).wf() ==> final(world).wf(),
        final(world).same_setup(old(world)),
        final(world).queued() == Seq::<ActionData>::empty(),
        final(world).inputs() == Seq::<(i32, PlayerInput)>::empty(),
        final(world).entity_list() == actions_outcome(
            old(world).entity_list(),
            old(world).left(),
            old(world).right(),
            turn_actions(*old(world)),
        ).0,
        r == engine_result_of(
            actions_outcome(
                old(world).entity_list(),
                old(world).left(),
                old(world).right(),
                turn_actions(*old(world)),
            ).1,
        ),
{
    process_player_input(world);

    if !world.has_actions() {
        world.clear_player_inputs();
        return Ok(());
    }

    let result = run_actions(world);
    world.clear_actions();
    world.clear_player_inputs();

    match result {
        Ok(()) => Ok(()),
        Err(e) => Err(EngineError::from(e)),
    }
}

/// Queues the action of every input whose entity has a controller.
fn process_player_input(world: &mut World)
    ensures
        final(world).same_setup(old(world)),
        final(world).entity_list() == old(world).entity_list(),
        final(world).inputs() == old(world).inputs(),
        final(world).queued() == turn_actions(*old(world)),
{
    let ghost inputs = world.inputs();
    let n = world.get_player_inputs().len();
    let mut i: usize = 0;
    while i < n
        invariant
            0 <= i <= n,
            n == inputs.len(),
            inputs == old(world).inputs(),
            world.same_setup(old(world)),
            world.entity_list() == old(world).entity_list(),
            world.inputs() == inputs,
            world.queued() == old(world).queued() + resolved_inputs(
                old(world).controllers(),
                old(world).entity_list(),
                inputs.subrange(0, i as int),
            ),
        decreases n - i,
    {
        proof {
            assert(inputs.subrange(0, i + 1).drop_last() == inputs.subrange(0, i as int));
        }
        let (entity_id, input) = world.get_player_inputs()[i];
        if let Some(controller) = get_controller(world, entity_id) {
            controller.run(world, input);
        }
        i += 1;
    }
    proof {
        assert(inputs.subrange(0, n as int) == inputs);
    }
}

/// The first controller of entity `entity_id`.
fn get_controller(world: &World, entity_id: i32) -> (r: Option<PlayerController>)
    ensures
        r == first_of(world.controllers(), controls(entity_id)),
{
    let controllers = world.get_player_controllers();
    let mut i: usize = 0;
    while i < controllers.len()
        invariant
            0 <= i <= controllers@.len(),
            controllers@ == world.controllers(),
            forall|j: int| 0 <= j < i ==> !(#[trigger] controls(entity_id)(controllers@[j])),
        decreases controllers@.len() - i,
    {
        if controllers[i].entity_id == entity_id {
            proof {
                lemma_first_at(controllers@, controls(entity_id), i as int);
            }
            return Some(controllers[i]);
        }
        i += 1;
    }
    proof {
        lemma_none_of(controllers@, controls(entity_id));
    }
    None
}

/// Applies the queued actions of `world` in order.
fn run_actions(world: &mut World) -> (r: ActionResult<()>)
    ensures
        old(world).wf() ==> final(world).wf(),
        final(world).same_but_entities(old(world)),
        (final(world).entity_list(), r) == actions_outcome(
            old(world).entity_list(),
            old(world).left(),
            old(world).right(),
            old(world).queued(),
        ),
{
    let actions = get_actions(world);
    processor::process_actions(world, actions.as_slice())
}

/// A copy of the queued actions of `world`.
fn get_actions(world: &World) -> (r: Vec<ActionData>)
    ensures
        r@ == world.queued(),
{
    let queued = world.get_actions();
    let mut copy: Vec<ActionData> = Vec::new();
    let mut i: usize = 0;
    while i < queued.len()
        invariant
            0 <= i <= queued@.len(),
            copy@ == queued@.subrange(0, i as int),
        decreases queued@.len() - i,
    {
        copy.push(queued[i]);
        i += 1;
    }
    proof {
        assert(queued@.subrange(0, queued@.len() as int) == queued@);
    }
    copy
}

} // verus!
