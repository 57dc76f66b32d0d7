use engine::actions::action::{ActionData, ActionType};
use engine::actions::attack::{direct, process as attack};
use engine::actions::error::ActionError;
use engine::actions::movement::{down, left, process as movement, right, up};
use engine::actions::process_actions;
use engine::models::coordinate::Coordinate;
use engine::models::entity::Entity;
use engine::models::world::World;
use engine::serializers::basic::{load, print};

#[test]
fn register_hands_out_increasing_ids_from_one() {
    let mut world = World::new();
    let a = world.register(Entity::new(42, Coordinate::new(0, 0)));
    let b = world.register(Entity::new(-5, Coordinate::new(1, 0)));
    let c = world.register(Entity::new(2, Coordinate::new(2, 0)));
    assert_eq!((a.id, b.id, c.id), (1, 2, 3));
    assert_eq!(world.get_entity(1).unwrap().coord, Coordinate::new(0, 0));
    assert_eq!(world.get_entity(3).unwrap().coord, Coordinate::new(2, 0));
    assert!(world.get_entity(42).is_none());
}

#[test]
fn move_succeeds_only_onto_free_cells_of_the_map() {
    let mut world = World::create(Coordinate::new(3, 3));
    let a = world.register(Entity::new(0, Coordinate::new(1, 1)));
    world.register(Entity::new(0, Coordinate::new(2, 1)));

    assert_eq!(movement(&mut world, up(a.id)), Ok(()));
    assert_eq!(world.get_entity(a.id).unwrap().coord, Coordinate::new(1, 0));

    assert_eq!(
        movement(&mut world, up(a.id)),
        Err(ActionError::OutOfMapCoordinate(1, -1))
    );
    assert_eq!(world.get_entity(a.id).unwrap().coord, Coordinate::new(1, 0));

    assert_eq!(movement(&mut world, down(a.id)), Ok(()));
    assert_eq!(
        movement(&mut world, right(a.id)),
        Err(ActionError::PositionOccupied(2, 1))
    );
    assert_eq!(world.get_entity(a.id).unwrap().coord, Coordinate::new(1, 1));
}

#[test]
fn attacking_a_dead_target_again_is_harmless() {
    let mut world = World::new();
    let a = world.register(Entity::new(0, Coordinate::new(0, 0)));
    let b = world.register(Entity {
        hit_points: Some(1),
        ..Entity::new(0, Coordinate::new(0, 1))
    });
    assert_eq!(attack(&mut world, direct(a.id, b.id)), Ok(()));
    assert!(world.get_entity(b.id).is_none());
    assert_eq!(world.entities.len(), 1);
    assert_eq!(attack(&mut world, direct(a.id, b.id)), Ok(()));
    assert!(world.get_entity(b.id).is_none());
    assert_eq!(world.entities.len(), 1);
}

#[test]
fn moves_never_stack_two_entities_on_one_cell() {
    let mut world = World::create(Coordinate::new(2, 2));
    let a = world.register(Entity::new(0, Coordinate::new(0, 0)));
    let b = world.register(Entity::new(0, Coordinate::new(1, 0)));
    let moves = vec![right(a.id), down(b.id), right(a.id), left(b.id), up(b.id)];
    for m in moves {
        let _ = movement(&mut world, m);
        let first = world.get_entity(a.id).unwrap().coord;
        let second = world.get_entity(b.id).unwrap().coord;
        assert_ne!(first, second);
    }
    assert_eq!(world.get_entity(a.id).unwrap().coord, Coordinate::new(1, 0));
    assert_eq!(world.get_entity(b.id).unwrap().coord, Coordinate::new(0, 0));
}

#[test]
fn print_reproduces_loaded_text() {
    let texts = [
        ["12      ", "     B#~"].join("\n"),
        ["   ", " # ", "~~B"].join("\n"),
        "2".to_string(),
        String::new(),
    ];
    for text in texts.iter() {
        assert_eq!(&print(&load(text)), text);
    }
}

#[test]
fn moving_past_the_edge_is_refused() {
    let mut world = World::create(Coordinate::new(8, 8));
    let e = world.register(Entity::new(0, Coordinate::new(8, 8)));
    assert_eq!(
        movement(&mut world, right(e.id)),
        Err(ActionError::OutOfMapCoordinate(9, 8))
    );
    assert_eq!(world.get_entity(e.id).unwrap().coord, Coordinate::new(8, 8));
}

#[test]
fn attacking_an_invulnerable_entity_changes_nothing() {
    let mut world = World::new();
    let a = world.register(Entity {
        hit_points: Some(1),
        ..Entity::new(0, Coordinate::new(1, 1))
    });
    let b = world.register(Entity::new(0, Coordinate::new(1, 2)));
    assert_eq!(attack(&mut world, direct(a.id, b.id)), Ok(()));
    let after = world.get_entity(b.id).unwrap();
    assert_eq!(after, b);
    assert_eq!(after.hit_points, None);
}

#[test]
fn moving_onto_another_entity_is_refused() {
    let mut world = World::new();
    let a = world.register(Entity::new(0, Coordinate::new(1, 1)));
    let b = world.register(Entity::new(0, Coordinate::new(1, 2)));
    assert_eq!(
        movement(&mut world, down(a.id)),
        Err(ActionError::PositionOccupied(1, 2))
    );
    assert_eq!(world.get_entity(a.id).unwrap(), a);
    assert_eq!(world.get_entity(b.id).unwrap(), b);
}

#[test]
fn actions_stop_at_the_first_error() {
    let mut world = World::create(Coordinate::new(1, 1));
    let a = world.register(Entity::new(0, Coordinate::new(0, 0)));
    let actions = [right(a.id), right(a.id), down(a.id)];
    assert_eq!(
        process_actions(&mut world, &actions),
        Err(ActionError::OutOfMapCoordinate(2, 0))
    );
    assert_eq!(world.get_entity(a.id).unwrap().coord, Coordinate::new(1, 0));
}

#[test]
fn attack_without_target_and_move_without_direction() {
    let mut world = World::new();
    let a = world.register(Entity::new(0, Coordinate::new(0, 0)));
    let idle = ActionData {
        entity_id: a.id,
        target_entity_id: None,
        action_type: ActionType::Move,
        direction: None,
    };
    assert_eq!(movement(&mut world, idle), Ok(()));
    assert_eq!(world.get_entity(a.id).unwrap(), a);
    let blind = ActionData {
        action_type: ActionType::Attack,
        ..idle
    };
    assert_eq!(
        attack(&mut world, blind),
        Err(ActionError::EmptyTargetEntityId)
    );
}

#[test]
fn attack_takes_one_hit_point_from_a_sturdy_target() {
    let mut world = World::new();
    let a = world.register(Entity::new(0, Coordinate::new(0, 0)));
    let b = world.register(Entity {
        hit_points: Some(3),
        ..Entity::new(0, Coordinate::new(0, 1))
    });
    assert_eq!(attack(&mut world, direct(a.id, b.id)), Ok(()));
    assert_eq!(world.get_entity(b.id).unwrap().hit_points, Some(2));
    assert_eq!(attack(&mut world, direct(a.id, b.id)), Ok(()));
    assert_eq!(attack(&mut world, direct(a.id, b.id)), Ok(()));
    assert!(world.get_entity(b.id).is_none());
}
