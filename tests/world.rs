use engine::actions::action::{ActionData, ActionType};
use engine::actions::attack::direct;
use engine::actions::movement;
use engine::controllers::controller::{Controller, ControllerType};
use engine::controllers::player::{PlayerController, PlayerInput};
use engine::error::EngineError;
use engine::actions::error::ActionError;
use engine::game::runner::run;
use engine::models::actors::{bandid, mountain, player, water};
use engine::models::coordinate::Coordinate;
use engine::models::direction;
use engine::models::entity::{Entity, EntityType};
use engine::models::world::World;
use engine::serializers::basic::{load, print};

#[test]
fn new_world_has_default_bounds() {
    let world = World::new();
    assert_eq!(world.bounds(), (Coordinate::new(0, 0), Coordinate::new(8, 4)));
    assert!(world.entities.is_empty());
    assert!(!world.has_actions());
    let default_world: World = Default::default();
    assert_eq!(default_world.bounds(), world.bounds());
    let created = World::create(Coordinate::new(3, 2));
    assert_eq!(created.bounds(), (Coordinate::new(0, 0), Coordinate::new(3, 2)));
}

#[test]
fn update_replaces_by_id_and_remove_is_idempotent() {
    let mut world = World::new();
    let a = world.register(Entity::new(0, Coordinate::new(0, 0)));
    world.update_entity(a.with_coordinate(Coordinate::new(2, 2)));
    assert_eq!(world.entities.len(), 1);
    assert_eq!(world.get_entity(a.id).unwrap().coord, Coordinate::new(2, 2));

    world.update_entity(Entity::new(7, Coordinate::new(3, 3)));
    assert_eq!(world.entities.len(), 2);
    assert_eq!(world.get_entity(7).unwrap().coord, Coordinate::new(3, 3));

    world.remove_entity(a);
    assert!(world.get_entity(a.id).is_none());
    world.remove_entity(a);
    assert_eq!(world.entities.len(), 1);
}

#[test]
fn on_coord_answers_with_the_entity_stored_first() {
    let mut world = World::new();
    let first = world.register(Entity::new(0, Coordinate::new(1, 1)));
    world.register(Entity::new(0, Coordinate::new(1, 1)));
    assert_eq!(world.on_coord(Coordinate::new(1, 1)).unwrap().id, first.id);
    assert!(world.on_coord(Coordinate::new(2, 1)).is_none());
}

#[test]
fn get_player_finds_by_number() {
    let mut world = World::new();
    world.register(bandid::create_at(Coordinate::new(0, 0)));
    let two = world.register(player::create_at(2, Coordinate::new(1, 0)));
    assert_eq!(world.get_player(2), Some(two));
    assert!(world.get_player(1).is_none());
}

#[test]
fn actors_have_their_glyphs_and_hit_points() {
    let c = Coordinate::new(4, 5);
    assert_eq!(bandid::create_at(c).entity_type, EntityType::Enemy('B'));
    assert_eq!(bandid::create_at(c).hit_points, Some(1));
    assert_eq!(player::create_at(2, c).hit_points, Some(3));
    assert_eq!(mountain::create_at(c).entity_type, EntityType::Obstacle('#'));
    assert_eq!(water::create_at(c).entity_type, EntityType::Hole('~'));
    assert_eq!(water::create_at(c).coord, c);
    let d: Entity = Default::default();
    assert_eq!(d.entity_type, EntityType::Player(1));
}

#[test]
fn entity_updates_leave_the_source_alone() {
    let e = Entity {
        hit_points: Some(2),
        ..Entity::new(5, Coordinate::new(1, 1))
    };
    let moved = e.with_coordinate(Coordinate::new(2, 1));
    let renamed = e.with_id(9);
    let hurt = e.take_damage(1);
    assert_eq!(e.coord, Coordinate::new(1, 1));
    assert_eq!(moved.coord, Coordinate::new(2, 1));
    assert_eq!(moved.id, 5);
    assert_eq!(renamed.id, 9);
    assert_eq!(hurt.hit_points, Some(1));
    assert_eq!(e.hit_points, Some(2));
    let floor = Entity {
        hit_points: Some(i32::MIN),
        ..e
    };
    assert_eq!(floor.take_damage(1).hit_points, Some(i32::MIN));
    assert_eq!(Entity::new(1, Coordinate::new(0, 0)).take_damage(1).hit_points, None);
}

#[test]
fn translate_and_operate_add_the_step() {
    let c = Coordinate::new(2, 3);
    assert_eq!(c.translate(-1, 4), Coordinate::new(1, 7));
    assert_eq!(
        movement::operate(c, direction::up()),
        Coordinate::new(2, 2)
    );
}

#[test]
fn controller_attacks_the_first_enemy_in_line() {
    let mut world = World::new();
    let p = world.register(player::create_at(1, Coordinate::new(0, 0)));
    world.register(water::create_at(Coordinate::new(1, 0)));
    let b = world.register(bandid::create_at(Coordinate::new(3, 0)));
    let controller = PlayerController::new(p.id);
    controller.run(&mut world, PlayerInput::new(direction::right()));
    assert_eq!(world.get_actions().clone(), vec![direct(p.id, b.id)]);
}

#[test]
fn controller_moves_when_an_obstacle_blocks_the_line() {
    let mut world = World::new();
    let p = world.register(player::create_at(1, Coordinate::new(0, 0)));
    world.register(mountain::create_at(Coordinate::new(0, 1)));
    world.register(bandid::create_at(Coordinate::new(0, 2)));
    PlayerController::new(p.id).run(&mut world, PlayerInput::new(direction::down()));
    assert_eq!(world.get_actions().clone(), vec![movement::down(p.id)]);
}

#[test]
fn controller_looks_nine_cells_ahead() {
    let mut world = World::create(Coordinate::new(20, 0));
    let p = world.register(player::create_at(1, Coordinate::new(0, 0)));
    let near = world.register(bandid::create_at(Coordinate::new(9, 0)));
    PlayerController::new(p.id).run(&mut world, PlayerInput::new(direction::right()));
    world.remove_entity(near);
    world.register(bandid::create_at(Coordinate::new(10, 0)));
    PlayerController::new(p.id).run(&mut world, PlayerInput::new(direction::right()));
    assert_eq!(
        world.get_actions().clone(),
        vec![direct(p.id, near.id), movement::right(p.id)]
    );
    assert_eq!(PlayerController::new(p.id).get_type(), ControllerType::Player);
}

#[test]
fn turn_resolves_inputs_and_clears_them() {
    let mut world = load(&["1  ", "   "].join("\n"));
    world.register_player(PlayerController::new(1));
    world.register_player_input(1, PlayerInput::new(direction::up()));
    world.register_player_input(1, PlayerInput::new(direction::right()));
    world.register_player_input(5, PlayerInput::new(direction::left()));
    assert_eq!(world.get_player_inputs().len(), 2);
    assert_eq!(run(&mut world), Ok(()));
    assert_eq!(world.get_entity(1).unwrap().coord, Coordinate::new(1, 0));
    assert!(world.get_player_inputs().is_empty());
    assert!(!world.has_actions());
}

#[test]
fn failed_turn_reports_and_clears_the_queue() {
    let mut world = World::new();
    let a = world.register(Entity::new(0, Coordinate::new(0, 0)));
    world.register_action(movement::up(a.id));
    world.register_action(movement::down(a.id));
    assert_eq!(run(&mut world), Err(EngineError::OutOfMapCoordinate(0, -1)));
    assert!(!world.has_actions());
    assert_eq!(world.get_entity(a.id).unwrap().coord, Coordinate::new(0, 0));
    world.register_action(ActionData {
        entity_id: a.id,
        target_entity_id: None,
        action_type: ActionType::Attack,
        direction: None,
    });
    assert_eq!(run(&mut world), Err(EngineError::EmptyTargetEntityId));
    world.register_action(movement::down(99));
    assert_eq!(run(&mut world), Err(EngineError::InvalidEntityId(99)));
    let b = world.register(Entity::new(0, Coordinate::new(0, 1)));
    world.register_action(movement::down(a.id));
    assert_eq!(run(&mut world), Err(EngineError::PositionOccupied(0, 1)));
    assert_eq!(world.get_entity(b.id).unwrap().coord, Coordinate::new(0, 1));
    assert_eq!(
        EngineError::from(ActionError::InvalidEntityId(3)),
        EngineError::InvalidEntityId(3)
    );
    let d: ActionData = Default::default();
    assert_eq!(d.direction, None);
}

#[test]
fn print_writes_player_numbers_in_decimal() {
    let mut world = World::create(Coordinate::new(2, 0));
    world.register(player::create_at(10, Coordinate::new(0, 0)));
    world.register(player::create_at(-7, Coordinate::new(2, 0)));
    assert_eq!(print(&world), "10 -7");
    let mut wide = World::create(Coordinate::new(0, 1));
    wide.register(player::create_at(-128, Coordinate::new(0, 1)));
    assert_eq!(print(&wide), " \n-128");
}

#[test]
fn current_id_counts_registrations() {
    let mut world = World::new();
    assert_eq!(world.current_id(), 0);
    world.register(Entity::new(9, Coordinate::new(0, 0)));
    world.register(Entity::new(9, Coordinate::new(1, 0)));
    assert_eq!(world.current_id(), 2);
    assert_eq!(world.get_entity(2).unwrap().coord, Coordinate::new(1, 0));
}
