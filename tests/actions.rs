use engine::actions::action::ActionData;
use engine::actions::attack::{direct, process as attack};
use engine::actions::error::ActionError;
use engine::actions::movement::{down, left, process as movement, right, up};
use engine::models::coordinate::Coordinate;
use engine::models::entity::Entity;
use engine::models::world::World;

#[test]
fn attack_with_invalid_entity() {
    let world: &mut World = &mut World::new();
    let attack_action = direct(1, 2);
    let result = attack(world, attack_action);
    assert_eq!(result.err(), Some(ActionError::InvalidEntityId(1)));

    let _entity1 = world.register(Entity::new(0, Coordinate::new(1, 1)));
    let result = attack(world, attack_action);
    assert!(result.is_ok());
}

#[test]
fn with_invalid_target_id() {
    let world: &mut World = &mut World::new();
    let _entity1 = world.register(Entity::new(0, Coordinate::new(1, 1)));
    let attack_action = ActionData {
        target_entity_id: None,
        ..direct(1, 2)
    };
    let result = attack(world, attack_action);
    assert_eq!(result.err(), Some(ActionError::EmptyTargetEntityId));
}

#[test]
fn attack_entity() {
    let world: &mut World = &mut World::new();
    world.register(Entity::new(0, Coordinate::new(1, 1)));
    let entity2 = Entity {
        hit_points: Some(1),
        ..Entity::new(0, Coordinate::new(1, 2))
    };
    world.register(entity2);

    let attack_action = direct(1, 2);
    let result = attack(world, attack_action);

    assert!(result.is_ok());
    assert!(world.get_entity(2).is_none());
}

#[test]
fn properly_handle_multiple_attacks() {
    let world: &mut World = &mut World::new();
    world.register(Entity::new(0, Coordinate::new(1, 1)));
    let entity2 = Entity {
        hit_points: Some(1),
        ..Entity::new(0, Coordinate::new(1, 2))
    };
    world.register(entity2);

    let attack_action = direct(1, 2);
    let result = attack(world, attack_action);
    assert!(!result.is_err());
    let result = attack(world, attack_action);
    assert!(!result.is_err());

    assert!(world.get_entity(2).is_none());
}

#[test]
fn movement_with_invalid_entity() {
    let world: &mut World = &mut World::new();
    let left_action = left(1234);
    let result = movement(world, left_action);
    assert_eq!(result.err(), Some(ActionError::InvalidEntityId(1234)));
}

#[test]
fn go_left() {
    expect_position(1, 0, left, 0, 0);
    expect_position(1, 1, left, 0, 1);
}

#[test]
fn go_right() {
    expect_position(0, 0, right, 1, 0);
    expect_position(1, 1, right, 2, 1);
}

#[test]
fn go_down() {
    expect_position(0, 0, down, 0, 1);
    expect_position(1, 1, down, 1, 2);
}

#[test]
fn go_up() {
    expect_position(0, 1, up, 0, 0);
    expect_position(1, 1, up, 1, 0);
}

#[test]
fn move_to_occupied_position() {
    let world: &mut World = &mut World::new();
    let entity1 = world.register(Entity::new(0, Coordinate::new(1, 1)));
    let entity2 = world.register(Entity::new(1, Coordinate::new(1, 2)));

    let action = down(entity1.id);
    let result = movement(world, action);
    assert!(result.is_err());
    assert_eq!(result.err(), Some(ActionError::PositionOccupied(1, 2)));

    let new_entity = world.get_entity(entity1.id).unwrap();
    assert!(new_entity.coord.is_at_x(1));
    assert!(new_entity.coord.is_at_y(1));

    let new_entity2 = world.get_entity(entity2.id).unwrap();
    assert!(new_entity2.coord.is_at_x(1));
    assert!(new_entity2.coord.is_at_y(2));
}

#[test]
fn world_ends_error() {
    let edge = Coordinate::new(8, 8);
    let world: &mut World = &mut World::create(edge);

    expect_error(
        world,
        Coordinate::new(0, 0),
        up,
        ActionError::OutOfMapCoordinate(0, -1),
    );
    expect_error(
        world,
        Coordinate::new(0, 0),
        left,
        ActionError::OutOfMapCoordinate(-1, 0),
    );
    expect_error(
        world,
        edge,
        right,
        ActionError::OutOfMapCoordinate(edge.x as i64 + 1, edge.y as i64),
    );
    expect_error(
        world,
        edge,
        down,
        ActionError::OutOfMapCoordinate(edge.x as i64, edge.y as i64 + 1),
    );
}

fn expect_position(x: i32, y: i32, f: fn(i32) -> ActionData, ex: i32, ey: i32) {
    let world: &mut World = &mut World::new();
    let entity = world.register(Entity::new(0, Coordinate::new(x, y)));

    let action = f(entity.id);
    assert!(movement(world, action).is_ok());

    let new_entity = world.get_entity(entity.id).unwrap();
    assert!(new_entity.coord.is_at_x(ex));
    assert!(new_entity.coord.is_at_y(ey));
}

fn expect_error(world: &mut World, position: Coordinate, f: fn(i32) -> ActionData, error: ActionError) {
    let entity = world.register(Entity::new(0, position));

    let op = f(entity.id);
    let result = movement(world, op);
    assert_eq!(result.err(), Some(error));

    let new_entity = world.get_entity(entity.id).unwrap();
    assert!(new_entity.coord.is_at_x(position.x));
    assert!(new_entity.coord.is_at_y(position.y));
}
