use engine::actions::movement;
use engine::models::coordinate::Coordinate;
use engine::models::entity::Entity;
use engine::models::world::World;

#[test]
fn coordinate_create_new() {
    let coord: Coordinate = Coordinate::new(1, 2);
    assert!(coord.is_at_x(1));
    assert!(coord.is_at_y(2));
}

#[test]
fn is_at() {
    let coord: Coordinate = Coordinate::new(1, 1);
    assert!(coord.is_at_x(1));
    assert!(!coord.is_at_x(2));
    assert!(!coord.is_at_x(-1));

    assert!(coord.is_at_y(1));
    assert!(!coord.is_at_y(0));
}

#[test]
fn is_eq() {
    let coord1: Coordinate = Coordinate::new(1, 1);
    let coord2: Coordinate = Coordinate::new(1, 1);
    let coord3: Coordinate = Coordinate::new(1, 2);

    assert!(coord1 == coord2);
    assert!(coord2 != coord3);
}

#[test]
fn is_within() {
    let left_edge = Coordinate::new(0, 0);
    let right_edge = Coordinate::new(8, 8);

    assert!(Coordinate::new(1, 1).is_within(left_edge, right_edge));
    assert!(Coordinate::new(4, 6).is_within(left_edge, right_edge));
    assert!(left_edge.is_within(left_edge, right_edge));
    assert!(right_edge.is_within(left_edge, right_edge));

    assert!(!Coordinate::new(-1, 0).is_within(left_edge, right_edge));
    assert!(!Coordinate::new(-9, 0).is_within(left_edge, right_edge));
    assert!(!Coordinate::new(0, -10).is_within(left_edge, right_edge));
    assert!(!Coordinate::new(4, 10).is_within(left_edge, right_edge));
}

#[test]
fn is_adjacent() {
    is_adjacent_coords(0, 0, 1, 0, true);
    is_adjacent_coords(0, 0, 1, 1, true);
    is_adjacent_coords(-1, 0, 0, 0, true);

    is_adjacent_coords(-1, 0, 0, 5, false);
}

fn is_adjacent_coords(x1: i32, y1: i32, x2: i32, y2: i32, expected: bool) {
    let result = Coordinate::is_adjacent(Coordinate::new(x1, y1), Coordinate::new(x2, y2));
    assert!(result == expected)
}

#[test]
fn entity_create_new() {
    let entity = Entity::new(1, Coordinate::new(2, 3));
    assert_eq!(1, entity.id);
    assert!(entity.coord.is_at_x(2));
    assert!(entity.coord.is_at_y(3));
}

#[test]
fn register_entity() {
    let mut world: World = World::new();

    let entity = world.register(Entity::new(0, Coordinate::new(0, 0)));
    assert_eq!(1, entity.id);
    assert_eq!(entity.id, world.get_entity(entity.id).unwrap().id);

    let entity2 = world.register(Entity::new(0, Coordinate::new(0, 0)));
    assert_eq!(2, entity2.id);
    let stored = world.entities.iter().find(|e| e.id == entity2.id).unwrap();
    assert_eq!(entity2.id, stored.id);
}

#[test]
fn register_action() {
    let mut world: World = World::new();

    assert!(!world.has_actions());

    let action = movement::down(123);
    world.register_action(action);
    assert!(world.has_actions());
}
