use engine::models::actors::{bandid, mountain, player, water};
use engine::models::coordinate::Coordinate;
use engine::models::entity::{Entity, EntityType};
use engine::models::world::World;
use engine::serializers::basic::{load, print};

// A world's bounds include their upper edge, so `World::new()`, with bounds
// (0,0) to (8,4), prints nine columns in five rows.

#[test]
fn print_empty_world() {
    let world = World::new();
    let result = print(&world);

    assert_eq!(
        result,
        ["         ", "         ", "         ", "         ", "         "].join("\n")
    );
}

#[test]
fn print_world_with_actors() {
    let mut world = World::new();
    world.register(player::create_at(1, Coordinate::new(1, 1)));
    world.register(player::create_at(2, Coordinate::new(2, 1)));
    world.register(mountain::create_at(Coordinate::new(4, 1)));
    world.register(mountain::create_at(Coordinate::new(5, 1)));
    world.register(water::create_at(Coordinate::new(4, 2)));
    world.register(water::create_at(Coordinate::new(5, 2)));
    world.register(bandid::create_at(Coordinate::new(5, 3)));

    let result = print(&world);

    assert_eq!(
        result,
        ["         ", " 12 ##   ", "    ~~   ", "     B   ", "         "].join("\n")
    );
}

#[test]
fn load_empty_world() {
    let world = load(&["        ", "        "].join("\n"));

    assert!(world.right_edge.is_at_x(7));
    assert!(world.right_edge.is_at_y(1));
    assert_eq!(world.has_actions(), false);
}

#[test]
fn load_world_with_actors() {
    let world = load(&["12      ", "     B#~"].join("\n"));

    assert!(world.right_edge.is_at_x(7));
    assert!(world.right_edge.is_at_y(1));
    assert_eq!(world.has_actions(), false);

    let player: Option<&Entity> = world.on_coord(Coordinate::new(0, 0));
    assert!(player.is_some());
    if let Some(entity) = player {
        assert_eq!(entity.entity_type, EntityType::Player(1));
    }

    let player2: Option<&Entity> = world.on_coord(Coordinate::new(1, 0));
    assert!(player2.is_some());
    if let Some(entity) = player2 {
        assert_eq!(entity.entity_type, EntityType::Player(2));
    }

    let bandid: Option<&Entity> = world.on_coord(Coordinate::new(5, 1));
    assert!(bandid.is_some());
    if let Some(entity) = bandid {
        assert_eq!(entity.entity_type, EntityType::Enemy('B'));
    }

    let mountain: Option<&Entity> = world.on_coord(Coordinate::new(6, 1));
    assert!(mountain.is_some());
    if let Some(entity) = mountain {
        assert_eq!(entity.entity_type, EntityType::Obstacle('#'));
    }

    let water: Option<&Entity> = world.on_coord(Coordinate::new(7, 1));
    assert!(water.is_some());
    if let Some(entity) = water {
        assert_eq!(entity.entity_type, EntityType::Hole('~'));
    }
}
