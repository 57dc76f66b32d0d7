use engine::actions::movement;
use engine::game::runner::run;
use engine::models::coordinate::Coordinate;
use engine::models::entity::Entity;
use engine::models::world::World;

#[test]
fn run_actions() {
    let mut world: World = World::new();
    let entity = world.register(Entity::new(0, Coordinate::new(0, 0)));

    let move_down = movement::down(entity.id);
    world.register_action(move_down);

    let move_right = movement::right(entity.id);
    world.register_action(move_right);

    assert!(run(&mut world).is_ok());

    assert!(!world.has_actions());

    let entity_option = world.get_entity(entity.id);
    assert!(entity_option.is_some());

    let entity = entity_option.unwrap();
    assert!(entity.coord.is_at_x(1));
    assert!(entity.coord.is_at_y(1));
}
