pub mod actors;
pub mod coordinate;
pub mod direction;
pub mod entity;
pub mod first_match;
pub mod world;

pub use self::coordinate::Coordinate;
pub use self::direction::Direction;
pub use self::entity::Entity;
pub use self::entity::EntityType;
pub use self::world::World;
