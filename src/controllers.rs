pub mod controller;
pub mod player;

pub use self::controller::Controller;
pub use self::controller::ControllerType;
pub use self::player::PlayerController;
pub use self::player::PlayerInput;
