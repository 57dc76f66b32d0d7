pub mod action;
pub mod attack;
pub mod common;
pub mod error;
pub mod movement;
pub mod processor;
pub mod result;

pub use self::action::ActionData;
pub use self::processor::process_actions;
