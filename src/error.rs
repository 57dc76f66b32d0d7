use vstd::prelude::*;

use crate::actions::error::ActionError;

verus! {

/// Why a turn failed: the error of the first action that could not be
/// applied.
#[derive(Clone, Copy, Debug, PartialEq, Eq, Structural)]
pub enum EngineError {
    InvalidEntityId(i32),
    EmptyTargetEntityId,
    OutOfMapCoordinate(i64, i64),
    PositionOccupied(i64, i64),
}

/// The engine error that reports the action error `e`.
pub open spec fn engine_error_of(e: ActionError) -> EngineError {
    match e {
        ActionError::InvalidEntityId(id) => EngineError::InvalidEntityId(id),
        ActionError::EmptyTargetEntityId => EngineError::EmptyTargetEntityId,
        ActionError::OutOfMapCoordinate(x, y) => EngineError::OutOfMapCoordinate(x, y),
        ActionError::PositionOccupied(x, y) => EngineError::PositionOccupied(x, y),
    }
}

impl From<ActionError> for EngineError {
    fn from(e: ActionError) -> (r: EngineError) {
        match e {
            ActionError::InvalidEntityId(id) => EngineError::InvalidEntityId(id),
            ActionError::EmptyTargetEntityId => EngineError::EmptyTargetEntityId,
            ActionError::OutOfMapCoordinate(x, y) => EngineError::OutOfMapCoordinate(x, y),
            ActionError::PositionOccupied(x, y) => EngineError::PositionOccupied(x, y),
        }
    }
}

impl vstd::std_specs::convert::FromSpecImpl<ActionError> for EngineError {
    open spec fn obeys_from_spec() -> bool {
        true
    }

    open spec fn from_spec(e: ActionError) -> EngineError {
        engine_error_of(e)
    }
}

} // verus!
