use vstd::prelude::*;

verus! {

/// Why an action could not be applied. Coordinates are those of the cell
/// that the move aimed at; it may lie one step past the representable grid,
/// hence the wider type.
#[derive(Clone, Copy, Debug, PartialEq, Eq, Structural)]
pub enum ActionError {
    InvalidEntityId(i32),
    EmptyTargetEntityId,
    OutOfMapCoordinate(i64, i64),
    PositionOccupied(i64, i64),
}

} // verus!
