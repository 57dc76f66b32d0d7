use vstd::prelude::*;

verus! {

/// A step on the grid. The game uses the four unit steps below.
#[derive(Clone, Copy, Debug, PartialEq, Eq, Structural)]
pub struct Direction {
    pub dx: i32,
    pub dy: i32,
}

/// One cell towards smaller `x`.
pub fn left() -> (r: Direction)
    ensures
        r == (Direction { dx: -1i32, dy: 0 }),
{
    Direction { dx: -1, dy: 0 }
}

/// One cell towards larger `x`.
pub fn right() -> (r: Direction)
    ensures
        r == (Direction { dx: 1, dy: 0 }),
{
    Direction { dx: 1, dy: 0 }
}

/// One cell towards smaller `y`, the top of the map.
pub fn up() -> (r: Direction)
    ensures
        r == (Direction { dx: 0, dy: -1i32 }),
{
    Direction { dx: 0, dy: -1 }
}

/// One cell towards larger `y`, the bottom of the map.
pub fn down() -> (r: Direction)
    ensures
        r == (Direction { dx: 0, dy: 1 }),
{
    Direction { dx: 0, dy: 1 }
}

} // verus!
