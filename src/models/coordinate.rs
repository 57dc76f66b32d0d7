use vstd::prelude::*;

verus! {

/// A cell of the map grid.
///
/// Cells are whole numbers, so two coordinates are the same cell exactly when
/// both components are equal: no tolerance is needed after any number of
/// translations.
#[derive(Clone, Copy, Debug, PartialEq, Eq, Structural)]
pub struct Coordinate {
    pub x: i32,
    pub y: i32,
}

/// Whether the cell `(x, y)` lies in the box spanned by `left` and `right`,
/// both edges included. The cell is given as unbounded integers so that a cell
/// one step past the largest coordinate can still be asked about.
pub open spec fn cell_within(x: int, y: int, left: Coordinate, right: Coordinate) -> bool {
    &&& left.x <= x <= right.x
    &&& left.y <= y <= right.y
}

impl Coordinate {
    /// Two cells are adjacent when they differ by less than two in each axis.
    pub open spec fn adjacent(self, other: Coordinate) -> bool {
        &&& -2 < self.x - other.x < 2
        &&& -2 < self.y - other.y < 2
    }

    pub fn new(x: i32, y: i32) -> (r: Coordinate)
        ensures
            r.x == x,
            r.y == y,
    {
        Coordinate { x, y }
    }

    /// The coordinate moved by `(dx, dy)`; the result must be representable.
    pub fn translate(self, dx: i32, dy: i32) -> (r: Coordinate)
        requires
            i32::MIN <= self.x + dx <= i32::MAX,
            i32::MIN <= self.y + dy <= i32::MAX,
        ensures
            r.x == self.x + dx,
            r.y == self.y + dy,
    {
        Coordinate::new(self.x + dx, self.y + dy)
    }

    pub fn is_adjacent(self, other: Coordinate) -> (r: bool)
        ensures
            r == self.adjacent(other),
    {
        let dx: i64 = self.x as i64 - other.x as i64;
        let dy: i64 = self.y as i64 - other.y as i64;
        dx < 2 && dx > -2 && dy < 2 && dy > -2
    }

    pub fn is_at_x(self, x: i32) -> (r: bool)
        ensures
            r == (self.x == x),
    {
        self.x == x
    }

    pub fn is_at_y(self, y: i32) -> (r: bool)
        ensures
            r == (self.y == y),
    {
        self.y == y
    }

    /// Inclusive bounding-box test against the edges `left` and `right`.
    pub fn is_within(self, left: Coordinate, right: Coordinate) -> (r: bool)
        ensures
            r == cell_within(self.x as int, self.y as int, left, right),
    {
        !(self.x < left.x || self.y < left.y || self.x > right.x || self.y > right.y)
    }
}

} // verus!
