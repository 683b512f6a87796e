//! Directions of movement, grid coordinates, and queued moves.

use vstd::prelude::*;

verus! {

/// The four axis-aligned movement directions.
#[derive(Debug, Clone, Copy, PartialEq, Eq)]
pub enum Direction {
    Up,
    Down,
    Left,
    Right,
}

/// A grid coordinate: `x` then `y`, both zero-based.
#[derive(Debug, Clone, Copy, PartialEq, Eq)]
pub struct Position(pub i32, pub i32);

impl Position {
    /// The neighboring position one step in `dir`; the caller rules out
    /// coordinate overflow.
    pub fn step(self, dir: Direction) -> (r: Position)
        requires
            i32::MIN <= self.0 + dir.spec_xy().0 <= i32::MAX,
            i32::MIN <= self.1 + dir.spec_xy().1 <= i32::MAX,
        ensures
            r.0 == self.0 + dir.spec_xy().0,
            r.1 == self.1 + dir.spec_xy().1,
    {
        let (dx, dy) = dir.to_xy();
        Position(self.0 + dx, self.1 + dy)
    }
}

/// A queued movement: push units from a position in a direction.
pub type Move = (Position, Direction);

impl Direction {
    /// The unit displacement of this direction: `(dx, dy)`, with `y`
    /// growing downwards.
    pub open spec fn spec_xy(self) -> (i32, i32) {
        match self {
            Direction::Up => (0i32, -1i32),
            Direction::Down => (0i32, 1i32),
            Direction::Left => (-1i32, 0i32),
            Direction::Right => (1i32, 0i32),
        }
    }

    /// The unit displacement for this direction.
    pub fn to_xy(&self) -> (r: (i32, i32))
        ensures
            r == self.spec_xy(),
    {
        match *self {
            Direction::Up => (0, -1),
            Direction::Down => (0, 1),
            Direction::Left => (-1, 0),
            Direction::Right => (1, 0),
        }
    }

    /// The neighbor of `pos` in this direction, or `None` if that neighbor
    /// would fall outside `[0, w) x [0, h)`.
    pub open spec fn spec_from(self, pos: (i32, i32), w: i32, h: i32) -> Option<(i32, i32)> {
        let x = pos.0;
        let y = pos.1;
        match self {
            Direction::Up => if y == 0 {
                None
            } else {
                Some((x, (y - 1) as i32))
            },
            Direction::Down => if y >= h - 1 {
                None
            } else {
                Some((x, (y + 1) as i32))
            },
            Direction::Left => if x == 0 {
                None
            } else {
                Some(((x - 1) as i32, y))
            },
            Direction::Right => if x >= w - 1 {
                None
            } else {
                Some(((x + 1) as i32, y))
            },
        }
    }

    /// The position reached from `pos` going one step in this direction,
    /// clipped at `0`, `w` and `h`: `None` where the step would leave the
    /// board.
    pub fn from(&self, pos: (i32, i32), w: i32, h: i32) -> (r: Option<(i32, i32)>)
        requires
            0 <= pos.0 < w,
            0 <= pos.1 < h,
        ensures
            r == self.spec_from(pos, w, h),
    {
        let (x, y) = pos;
        match *self {
            Direction::Up => if y == 0 {
                None
            } else {
                Some((x, y - 1))
            },
            Direction::Down => if y >= h - 1 {
                None
            } else {
                Some((x, y + 1))
            },
            Direction::Left => if x == 0 {
                None
            } else {
                Some((x - 1, y))
            },
            Direction::Right => if x >= w - 1 {
                None
            } else {
                Some((x + 1, y))
            },
        }
    }
}

} // verus!
