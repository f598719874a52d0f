use vstd::prelude::*;

verus! {

/// A cell of the grid: column `x`, row `y`, with row 0 at the top.
#[derive(Clone, Copy, Debug, PartialEq, Eq, Structural)]
pub struct Point {
    pub x: u32,
    pub y: u32,
}

/// A direction of travel on the grid.
#[derive(Clone, Copy, Debug, PartialEq, Eq, Structural)]
pub enum Direction {
    Up,
    Down,
    Left,
    Right,
}

/// The coordinates one step from `p` in direction `d`, which may lie off the grid.
pub open spec fn shifted(p: Point, d: Direction) -> (int, int) {
    match d {
        Direction::Up => (p.x as int, p.y - 1),
        Direction::Down => (p.x as int, p.y + 1),
        Direction::Left => (p.x - 1, p.y as int),
        Direction::Right => (p.x + 1, p.y as int),
    }
}

/// Whether the coordinates `c` lie on a grid of `width` columns and `height` rows.
pub open spec fn within(width: u32, height: u32, c: (int, int)) -> bool {
    0 <= c.0 < width && 0 <= c.1 < height
}

/// The cell at coordinates `c`.
pub open spec fn cell_at(c: (int, int)) -> Point {
    Point { x: c.0 as u32, y: c.1 as u32 }
}

pub open spec fn opposite_spec(d: Direction) -> Direction {
    match d {
        Direction::Up => Direction::Down,
        Direction::Down => Direction::Up,
        Direction::Left => Direction::Right,
        Direction::Right => Direction::Left,
    }
}

/// The heading that a steering input leads to: no input, or the exact reversal
/// of the current heading, keeps the current heading; any other input is taken.
pub open spec fn resolve_spec(input: Option<Direction>, previous: Direction) -> Direction {
    match input {
        Some(d) => if d == opposite_spec(previous) { previous } else { d },
        None => previous,
    }
}

/// The direction that points the other way.
pub fn opposite_of(d: Direction) -> (r: Direction)
    ensures
        r == opposite_spec(d),
{
    match d {
        Direction::Up => Direction::Down,
        Direction::Down => Direction::Up,
        Direction::Left => Direction::Right,
        Direction::Right => Direction::Left,
    }
}

/// Turns a steering input into the next heading. A reversal would run the
/// head straight into the body, so it is ignored, as is a missing input.
pub fn resolve(input: Option<Direction>, previous: Direction) -> (r: Direction)
    ensures
        r == resolve_spec(input, previous),
{
    match input {
        Some(d) => {
            if d == opposite_of(previous) {
                previous
            } else {
                d
            }
        },
        None => previous,
    }
}

/// Asking to reverse never changes the heading.
pub proof fn lemma_reversal_suppressed(h: Direction)
    ensures
        resolve_spec(Some(opposite_spec(h)), h) == h,
{
}

/// Any other input than a reversal is taken as the new heading.
pub proof fn lemma_turn_taken(input: Direction, h: Direction)
    requires
        input != opposite_spec(h),
    ensures
        resolve_spec(Some(input), h) == input,
{
}

} // verus!
