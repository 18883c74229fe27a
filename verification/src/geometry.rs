use vstd::prelude::*;

verus! {

/// A 2D position in world units. Coordinates are integers: the editor snaps
/// every placement to its grid, so fractional positions never arise.
#[derive(Clone, Copy, PartialEq, Eq, Structural, Debug)]
pub struct Position {
    pub x: i64,
    pub y: i64,
}

/// Midpoint of two coordinates, rounding toward the lesser one, so the result
/// is symmetric in its arguments and always lies between them.
pub open spec fn mid_coord(a: int, b: int) -> int {
    if a <= b {
        a + (b - a) / 2
    } else {
        b + (a - b) / 2
    }
}

/// Midpoint of two positions, coordinate by coordinate.
pub open spec fn midpoint(p: Position, q: Position) -> Position {
    Position { x: mid_coord(p.x as int, q.x as int) as i64, y: mid_coord(p.y as int, q.y as int) as i64 }
}

proof fn lemma_mid_coord_bounds(a: int, b: int)
    ensures
        a <= b ==> a <= mid_coord(a, b) <= b,
        b <= a ==> b <= mid_coord(a, b) <= a,
{
}

/// Midpoint of two machine coordinates; never overflows because the result
/// lies between its arguments.
fn mid_coord_exec(a: i64, b: i64) -> (m: i64)
    ensures
        m as int == mid_coord(a as int, b as int),
{
    let (lo, hi) = if a <= b { (a, b) } else { (b, a) };
    let diff: u64 = ((hi as i128) - (lo as i128)) as u64;
    let half: u64 = diff / 2;
    proof {
        lemma_mid_coord_bounds(a as int, b as int);
    }
    lo + (half as i64)
}

impl Position {
    /// The midpoint of `self` and `other`, rounding each coordinate toward
    /// the lesser of the two.
    pub fn midpoint(&self, other: &Position) -> (m: Position)
        ensures
            m == midpoint(*self, *other),
    {
        Position { x: mid_coord_exec(self.x, other.x), y: mid_coord_exec(self.y, other.y) }
    }
}

} // verus!
