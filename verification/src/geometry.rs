//! Grid points and the distance between them.

use vstd::prelude::*;

verus! {

/// A location on the integer grid. Two points are equal when both
/// coordinates are.
#[derive(Debug, Clone, Copy, PartialEq, Eq, Hash, Structural)]
pub struct Point {
    pub x: i32,
    pub y: i32,
}

impl Point {
    pub fn new(x: i32, y: i32) -> (p: Point)
        ensures
            p == (Point { x, y }),
    {
        Point { x, y }
    }
}

/// The absolute difference of two integers.
pub open spec fn gap(a: int, b: int) -> nat {
    if a >= b {
        (a - b) as nat
    } else {
        (b - a) as nat
    }
}

/// The Manhattan distance `|a.x - b.x| + |a.y - b.y|`. Every length and every
/// score in this crate is measured in this unit.
pub open spec fn manhattan(a: Point, b: Point) -> nat {
    gap(a.x as int, b.x as int) + gap(a.y as int, b.y as int)
}

/// The largest distance between two points whose coordinates are `i32`.
pub open spec fn max_distance() -> nat {
    0x1_ffff_fffe
}

/// Computes the Manhattan distance. The result is as wide as two `i32`
/// spans, so it is returned as `u64`.
pub fn get_dist(a: Point, b: Point) -> (d: u64)
    ensures
        d == manhattan(a, b),
        d <= max_distance(),
{
    let dx: i64 = a.x as i64 - b.x as i64;
    let dy: i64 = a.y as i64 - b.y as i64;
    let ax: u64 = if dx >= 0 {
        dx as u64
    } else {
        (-dx) as u64
    };
    let ay: u64 = if dy >= 0 {
        dy as u64
    } else {
        (-dy) as u64
    };
    ax + ay
}

} // verus!
