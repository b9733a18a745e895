//! The answer as it is handed to the outside: two lines of numbers.
//!
//! Inside the crate orders are numbered from zero. On the first line of
//! the answer they are numbered from one.

use vstd::prelude::*;
use crate::geometry::Point;

verus! {

/// The first line of the answer: how many orders the route serves, then
/// their ids, each one more than inside the crate.
pub open spec fn id_line_of(ids: Seq<usize>) -> Seq<u128> {
    seq![ids.len() as u128] + Seq::new(ids.len(), |i: int| (ids[i] + 1) as u128)
}

/// The second line of the answer: how many points the path has, then the
/// x and the y coordinate of each of them in path order, both ends of the
/// path included.
pub open spec fn point_line_of(path: Seq<Point>) -> Seq<i128> {
    seq![path.len() as i128] + Seq::new(
        2 * path.len(),
        |i: int|
            if i % 2 == 0 {
                path[i / 2].x as i128
            } else {
                path[i / 2].y as i128
            },
    )
}

/// The numbers of the first line of the answer.
pub fn id_line(ids: &Vec<usize>) -> (line: Vec<u128>)
    ensures
        line@ == id_line_of(ids@),
{
    let mut line: Vec<u128> = Vec::new();
    line.push(ids.len() as u128);
    let mut k: usize = 0;
    while k < ids.len()
        invariant
            k <= ids.len(),
            line@ =~= seq![ids.len() as u128] + Seq::new(k as nat, |i: int| (ids[i] + 1) as u128),
        decreases ids.len() - k,
    {
        line.push(ids[k] as u128 + 1);
        k += 1;
    }
    line
}

/// The numbers of the second line of the answer.
pub fn point_line(path: &Vec<Point>) -> (line: Vec<i128>)
    ensures
        line@ == point_line_of(path@),
{
    let mut line: Vec<i128> = Vec::new();
    line.push(path.len() as i128);
    let mut k: usize = 0;
    while k < path.len()
        invariant
            k <= path.len(),
            line@ =~= seq![path.len() as i128] + Seq::new(
                2 * (k as nat),
                |i: int|
                    if i % 2 == 0 {
                        path[i / 2].x as i128
                    } else {
                        path[i / 2].y as i128
                    },
            ),
        decreases path.len() - k,
    {
        line.push(path[k].x as i128);
        line.push(path[k].y as i128);
        k += 1;
    }
    line
}

} // verus!
