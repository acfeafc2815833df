//! Cells as hash keys: each cell of the plane has one `u64`, and each `u64` one cell.

use crate::grid::Point;
use vstd::prelude::*;

verus! {

/// The number of values of one coordinate.
pub const SPAN: u64 = 0x1_0000_0000;

/// The key of `p`: its coordinates, counted from the least one, as two 32-bit digits.
pub open spec fn key_of(p: Point) -> u64 {
    ((p.0 - i32::MIN) * SPAN + (p.1 - i32::MIN)) as u64
}

/// The cell whose key is `k`.
pub open spec fn point_of(k: u64) -> Point {
    ((k / SPAN + i32::MIN) as i32, (k % SPAN + i32::MIN) as i32)
}

/// `key_of` and `point_of` undo each other, so no two cells share a key.
pub proof fn lemma_key_round_trip()
    ensures
        forall|p: Point| #[trigger] point_of(key_of(p)) == p,
        forall|k: u64| #[trigger] key_of(point_of(k)) == k,
{
}

/// Computes the key of `p`.
pub fn pack(p: Point) -> (k: u64)
    ensures
        k == key_of(p),
{
    let hi: u64 = (p.0 as i64 - i32::MIN as i64) as u64;
    let lo: u64 = (p.1 as i64 - i32::MIN as i64) as u64;
    hi * SPAN + lo
}

/// Computes the cell whose key is `k`.
pub fn unpack(k: u64) -> (p: Point)
    ensures
        p == point_of(k),
{
    let x: i64 = (k / SPAN) as i64 + i32::MIN as i64;
    let y: i64 = (k % SPAN) as i64 + i32::MIN as i64;
    (x as i32, y as i32)
}

} // verus!
