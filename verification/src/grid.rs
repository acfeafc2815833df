//! Coordinates of the plane and the cells that surround one of them.

use vstd::prelude::*;
use vstd::seq_lib::{seq_to_set_distributes_over_add, seq_to_set_is_finite};

verus! {

/// A cell of the plane, as `(x, y)`.
pub type Point = (i32, i32);

/// Two cells touch: they differ, and neither coordinate differs by more than one.
pub open spec fn adjacent(a: Point, b: Point) -> bool {
    &&& a != b
    &&& -1 <= a.0 - b.0 <= 1
    &&& -1 <= a.1 - b.1 <= 1
}

/// The cell `(dx, dy)` away from `p`, or nothing where it would leave the plane.
pub open spec fn shifted(p: Point, dx: int, dy: int) -> Seq<Point> {
    if i32::MIN <= p.0 + dx <= i32::MAX && i32::MIN <= p.1 + dy <= i32::MAX {
        seq![((p.0 + dx) as i32, (p.1 + dy) as i32)]
    } else {
        Seq::empty()
    }
}

/// The neighbours of `p` in the order in which `neighbors` lists them.
pub open spec fn neighbor_seq(p: Point) -> Seq<Point> {
    shifted(p, 1, 0) + shifted(p, 0, 1) + shifted(p, 1, 1) + shifted(p, 1, -1)
        + shifted(p, -1, 0) + shifted(p, 0, -1) + shifted(p, -1, 1) + shifted(p, -1, -1)
}

/// The cells that touch `p`.
pub open spec fn neighborhood(p: Point) -> Set<Point> {
    Set::new(|q: Point| adjacent(p, q))
}

/// The cells whose fate a live cell at `p` bears on: `p` and the cells that touch it.
pub open spec fn impact_set(p: Point) -> Set<Point> {
    neighborhood(p).insert(p)
}

/// `shifted` holds at most the one cell that lies `(dx, dy)` away from `p`.
pub proof fn lemma_shifted(p: Point, dx: int, dy: int)
    ensures
        shifted(p, dx, dy).len() <= 1,
        forall|q: Point| #[trigger]
            shifted(p, dx, dy).contains(q) <==> q.0 - p.0 == dx && q.1 - p.1 == dy,
{
    let s = shifted(p, dx, dy);
    assert forall|q: Point| q.0 - p.0 == dx && q.1 - p.1 == dy implies s.contains(q) by {
        assert(s[0] == q);
    }
}

/// `neighbor_seq` lists the cells that touch `p`, each once: eight of them, and fewer only
/// where `p` lies on the edge of the plane.
pub proof fn lemma_neighbor_seq(p: Point)
    ensures
        neighbor_seq(p).len() <= 8,
        neighbor_seq(p).len() == 8 <==> i32::MIN < p.0 < i32::MAX && i32::MIN < p.1 < i32::MAX,
        neighbor_seq(p).no_duplicates(),
        neighbor_seq(p).to_set() == neighborhood(p),
        neighborhood(p).finite(),
        neighborhood(p).len() == neighbor_seq(p).len(),
{
    lemma_shifted(p, 1, 0);
    lemma_shifted(p, 0, 1);
    lemma_shifted(p, 1, 1);
    lemma_shifted(p, 1, -1);
    lemma_shifted(p, -1, 0);
    lemma_shifted(p, 0, -1);
    lemma_shifted(p, -1, 1);
    lemma_shifted(p, -1, -1);
    let e = shifted(p, 1, 0);
    let n = shifted(p, 0, 1);
    let ne = shifted(p, 1, 1);
    let se = shifted(p, 1, -1);
    let w = shifted(p, -1, 0);
    let s = shifted(p, 0, -1);
    let nw = shifted(p, -1, 1);
    let sw = shifted(p, -1, -1);
    seq_to_set_distributes_over_add(e, n);
    seq_to_set_distributes_over_add(e + n, ne);
    seq_to_set_distributes_over_add(e + n + ne, se);
    seq_to_set_distributes_over_add(e + n + ne + se, w);
    seq_to_set_distributes_over_add(e + n + ne + se + w, s);
    seq_to_set_distributes_over_add(e + n + ne + se + w + s, nw);
    seq_to_set_distributes_over_add(e + n + ne + se + w + s + nw, sw);
    assert(neighbor_seq(p).to_set() =~= neighborhood(p));
    seq_to_set_is_finite(neighbor_seq(p));
    neighbor_seq(p).unique_seq_to_set();
}

/// Lists the cells that touch `pt`: east, north, north-east, south-east, west, south,
/// north-west, south-west. A cell that would lie outside the plane is left out.
pub fn neighbors(pt: Point) -> (v: Vec<Point>)
    ensures
        v@ == neighbor_seq(pt),
        v@.len() <= 8,
        v@.no_duplicates(),
        v@.to_set() == neighborhood(pt),
{
    proof {
        lemma_neighbor_seq(pt);
    }
    let (x, y) = pt;
    let mut v: Vec<Point> = Vec::new();
    let x_plus = x.checked_add(1);
    let x_minus = x.checked_sub(1);
    let y_plus = y.checked_add(1);
    let y_minus = y.checked_sub(1);
    if let Some(x) = x_plus {
        v.push((x, y));
    }
    if let Some(y) = y_plus {
        v.push((x, y));
    }
    if let (Some(x), Some(y)) = (x_plus, y_plus) {
        v.push((x, y));
    }
    if let (Some(x), Some(y)) = (x_plus, y_minus) {
        v.push((x, y));
    }
    if let Some(x) = x_minus {
        v.push((x, y));
    }
    if let Some(y) = y_minus {
        v.push((x, y));
    }
    if let (Some(x), Some(y)) = (x_minus, y_plus) {
        v.push((x, y));
    }
    if let (Some(x), Some(y)) = (x_minus, y_minus) {
        v.push((x, y));
    }
    assert(v@ =~= neighbor_seq(pt));
    v
}

/// Lists `pt` after the cells that touch it: the cells that a live cell at `pt` bears on.
pub fn impacts(pt: Point) -> (v: Vec<Point>)
    ensures
        v@ == neighbor_seq(pt).push(pt),
        v@.no_duplicates(),
        v@.to_set() == impact_set(pt),
{
    let mut v = neighbors(pt);
    v.push(pt);
    proof {
        assert(v@.to_set() =~= impact_set(pt)) by {
            neighbor_seq(pt).lemma_push_to_set_commute(pt);
        }
    }
    v
}

} // verus!
