//! The rule by which one generation follows another.

use crate::grid::{adjacent, impact_set, lemma_neighbor_seq, neighborhood, Point};
use vstd::prelude::*;
use vstd::seq_lib::seq_to_set_is_finite;
use vstd::set_lib::{lemma_len_intersect, lemma_set_empty_equivalency_len};

verus! {

/// The number of cells in `live` that touch `p`.
pub open spec fn live_neighbors(live: Set<Point>, p: Point) -> nat {
    neighborhood(p).intersect(live).len()
}

/// Whether a cell lives in the next generation: a live cell with two or three live
/// neighbours stays alive, a dead cell with exactly three comes alive.
pub open spec fn alive_next(was_alive: bool, count: nat) -> bool {
    if was_alive {
        count == 2 || count == 3
    } else {
        count == 3
    }
}

/// The generation that follows `live`: every cell of the plane is judged by `alive_next`
/// against `live` itself.
pub open spec fn next_generation(live: Set<Point>) -> Set<Point> {
    Set::new(|p: Point| alive_next(live.contains(p), live_neighbors(live, p)))
}

/// Decides whether a cell is alive in the next generation, from whether it is alive now and
/// how many live cells touch it.
pub fn next_state(was_alive: bool, count: usize) -> (alive: bool)
    ensures
        alive == alive_next(was_alive, count as nat),
{
    if was_alive {
        count == 2 || count == 3
    } else {
        count == 3
    }
}

/// No cell has more than eight live neighbours.
pub proof fn lemma_live_neighbors_bound(live: Set<Point>, p: Point)
    ensures
        live_neighbors(live, p) <= 8,
{
    lemma_neighbor_seq(p);
    lemma_len_intersect(neighborhood(p), live);
}

/// Counting one more cell `q` of a list without repeats: the number of listed cells that are
/// in `live` grows by one where `q` is in `live`, and stays otherwise.
pub proof fn lemma_count_step(seen: Seq<Point>, q: Point, live: Set<Point>)
    requires
        !seen.contains(q),
    ensures
        seen.push(q).to_set().intersect(live).len() == seen.to_set().intersect(live).len()
            + (if live.contains(q) { 1nat } else { 0nat }),
{
    let before = seen.to_set().intersect(live);
    let after = seen.push(q).to_set().intersect(live);
    seq_to_set_is_finite(seen);
    seen.lemma_push_to_set_commute(q);
    if live.contains(q) {
        assert(after =~= before.insert(q));
    } else {
        assert(after =~= before);
    }
}

/// A cell with a live neighbour lies in the impact set of a live cell.
pub proof fn lemma_live_neighbor_exists(live: Set<Point>, p: Point)
    requires
        live_neighbors(live, p) > 0,
    ensures
        exists|q: Point| live.contains(q) && adjacent(q, p),
{
    lemma_neighbor_seq(p);
    let around = neighborhood(p).intersect(live);
    lemma_set_empty_equivalency_len(around);
    let q = choose|q: Point| around.contains(q);
    assert(live.contains(q) && adjacent(q, p));
}

/// Life does not arise far from life: a cell that is alive in the next generation lies in
/// the impact set of a cell that is alive now.
pub proof fn lemma_next_generation_is_near(live: Set<Point>, p: Point)
    requires
        next_generation(live).contains(p),
    ensures
        exists|q: Point| live.contains(q) && #[trigger] impact_set(q).contains(p),
{
    lemma_live_neighbor_exists(live, p);
    let q = choose|q: Point| live.contains(q) && adjacent(q, p);
    assert(impact_set(q).contains(p));
}

} // verus!
