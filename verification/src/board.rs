//! The board: the set of live cells, and how it is read and filled.

use crate::grid::{impact_set, impacts, neighbors, Point};
use crate::key::{key_of, lemma_key_round_trip, pack, point_of, unpack};
use crate::rule::{
    lemma_count_step, lemma_live_neighbors_bound, lemma_next_generation_is_near, live_neighbors,
    next_generation, next_state,
};
use std::collections::HashSet;
use vstd::prelude::*;
use vstd::relations::injective_on;
use vstd::seq_lib::seq_to_set_is_finite;
use vstd::set_lib::{lemma_map_size, lemma_set_empty_equivalency_len, lemma_subset_equality};
use vstd::std_specs::cmp::PartialEqSpecImpl;
use vstd::std_specs::hash::spec_hash_keys_iter;
use vstd::std_specs::iter::IteratorSpec;

verus! {

broadcast use vstd::std_specs::hash::group_hash_axioms;

/// A generation of the game: the cells that are alive.
#[derive(Debug)]
pub struct Life {
    cells: HashSet<u64>,
}

impl View for Life {
    type V = Set<Point>;

    /// The live cells.
    closed spec fn view(&self) -> Set<Point> {
        Set::new(|p: Point| self.cells@.contains(key_of(p)))
    }
}

impl Default for Life {
    /// The board on which no cell is alive.
    fn default() -> (board: Life)
        ensures
            board@ == Set::<Point>::empty(),
    {
        Life { cells: HashSet::new() }
    }
}

impl Clone for Life {
    /// A board of its own that holds the same live cells.
    fn clone(&self) -> (copy: Life)
        ensures
            copy@ == self@,
    {
        let live = self.cells();
        Life::from_iter(live.as_slice())
    }
}

impl PartialEq for Life {
    /// Two boards are equal where the same cells are alive on both.
    fn eq(&self, other: &Life) -> (equal: bool) {
        if self.len() != other.len() {
            return false;
        }
        let live = self.cells();
        let mut i: usize = 0;
        while i < live.len()
            invariant
                i <= live.len(),
                live@.to_set() == self@,
                forall|j: int| 0 <= j < i ==> other@.contains(#[trigger] live@[j]),
            decreases live.len() - i,
        {
            if !other.contains(&live[i]) {
                assert(live@.to_set().contains(live@[i as int]));
                return false;
            }
            i = i + 1;
        }
        proof {
            assert forall|p: Point| self@.contains(p) implies other@.contains(p) by {
                assert(live@.to_set().contains(p));
            }
            lemma_subset_equality(self@, other@);
        }
        true
    }
}

impl Eq for Life {

}

impl PartialEqSpecImpl for Life {
    open spec fn obeys_eq_spec() -> bool {
        true
    }

    open spec fn eq_spec(&self, other: &Life) -> bool {
        self@ == other@
    }
}

impl Life {
    /// The number of live cells.
    pub fn len(&self) -> (n: usize)
        ensures
            self@.finite(),
            n == self@.len(),
    {
        proof {
            self.lemma_size();
        }
        self.cells.len()
    }

    /// Tells whether no cell is alive.
    pub fn is_empty(&self) -> (empty: bool)
        ensures
            empty == (self@.len() == 0),
            empty == (self@ == Set::<Point>::empty()),
    {
        proof {
            self.lemma_size();
            lemma_set_empty_equivalency_len(self@);
        }
        self.cells.is_empty()
    }

    /// Makes `pt` alive, and tells whether it was dead before.
    pub fn insert(&mut self, pt: Point) -> (fresh: bool)
        ensures
            final(self)@ == old(self)@.insert(pt),
            fresh == !old(self)@.contains(pt),
            final(self)@.len() == old(self)@.len() + (if fresh { 1nat } else { 0nat }),
    {
        proof {
            lemma_key_round_trip();
            self.lemma_size();
        }
        let fresh = self.cells.insert(pack(pt));
        assert(self@ =~= old(self)@.insert(pt));
        fresh
    }

    /// Tells whether `pt` is alive.
    pub fn contains(&self, pt: &Point) -> (alive: bool)
        ensures
            alive == self@.contains(*pt),
    {
        let k = pack(*pt);
        self.cells.contains(&k)
    }

    /// Makes every cell of `points` alive; a cell that is listed twice, or alive already,
    /// counts once.
    pub fn extend(&mut self, points: &[Point])
        ensures
            final(self)@ == old(self)@.union(points@.to_set()),
    {
        let mut i: usize = 0;
        while i < points.len()
            invariant
                i <= points.len(),
                self@ == old(self)@.union(points@.take(i as int).to_set()),
            decreases points.len() - i,
        {
            proof {
                assert(points@.take(i + 1) =~= points@.take(i as int).push(points@[i as int]));
                points@.take(i as int).lemma_push_to_set_commute(points@[i as int]);
            }
            self.insert(points[i]);
            i = i + 1;
        }
        assert(points@.take(points.len() as int) =~= points@);
    }

    /// The board on which the cells of `points` are alive, and no others.
    pub fn from_iter(points: &[Point]) -> (board: Life)
        ensures
            board@ == points@.to_set(),
    {
        let mut board = Life::default();
        board.extend(points);
        board
    }

    /// Moves the board on by one generation: every cell is judged at once, against the
    /// generation that the board held when the call began.
    pub fn tick(&mut self)
        ensures
            final(self)@ == next_generation(old(self)@),
            forall|p: Point| #[trigger]
                final(self)@.contains(p) ==> exists|q: Point|
                    old(self)@.contains(q) && #[trigger] impact_set(q).contains(p),
    {
        // Only a cell that a live cell bears on can be alive afterwards: those are judged.
        let live = self.cells();
        let mut candidates = Life::default();
        let mut i: usize = 0;
        while i < live.len()
            invariant
                i <= live.len(),
                forall|j: int, p: Point|
                    0 <= j < i && #[trigger] impact_set(live@[j]).contains(p)
                        ==> candidates@.contains(p),
            decreases live.len() - i,
        {
            let around = impacts(live[i]);
            candidates.extend(around.as_slice());
            i = i + 1;
        }
        // `self` still holds the old generation while the new one is gathered in `next`.
        let to_check = candidates.cells();
        let mut next = Life::default();
        let mut i: usize = 0;
        while i < to_check.len()
            invariant
                i <= to_check.len(),
                next@ == to_check@.take(i as int).to_set().intersect(next_generation(self@)),
            decreases to_check.len() - i,
        {
            let pt = to_check[i];
            let count = self.live_neighbors(pt);
            let was_alive = self.contains(&pt);
            proof {
                assert(to_check@.take(i + 1) =~= to_check@.take(i as int).push(pt));
                to_check@.take(i as int).lemma_push_to_set_commute(pt);
            }
            if next_state(was_alive, count) {
                next.insert(pt);
            }
            i = i + 1;
        }
        proof {
            assert(to_check@.take(to_check.len() as int) =~= to_check@);
            assert forall|p: Point| next_generation(self@).contains(p) implies to_check@.contains(p) by {
                lemma_next_generation_is_near(self@, p);
                let q = choose|q: Point| self@.contains(q) && #[trigger] impact_set(q).contains(p);
                assert(live@.to_set().contains(q));
                let j = choose|j: int| 0 <= j < live@.len() && live@[j] == q;
                assert(impact_set(live@[j]).contains(p));
                assert(candidates@.contains(p));
            }
            assert(next@ =~= next_generation(self@));
            assert forall|p: Point| #[trigger] next@.contains(p) implies exists|q: Point|
                self@.contains(q) && #[trigger] impact_set(q).contains(p) by {
                lemma_next_generation_is_near(self@, p);
            }
        }
        *self = next;
    }

    /// Counts the live cells that touch `pt`.
    pub fn live_neighbors(&self, pt: Point) -> (count: usize)
        ensures
            count == live_neighbors(self@, pt),
            count <= 8,
    {
        let around = neighbors(pt);
        let mut count: usize = 0;
        let mut i: usize = 0;
        assert(around@.take(0).to_set().intersect(self@) =~= Set::empty());
        while i < around.len()
            invariant
                i <= around.len(),
                around@.no_duplicates(),
                count <= i,
                count == around@.take(i as int).to_set().intersect(self@).len(),
            decreases around.len() - i,
        {
            let q = around[i];
            proof {
                let seen = around@.take(i as int);
                assert(around@.take(i + 1) =~= seen.push(q));
                lemma_count_step(seen, q, self@);
            }
            if self.contains(&q) {
                count = count + 1;
            }
            i = i + 1;
        }
        proof {
            assert(around@.take(around.len() as int) =~= around@);
            lemma_live_neighbors_bound(self@, pt);
        }
        count
    }

    /// Lists the live cells, each once, in no particular order.
    pub fn cells(&self) -> (v: Vec<Point>)
        ensures
            v@.no_duplicates(),
            v@.to_set() == self@,
    {
        let ghost keys: Seq<&u64> = spec_hash_keys_iter(&self.cells).remaining();
        let mut v: Vec<Point> = Vec::new();
        for k in it: self.cells.iter()
            invariant
                it.seq() == keys,
                v@.len() == it.index(),
                forall|j: int| 0 <= j < v@.len() ==> v@[j] == point_of(*#[trigger] keys[j]),
        {
            v.push(unpack(*k));
        }
        proof {
            lemma_key_round_trip();
            assert forall|i: int, j: int|
                0 <= i < v@.len() && 0 <= j < v@.len() && i != j implies v@[i] != v@[j] by {
                assert(key_of(point_of(*keys[i])) != key_of(point_of(*keys[j])));
            }
            assert forall|p: Point| v@.to_set().contains(p) <==> self@.contains(p) by {
                if v@.to_set().contains(p) {
                    let j = choose|j: int| 0 <= j < v@.len() && v@[j] == p;
                    assert(keys.unref()[j] == key_of(p));
                }
                if self@.contains(p) {
                    let j = choose|j: int| 0 <= j < keys.len() && keys.unref()[j] == key_of(p);
                    assert(v@[j] == p);
                }
            }
            assert(v@.to_set() =~= self@);
        }
        v
    }

    /// A board holds finitely many cells, as many as it stores keys.
    proof fn lemma_size(&self)
        ensures
            self.cells@.finite(),
            self@.finite(),
            self@.len() == self.cells@.len(),
    {
        let keys = spec_hash_keys_iter(&self.cells).remaining();
        seq_to_set_is_finite(keys.unref());
        lemma_key_round_trip();
        let f = |k: u64| point_of(k);
        assert(injective_on(f, self.cells@)) by {
            assert forall|a: u64, b: u64|
                #[trigger] point_of(a) == #[trigger] point_of(b) implies a == b by {
                assert(key_of(point_of(a)) == key_of(point_of(b)));
            }
        }
        assert(self.cells@.map(f) =~= self@) by {
            assert forall|p: Point| self@.contains(p) implies self.cells@.map(f).contains(p) by {
                assert(self.cells@.contains(key_of(p)) && f(key_of(p)) == p);
            }
        }
        lemma_map_size(self.cells@, self@, f);
    }

    /// A board holds finitely many cells.
    pub proof fn lemma_finite(&self)
        ensures
            self@.finite(),
    {
        self.lemma_size();
    }

    /// A tick is a function of the live cells alone: two boards on which the same cells are
    /// alive are, each after a tick of its own, again boards on which the same cells are
    /// alive, however each of them stores its cells.
    pub proof fn lemma_tick_deterministic(a: Life, b: Life, a_next: Life, b_next: Life)
        requires
            a@ == b@,
            a_next@ == next_generation(a@),
            b_next@ == next_generation(b@),
        ensures
            a_next@ == b_next@,
    {
    }
}

} // verus!
