//! The live-cell set: the sole persistent state of the simulation, with the
//! three operations the driver needs — toggling one cell, stepping one
//! generation, and trimming cells far outside the nominal grid bounds — and
//! read-only queries for the renderer.
//!
//! Cells are kept as a duplicate-free vector of coordinates; the abstract
//! state is the `Set` of integer coordinate pairs it holds. Every mutating
//! operation builds a fresh vector and installs it whole, so a reader never
//! observes a partial generation.

use vstd::prelude::*;

use crate::rules::in_coord_range;
use crate::rules::is_neighbor;
use crate::rules::lemma_count_nonzero_has_neighbor;
use crate::rules::neighbor_count;
use crate::rules::next_alive;
use crate::rules::step_spec;
use crate::rules::toggle_spec;

verus! {

/// One cell position on the signed grid.
#[derive(Clone, Copy, PartialEq, Eq, Structural, Debug)]
pub struct Coord {
    pub x: i32,
    pub y: i32,
}

/// The coordinate pair a `Coord` stands for.
pub open spec fn coord_pair(c: Coord) -> (int, int) {
    (c.x as int, c.y as int)
}

/// The nominal logical grid size; used only by the trimming policy, never as
/// a hard simulation boundary.
#[derive(Clone, Copy, Debug)]
pub struct GridBounds {
    pub width: i32,
    pub height: i32,
}

/// The rectangle within which `trim` keeps cells: the grid bounds expanded by
/// `margin` in every direction.
pub open spec fn in_trim_region(p: (int, int), bounds: GridBounds, margin: int) -> bool {
    &&& -margin <= p.0 < bounds.width + margin
    &&& -margin <= p.1 < bounds.height + margin
}

/// Some entry of `cells` stands for the pair `p`.
pub open spec fn seq_has(cells: Seq<Coord>, p: (int, int)) -> bool {
    exists|i: int| 0 <= i < cells.len() && coord_pair(cells[i]) == p
}

/// No two entries of `cells` stand for the same pair.
pub open spec fn unique_coords(cells: Seq<Coord>) -> bool {
    forall|i: int, j: int|
        0 <= i < j < cells.len() ==> coord_pair(cells[i]) != coord_pair(cells[j])
}

/// The set of coordinate pairs the entries of `cells` stand for.
spec fn set_of(cells: Seq<Coord>) -> Set<(int, int)> {
    Set::new(|p: (int, int)| seq_has(cells, p))
}

proof fn lemma_seq_has_push(cells: Seq<Coord>, c: Coord, q: (int, int))
    ensures
        seq_has(cells.push(c), q) <==> (seq_has(cells, q) || coord_pair(c) == q),
{
    if seq_has(cells, q) {
        let i = choose|i: int| 0 <= i < cells.len() && coord_pair(cells[i]) == q;
        assert(cells.push(c)[i] == cells[i]);
        assert(seq_has(cells.push(c), q));
    }
    if coord_pair(c) == q {
        assert(cells.push(c)[cells.len() as int] == c);
        assert(seq_has(cells.push(c), q));
    }
    if seq_has(cells.push(c), q) && coord_pair(c) != q {
        let i = choose|i: int|
            0 <= i < cells.push(c).len() && coord_pair(cells.push(c)[i]) == q;
        assert(i < cells.len());
        assert(cells.push(c)[i] == cells[i]);
        assert(seq_has(cells, q));
    }
}

proof fn lemma_unique_push(cells: Seq<Coord>, c: Coord)
    requires
        unique_coords(cells),
        !seq_has(cells, coord_pair(c)),
    ensures
        unique_coords(cells.push(c)),
{
    assert forall|i: int, j: int|
        0 <= i < j < cells.push(c).len() implies coord_pair(cells.push(c)[i]) != coord_pair(
        cells.push(c)[j],
    ) by {
        assert(cells.push(c)[i] == cells[i]);
        if j < cells.len() {
            assert(cells.push(c)[j] == cells[j]);
        } else {
            assert(cells.push(c)[j] == c);
            if coord_pair(cells[i]) == coord_pair(c) {
                assert(seq_has(cells, coord_pair(c)));
            }
        }
    }
}

/// True when some entry of `cells` stands for the pair `(x, y)`. The wide
/// arguments let neighbor positions of boundary cells be asked about without
/// overflowing.
fn find_coord(cells: &Vec<Coord>, x: i64, y: i64) -> (r: bool)
    ensures
        r == seq_has(cells@, (x as int, y as int)),
{
    let mut i: usize = 0;
    while i < cells.len()
        invariant
            i <= cells@.len(),
            forall|j: int| 0 <= j < i ==> coord_pair(cells@[j]) != (x as int, y as int),
        decreases cells@.len() - i,
    {
        let c = cells[i];
        if c.x as i64 == x && c.y as i64 == y {
            assert(coord_pair(cells@[i as int]) == (x as int, y as int));
            return true;
        }
        i = i + 1;
    }
    false
}

/// The number of alive neighbors of `(x, y)` among the cells, over the
/// eight-connected Moore neighborhood.
fn count_neighbors(cells: &Vec<Coord>, x: i64, y: i64) -> (n: u32)
    requires
        i32::MIN - 1 <= x <= i32::MAX + 1,
        i32::MIN - 1 <= y <= i32::MAX + 1,
    ensures
        n == neighbor_count(set_of(cells@), (x as int, y as int)),
{
    let mut n: u32 = 0;
    if find_coord(cells, x - 1, y - 1) {
        n = n + 1;
    }
    if find_coord(cells, x - 1, y) {
        n = n + 1;
    }
    if find_coord(cells, x - 1, y + 1) {
        n = n + 1;
    }
    if find_coord(cells, x, y - 1) {
        n = n + 1;
    }
    if find_coord(cells, x, y + 1) {
        n = n + 1;
    }
    if find_coord(cells, x + 1, y - 1) {
        n = n + 1;
    }
    if find_coord(cells, x + 1, y) {
        n = n + 1;
    }
    if find_coord(cells, x + 1, y + 1) {
        n = n + 1;
    }
    n
}

/// Record the birth at `(x, y)`, if there is one: a representable position
/// that is dead and has exactly 3 alive neighbors is appended to `next`,
/// unless already present; anything else leaves `next` unchanged.
fn consider_birth(next: &mut Vec<Coord>, cells: &Vec<Coord>, x: i64, y: i64)
    requires
        i32::MIN - 1 <= x <= i32::MAX + 1,
        i32::MIN - 1 <= y <= i32::MAX + 1,
        unique_coords(old(next)@),
        forall|k: int|
            0 <= k < old(next)@.len() ==> next_alive(set_of(cells@), coord_pair(old(next)@[k])),
    ensures
        unique_coords(final(next)@),
        forall|k: int|
            0 <= k < final(next)@.len() ==> next_alive(set_of(cells@), coord_pair(final(next)@[k])),
        forall|q: (int, int)| seq_has(old(next)@, q) ==> seq_has(final(next)@, q),
        (in_coord_range((x as int, y as int)) && !set_of(cells@).contains((x as int, y as int))
            && neighbor_count(set_of(cells@), (x as int, y as int)) == 3) ==> seq_has(
            final(next)@,
            (x as int, y as int),
        ),
{
    if x < i32::MIN as i64 || x > i32::MAX as i64 || y < i32::MIN as i64 || y > i32::MAX as i64 {
        return ;
    }
    if find_coord(cells, x, y) {
        return ;
    }
    if find_coord(next, x, y) {
        return ;
    }
    let n = count_neighbors(cells, x, y);
    if n == 3 {
        let c = Coord { x: x as i32, y: y as i32 };
        let ghost n0 = next@;
        proof {
            assert(coord_pair(c) == (x as int, y as int));
            lemma_unique_push(next@, c);
        }
        next.push(c);
        proof {
            assert(next@ == n0.push(c));
            assert forall|q: (int, int)| seq_has(n0, q) implies seq_has(next@, q) by {
                lemma_seq_has_push(n0, c, q);
            }
            assert forall|k: int|
                0 <= k < next@.len() implies next_alive(set_of(cells@), coord_pair(next@[k])) by {
                if k < n0.len() {
                    assert(next@[k] == n0[k]);
                } else {
                    assert(next@[k] == c);
                }
            }
            assert(coord_pair(next@[n0.len() as int]) == (x as int, y as int));
            assert(seq_has(next@, (x as int, y as int)));
        }
    }
}

/// Births are recorded around `p`: every representable dead Moore neighbor
/// of `p` with exactly 3 alive neighbors in `s` appears in `next`.
spec fn births_done_around(next: Seq<Coord>, s: Set<(int, int)>, p: (int, int)) -> bool {
    forall|q: (int, int)|
        is_neighbor(p, q) && in_coord_range(q) && !s.contains(q) && neighbor_count(s, q) == 3
            ==> seq_has(next, q)
}

/// Record every birth in the Moore neighborhood of the alive cell `c`.
fn births_around(next: &mut Vec<Coord>, cells: &Vec<Coord>, c: Coord)
    requires
        unique_coords(old(next)@),
        forall|k: int|
            0 <= k < old(next)@.len() ==> next_alive(set_of(cells@), coord_pair(old(next)@[k])),
    ensures
        unique_coords(final(next)@),
        forall|k: int|
            0 <= k < final(next)@.len() ==> next_alive(set_of(cells@), coord_pair(final(next)@[k])),
        forall|q: (int, int)| seq_has(old(next)@, q) ==> seq_has(final(next)@, q),
        births_done_around(final(next)@, set_of(cells@), coord_pair(c)),
{
    let cx = c.x as i64;
    let cy = c.y as i64;
    let ghost s = set_of(cells@);
    let ghost p = coord_pair(c);
    consider_birth(next, cells, cx - 1, cy - 1);
    consider_birth(next, cells, cx - 1, cy);
    consider_birth(next, cells, cx - 1, cy + 1);
    consider_birth(next, cells, cx, cy - 1);
    consider_birth(next, cells, cx, cy + 1);
    consider_birth(next, cells, cx + 1, cy - 1);
    consider_birth(next, cells, cx + 1, cy);
    consider_birth(next, cells, cx + 1, cy + 1);
    proof {
        assert forall|q: (int, int)|
            is_neighbor(p, q) && in_coord_range(q) && !s.contains(q) && neighbor_count(s, q) == 3
                implies seq_has(next@, q) by {
            assert(q.0 == p.0 - 1 || q.0 == p.0 || q.0 == p.0 + 1);
            assert(q.1 == p.1 - 1 || q.1 == p.1 || q.1 == p.1 + 1);
        }
    }
}

/// The set of currently alive cells. A coordinate is in the abstract set if
/// and only if that cell is alive; dead cells have no representation.
pub struct CellSet {
    cells: Vec<Coord>,
}

impl View for CellSet {
    type V = Set<(int, int)>;

    closed spec fn view(&self) -> Set<(int, int)> {
        set_of(self.cells@)
    }
}

impl CellSet {
    #[verifier::type_invariant]
    spec fn wf(&self) -> bool {
        unique_coords(self.cells@)
    }

    /// The empty set: the state at simulation start.
    pub fn new() -> (r: CellSet)
        ensures
            r@ == Set::<(int, int)>::empty(),
    {
        let r = CellSet { cells: Vec::new() };
        proof {
            assert(r@ =~= Set::<(int, int)>::empty());
        }
        r
    }

    /// Whether the cell at `(x, y)` is alive.
    pub fn is_alive(&self, x: i32, y: i32) -> (r: bool)
        ensures
            r == self@.contains((x as int, y as int)),
    {
        find_coord(&self.cells, x as i64, y as i64)
    }

    /// The alive cells, each exactly once, for a read-only drawing pass.
    pub fn iterate_alive(&self) -> (r: &Vec<Coord>)
        ensures
            forall|k: int| 0 <= k < r@.len() ==> self@.contains(coord_pair(r@[k])),
            forall|p: (int, int)| self@.contains(p) ==> seq_has(r@, p),
            unique_coords(r@),
    {
        proof {
            use_type_invariant(self);
        }
        &self.cells
    }

    /// Flip the liveness of one coordinate: remove it when alive, insert it
    /// when dead.
    pub fn toggle(&mut self, x: i32, y: i32)
        ensures
            final(self)@ == toggle_spec(old(self)@, (x as int, y as int)),
    {
        proof {
            use_type_invariant(&*self);
        }
        let ghost s0 = self@;
        let ghost p: (int, int) = (x as int, y as int);
        if find_coord(&self.cells, x as i64, y as i64) {
            let next = remove_coord(&self.cells, x, y);
            proof {
                assert(set_of(next@) =~= s0.remove(p));
            }
            self.cells = next;
        } else {
            let mut next = copy_coords(&self.cells);
            let c = Coord { x, y };
            let ghost n0 = next@;
            proof {
                assert(coord_pair(c) == p);
                lemma_unique_push(next@, c);
            }
            next.push(c);
            proof {
                assert forall|q: (int, int)|
                    set_of(next@).contains(q) == s0.insert(p).contains(q) by {
                    lemma_seq_has_push(n0, c, q);
                }
                assert(set_of(next@) =~= s0.insert(p));
            }
            self.cells = next;
        }
    }

    /// Remove every cell whose x or y falls outside the grid bounds expanded
    /// by `margin`. A deliberate, lossy policy: cells beyond the margin are
    /// permanently destroyed, trading exactness at the far frontier for
    /// bounded memory as patterns drift off the grid.
    pub fn trim(&mut self, bounds: GridBounds, margin: i32)
        ensures
            final(self)@ == old(self)@.filter(
                |p: (int, int)| in_trim_region(p, bounds, margin as int),
            ),
    {
        proof {
            use_type_invariant(&*self);
        }
        let ghost s0 = self@;
        let mut r: Vec<Coord> = Vec::new();
        let mut i: usize = 0;
        while i < self.cells.len()
            invariant
                i <= self.cells@.len(),
                unique_coords(self.cells@),
                s0 == set_of(self.cells@),
                unique_coords(r@),
                forall|k: int|
                    #![trigger r@[k]]
                    0 <= k < r@.len() ==> exists|j: int|
                        #![trigger self.cells@[j]]
                        0 <= j < i && self.cells@[j] == r@[k],
                forall|k: int|
                    0 <= k < r@.len() ==> in_trim_region(coord_pair(r@[k]), bounds, margin as int),
                forall|j: int|
                    0 <= j < i && in_trim_region(coord_pair(self.cells@[j]), bounds, margin as int)
                        ==> seq_has(r@, coord_pair(self.cells@[j])),
            decreases self.cells@.len() - i,
        {
            let c = self.cells[i];
            let keep = (c.x as i64) >= -(margin as i64) && (c.x as i64) < (bounds.width as i64) + (
            margin as i64) && (c.y as i64) >= -(margin as i64) && (c.y as i64) < (bounds.height
                as i64) + (margin as i64);
            if keep {
                let ghost r0 = r@;
                proof {
                    assert forall|k: int| 0 <= k < r@.len() implies coord_pair(r@[k])
                        != coord_pair(c) by {
                        let j = choose|j: int| 0 <= j < i && self.cells@[j] == r@[k];
                        assert(coord_pair(self.cells@[j]) != coord_pair(self.cells@[i as int]));
                    }
                    lemma_unique_push(r@, c);
                }
                r.push(c);
                proof {
                    assert(self.cells@[i as int] == r@[r0.len() as int]);
                    assert forall|j: int|
                        0 <= j < i + 1 && in_trim_region(
                            coord_pair(self.cells@[j]),
                            bounds,
                            margin as int,
                        ) implies seq_has(r@, coord_pair(self.cells@[j])) by {
                        lemma_seq_has_push(r0, c, coord_pair(self.cells@[j]));
                    }
                }
            }
            i = i + 1;
        }
        proof {
            let f = |p: (int, int)| in_trim_region(p, bounds, margin as int);
            assert forall|q: (int, int)| set_of(r@).contains(q) == s0.filter(f).contains(q) by {
                if set_of(r@).contains(q) {
                    let k = choose|k: int| 0 <= k < r@.len() && coord_pair(r@[k]) == q;
                    let j = choose|j: int| 0 <= j < self.cells@.len() && self.cells@[j] == r@[k];
                    assert(seq_has(self.cells@, q));
                }
                if s0.filter(f).contains(q) {
                    let j = choose|j: int|
                        0 <= j < self.cells@.len() && coord_pair(self.cells@[j]) == q;
                    assert(seq_has(r@, coord_pair(self.cells@[j])));
                }
            }
            assert(set_of(r@) =~= s0.filter(f));
        }
        self.cells = r;
    }

    /// Advance one generation: replace the whole set with the cells alive by
    /// Conway's rule — survivors with 2 or 3 alive neighbors, and births on
    /// dead cells with exactly 3 — restricted to representable coordinates.
    /// Birth candidates are the Moore neighbors of currently alive cells;
    /// no other dead cell can have a nonzero neighbor count, so none can be
    /// born, and no valid birth is missed.
    pub fn step(&mut self)
        ensures
            final(self)@ == step_spec(old(self)@),
    {
        proof {
            use_type_invariant(&*self);
        }
        let ghost s0 = self@;
        let mut next: Vec<Coord> = Vec::new();
        // Survivors: alive cells that keep 2 or 3 alive neighbors.
        let mut i: usize = 0;
        while i < self.cells.len()
            invariant
                i <= self.cells@.len(),
                unique_coords(self.cells@),
                s0 == set_of(self.cells@),
                unique_coords(next@),
                forall|k: int|
                    #![trigger next@[k]]
                    0 <= k < next@.len() ==> exists|j: int|
                        #![trigger self.cells@[j]]
                        0 <= j < i && self.cells@[j] == next@[k],
                forall|k: int| 0 <= k < next@.len() ==> next_alive(s0, coord_pair(next@[k])),
                forall|j: int|
                    0 <= j < i && next_alive(s0, coord_pair(self.cells@[j])) ==> seq_has(
                        next@,
                        coord_pair(self.cells@[j]),
                    ),
            decreases self.cells@.len() - i,
        {
            let c = self.cells[i];
            let n = count_neighbors(&self.cells, c.x as i64, c.y as i64);
            if n == 2 || n == 3 {
                let ghost n0 = next@;
                proof {
                    assert(coord_pair(self.cells@[i as int]) == coord_pair(c));
                    assert(seq_has(self.cells@, coord_pair(c)));
                    assert forall|k: int| 0 <= k < next@.len() implies coord_pair(next@[k])
                        != coord_pair(c) by {
                        let j = choose|j: int| 0 <= j < i && self.cells@[j] == next@[k];
                        assert(coord_pair(self.cells@[j]) != coord_pair(self.cells@[i as int]));
                    }
                    lemma_unique_push(next@, c);
                }
                next.push(c);
                proof {
                    assert(self.cells@[i as int] == next@[n0.len() as int]);
                    assert forall|j: int|
                        0 <= j < i + 1 && next_alive(s0, coord_pair(self.cells@[j])) implies
                        seq_has(next@, coord_pair(self.cells@[j])) by {
                        lemma_seq_has_push(n0, c, coord_pair(self.cells@[j]));
                    }
                }
            }
            i = i + 1;
        }
        // Births: every dead Moore neighbor of an alive cell with exactly 3
        // alive neighbors.
        let mut b: usize = 0;
        while b < self.cells.len()
            invariant
                b <= self.cells@.len(),
                unique_coords(self.cells@),
                s0 == set_of(self.cells@),
                unique_coords(next@),
                forall|k: int| 0 <= k < next@.len() ==> next_alive(s0, coord_pair(next@[k])),
                forall|j: int|
                    0 <= j < self.cells@.len() && next_alive(s0, coord_pair(self.cells@[j]))
                        ==> seq_has(next@, coord_pair(self.cells@[j])),
                forall|j: int| 0 <= j < b ==> births_done_around(next@, s0, coord_pair(self.cells@[j])),
            decreases self.cells@.len() - b,
        {
            let c = self.cells[b];
            let ghost t0 = next@;
            births_around(&mut next, &self.cells, c);
            proof {
                assert forall|j: int|
                    0 <= j < b + 1 implies births_done_around(
                    next@,
                    s0,
                    coord_pair(self.cells@[j]),
                ) by {
                    let pj = coord_pair(self.cells@[j]);
                    if j < b {
                        assert(births_done_around(t0, s0, pj));
                        assert forall|q: (int, int)|
                            is_neighbor(pj, q) && in_coord_range(q) && !s0.contains(q)
                                && neighbor_count(s0, q) == 3 implies seq_has(next@, q) by {
                            assert(seq_has(t0, q));
                        }
                    } else {
                        assert(pj == coord_pair(c));
                    }
                }
            }
            b = b + 1;
        }
        proof {
            assert forall|q: (int, int)| set_of(next@).contains(q) == step_spec(s0).contains(
                q,
            ) by {
                if set_of(next@).contains(q) {
                    let k = choose|k: int| 0 <= k < next@.len() && coord_pair(next@[k]) == q;
                    assert(next_alive(s0, q));
                    assert(in_coord_range(q));
                }
                if step_spec(s0).contains(q) {
                    if s0.contains(q) {
                        let j = choose|j: int|
                            0 <= j < self.cells@.len() && coord_pair(self.cells@[j]) == q;
                        assert(seq_has(next@, q));
                    } else {
                        lemma_count_nonzero_has_neighbor(s0, q);
                        let w = choose|w: (int, int)| s0.contains(w) && is_neighbor(q, w);
                        let j = choose|j: int|
                            0 <= j < self.cells@.len() && coord_pair(self.cells@[j]) == w;
                        assert(is_neighbor(w, q));
                        assert(births_done_around(next@, s0, coord_pair(self.cells@[j])));
                        assert(seq_has(next@, q));
                    }
                }
            }
            assert(set_of(next@) =~= step_spec(s0));
        }
        self.cells = next;
    }
}

/// A fresh vector holding every entry of `cells` except the one at `(x, y)`.
fn remove_coord(cells: &Vec<Coord>, x: i32, y: i32) -> (r: Vec<Coord>)
    requires
        unique_coords(cells@),
    ensures
        unique_coords(r@),
        forall|q: (int, int)|
            seq_has(r@, q) <==> (seq_has(cells@, q) && q != (x as int, y as int)),
{
    let ghost p: (int, int) = (x as int, y as int);
    let mut r: Vec<Coord> = Vec::new();
    let mut i: usize = 0;
    while i < cells.len()
        invariant
            p == (x as int, y as int),
            i <= cells@.len(),
            unique_coords(cells@),
            unique_coords(r@),
            forall|k: int|
                #![trigger r@[k]]
                0 <= k < r@.len() ==> exists|j: int|
                    #![trigger cells@[j]]
                    0 <= j < i && cells@[j] == r@[k],
            forall|k: int| 0 <= k < r@.len() ==> coord_pair(r@[k]) != p,
            forall|j: int|
                0 <= j < i && coord_pair(cells@[j]) != p ==> seq_has(r@, coord_pair(cells@[j])),
        decreases cells@.len() - i,
    {
        let c = cells[i];
        if !(c.x == x && c.y == y) {
            let ghost r0 = r@;
            proof {
                assert forall|k: int| 0 <= k < r@.len() implies coord_pair(r@[k]) != coord_pair(
                    c,
                ) by {
                    let j = choose|j: int| 0 <= j < i && cells@[j] == r@[k];
                    assert(coord_pair(cells@[j]) != coord_pair(cells@[i as int]));
                }
                lemma_unique_push(r@, c);
            }
            r.push(c);
            proof {
                assert(cells@[i as int] == r@[r0.len() as int]);
                assert forall|j: int|
                    0 <= j < i + 1 && coord_pair(cells@[j]) != p implies seq_has(
                    r@,
                    coord_pair(cells@[j]),
                ) by {
                    lemma_seq_has_push(r0, c, coord_pair(cells@[j]));
                }
            }
        }
        i = i + 1;
    }
    proof {
        assert forall|q: (int, int)|
            seq_has(r@, q) <==> (seq_has(cells@, q) && q != p) by {
            if seq_has(r@, q) {
                let k = choose|k: int| 0 <= k < r@.len() && coord_pair(r@[k]) == q;
                let j = choose|j: int| 0 <= j < cells@.len() && cells@[j] == r@[k];
                assert(seq_has(cells@, q));
            }
            if seq_has(cells@, q) && q != p {
                let j = choose|j: int| 0 <= j < cells@.len() && coord_pair(cells@[j]) == q;
                assert(seq_has(r@, coord_pair(cells@[j])));
            }
        }
    }
    r
}

/// A fresh vector with the same entries as `cells`.
fn copy_coords(cells: &Vec<Coord>) -> (r: Vec<Coord>)
    ensures
        r@ == cells@,
{
    let mut r: Vec<Coord> = Vec::new();
    let mut i: usize = 0;
    while i < cells.len()
        invariant
            i <= cells@.len(),
            r@ == cells@.subrange(0, i as int),
        decreases cells@.len() - i,
    {
        let ghost r0 = r@;
        r.push(cells[i]);
        proof {
            assert(r@ =~= cells@.subrange(0, i + 1));
        }
        i = i + 1;
    }
    proof {
        assert(cells@.subrange(0, cells@.len() as int) =~= cells@);
    }
    r
}

} // verus!
