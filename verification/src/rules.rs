//! The mathematical model of the simulation: the transition rule of the
//! cellular automaton, stated over a `Set` of integer coordinate pairs, and
//! the laws that the engine is proved to obey.

use vstd::prelude::*;

verus! {

/// A coordinate pair that fits the machine representation of a cell.
///
/// The grid is conceptually unbounded, but a cell is stored as a pair of
/// `i32` values, so only coordinates in this square are representable. A
/// birth immediately beyond it cannot be recorded; this is of a kind with the
/// deliberate trimming policy, which already gives up exact behaviour at the
/// far frontier in exchange for bounded resources.
pub open spec fn in_coord_range(p: (int, int)) -> bool {
    i32::MIN <= p.0 <= i32::MAX && i32::MIN <= p.1 <= i32::MAX
}

/// `q` lies in the Moore neighborhood of `p`: the eight cells horizontally,
/// vertically, or diagonally adjacent. A cell is never its own neighbor.
pub open spec fn is_neighbor(p: (int, int), q: (int, int)) -> bool {
    &&& p != q
    &&& -1 <= q.0 - p.0 <= 1
    &&& -1 <= q.1 - p.1 <= 1
}

/// One if the condition holds, zero otherwise; used to sum membership tests.
pub open spec fn b2i(b: bool) -> int {
    if b { 1 } else { 0 }
}

/// The number of alive neighbors of `p` in `s`, over the eight-connected
/// Moore neighborhood, written out as the sum of the eight membership tests.
pub open spec fn neighbor_count(s: Set<(int, int)>, p: (int, int)) -> int {
    b2i(s.contains((p.0 - 1, p.1 - 1))) + b2i(s.contains((p.0 - 1, p.1))) + b2i(
        s.contains((p.0 - 1, p.1 + 1)),
    ) + b2i(s.contains((p.0, p.1 - 1))) + b2i(s.contains((p.0, p.1 + 1))) + b2i(
        s.contains((p.0 + 1, p.1 - 1)),
    ) + b2i(s.contains((p.0 + 1, p.1))) + b2i(s.contains((p.0 + 1, p.1 + 1)))
}

/// Conway's rule for a single cell: an alive cell survives with exactly 2 or
/// 3 alive neighbors; a dead cell is born with exactly 3.
pub open spec fn conway_next(alive: bool, n: int) -> bool {
    if alive {
        n == 2 || n == 3
    } else {
        n == 3
    }
}

/// Whether `p` is alive in the generation after `s`.
pub open spec fn next_alive(s: Set<(int, int)>, p: (int, int)) -> bool {
    conway_next(s.contains(p), neighbor_count(s, p))
}

/// The generation after `s`: every cell alive by Conway's rule, restricted to
/// the representable coordinate square (see `in_coord_range`).
pub open spec fn step_spec(s: Set<(int, int)>) -> Set<(int, int)> {
    Set::new(|p: (int, int)| next_alive(s, p) && in_coord_range(p))
}

/// `n` generations after `s`.
pub open spec fn step_n(s: Set<(int, int)>, n: nat) -> Set<(int, int)>
    decreases n,
{
    if n == 0 {
        s
    } else {
        step_spec(step_n(s, (n - 1) as nat))
    }
}

/// The effect of toggling `p`: remove it when present, insert it when absent.
pub open spec fn toggle_spec(s: Set<(int, int)>, p: (int, int)) -> Set<(int, int)> {
    if s.contains(p) {
        s.remove(p)
    } else {
        s.insert(p)
    }
}

/// Toggling the same coordinate twice leaves the set unchanged.
pub proof fn lemma_toggle_idempotent(s: Set<(int, int)>, p: (int, int))
    ensures
        toggle_spec(toggle_spec(s, p), p) == s,
{
    assert(toggle_spec(toggle_spec(s, p), p) =~= s);
}

/// Stability: an alive cell stays alive across a step exactly when it has 2
/// or 3 alive neighbors; with 0, 1, or 4 and more it dies.
pub proof fn lemma_stability(s: Set<(int, int)>, p: (int, int))
    requires
        s.contains(p),
        in_coord_range(p),
    ensures
        step_spec(s).contains(p) <==> (neighbor_count(s, p) == 2 || neighbor_count(s, p) == 3),
{
}

/// Birth: a dead cell becomes alive across a step exactly when it has 3
/// alive neighbors; any other count leaves it dead.
pub proof fn lemma_birth(s: Set<(int, int)>, p: (int, int))
    requires
        !s.contains(p),
        in_coord_range(p),
    ensures
        step_spec(s).contains(p) <==> neighbor_count(s, p) == 3,
{
}

/// A cell with any alive neighbor at all has one among the eight positions
/// of its Moore neighborhood; contrapositively, a cell with no alive
/// neighbor has count zero and can never be born.
pub proof fn lemma_count_nonzero_has_neighbor(s: Set<(int, int)>, q: (int, int))
    requires
        neighbor_count(s, q) != 0,
    ensures
        exists|p: (int, int)| s.contains(p) && is_neighbor(q, p),
{
    if s.contains((q.0 - 1, q.1 - 1)) {
        assert(s.contains((q.0 - 1, q.1 - 1)) && is_neighbor(q, (q.0 - 1, q.1 - 1)));
    } else if s.contains((q.0 - 1, q.1)) {
        assert(s.contains((q.0 - 1, q.1)) && is_neighbor(q, (q.0 - 1, q.1)));
    } else if s.contains((q.0 - 1, q.1 + 1)) {
        assert(s.contains((q.0 - 1, q.1 + 1)) && is_neighbor(q, (q.0 - 1, q.1 + 1)));
    } else if s.contains((q.0, q.1 - 1)) {
        assert(s.contains((q.0, q.1 - 1)) && is_neighbor(q, (q.0, q.1 - 1)));
    } else if s.contains((q.0, q.1 + 1)) {
        assert(s.contains((q.0, q.1 + 1)) && is_neighbor(q, (q.0, q.1 + 1)));
    } else if s.contains((q.0 + 1, q.1 - 1)) {
        assert(s.contains((q.0 + 1, q.1 - 1)) && is_neighbor(q, (q.0 + 1, q.1 - 1)));
    } else if s.contains((q.0 + 1, q.1)) {
        assert(s.contains((q.0 + 1, q.1)) && is_neighbor(q, (q.0 + 1, q.1)));
    } else {
        assert(s.contains((q.0 + 1, q.1 + 1)) && is_neighbor(q, (q.0 + 1, q.1 + 1)));
    }
}

/// The empty set is a fixpoint: a step of no alive cells yields no alive
/// cells.
pub proof fn lemma_empty_fixpoint()
    ensures
        step_spec(Set::<(int, int)>::empty()) == Set::<(int, int)>::empty(),
{
    assert(step_spec(Set::<(int, int)>::empty()) =~= Set::<(int, int)>::empty());
}

/// A 2-by-2 block of alive cells with its lower corner at `(x, y)`.
pub open spec fn block_at(x: int, y: int) -> Set<(int, int)> {
    set![(x, y), (x + 1, y), (x, y + 1), (x + 1, y + 1)]
}

/// A 2-by-2 block is a still life: one step leaves it unchanged. Each of
/// its cells has exactly 3 alive neighbors and survives; no outside cell
/// sees more than 2, so nothing is born.
pub proof fn lemma_block_still_life(x: int, y: int)
    requires
        i32::MIN <= x,
        x + 1 <= i32::MAX,
        i32::MIN <= y,
        y + 1 <= i32::MAX,
    ensures
        step_spec(block_at(x, y)) == block_at(x, y),
{
    let b = block_at(x, y);
    assert forall|p: (int, int)| step_spec(b).contains(p) == b.contains(p) by {
        assert(b.contains(p) <==> (p == (x, y) || p == (x + 1, y) || p == (x, y + 1) || p == (
        x + 1,
        y + 1,
        )));
    }
    assert(step_spec(b) =~= b);
}

/// A 2-by-2 block is unchanged by any number of steps.
pub proof fn lemma_block_still_life_n(x: int, y: int, n: nat)
    requires
        i32::MIN <= x,
        x + 1 <= i32::MAX,
        i32::MIN <= y,
        y + 1 <= i32::MAX,
    ensures
        step_n(block_at(x, y), n) == block_at(x, y),
    decreases n,
{
    if n > 0 {
        lemma_block_still_life_n(x, y, (n - 1) as nat);
        lemma_block_still_life(x, y);
    }
}

/// A single alive cell with no alive neighbors dies, and gives birth to
/// nothing: a cell is never counted as its own neighbor, so its count is 0,
/// and no other cell sees more than 1.
pub proof fn lemma_lone_cell_dies(p: (int, int))
    ensures
        step_spec(set![p]) == Set::<(int, int)>::empty(),
{
    let s = set![p];
    assert forall|q: (int, int)| !(step_spec(s).contains(q)) by {
        assert(s.contains(q) <==> q == p);
    }
    assert(step_spec(s) =~= Set::<(int, int)>::empty());
}

} // verus!
