//! A single-cell evaluator: one cell carrying an explicit list of its
//! neighbor cells, judging its own fate by Conway's rule. A dense local
//! graph of this kind is an alternative face of the same transition rule the
//! sparse engine in `life` proves; both answer to `conway_next`.

use vstd::prelude::*;

use crate::rules::b2i;
use crate::rules::conway_next;

verus! {

/// One cell with its position, its liveness, and an owned list of the
/// neighbor cells it counts when judging its fate.
pub struct Cell {
    pub pos: (i32, i32),
    pub alive: bool,
    pub neighbors: Vec<Cell>,
}

/// The number of alive cells in `ns`.
pub open spec fn alive_count(ns: Seq<Cell>) -> int
    decreases ns.len(),
{
    if ns.len() == 0 {
        0
    } else {
        alive_count(ns.drop_last()) + b2i(ns.last().alive)
    }
}

/// The number of alive cells among `ns`.
fn count_alive(ns: &Vec<Cell>) -> (n: usize)
    ensures
        n == alive_count(ns@),
{
    let mut n: usize = 0;
    let mut i: usize = 0;
    while i < ns.len()
        invariant
            i <= ns@.len(),
            n <= i,
            n == alive_count(ns@.take(i as int)),
        decreases ns@.len() - i,
    {
        if ns[i].alive {
            n = n + 1;
        }
        proof {
            assert(ns@.take(i + 1).drop_last() =~= ns@.take(i as int));
            assert(ns@.take(i + 1).last() == ns@[i as int]);
        }
        i = i + 1;
    }
    proof {
        assert(ns@.take(ns@.len() as int) =~= ns@);
    }
    n
}

impl Cell {
    /// A cell at `(x, y)` with the given liveness and no neighbors yet.
    pub fn new(x: i32, y: i32, alive: bool) -> (r: Cell)
        ensures
            r.pos == (x, y),
            r.alive == alive,
            r.neighbors@ == Seq::<Cell>::empty(),
    {
        Cell { pos: (x, y), alive, neighbors: Vec::new() }
    }

    /// Append one cell to the neighbor list.
    pub fn add_neighbor(&mut self, neighbor: Cell)
        ensures
            final(self).pos == old(self).pos,
            final(self).alive == old(self).alive,
            final(self).neighbors@ == old(self).neighbors@.push(neighbor),
    {
        self.neighbors.push(neighbor);
    }

    /// Re-judge this cell's liveness by Conway's rule over its recorded
    /// neighbors: alive with 2 or 3 alive neighbors it stays alive, dead
    /// with exactly 3 it becomes alive, anything else leaves it dead.
    pub fn check_is_alive(&mut self)
        ensures
            final(self).pos == old(self).pos,
            final(self).neighbors == old(self).neighbors,
            final(self).alive == conway_next(old(self).alive, alive_count(old(self).neighbors@)),
    {
        let alive_neighbors = count_alive(&self.neighbors);
        if self.alive {
            if alive_neighbors < 2 || alive_neighbors > 3 {
                self.alive = false;
            }
        } else {
            if alive_neighbors == 3 {
                self.alive = true;
            }
        }
    }
}

} // verus!
