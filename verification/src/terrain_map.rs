//! Lookup of terrain kind by grid cell.

use vstd::prelude::*;

use crate::geom::Cell;
use crate::terrain::Terrain;

verus! {

/// Terrain kind of each cell that has terrain. Each cell is listed once,
/// with its kind at the same index.
pub struct TerrainMap {
    cells: Vec<Cell>,
    kinds: Vec<Terrain>,
}

impl TerrainMap {
    /// Both lists have the same length and no cell is listed twice.
    pub closed spec fn wf(&self) -> bool {
        &&& self.cells@.len() == self.kinds@.len()
        &&& self.cells@.no_duplicates()
    }

    /// Index at which `c` is listed.
    closed spec fn slot(&self, c: Cell) -> int {
        choose|i: int| 0 <= i < self.cells@.len() && self.cells@[i] == c
    }

    proof fn lemma_slot(&self, c: Cell, i: int)
        requires
            self.wf(),
            0 <= i < self.cells@.len(),
            self.cells@[i] == c,
        ensures
            self.slot(c) == i,
    {
        let k = self.slot(c);
        assert(0 <= k < self.cells@.len() && self.cells@[k] == c);
    }
}

impl View for TerrainMap {
    type V = Map<Cell, Terrain>;

    closed spec fn view(&self) -> Map<Cell, Terrain> {
        Map::new(|c: Cell| self.cells@.contains(c), |c: Cell| self.kinds@[self.slot(c)])
    }
}

impl TerrainMap {
    /// The map with no terrain.
    pub fn new() -> (m: TerrainMap)
        ensures
            m.wf(),
            m@ == Map::<Cell, Terrain>::empty(),
    {
        let m = TerrainMap { cells: Vec::new(), kinds: Vec::new() };
        assert(m@ =~= Map::<Cell, Terrain>::empty());
        m
    }

    fn find(&self, c: &Cell) -> (r: Option<usize>)
        requires
            self.wf(),
        ensures
            r matches Some(i) ==> i < self.cells@.len() && self.cells@[i as int] == *c && self.slot(*c) == i,
            r is None ==> !self.cells@.contains(*c),
    {
        let mut i: usize = 0;
        while i < self.cells.len()
            invariant
                self.wf(),
                i <= self.cells@.len(),
                forall|j: int| 0 <= j < i ==> self.cells@[j] != *c,
            decreases self.cells@.len() - i,
        {
            if self.cells[i] == *c {
                proof {
                    self.lemma_slot(*c, i as int);
                }
                return Some(i);
            }
            i = i + 1;
        }
        None
    }

    /// Terrain at `c`, if any.
    pub fn get(&self, c: &Cell) -> (r: Option<Terrain>)
        requires
            self.wf(),
        ensures
            r == (if self@.dom().contains(*c) {
                Some(self@[*c])
            } else {
                None::<Terrain>
            }),
    {
        match self.find(c) {
            Some(i) => Some(self.kinds[i]),
            None => None,
        }
    }

    /// Set the terrain at `c` to `t`, replacing any earlier kind.
    pub fn insert(&mut self, c: Cell, t: Terrain)
        requires
            old(self).wf(),
        ensures
            final(self).wf(),
            final(self)@ == old(self)@.insert(c, t),
    {
        match self.find(&c) {
            Some(i) => {
                self.kinds.set(i, t);
                proof {
                    assert forall|d: Cell| #[trigger] old(self)@.dom().contains(d) && d != c implies self@[d]
                        == old(self)@[d] by {
                        let k = old(self).slot(d);
                        assert(0 <= k < self.cells@.len() && self.cells@[k] == d);
                    }
                    assert(self@ =~= old(self)@.insert(c, t));
                }
            },
            None => {
                let ghost before = self.cells@;
                self.cells.push(c);
                self.kinds.push(t);
                proof {
                    assert forall|i: int, j: int|
                        0 <= i < self.cells@.len() && 0 <= j < self.cells@.len() && i != j implies self.cells@[i]
                        != self.cells@[j] by {
                        if i < before.len() && j < before.len() {
                            assert(before[i] == self.cells@[i]);
                            assert(before[j] == self.cells@[j]);
                        } else if i < before.len() {
                            assert(before[i] == self.cells@[i]);
                            assert(before.contains(self.cells@[i]));
                        } else if j < before.len() {
                            assert(before[j] == self.cells@[j]);
                            assert(before.contains(self.cells@[j]));
                        }
                    }
                    self.lemma_slot(c, before.len() as int);
                    assert forall|d: Cell| #[trigger] self.cells@.contains(d) <==> (before.contains(d) || d
                        == c) by {
                        if self.cells@.contains(d) && d != c {
                            let k = choose|k: int| 0 <= k < self.cells@.len() && self.cells@[k] == d;
                            assert(before[k] == d);
                        }
                        if before.contains(d) {
                            let k = choose|k: int| 0 <= k < before.len() && before[k] == d;
                            assert(self.cells@[k] == d);
                        }
                        if d == c {
                            assert(self.cells@[before.len() as int] == c);
                        }
                    }
                    assert forall|d: Cell| #[trigger] old(self)@.dom().contains(d) && d != c implies self@[d]
                        == old(self)@[d] by {
                        let k = old(self).slot(d);
                        assert(0 <= k < before.len() && before[k] == d);
                        assert(self.cells@[k] == d);
                        self.lemma_slot(d, k);
                    }
                    assert(self@ =~= old(self)@.insert(c, t));
                }
            },
        }
    }

    /// Number of cells with terrain.
    pub fn len(&self) -> (n: usize)
        requires
            self.wf(),
        ensures
            n == self@.dom().len(),
    {
        proof {
            self.cells@.unique_seq_to_set();
            assert(self@.dom() =~= self.cells@.to_set());
        }
        self.cells.len()
    }

    /// Every cell with its terrain, each cell once.
    pub fn entries(&self) -> (e: Vec<(Cell, Terrain)>)
        requires
            self.wf(),
        ensures
            e@.len() == self@.dom().len(),
            forall|i: int| 0 <= i < e@.len() ==> self@.dom().contains(#[trigger] e@[i].0) && self@[e@[i].0] == e@[i].1,
            forall|c: Cell| #[trigger] self@.dom().contains(c) ==> exists|i: int| 0 <= i < e@.len() && e@[i].0 == c,
    {
        let mut e: Vec<(Cell, Terrain)> = Vec::new();
        let mut i: usize = 0;
        while i < self.cells.len()
            invariant
                self.wf(),
                i <= self.cells@.len(),
                e@.len() == i,
                forall|j: int| 0 <= j < i ==> #[trigger] e@[j] == (self.cells@[j], self.kinds@[j]),
            decreases self.cells@.len() - i,
        {
            e.push((self.cells[i], self.kinds[i]));
            i = i + 1;
        }
        proof {
            self.cells@.unique_seq_to_set();
            assert(self@.dom() =~= self.cells@.to_set());
            assert forall|j: int| 0 <= j < e@.len() implies self@.dom().contains(#[trigger] e@[j].0) && self@[e@[j].0]
                == e@[j].1 by {
                assert(e@[j] == (self.cells@[j], self.kinds@[j]));
                assert(self.cells@.contains(self.cells@[j]));
                self.lemma_slot(self.cells@[j], j);
            }
            assert forall|c: Cell| #[trigger] self@.dom().contains(c) implies exists|j: int|
                0 <= j < e@.len() && e@[j].0 == c by {
                let k = choose|k: int| 0 <= k < self.cells@.len() && self.cells@[k] == c;
                assert(e@[k] == (self.cells@[k], self.kinds@[k]));
            }
        }
        e
    }
}

impl Default for TerrainMap {
    fn default() -> (m: TerrainMap)
        ensures
            m.wf(),
            m@ == Map::<Cell, Terrain>::empty(),
    {
        TerrainMap::new()
    }
}

} // verus!
