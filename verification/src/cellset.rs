//! A finite set of grid cells, kept as a list without repeats.

use vstd::prelude::*;

use crate::geom::Cell;

verus! {

/// A set of grid cells.
pub struct CellSet {
    cells: Vec<Cell>,
}

impl View for CellSet {
    type V = Set<Cell>;

    closed spec fn view(&self) -> Set<Cell> {
        Set::new(|c: Cell| self.cells@.contains(c))
    }
}

impl CellSet {
    /// The list holds no cell twice.
    pub closed spec fn wf(&self) -> bool {
        self.cells@.no_duplicates()
    }

    /// Number of cells in the set.
    pub closed spec fn size(&self) -> nat {
        self.cells@.len()
    }

    /// The empty set.
    pub fn new() -> (s: CellSet)
        ensures
            s.wf(),
            s@ == Set::<Cell>::empty(),
            s.size() == 0,
    {
        let s = CellSet { cells: Vec::new() };
        assert(s@ =~= Set::<Cell>::empty());
        s
    }

    /// Whether `c` is in the set.
    pub fn contains(&self, c: &Cell) -> (b: bool)
        ensures
            b == self@.contains(*c),
    {
        let mut i: usize = 0;
        while i < self.cells.len()
            invariant
                i <= self.cells@.len(),
                forall|j: int| 0 <= j < i ==> self.cells@[j] != *c,
            decreases self.cells@.len() - i,
        {
            if self.cells[i] == *c {
                assert(self.cells@.contains(*c));
                return true;
            }
            i = i + 1;
        }
        false
    }

    /// Add `c`; returns whether it was absent before.
    pub fn insert(&mut self, c: Cell) -> (added: bool)
        requires
            old(self).wf(),
        ensures
            final(self).wf(),
            final(self)@ == old(self)@.insert(c),
            added == !old(self)@.contains(c),
            final(self).size() == old(self).size() + if added {
                1nat
            } else {
                0nat
            },
    {
        if self.contains(&c) {
            assert(self@.insert(c) =~= self@);
            return false;
        }
        let ghost before = self.cells@;
        self.cells.push(c);
        proof {
            assert forall|i: int, j: int|
                0 <= i < self.cells@.len() && 0 <= j < self.cells@.len() && i != j implies self.cells@[i]
                != self.cells@[j] by {
                if i < before.len() && j < before.len() {
                    assert(before[i] == self.cells@[i]);
                    assert(before[j] == self.cells@[j]);
                } else if i < before.len() {
                    assert(before[i] == self.cells@[i]);
                    assert(before.contains(self.cells@[i]));
                } else if j < before.len() {
                    assert(before[j] == self.cells@[j]);
                    assert(before.contains(self.cells@[j]));
                }
            }
            assert forall|d: Cell| #[trigger] self@.contains(d) == old(self)@.insert(c).contains(d) by {
                if d == c {
                    assert(self.cells@[before.len() as int] == c);
                } else {
                    if self.cells@.contains(d) {
                        let k = choose|k: int| 0 <= k < self.cells@.len() && self.cells@[k] == d;
                        assert(before[k] == d);
                    }
                    if before.contains(d) {
                        let k = choose|k: int| 0 <= k < before.len() && before[k] == d;
                        assert(self.cells@[k] == d);
                    }
                }
            }
            assert(self@ =~= old(self)@.insert(c));
        }
        true
    }

    /// Remove `c` if present.
    pub fn remove(&mut self, c: &Cell)
        requires
            old(self).wf(),
        ensures
            final(self).wf(),
            final(self)@ == old(self)@.remove(*c),
    {
        let mut i: usize = 0;
        while i < self.cells.len()
            invariant
                i <= self.cells@.len(),
                self.cells@ == old(self).cells@,
                old(self).wf(),
                forall|j: int| 0 <= j < i ==> self.cells@[j] != *c,
            decreases self.cells@.len() - i,
        {
            if self.cells[i] == *c {
                let ghost before = self.cells@;
                self.cells.remove(i);
                proof {
                    assert(self.cells@ =~= before.remove(i as int));
                    assert forall|a: int, b: int|
                        0 <= a < self.cells@.len() && 0 <= b < self.cells@.len() && a != b implies self.cells@[a]
                        != self.cells@[b] by {
                        let a2 = if a < i {
                            a
                        } else {
                            a + 1
                        };
                        let b2 = if b < i {
                            b
                        } else {
                            b + 1
                        };
                        assert(self.cells@[a] == before[a2]);
                        assert(self.cells@[b] == before[b2]);
                    }
                    assert forall|d: Cell| #[trigger] self@.contains(d) == old(self)@.remove(*c).contains(d) by {
                        if self.cells@.contains(d) {
                            let k = choose|k: int| 0 <= k < self.cells@.len() && self.cells@[k] == d;
                            let k2 = if k < i {
                                k
                            } else {
                                k + 1
                            };
                            assert(before[k2] == d);
                            assert(k2 != i);
                            assert(before[i as int] == *c);
                        }
                        if before.contains(d) && d != *c {
                            let k = choose|k: int| 0 <= k < before.len() && before[k] == d;
                            assert(k != i);
                            let k2 = if k < i {
                                k
                            } else {
                                k - 1
                            };
                            assert(self.cells@[k2] == d);
                        }
                    }
                    assert(self@ =~= old(self)@.remove(*c));
                }
                return;
            }
            i = i + 1;
        }
        assert(!self.cells@.contains(*c));
        assert(self@ =~= old(self)@.remove(*c));
    }

    /// A copy of the set.
    pub fn duplicate(&self) -> (s: CellSet)
        requires
            self.wf(),
        ensures
            s.wf(),
            s@ == self@,
    {
        let mut cells: Vec<Cell> = Vec::new();
        let mut i: usize = 0;
        while i < self.cells.len()
            invariant
                i <= self.cells@.len(),
                cells@ == self.cells@.take(i as int),
            decreases self.cells@.len() - i,
        {
            cells.push(self.cells[i]);
            assert(cells@ =~= self.cells@.take(i + 1));
            i = i + 1;
        }
        assert(cells@ =~= self.cells@);
        let s = CellSet { cells };
        assert(s@ =~= self@);
        s
    }

    /// The cells of the set, each listed once.
    pub fn to_vec(&self) -> (v: Vec<Cell>)
        requires
            self.wf(),
        ensures
            v@.no_duplicates(),
            forall|c: Cell| #[trigger] v@.contains(c) <==> self@.contains(c),
    {
        let d = self.duplicate();
        d.cells
    }

    /// Number of cells in the set.
    pub fn len(&self) -> (n: usize)
        ensures
            n == self.size(),
    {
        self.cells.len()
    }
}

} // verus!
