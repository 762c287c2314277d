use vstd::prelude::*;

use crate::cell::Cell;

verus! {

/// A finite set of cells, stored without repetition.
pub struct CellSet {
    cells: Vec<Cell>,
}

impl View for CellSet {
    type V = Set<Cell>;

    closed spec fn view(&self) -> Set<Cell> {
        self.cells@.to_set()
    }
}

impl CellSet {
    /// No cell is stored twice.
    #[verifier::type_invariant]
    spec fn well_formed(self) -> bool {
        self.cells@.no_duplicates()
    }

    /// The stored cells, in storage order.
    pub closed spec fn elems(self) -> Seq<Cell> {
        self.cells@
    }

    /// The empty set.
    pub fn new() -> (r: CellSet)
        ensures
            r@ == Set::<Cell>::empty(),
    {
        let r = CellSet { cells: Vec::new() };
        assert(r@ =~= Set::<Cell>::empty());
        r
    }

    /// Number of cells in the set; the stored sequence lists the set once per cell.
    pub fn len(&self) -> (r: usize)
        ensures
            r == self@.len(),
            r == self.elems().len(),
            self.elems().no_duplicates(),
            self.elems().to_set() == self@,
            self@.finite(),
    {
        proof {
            use_type_invariant(self);
            self.cells@.unique_seq_to_set();
        }
        self.cells.len()
    }

    /// Whether the set holds no cell.
    pub fn is_empty(&self) -> (r: bool)
        ensures
            r == (self@ == Set::<Cell>::empty()),
    {
        proof {
            use_type_invariant(self);
            self.cells@.unique_seq_to_set();
            if self.cells@.len() == 0 {
                assert(self@ =~= Set::<Cell>::empty());
            } else {
                assert(self@.contains(self.cells@[0]));
            }
        }
        self.cells.len() == 0
    }

    /// Whether `c` is in the set.
    pub fn contains(&self, c: &Cell) -> (r: bool)
        ensures
            r == self@.contains(*c),
    {
        let mut i: usize = 0;
        while i < self.cells.len()
            invariant
                i <= self.cells@.len(),
                forall|j: int| 0 <= j < i ==> self.cells@[j] != *c,
            decreases self.cells@.len() - i,
        {
            if self.cells[i] == *c {
                assert(self.cells@.contains(*c));
                return true;
            }
            i = i + 1;
        }
        false
    }

    /// Adds `c`; the result says whether it was absent before.
    pub fn insert(&mut self, c: Cell) -> (r: bool)
        ensures
            final(self)@ == old(self)@.insert(c),
            r == !old(self)@.contains(c),
    {
        if self.contains(&c) {
            return false;
        }
        proof {
            use_type_invariant(&*self);
        }
        let ghost prev = self.cells@;
        let mut cells: Vec<Cell> = Vec::new();
        std::mem::swap(&mut cells, &mut self.cells);
        cells.push(c);
        assert(cells@ =~= prev.push(c));
        proof {
            assert forall|j: int, k: int|
                0 <= j < cells@.len() && 0 <= k < cells@.len() && j != k implies
                cells@[j] != cells@[k] by {
                if j < prev.len() && k < prev.len() {
                } else if j == prev.len() {
                    assert(prev.contains(prev[k]));
                } else {
                    assert(prev.contains(prev[j]));
                }
            }
            assert(cells@.to_set() =~= prev.to_set().insert(c)) by {
                assert forall|d: Cell| cells@.contains(d) <==> (prev.contains(d) || d == c) by {
                    if prev.contains(d) {
                        let j = choose|j: int| 0 <= j < prev.len() && prev[j] == d;
                        assert(cells@[j] == d);
                    }
                    if cells@.contains(d) && d != c {
                        let j = choose|j: int| 0 <= j < cells@.len() && cells@[j] == d;
                        assert(prev[j] == d);
                    }
                    if d == c {
                        assert(cells@[prev.len() as int] == c);
                    }
                }
            }
        }
        self.cells = cells;
        true
    }

    /// Adds every cell of `other`.
    pub fn extend(&mut self, other: &CellSet)
        ensures
            final(self)@ == old(self)@.union(other@),
    {
        let n = other.len();
        let mut i: usize = 0;
        while i < n
            invariant
                n == other.elems().len(),
                i <= n,
                self@ == old(self)@.union(other.elems().take(i as int).to_set()),
            decreases n - i,
        {
            let c = other.get(i);
            self.insert(c);
            assert(other.elems().take(i + 1) =~= other.elems().take(i as int).push(c));
            proof {
                other.elems().take(i as int).lemma_push_to_set_commute(c);
            }
            i = i + 1;
            assert(self@ =~= old(self)@.union(other.elems().take(i as int).to_set()));
        }
        assert(other.elems().take(n as int) =~= other.elems());
    }

    /// The cell stored at position `i`.
    pub fn get(&self, i: usize) -> (r: Cell)
        requires
            i < self.elems().len(),
        ensures
            r == self.elems()[i as int],
    {
        self.cells[i]
    }
}

impl Clone for CellSet {
    /// A copy holding the same cells.
    fn clone(&self) -> (r: CellSet)
        ensures
            r@ == self@,
            r.elems() == self.elems(),
    {
        proof {
            use_type_invariant(self);
        }
        let mut cells: Vec<Cell> = Vec::new();
        let mut i: usize = 0;
        while i < self.cells.len()
            invariant
                i <= self.cells@.len(),
                cells@ == self.cells@.take(i as int),
            decreases self.cells@.len() - i,
        {
            cells.push(self.cells[i]);
            i = i + 1;
            assert(cells@ =~= self.cells@.take(i as int));
        }
        assert(cells@ =~= self.cells@);
        CellSet { cells }
    }
}

} // verus!
