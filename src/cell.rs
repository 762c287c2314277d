use vstd::prelude::*;

use crate::cell_set::CellSet;

verus! {

/// One position of the unbounded grid.
#[derive(Clone, Copy, Debug, PartialEq, Eq, Structural)]
pub struct Cell {
    pub x: i64,
    pub y: i64,
}

/// Absolute value of a mathematical integer.
pub open spec fn abs(a: int) -> int {
    if a < 0 { -a } else { a }
}

/// Chebyshev distance between two cells: the larger of the two coordinate gaps.
pub open spec fn chebyshev(a: Cell, b: Cell) -> int {
    let dx = abs(b.x - a.x);
    let dy = abs(b.y - a.y);
    if dx < dy { dy } else { dx }
}

/// `b` is one of the eight cells that touch `a`.
pub open spec fn is_neighbor(a: Cell, b: Cell) -> bool {
    chebyshev(a, b) == 1
}

/// The set of cells that touch `c`.
pub open spec fn neighbor_set(c: Cell) -> Set<Cell> {
    Set::new(|d: Cell| is_neighbor(c, d))
}

/// Every neighbor of `c` is representable, so no coordinate sits at the
/// extreme of `i64`.
pub open spec fn in_range(c: Cell) -> bool {
    i64::MIN < c.x < i64::MAX && i64::MIN < c.y < i64::MAX
}

/// The eight neighbors of an in-range cell, listed one by one.
pub open spec fn neighbor_list(c: Cell) -> Set<Cell>
    recommends
        in_range(c),
{
    set![
        Cell { x: (c.x - 1) as i64, y: (c.y - 1) as i64 },
        Cell { x: (c.x - 1) as i64, y: c.y },
        Cell { x: (c.x - 1) as i64, y: (c.y + 1) as i64 },
        Cell { x: c.x, y: (c.y - 1) as i64 },
        Cell { x: c.x, y: (c.y + 1) as i64 },
        Cell { x: (c.x + 1) as i64, y: (c.y - 1) as i64 },
        Cell { x: (c.x + 1) as i64, y: c.y },
        Cell { x: (c.x + 1) as i64, y: (c.y + 1) as i64 },
    ]
}

/// An in-range cell has exactly eight neighbors, the eight listed cells;
/// none of them is the cell itself and each lies at Chebyshev distance one.
pub proof fn lemma_neighbor_set_listed(c: Cell)
    requires
        in_range(c),
    ensures
        neighbor_set(c) == neighbor_list(c),
        neighbor_set(c).len() == 8,
        !neighbor_set(c).contains(c),
        forall|d: Cell| #[trigger] neighbor_set(c).contains(d) ==> chebyshev(c, d) == 1,
{
    assert(neighbor_set(c) =~= neighbor_list(c));
    let l = neighbor_list(c);
    assert(l.len() == 8);
}

/// The neighbors of `c` whose offset `(d.x - c.x, d.y - c.y)` comes before
/// `(a, b)` in lexicographic order.
spec fn neighbors_before(c: Cell, a: int, b: int) -> Set<Cell> {
    Set::new(
        |d: Cell|
            is_neighbor(c, d) && (d.x - c.x < a || (d.x - c.x == a && d.y - c.y < b)),
    )
}

impl Cell {
    /// The eight cells around this one.
    pub fn neighbors(&self) -> (r: CellSet)
        requires
            in_range(*self),
        ensures
            r@ == neighbor_set(*self),
            r@.len() == 8,
            !r@.contains(*self),
            forall|d: Cell| #[trigger] r@.contains(d) ==> chebyshev(*self, d) == 1,
    {
        let mut r = CellSet::new();
        assert(r@ =~= neighbors_before(*self, -1, -1));
        let mut dx: i64 = -1;
        while dx < 2
            invariant
                -1 <= dx <= 2,
                in_range(*self),
                r@ == neighbors_before(*self, dx as int, -1),
            decreases 2 - dx,
        {
            let mut dy: i64 = -1;
            while dy < 2
                invariant
                    -1 <= dx < 2,
                    -1 <= dy <= 2,
                    in_range(*self),
                    r@ == neighbors_before(*self, dx as int, dy as int),
                decreases 2 - dy,
            {
                if dx != 0 || dy != 0 {
                    let n = Cell { x: self.x + dx, y: self.y + dy };
                    r.insert(n);
                    assert(r@ =~= neighbors_before(*self, dx as int, dy + 1));
                } else {
                    assert(r@ =~= neighbors_before(*self, dx as int, dy + 1));
                }
                dy = dy + 1;
            }
            assert(r@ =~= neighbors_before(*self, dx + 1, -1));
            dx = dx + 1;
        }
        assert(r@ =~= neighbor_set(*self));
        proof {
            lemma_neighbor_set_listed(*self);
        }
        r
    }
}

} // verus!
