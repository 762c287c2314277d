use vstd::prelude::*;

use crate::cell::{in_range, is_neighbor, neighbor_set, Cell};
use crate::cell_set::CellSet;

verus! {

/// Every cell of `g` has all eight neighbors representable.
pub open spec fn all_in_range(g: Set<Cell>) -> bool {
    forall|c: Cell| g.contains(c) ==> #[trigger] in_range(c)
}

/// The alive cells together with every cell that touches one of them.
pub open spec fn neighborhood_of(g: Set<Cell>) -> Set<Cell> {
    Set::new(|d: Cell| g.contains(d) || exists|c: Cell| g.contains(c) && #[trigger] is_neighbor(c, d))
}

/// How many of the eight neighbors of `c` are alive in `g`.
pub open spec fn living_neighbors(g: Set<Cell>, c: Cell) -> nat {
    g.intersect(neighbor_set(c)).len()
}

/// The rule of Life: an alive cell survives with two or three alive
/// neighbors, a dead cell is born with exactly three.
pub open spec fn lives_next(g: Set<Cell>, c: Cell) -> bool {
    let n = living_neighbors(g, c);
    if g.contains(c) {
        2 <= n < 4
    } else {
        n == 3
    }
}

/// The generation that follows `g`.
pub open spec fn advance(g: Set<Cell>) -> Set<Cell> {
    Set::new(|c: Cell| lives_next(g, c))
}

/// Cells that touch one of the first `i` cells of `s`.
spec fn touching_prefix(s: Seq<Cell>, i: int) -> Set<Cell> {
    Set::new(|d: Cell| exists|j: int| 0 <= j < i && #[trigger] is_neighbor(s[j], d))
}

/// A cell that is neither alive nor next to an alive cell stays dead: the
/// next generation lies within the neighborhood.
pub proof fn lemma_advance_within_neighborhood(g: Set<Cell>)
    ensures
        advance(g).subset_of(neighborhood_of(g)),
{
    assert forall|c: Cell| #[trigger] advance(g).contains(c) implies neighborhood_of(g).contains(
        c,
    ) by {
        if !neighborhood_of(g).contains(c) {
            assert(g.intersect(neighbor_set(c)) =~= Set::<Cell>::empty()) by {
                assert forall|d: Cell| !(g.contains(d) && #[trigger] neighbor_set(c).contains(d)) by {
                    if g.contains(d) && neighbor_set(c).contains(d) {
                        assert(is_neighbor(d, c));
                    }
                }
            }
        }
    }
}

/// The empty generation is followed by the empty generation.
pub proof fn lemma_advance_empty()
    ensures
        advance(Set::<Cell>::empty()) == Set::<Cell>::empty(),
{
    lemma_advance_within_neighborhood(Set::<Cell>::empty());
    assert(neighborhood_of(Set::<Cell>::empty()) =~= Set::<Cell>::empty());
    assert(advance(Set::<Cell>::empty()) =~= Set::<Cell>::empty());
}

/// The next generation depends on which cells are alive and on nothing else:
/// two sets holding the same cells, in whatever order they were stored, are
/// followed by the same generation.
pub proof fn lemma_advance_deterministic(a: &CellSet, b: &CellSet)
    requires
        a@ == b@,
    ensures
        advance(a@) == advance(b@),
{
}

/// Whether `a` and `b` touch, computed without overflow for every pair.
fn touches(a: &Cell, b: &Cell) -> (r: bool)
    ensures
        r == is_neighbor(*a, *b),
{
    let dx: i128 = b.x as i128 - a.x as i128;
    let dy: i128 = b.y as i128 - a.y as i128;
    -1 <= dx && dx <= 1 && -1 <= dy && dy <= 1 && (dx != 0 || dy != 0)
}

/// Number of neighbors of `cell` that are alive in `g`.
pub fn count_living_neighbors(g: &CellSet, cell: &Cell) -> (r: usize)
    ensures
        r == living_neighbors(g@, *cell),
{
    let n = g.len();
    let ghost s = g.elems();
    let mut count: usize = 0;
    let mut i: usize = 0;
    assert(s.take(0).to_set().intersect(neighbor_set(*cell)) =~= Set::<Cell>::empty());
    while i < n
        invariant
            n == s.len(),
            s == g.elems(),
            s.no_duplicates(),
            s.to_set() == g@,
            i <= n,
            count <= i,
            count == s.take(i as int).to_set().intersect(neighbor_set(*cell)).len(),
        decreases n - i,
    {
        let e = g.get(i);
        let ghost before = s.take(i as int).to_set();
        let ghost seen = before.intersect(neighbor_set(*cell));
        proof {
            assert(s.take(i + 1) =~= s.take(i as int).push(e));
            s.take(i as int).lemma_push_to_set_commute(e);
            assert(!before.contains(e)) by {
                if s.take(i as int).contains(e) {
                    let j = choose|j: int| 0 <= j < i && s.take(i as int)[j] == e;
                    assert(s[j] == s[i as int]);
                }
            }
        }
        if touches(cell, &e) {
            assert(before.insert(e).intersect(neighbor_set(*cell)) =~= seen.insert(e));
            count = count + 1;
        } else {
            assert(before.insert(e).intersect(neighbor_set(*cell)) =~= seen);
        }
        i = i + 1;
    }
    assert(s.take(n as int) =~= s);
    count
}

/// The rule of Life applied to `cell` against the generation `g`.
fn decide(g: &CellSet, cell: &Cell) -> (r: bool)
    ensures
        r == lives_next(g@, *cell),
{
    let alive = g.contains(cell);
    let living = count_living_neighbors(g, cell);
    if alive && living >= 2 && living < 4 {
        return true;
    }
    if !alive && living == 3 {
        return true;
    }
    false
}

/// Whether `cell` is alive in the generation that follows `current_generation`.
pub fn is_alive_in_next_generation(current_generation: CellSet, cell: Cell) -> (r: bool)
    ensures
        r == lives_next(current_generation@, cell),
{
    decide(&current_generation, &cell)
}

/// Whether every cell of `g` has all eight neighbors representable.
pub fn all_cells_in_range(g: &CellSet) -> (r: bool)
    ensures
        r == all_in_range(g@),
{
    let n = g.len();
    let ghost s = g.elems();
    let mut i: usize = 0;
    while i < n
        invariant
            n == s.len(),
            s == g.elems(),
            s.to_set() == g@,
            i <= n,
            forall|j: int| 0 <= j < i ==> #[trigger] in_range(s[j]),
        decreases n - i,
    {
        let c = g.get(i);
        if c.x == i64::MIN || c.x == i64::MAX || c.y == i64::MIN || c.y == i64::MAX {
            assert(g@.contains(c) && !in_range(c));
            return false;
        }
        i = i + 1;
    }
    assert forall|c: Cell| g@.contains(c) implies #[trigger] in_range(c) by {
        let j = choose|j: int| 0 <= j < s.len() && s[j] == c;
    }
    true
}

/// Every alive cell together with each of its eight neighbors: the cells
/// that can be alive in the next generation.
pub fn neighborhood(alive: CellSet) -> (r: CellSet)
    requires
        all_in_range(alive@),
    ensures
        r@ == neighborhood_of(alive@),
{
    let n = alive.len();
    let ghost s = alive.elems();
    let mut r = alive.clone();
    assert(touching_prefix(s, 0) =~= Set::<Cell>::empty());
    assert(r@ =~= alive@.union(touching_prefix(s, 0)));
    let mut i: usize = 0;
    while i < n
        invariant
            n == s.len(),
            s == alive.elems(),
            s.to_set() == alive@,
            all_in_range(alive@),
            i <= n,
            r@ == alive@.union(touching_prefix(s, i as int)),
        decreases n - i,
    {
        let c = alive.get(i);
        assert(s.contains(c));
        let around = c.neighbors();
        r.extend(&around);
        assert(touching_prefix(s, i + 1) =~= touching_prefix(s, i as int).union(neighbor_set(c)));
        i = i + 1;
    }
    assert(r@ =~= neighborhood_of(alive@)) by {
        assert forall|d: Cell| #[trigger] touching_prefix(s, n as int).contains(d) <==> exists|
            c: Cell,
        | alive@.contains(c) && #[trigger] is_neighbor(c, d) by {
            if touching_prefix(s, n as int).contains(d) {
                let j = choose|j: int| 0 <= j < n && #[trigger] is_neighbor(s[j], d);
                assert(s.contains(s[j]));
            }
            if exists|c: Cell| alive@.contains(c) && #[trigger] is_neighbor(c, d) {
                let c = choose|c: Cell| alive@.contains(c) && #[trigger] is_neighbor(c, d);
                assert(s.contains(c));
                let j = choose|j: int| 0 <= j < s.len() && s[j] == c;
                assert(is_neighbor(s[j], d));
            }
        }
    }
    r
}

/// The generation that follows `current`: each cell of its neighborhood
/// judged by the rule against `current` itself, never against a partly
/// built successor.
pub fn next_generation(current: &CellSet) -> (r: CellSet)
    requires
        all_in_range(current@),
    ensures
        r@ == advance(current@),
{
    let candidates = neighborhood(current.clone());
    let n = candidates.len();
    let ghost s = candidates.elems();
    let ghost g = current@;
    let mut next = CellSet::new();
    assert(next@ =~= s.take(0).to_set().filter(|d: Cell| lives_next(g, d)));
    let mut i: usize = 0;
    while i < n
        invariant
            n == s.len(),
            s == candidates.elems(),
            s.to_set() == candidates@,
            g == current@,
            i <= n,
            next@ == s.take(i as int).to_set().filter(|d: Cell| lives_next(g, d)),
        decreases n - i,
    {
        let c = candidates.get(i);
        assert(s.take(i + 1) =~= s.take(i as int).push(c));
        proof {
            s.take(i as int).lemma_push_to_set_commute(c);
        }
        if decide(current, &c) {
            next.insert(c);
        }
        i = i + 1;
        assert(next@ =~= s.take(i as int).to_set().filter(|d: Cell| lives_next(g, d)));
    }
    assert(s.take(n as int) =~= s);
    proof {
        lemma_advance_within_neighborhood(g);
    }
    assert(next@ =~= advance(g));
    next
}

} // verus!
