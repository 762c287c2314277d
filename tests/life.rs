use game_of_life::cell::Cell;
use game_of_life::cell_set::CellSet;
use game_of_life::life::{
    all_cells_in_range, count_living_neighbors, is_alive_in_next_generation, neighborhood,
    next_generation,
};

fn set_of(cells: &[(i64, i64)]) -> CellSet {
    let mut s = CellSet::new();
    for &(x, y) in cells {
        s.insert(Cell { x, y });
    }
    s
}

fn holds_exactly(s: &CellSet, cells: &[(i64, i64)]) -> bool {
    s.len() == cells.len() && cells.iter().all(|&(x, y)| s.contains(&Cell { x, y }))
}

#[test]
fn test_cell_neighbors() {
    let cell = Cell { x: 0, y: 0 };
    let neighbors = cell.neighbors();

    // A Cell has eight neighbors
    assert_eq!(8, neighbors.len());
    assert_eq!(true, neighbors.contains(&Cell { x: -1, y: -1 }));
    assert_eq!(true, neighbors.contains(&Cell { x: -1, y: 0 }));
    assert_eq!(true, neighbors.contains(&Cell { x: -1, y: 1 }));

    assert_eq!(true, neighbors.contains(&Cell { x: 0, y: -1 }));
    assert_eq!(true, neighbors.contains(&Cell { x: 0, y: 1 }));

    assert_eq!(true, neighbors.contains(&Cell { x: 1, y: -1 }));
    assert_eq!(true, neighbors.contains(&Cell { x: 1, y: 0 }));
    assert_eq!(true, neighbors.contains(&Cell { x: 1, y: 1 }));

    // A Cell is not its own neighbor
    assert_eq!(false, neighbors.contains(&cell));
}

#[test]
fn test_neighborhood() {
    let mut alive = CellSet::new();

    alive.insert(Cell { x: 0, y: 1 });
    assert_eq!(9, neighborhood(alive.clone()).len());

    alive.insert(Cell { x: 1, y: 1 });
    alive.insert(Cell { x: -1, y: 0 });
    alive.insert(Cell { x: 0, y: 0 });
    alive.insert(Cell { x: 0, y: -1 });

    assert_eq!(21, neighborhood(alive).len());
}

#[test]
fn test_is_alive_in_next_generation() {
    let mut current_generation = CellSet::new();

    // A living cell with zero or one neighbor dies from isolation
    current_generation.insert(Cell { x: 0, y: 0 });
    assert_eq!(false, is_alive_in_next_generation(current_generation.clone(), Cell { x: 0, y: 0 }));
    current_generation.insert(Cell { x: 0, y: 1 });
    assert_eq!(false, is_alive_in_next_generation(current_generation.clone(), Cell { x: 0, y: 0 }));

    // A living cell with two or three neighbors survives to the next generation
    current_generation.insert(Cell { x: 1, y: 1 });
    assert_eq!(true, is_alive_in_next_generation(current_generation.clone(), Cell { x: 0, y: 0 }));
    current_generation.insert(Cell { x: -1, y: 0 });
    assert_eq!(true, is_alive_in_next_generation(current_generation.clone(), Cell { x: 0, y: 0 }));

    // A living cell with four or more neighbors dies from overcrowding
    current_generation.insert(Cell { x: 0, y: -1 });
    assert_eq!(false, is_alive_in_next_generation(current_generation.clone(), Cell { x: 0, y: 0 }));

    // A dead cell with precisely three neighbors is born into the next generation
    assert_eq!(true, is_alive_in_next_generation(current_generation.clone(), Cell { x: -1, y: 1 }));
}

#[test]
fn neighbors_of_a_distant_cell() {
    let cell = Cell { x: 1000, y: -7 };
    let n = cell.neighbors();
    assert!(holds_exactly(
        &n,
        &[(999, -8), (999, -7), (999, -6), (1000, -8), (1000, -6), (1001, -8), (1001, -7), (1001, -6)]
    ));
    assert!(!n.contains(&cell));
}

#[test]
fn neighbors_next_to_the_integer_limits() {
    let cell = Cell { x: i64::MAX - 1, y: i64::MIN + 1 };
    let n = cell.neighbors();
    assert_eq!(8, n.len());
    assert!(n.contains(&Cell { x: i64::MAX, y: i64::MIN }));
    assert!(n.contains(&Cell { x: i64::MAX - 2, y: i64::MIN + 2 }));
}

#[test]
fn neighborhood_of_empty_generation_is_empty() {
    assert!(neighborhood(CellSet::new()).is_empty());
}

#[test]
fn neighborhood_of_single_cell_holds_the_cell_and_its_neighbors() {
    let n = neighborhood(set_of(&[(0, 1)]));
    assert!(holds_exactly(
        &n,
        &[(-1, 0), (-1, 1), (-1, 2), (0, 0), (0, 1), (0, 2), (1, 0), (1, 1), (1, 2)]
    ));
}

#[test]
fn living_neighbor_count_exact() {
    let g = set_of(&[(0, 1), (1, 1), (-1, 0), (0, 0), (0, -1), (5, 5)]);
    assert_eq!(4, count_living_neighbors(&g, &Cell { x: 0, y: 0 }));
    assert_eq!(3, count_living_neighbors(&g, &Cell { x: -1, y: 1 }));
    assert_eq!(0, count_living_neighbors(&g, &Cell { x: 3, y: 3 }));
    assert_eq!(1, count_living_neighbors(&g, &Cell { x: 4, y: 4 }));
}

#[test]
fn living_neighbor_count_at_the_integer_limits() {
    let g = set_of(&[(i64::MAX, i64::MAX), (i64::MIN, i64::MIN), (i64::MAX - 1, i64::MAX)]);
    assert_eq!(1, count_living_neighbors(&g, &Cell { x: i64::MAX, y: i64::MAX }));
    assert_eq!(0, count_living_neighbors(&g, &Cell { x: i64::MIN, y: i64::MIN }));
}

#[test]
fn advance_of_empty_generation_is_empty() {
    assert!(next_generation(&CellSet::new()).is_empty());
}

#[test]
fn advance_is_independent_of_insertion_order() {
    let a = set_of(&[(0, 1), (1, 1), (-1, 0), (0, 0), (0, -1)]);
    let b = set_of(&[(0, -1), (0, 0), (-1, 0), (1, 1), (0, 1)]);
    let na = next_generation(&a);
    let nb = next_generation(&b);
    assert_eq!(na.len(), nb.len());
    for i in 0..na.len() {
        assert!(nb.contains(&na.get(i)));
    }
    let again = next_generation(&a);
    assert_eq!(na.len(), again.len());
    for i in 0..na.len() {
        assert!(again.contains(&na.get(i)));
    }
}

#[test]
fn blinker_oscillates() {
    let horizontal = set_of(&[(-1, 0), (0, 0), (1, 0)]);
    let vertical = next_generation(&horizontal);
    assert!(holds_exactly(&vertical, &[(0, -1), (0, 0), (0, 1)]));
    let back = next_generation(&vertical);
    assert!(holds_exactly(&back, &[(-1, 0), (0, 0), (1, 0)]));
}

#[test]
fn block_is_still() {
    let block = set_of(&[(0, 0), (0, 1), (1, 0), (1, 1)]);
    assert!(holds_exactly(&next_generation(&block), &[(0, 0), (0, 1), (1, 0), (1, 1)]));
}

#[test]
fn lone_cell_dies() {
    assert!(next_generation(&set_of(&[(7, -3)])).is_empty());
}

#[test]
fn next_generation_agrees_with_the_rule() {
    let g = set_of(&[(0, 1), (1, 1), (-1, 0), (0, 0), (0, -1)]);
    let next = next_generation(&g);
    let candidates = neighborhood(g.clone());
    for i in 0..candidates.len() {
        let c = candidates.get(i);
        assert_eq!(is_alive_in_next_generation(g.clone(), c), next.contains(&c));
    }
    assert!(holds_exactly(&next, &[(-1, -1), (-1, 0), (-1, 1), (0, -1), (0, 1), (1, 1)]));
}

#[test]
fn range_check_rejects_extreme_cells() {
    assert!(all_cells_in_range(&set_of(&[(0, 0), (i64::MAX - 1, i64::MIN + 1)])));
    assert!(!all_cells_in_range(&set_of(&[(0, 0), (i64::MAX, 0)])));
    assert!(!all_cells_in_range(&set_of(&[(0, i64::MIN)])));
    assert!(all_cells_in_range(&CellSet::new()));
}

#[test]
fn insert_reports_whether_the_cell_was_new() {
    let mut s = CellSet::new();
    assert!(s.is_empty());
    assert!(s.insert(Cell { x: 2, y: 3 }));
    assert!(!s.insert(Cell { x: 2, y: 3 }));
    assert_eq!(1, s.len());
    assert!(!s.is_empty());
}

#[test]
fn extend_forms_the_union() {
    let mut s = set_of(&[(0, 0), (1, 1)]);
    s.extend(&set_of(&[(1, 1), (2, 2)]));
    assert!(holds_exactly(&s, &[(0, 0), (1, 1), (2, 2)]));
}
