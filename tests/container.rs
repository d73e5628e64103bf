use adaptive_grid::{CellCoordinate, ConvertHeuristic, GridCell, GridContainer, MaxGapConvertHeuristic};

fn at(row: usize, col: usize) -> CellCoordinate {
    CellCoordinate { row, col }
}

#[test]
fn scenario_sparse_after_far_insert() {
    let mut g = GridContainer::new(MaxGapConvertHeuristic::new(5));
    assert!(!g.is_sparse());
    g.insert(&at(0, 0), GridCell::new("a"));
    assert!(!g.is_sparse());
    g.insert(&at(10, 10), GridCell::new("b"));
    assert!(g.is_sparse());
}

#[test]
fn scenario_dense_again_after_remove() {
    let mut g = GridContainer::new(MaxGapConvertHeuristic::new(5));
    g.insert(&at(0, 0), GridCell::new("a"));
    g.insert(&at(10, 10), GridCell::new("b"));
    assert!(g.is_sparse());
    assert_eq!(g.remove(&at(10, 10)), Some(GridCell::new("b")));
    assert!(!g.is_sparse());
    assert_eq!(g.coord_iter(), vec![at(0, 0)]);
    assert_eq!(g.get_mut(&at(0, 0)).cloned(), Some(GridCell::new("a")));
}

#[test]
fn reads_do_not_depend_on_layout() {
    let mut g = GridContainer::new(MaxGapConvertHeuristic::new(5));
    g.insert(&at(1, 1), GridCell::new("x"));
    g.insert(&at(2, 1), GridCell::new("y"));
    assert!(!g.is_sparse());
    assert_eq!(g.get_mut(&at(1, 1)).cloned(), Some(GridCell::new("x")));
    g.insert(&at(50, 1), GridCell::new("z"));
    assert!(g.is_sparse());
    assert_eq!(g.get_mut(&at(1, 1)).cloned(), Some(GridCell::new("x")));
    assert_eq!(g.get_mut(&at(2, 1)).cloned(), Some(GridCell::new("y")));
    assert_eq!(g.get_mut(&at(50, 1)).cloned(), Some(GridCell::new("z")));
    assert_eq!(g.get_mut(&at(3, 1)).cloned(), None);
    g.insert(&at(1, 1), GridCell::new("x2"));
    assert_eq!(g.get_mut(&at(1, 1)).cloned(), Some(GridCell::new("x2")));
    assert_eq!(g.remove(&at(2, 1)), Some(GridCell::new("y")));
    assert_eq!(g.get_mut(&at(2, 1)).cloned(), None);
    assert_eq!(g.remove(&at(2, 1)), None);
}

#[test]
fn get_mut_never_swaps() {
    let mut g = GridContainer::new(MaxGapConvertHeuristic::new(5));
    g.insert(&at(0, 0), GridCell::new("a"));
    *g.get_mut(&at(0, 0)).unwrap() = GridCell::new("b");
    assert!(!g.is_sparse());
    assert_eq!(g.get_mut(&at(0, 0)).cloned(), Some(GridCell::new("b")));
    assert!(g.get_mut(&at(99, 99)).is_none());
    assert!(!g.is_sparse());
}

#[test]
fn iteration_lists_each_occupied_coordinate_once() {
    let mut g = GridContainer::new(MaxGapConvertHeuristic::new(3));
    let coords = [at(0, 0), at(1, 0), at(0, 1), at(20, 0), at(2, 2), at(5, 40)];
    for (i, c) in coords.iter().enumerate() {
        g.insert(c, GridCell::new(&format!("{}", i)));
    }
    g.remove(&at(20, 0));
    g.remove(&at(5, 40));
    g.insert(&at(0, 0), GridCell::new("again"));
    assert!(!g.is_sparse());
    let listed = g.coord_iter();
    assert_eq!(listed, vec![at(0, 0), at(1, 0), at(0, 1), at(2, 2)]);
    g.insert(&at(9, 9), GridCell::new("far"));
    assert!(g.is_sparse());
    let mut listed = g.coord_iter();
    listed.sort();
    assert_eq!(listed, vec![at(0, 0), at(0, 1), at(1, 0), at(2, 2), at(9, 9)]);
}

#[test]
fn heuristic_threshold_rules() {
    let h = MaxGapConvertHeuristic::new(5);
    assert!(!h.convert_to_sparse(&vec![]));
    assert!(!h.convert_to_sparse(&vec![at(0, 0)]));
    assert!(!h.convert_to_sparse(&vec![at(0, 0), at(4, 4)]));
    assert!(h.convert_to_sparse(&vec![at(0, 0), at(5, 0)]));
    assert!(h.convert_to_sparse(&vec![at(0, 0), at(0, 5)]));
    assert!(h.convert_to_sparse(&vec![at(0, 0), at(10, 10)]));
    let zero = MaxGapConvertHeuristic::new(0);
    assert!(zero.convert_to_sparse(&vec![]));
    assert!(zero.convert_to_sparse(&vec![at(3, 3)]));
}

#[test]
fn heuristic_ignores_listing_order() {
    let h = MaxGapConvertHeuristic::new(7);
    assert!(!h.convert_to_sparse(&vec![at(0, 0), at(10, 0), at(5, 0)]));
    assert!(!h.convert_to_sparse(&vec![at(0, 0), at(5, 0), at(10, 0)]));
    let h6 = MaxGapConvertHeuristic::new(6);
    assert!(!h6.convert_to_sparse(&vec![at(1, 0), at(10, 0), at(5, 0)]));
    let h5 = MaxGapConvertHeuristic::new(5);
    assert!(h5.convert_to_sparse(&vec![at(1, 0), at(10, 0), at(5, 0)]));
}

#[test]
fn removing_absent_coordinate_keeps_layout() {
    let mut g = GridContainer::new(MaxGapConvertHeuristic::new(5));
    g.insert(&at(0, 0), GridCell::new("a"));
    g.insert(&at(10, 10), GridCell::new("b"));
    assert!(g.is_sparse());
    assert_eq!(g.remove(&at(3, 3)), None);
    assert!(g.is_sparse());
    g.remove(&at(10, 10));
    assert!(!g.is_sparse());
    assert_eq!(g.remove(&at(7, 7)), None);
    assert!(!g.is_sparse());
    assert_eq!(g.coord_iter(), vec![at(0, 0)]);
}
