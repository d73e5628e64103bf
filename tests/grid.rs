use adaptive_grid::{CellCoordinate, DenseGrid, Grid, GridCell, SparseGrid};
use std::fmt::Debug;

fn can_insert_and_get_and_remove<G: Grid + Debug>(mut g: G) {
    let coord1 = CellCoordinate { col: 0, row: 0 };
    let coord2 = CellCoordinate { col: 10, row: 10 };
    g.insert(&coord1, GridCell::new("data 1"));
    g.insert(&coord2, GridCell::new("data 2"));

    println!("Grid state: {:?}", g);

    assert_eq!(g.get_mut(&coord1).cloned(), Some(GridCell::new("data 1")));
    assert_eq!(g.get_mut(&coord2).cloned(), Some(GridCell::new("data 2")));

    g.remove(&coord1);
    assert_eq!(g.get_mut(&coord1).cloned(), None);

    g.remove(&coord2);
    assert_eq!(g.get_mut(&coord2).cloned(), None);
}

fn can_iter<G: Grid + Debug>(mut g: G) {
    let coord1 = CellCoordinate { col: 0, row: 0 };
    let coord2 = CellCoordinate { col: 10, row: 10 };
    g.insert(&coord1, GridCell::new("data 1"));
    g.insert(&coord2, GridCell::new("data 2"));

    let mut coords = g.coord_iter();
    coords.sort();
    assert_eq!(
        coords,
        vec![
            CellCoordinate { row: 0, col: 0 },
            CellCoordinate { row: 10, col: 10 }
        ]
    )
}

#[test]
fn grid_dense_can_insert_and_get() {
    can_insert_and_get_and_remove(DenseGrid::default());
}

#[test]
fn grid_sparse_can_insert_and_get() {
    can_insert_and_get_and_remove(SparseGrid::default());
}

#[test]
fn sparse_can_iter() {
    can_iter(SparseGrid::default())
}

#[test]
fn dense_can_iter() {
    can_iter(DenseGrid::default())
}

#[test]
fn lib_dense_can_insert_and_get() {
    can_insert_and_get_and_remove(DenseGrid::default());
}

#[test]
fn lib_sparse_can_insert_and_get() {
    can_insert_and_get_and_remove(SparseGrid::default());
}

fn can_write_through_get_mut<G: Grid>(mut g: G) {
    let c = CellCoordinate { row: 2, col: 7 };
    g.insert(&c, GridCell::new("before"));
    *g.get_mut(&c).unwrap() = GridCell::new("after");
    assert_eq!(g.get_mut(&c).map(|x| x.data().to_string()), Some("after".to_string()));
    assert_eq!(g.remove(&c), Some(GridCell::new("after")));
    assert_eq!(g.remove(&c), None);
}

#[test]
fn sparse_get_mut_writes_through() {
    can_write_through_get_mut(SparseGrid::default());
}

#[test]
fn dense_get_mut_writes_through() {
    can_write_through_get_mut(DenseGrid::default());
}

#[test]
fn insert_overwrites() {
    let c = CellCoordinate { row: 1, col: 1 };
    let mut d = DenseGrid::default();
    let mut s = SparseGrid::default();
    d.insert(&c, GridCell::new("a"));
    d.insert(&c, GridCell::new("b"));
    s.insert(&c, GridCell::new("a"));
    s.insert(&c, GridCell::new("b"));
    assert_eq!(d.get_mut(&c).cloned(), Some(GridCell::new("b")));
    assert_eq!(s.get_mut(&c).cloned(), Some(GridCell::new("b")));
    assert_eq!(d.coord_iter().len(), 1);
    assert_eq!(s.coord_iter().len(), 1);
}

#[test]
fn dense_bounds_growth() {
    let mut d = DenseGrid::default();
    d.insert(&CellCoordinate { col: 5, row: 3 }, GridCell::new("x"));
    for col in 0..=5 {
        for row in 0..=3 {
            let c = CellCoordinate { col, row };
            if col == 5 && row == 3 {
                assert_eq!(d.get_mut(&c).cloned(), Some(GridCell::new("x")));
            } else {
                assert_eq!(d.get_mut(&c).cloned(), None);
            }
        }
    }
    assert_eq!(d.get_mut(&CellCoordinate { col: 6, row: 0 }).cloned(), None);
    assert_eq!(d.get_mut(&CellCoordinate { col: 5, row: 4 }).cloned(), None);
    assert_eq!(d.remove(&CellCoordinate { col: 40, row: 40 }), None);
}

#[test]
fn dense_iterates_column_major() {
    let mut d = DenseGrid::default();
    d.insert(&CellCoordinate { row: 4, col: 1 }, GridCell::new("a"));
    d.insert(&CellCoordinate { row: 0, col: 2 }, GridCell::new("b"));
    d.insert(&CellCoordinate { row: 1, col: 1 }, GridCell::new("c"));
    d.insert(&CellCoordinate { row: 9, col: 0 }, GridCell::new("d"));
    assert_eq!(
        d.coord_iter(),
        vec![
            CellCoordinate { row: 9, col: 0 },
            CellCoordinate { row: 1, col: 1 },
            CellCoordinate { row: 4, col: 1 },
            CellCoordinate { row: 0, col: 2 },
        ]
    );
}

#[test]
fn round_trip_sparse_dense_sparse() {
    let pairs = vec![
        (CellCoordinate { row: 0, col: 0 }, "a"),
        (CellCoordinate { row: 300, col: 2 }, "b"),
        (CellCoordinate { row: 7, col: 90 }, "c"),
        (CellCoordinate { row: 7, col: 91 }, "d"),
    ];
    let mut s = SparseGrid::default();
    for (c, t) in pairs.iter() {
        s.insert(c, GridCell::new(t));
    }
    let d = s.into_dense();
    let mut back = d.into_sparse();
    let mut coords = back.coord_iter();
    coords.sort();
    let mut expected: Vec<CellCoordinate> = pairs.iter().map(|(c, _)| *c).collect();
    expected.sort();
    assert_eq!(coords, expected);
    for (c, t) in pairs.iter() {
        assert_eq!(back.get_mut(c).cloned(), Some(GridCell::new(t)));
    }
}

#[test]
fn cell_keeps_its_text() {
    assert_eq!(GridCell::new("hello").data(), "hello");
    assert_eq!(GridCell::new("").data(), "");
}
