use crate::distance::ConvertHeuristic;
use std::collections::HashMap;
use vstd::prelude::*;
use vstd::std_specs::iter::IteratorSpec;

verus! {

/// The payload stored at one position of a grid.
#[derive(Clone, Debug, PartialEq, Eq)]
pub struct GridCell {
    data: String,
}

impl GridCell {
    pub closed spec fn text(&self) -> Seq<char> {
        self.data@
    }

    /// A cell holding a copy of `s`.
    pub fn new(s: &str) -> (r: GridCell)
        ensures
            r.text() == s@,
    {
        GridCell { data: s.to_string() }
    }

    /// The text the cell holds.
    pub fn data(&self) -> (r: &str)
        ensures
            r@ == self.text(),
    {
        self.data.as_str()
    }
}

/// A position in the grid. The derived order compares `row` first, then `col`.
#[derive(Clone, Copy, Debug, Hash, PartialEq, Eq, Structural, PartialOrd, Ord)]
pub struct CellCoordinate {
    pub row: usize,
    pub col: usize,
}

/// `a` comes before `b` in column-major order: by column, then by row.
pub open spec fn column_major_before(a: CellCoordinate, b: CellCoordinate) -> bool {
    a.col < b.col || (a.col == b.col && a.row < b.row)
}

/// `s` lists every coordinate of `dom` exactly once and nothing else.
pub open spec fn lists(s: Seq<CellCoordinate>, dom: Set<CellCoordinate>) -> bool {
    &&& s.no_duplicates()
    &&& forall|i: int| 0 <= i < s.len() ==> dom.contains(#[trigger] s[i])
    &&& forall|c: CellCoordinate| #[trigger] dom.contains(c) ==> s.contains(c)
}

/// `s` is in strictly ascending column-major order.
pub open spec fn column_major_sorted(s: Seq<CellCoordinate>) -> bool {
    forall|i: int, j: int| 0 <= i < j < s.len() ==> column_major_before(#[trigger] s[i], #[trigger] s[j])
}

/// Storage of cells by coordinate. `cells` is what a grid holds, whatever
/// its layout.
pub trait Grid: Sized {
    spec fn cells(&self) -> Map<CellCoordinate, GridCell>;

    spec fn wf(&self) -> bool;

    /// A mutable reference to the cell at `coord`, if there is one.
    fn get_mut(&mut self, coord: &CellCoordinate) -> (r: Option<&mut GridCell>)
        requires
            old(self).wf(),
        ensures
            r.is_some() == old(self).cells().contains_key(*coord),
            r.is_some() ==> *r.unwrap() == old(self).cells()[*coord],
            r.is_some() ==> final(self).wf() && final(self).cells() == old(self).cells().insert(
                *coord,
                *final(r.unwrap()),
            ),
            r.is_none() ==> final(self).wf() && final(self).cells() == old(self).cells(),
    ;

    /// Removes the cell at `coord` and hands it back, if there was one.
    fn remove(&mut self, coord: &CellCoordinate) -> (r: Option<GridCell>)
        requires
            old(self).wf(),
        ensures
            final(self).wf(),
            final(self).cells() == old(self).cells().remove(*coord),
            r == (if old(self).cells().contains_key(*coord) {
                Some(old(self).cells()[*coord])
            } else {
                None
            }),
    ;

    /// Stores `cell` at `coord`, replacing what was there.
    fn insert(&mut self, coord: &CellCoordinate, cell: GridCell)
        requires
            old(self).wf(),
            coord.row < usize::MAX,
            coord.col < usize::MAX,
        ensures
            final(self).wf(),
            final(self).cells() == old(self).cells().insert(*coord, cell),
    ;

    /// Every occupied coordinate, each once.
    fn coord_iter(&self) -> (r: Vec<CellCoordinate>)
        requires
            self.wf(),
        ensures
            lists(r@, self.cells().dom()),
    ;
}

/// Every occupied coordinate has parts below `usize::MAX`, as `insert` asks.
pub open spec fn coords_bounded(m: Map<CellCoordinate, GridCell>) -> bool {
    forall|c: CellCoordinate| #[trigger] m.contains_key(c) ==> c.row < usize::MAX && c.col < usize::MAX
}

/// The part of `m` that comes before position (`col`, `row`) in column-major order.
pub open spec fn cells_before(m: Map<CellCoordinate, GridCell>, col: int, row: int) -> Map<CellCoordinate, GridCell> {
    m.restrict(Set::new(|c: CellCoordinate| c.col < col || (c.col == col && c.row < row)))
}

pub open spec fn max_int(a: int, b: int) -> int {
    if a >= b { a } else { b }
}

/// The number of slots in column `k`; 0 for a column not yet allocated.
pub open spec fn column_len(cols: Seq<Vec<Option<GridCell>>>, k: int) -> nat {
    if 0 <= k < cols.len() { cols[k]@.len() } else { 0 }
}

/// `a` and `b` have the same number of columns and of slots in each.
pub open spec fn same_extents(a: Seq<Vec<Option<GridCell>>>, b: Seq<Vec<Option<GridCell>>>) -> bool {
    a.len() == b.len() && forall|k: int| #[trigger] column_len(a, k) == column_len(b, k)
}

/// The cells of a nested column/row layout: a slot is occupied when it is
/// within bounds and holds a cell.
pub open spec fn dense_cells(cols: Seq<Vec<Option<GridCell>>>) -> Map<CellCoordinate, GridCell> {
    Map::new(
        |c: CellCoordinate|
            c.col < cols.len() && c.row < cols[c.col as int].len() && cols[c.col as int]@[c.row as int] is Some,
        |c: CellCoordinate| cols[c.col as int]@[c.row as int].unwrap(),
    )
}

/// Cells held in a vector of columns, each a vector of optional slots.
/// Capacity grows on insert and never shrinks.
#[derive(Debug)]
pub struct DenseGrid {
    cols_rows: Vec<Vec<Option<GridCell>>>,
}

impl DenseGrid {
    pub closed spec fn columns(&self) -> Seq<Vec<Option<GridCell>>> {
        self.cols_rows@
    }

    /// An empty grid with no capacity.
    pub fn new() -> (r: DenseGrid)
        ensures
            r.wf(),
            r.columns().len() == 0,
            r.cells() == Map::<CellCoordinate, GridCell>::empty(),
    {
        let r = DenseGrid { cols_rows: Vec::new() };
        assert(r.cells() =~= Map::<CellCoordinate, GridCell>::empty());
        r
    }

    /// Every occupied coordinate, ascending by column and then by row.
    pub fn coords_column_major(&self) -> (r: Vec<CellCoordinate>)
        ensures
            lists(r@, self.cells().dom()),
            column_major_sorted(r@),
    {
        let ghost cells = self.cells();
        let mut out: Vec<CellCoordinate> = Vec::new();
        let mut col: usize = 0;
        while col < self.cols_rows.len()
            invariant
                cells == dense_cells(self.cols_rows@),
                col <= self.cols_rows@.len(),
                column_major_sorted(out@),
                forall|i: int| 0 <= i < out@.len() ==> (#[trigger] out@[i]).col < col && cells.contains_key(out@[i]),
                forall|c: CellCoordinate| #[trigger] cells.contains_key(c) && c.col < col ==> out@.contains(c),
            decreases self.cols_rows@.len() - col,
        {
            let rows = &self.cols_rows[col];
            let mut row: usize = 0;
            while row < rows.len()
                invariant
                    cells == dense_cells(self.cols_rows@),
                    col < self.cols_rows@.len(),
                    rows == self.cols_rows@[col as int],
                    row <= rows@.len(),
                    column_major_sorted(out@),
                    forall|i: int| 0 <= i < out@.len() ==> cells.contains_key(#[trigger] out@[i]) && (out@[i].col < col || (out@[i].col == col && out@[i].row < row)),
                    forall|c: CellCoordinate| #[trigger] cells.contains_key(c) && (c.col < col || (c.col == col && c.row < row)) ==> out@.contains(c),
                decreases rows@.len() - row,
            {
                if rows[row].is_some() {
                    let c = CellCoordinate { row, col };
                    let ghost prev = out@;
                    out.push(c);
                    assert forall|x: CellCoordinate| cells.contains_key(x) && (x.col < col || (x.col == col && x.row < row + 1)) implies #[trigger] out@.contains(x) by {
                        if x == c {
                            assert(out@[prev.len() as int] == c);
                        } else {
                            assert(prev.contains(x));
                            let k = choose|k: int| 0 <= k < prev.len() && prev[k] == x;
                            assert(out@[k] == x);
                        }
                    }
                } else {
                    assert forall|x: CellCoordinate| cells.contains_key(x) && (x.col < col || (x.col == col && x.row < row + 1)) implies #[trigger] out@.contains(x) by {
                        if x.col == col && x.row == row {
                            assert(!cells.contains_key(x));
                        }
                    }
                }
                row += 1;
            }
            col += 1;
        }
        proof {
            assert forall|i: int, j: int| 0 <= i < out@.len() && 0 <= j < out@.len() && i != j implies out@[i] != out@[j] by {
                if i < j {
                    assert(column_major_before(out@[i], out@[j]));
                } else {
                    assert(column_major_before(out@[j], out@[i]));
                }
            }
        }
        out
    }
}

impl DenseGrid {
    /// The same cells in a sparse grid, moved over in column-major order.
    pub fn into_sparse(self) -> (r: SparseGrid)
        ensures
            r.wf(),
            r.cells() == self.cells(),
    {
        let ghost orig = self.cells();
        let ghost cols = self.cols_rows@;
        let mut sparse = SparseGrid::new();
        let mut col: usize = 0;
        let ncols = self.cols_rows.len();
        for rows in it: self.cols_rows.into_iter()
            invariant
                col == it.index(),
                ncols == cols.len(),
                it.seq() == cols,
                orig == dense_cells(cols),
                sparse.wf(),
                sparse.cells() == cells_before(orig, col as int, 0),
        {
            let ghost col_rows = rows@;
            let mut row: usize = 0;
            let nrows = rows.len();
            for slot in rit: rows.into_iter()
                invariant
                    row == rit.index(),
                    nrows == col_rows.len(),
                    ncols == cols.len(),
                    rit.seq() == col_rows,
                    col_rows == cols[col as int]@,
                    col < cols.len(),
                    orig == dense_cells(cols),
                    sparse.wf(),
                    sparse.cells() == cells_before(orig, col as int, row as int),
            {
                let c = CellCoordinate { row, col };
                if let Some(cell) = slot {
                    sparse.insert(&c, cell);
                    assert(sparse.cells() =~= cells_before(orig, col as int, row + 1));
                } else {
                    assert(cells_before(orig, col as int, row as int) =~= cells_before(orig, col as int, row + 1));
                }
                row += 1;
            }
            assert(sparse.cells() =~= cells_before(orig, col + 1, 0));
            col += 1;
        }
        assert(sparse.cells() =~= orig);
        sparse
    }
}

impl Default for DenseGrid {
    fn default() -> (r: DenseGrid)
        ensures
            r.wf(),
            r.cells() == Map::<CellCoordinate, GridCell>::empty(),
    {
        DenseGrid::new()
    }
}

impl Grid for DenseGrid {
    closed spec fn cells(&self) -> Map<CellCoordinate, GridCell> {
        dense_cells(self.cols_rows@)
    }

    closed spec fn wf(&self) -> bool {
        true
    }

    fn get_mut(&mut self, coord: &CellCoordinate) -> (r: Option<&mut GridCell>)
        ensures
            same_extents(final(self).columns(), old(self).columns()),
    {
        if coord.col < self.cols_rows.len() && coord.row < self.cols_rows[coord.col].len() {
            let rows = &mut self.cols_rows[coord.col];
            let slot = &mut rows[coord.row];
            slot.as_mut()
        } else {
            None
        }
    }

    fn remove(&mut self, coord: &CellCoordinate) -> (r: Option<GridCell>)
        ensures
            same_extents(final(self).columns(), old(self).columns()),
            !old(self).cells().contains_key(*coord) ==> final(self).columns() == old(self).columns(),
    {
        if coord.col < self.cols_rows.len() && coord.row < self.cols_rows[coord.col].len()
            && self.cols_rows[coord.col][coord.row].is_some() {
            let ghost before = self.cols_rows@;
            let rows = &mut self.cols_rows[coord.col];
            let slot = &mut rows[coord.row];
            let r = slot.take();
            assert(dense_cells(self.cols_rows@) =~= dense_cells(before).remove(*coord));
            r
        } else {
            assert(dense_cells(self.cols_rows@) =~= dense_cells(self.cols_rows@).remove(*coord));
            None
        }
    }

    fn insert(&mut self, coord: &CellCoordinate, cell: GridCell)
        ensures
            final(self).columns().len() == max_int(old(self).columns().len() as int, coord.col + 1),
            column_len(final(self).columns(), coord.col as int) == max_int(
                column_len(old(self).columns(), coord.col as int) as int,
                coord.row + 1,
            ),
            forall|k: int| k != coord.col ==> #[trigger] column_len(final(self).columns(), k) == column_len(old(self).columns(), k),
    {
        let ghost before = self.cols_rows@;
        while self.cols_rows.len() <= coord.col
            invariant
                coord.col < usize::MAX,
                self.cols_rows@.len() >= before.len(),
                self.cols_rows@.len() <= max_int(before.len() as int, coord.col + 1),
                forall|i: int| 0 <= i < before.len() ==> self.cols_rows@[i] == before[i],
                forall|i: int| before.len() <= i < self.cols_rows@.len() ==> self.cols_rows@[i]@.len() == 0,
            decreases coord.col + 1 - self.cols_rows.len(),
        {
            self.cols_rows.push(Vec::new());
        }
        let ghost grown = self.cols_rows@;
        assert(dense_cells(grown) =~= dense_cells(before));
        let mut rows: Vec<Option<GridCell>> = Vec::new();
        std::mem::swap(&mut rows, &mut self.cols_rows[coord.col]);
        let ghost old_rows = rows@;
        assert(old_rows.len() == column_len(before, coord.col as int));
        while rows.len() <= coord.row
            invariant
                coord.row < usize::MAX,
                rows@.len() >= old_rows.len(),
                rows@.len() <= max_int(old_rows.len() as int, coord.row + 1),
                forall|i: int| 0 <= i < old_rows.len() ==> rows@[i] == old_rows[i],
                forall|i: int| old_rows.len() <= i < rows@.len() ==> rows@[i] is None,
            decreases coord.row + 1 - rows.len(),
        {
            rows.push(None);
        }
        rows.set(coord.row, Some(cell));
        std::mem::swap(&mut rows, &mut self.cols_rows[coord.col]);
        assert(dense_cells(self.cols_rows@) =~= dense_cells(before).insert(*coord, cell));
    }

    fn coord_iter(&self) -> (r: Vec<CellCoordinate>)
        ensures
            column_major_sorted(r@),
    {
        self.coords_column_major()
    }
}

/// The span of one row in a sparse key: a key is `row * ROW_SPAN + col`.
pub const ROW_SPAN: u128 = 0x1_0000_0000_0000_0000;

/// The map key under which a sparse grid stores `c`.
pub open spec fn key_of(c: CellCoordinate) -> u128 {
    (c.row as nat * ROW_SPAN as nat + c.col as nat) as u128
}

/// The coordinate that a sparse key stands for.
pub open spec fn coord_of(k: u128) -> CellCoordinate {
    CellCoordinate { row: (k / ROW_SPAN) as usize, col: (k % ROW_SPAN) as usize }
}

/// A key that decodes into a coordinate whose parts are below `usize::MAX`.
pub open spec fn key_fits(k: u128) -> bool {
    k / ROW_SPAN < usize::MAX && k % ROW_SPAN < usize::MAX
}

proof fn lemma_key_of(c: CellCoordinate)
    ensures
        key_of(c) as nat == c.row as nat * ROW_SPAN as nat + c.col as nat,
        key_fits(key_of(c)) <==> (c.row < usize::MAX && c.col < usize::MAX),
        coord_of(key_of(c)) == c,
{
    let r = c.row as nat;
    let q = c.col as nat;
    assert(r * 0x1_0000_0000_0000_0000 + q < 0x1_0000_0000_0000_0000_0000_0000_0000_0000) by (nonlinear_arith)
        requires r <= 0xffff_ffff_ffff_ffff, q <= 0xffff_ffff_ffff_ffff;
    assert((r * 0x1_0000_0000_0000_0000 + q) / 0x1_0000_0000_0000_0000 == r) by (nonlinear_arith)
        requires q < 0x1_0000_0000_0000_0000;
    assert((r * 0x1_0000_0000_0000_0000 + q) % 0x1_0000_0000_0000_0000 == q) by (nonlinear_arith)
        requires q < 0x1_0000_0000_0000_0000;
}

proof fn lemma_coord_of(k: u128)
    requires
        key_fits(k),
    ensures
        key_of(coord_of(k)) == k,
{
    let n = k as nat;
    assert((n / 0x1_0000_0000_0000_0000) * 0x1_0000_0000_0000_0000 + n % 0x1_0000_0000_0000_0000 == n) by (nonlinear_arith);
}

/// The cells of a map keyed by `key_of`.
pub open spec fn sparse_cells(m: Map<u128, GridCell>) -> Map<CellCoordinate, GridCell> {
    Map::new(|c: CellCoordinate| m.contains_key(key_of(c)), |c: CellCoordinate| m[key_of(c)])
}

proof fn lemma_sparse_insert(m: Map<u128, GridCell>, c: CellCoordinate)
    ensures
        forall|v: GridCell| #[trigger] sparse_cells(m.insert(key_of(c), v)) == sparse_cells(m).insert(c, v),
        forall|v: GridCell, k: u128| (forall|j: u128| #[trigger] m.contains_key(j) ==> key_fits(j)) && key_fits(key_of(c)) && #[trigger] m.insert(key_of(c), v).contains_key(k) ==> key_fits(k),
{
    lemma_key_of(c);
    assert forall|d: CellCoordinate| #![auto] d != c implies key_of(d) != key_of(c) by {
        lemma_key_of(d);
    }
    assert forall|v: GridCell| #[trigger] sparse_cells(m.insert(key_of(c), v)) == sparse_cells(m).insert(c, v) by {
        assert(sparse_cells(m.insert(key_of(c), v)) =~= sparse_cells(m).insert(c, v));
    }
}

proof fn lemma_sparse_bounded(m: Map<u128, GridCell>)
    requires
        forall|j: u128| #[trigger] m.contains_key(j) ==> key_fits(j),
    ensures
        coords_bounded(sparse_cells(m)),
{
    assert forall|c: CellCoordinate| #[trigger] sparse_cells(m).contains_key(c) implies c.row < usize::MAX && c.col < usize::MAX by {
        lemma_key_of(c);
        assert(m.contains_key(key_of(c)));
    }
}

/// Cells held in a hash map, one entry per occupied coordinate.
#[derive(Debug)]
pub struct SparseGrid {
    cols_rows: HashMap<u128, GridCell>,
}

/// Relies on `HashMap::get_mut`: a mutable reference to the value under `k`
/// when there is one; through it the entry can be changed, and nothing else.
#[verifier::external_body]
fn map_get_mut<'a>(m: &'a mut HashMap<u128, GridCell>, k: u128) -> (r: Option<&'a mut GridCell>)
    ensures
        r.is_some() == old(m)@.contains_key(k),
        r.is_some() ==> *r.unwrap() == old(m)@[k] && final(m)@ == old(m)@.insert(k, *final(r.unwrap())),
        r.is_none() ==> final(m)@ == old(m)@,
{
    m.get_mut(&k)
}

fn key_for(coord: &CellCoordinate) -> (k: u128)
    ensures
        k == key_of(*coord),
{
    proof {
        lemma_key_of(*coord);
    }
    (coord.row as u128) * ROW_SPAN + (coord.col as u128)
}

impl SparseGrid {
    /// An empty grid.
    pub fn new() -> (r: SparseGrid)
        ensures
            r.wf(),
            r.cells() == Map::<CellCoordinate, GridCell>::empty(),
    {
        let r = SparseGrid { cols_rows: HashMap::new() };
        assert(r.cells() =~= Map::<CellCoordinate, GridCell>::empty());
        r
    }
}

impl SparseGrid {
    /// The same cells in a dense grid.
    pub fn into_dense(self) -> (r: DenseGrid)
        requires
            self.wf(),
        ensures
            r.cells() == self.cells(),
    {
        let ghost orig = self.cells();
        proof {
            lemma_sparse_bounded(self.cols_rows@);
        }
        let coords = self.coord_iter();
        let mut src = self;
        let mut dense = DenseGrid::new();
        let mut i: usize = 0;
        while i < coords.len()
            invariant
                i <= coords@.len(),
                lists(coords@, orig.dom()),
                coords_bounded(orig),
                src.wf(),
                src.cells() == orig.remove_keys(coords@.subrange(0, i as int).to_set()),
                dense.cells() == orig.restrict(coords@.subrange(0, i as int).to_set()),
            decreases coords@.len() - i,
        {
            let c = coords[i];
            let ghost done = coords@.subrange(0, i as int).to_set();
            assert(coords@.subrange(0, i + 1).to_set() == done.insert(c)) by {
                assert(coords@.subrange(0, i + 1) =~= coords@.subrange(0, i as int).push(c));
                coords@.subrange(0, i as int).lemma_push_to_set_commute(c);
            }
            assert(!done.contains(c)) by {
                if done.contains(c) {
                    let j = choose|j: int| 0 <= j < i && coords@.subrange(0, i as int)[j] == c;
                    assert(coords@[j] == coords@[i as int]);
                }
            }
            assert(orig.contains_key(c));
            let removed = src.remove(&c);
            if let Some(cell) = removed {
                dense.insert(&c, cell);
            }
            assert(src.cells() =~= orig.remove_keys(coords@.subrange(0, i + 1).to_set()));
            assert(dense.cells() =~= orig.restrict(coords@.subrange(0, i + 1).to_set()));
            i += 1;
        }
        assert(coords@.subrange(0, coords@.len() as int) == coords@);
        assert(dense.cells() =~= orig);
        dense
    }
}

impl Default for SparseGrid {
    fn default() -> (r: SparseGrid)
        ensures
            r.wf(),
            r.cells() == Map::<CellCoordinate, GridCell>::empty(),
    {
        SparseGrid::new()
    }
}

impl Grid for SparseGrid {
    closed spec fn cells(&self) -> Map<CellCoordinate, GridCell> {
        sparse_cells(self.cols_rows@)
    }

    closed spec fn wf(&self) -> bool {
        forall|k: u128| #[trigger] self.cols_rows@.contains_key(k) ==> key_fits(k)
    }

    fn get_mut(&mut self, coord: &CellCoordinate) -> (r: Option<&mut GridCell>) {
        let k = key_for(coord);
        proof {
            lemma_sparse_insert(self.cols_rows@, *coord);
        }
        map_get_mut(&mut self.cols_rows, k)
    }

    fn remove(&mut self, coord: &CellCoordinate) -> (r: Option<GridCell>) {
        broadcast use vstd::std_specs::hash::group_hash_axioms;
        let k = key_for(coord);
        let ghost before = self.cols_rows@;
        proof {
            lemma_key_of(*coord);
            assert forall|c: CellCoordinate| #![auto] c != *coord implies key_of(c) != k by {
                lemma_key_of(c);
            }
        }
        let r = self.cols_rows.remove(&k);
        assert(sparse_cells(self.cols_rows@) =~= sparse_cells(before).remove(*coord));
        r
    }

    fn insert(&mut self, coord: &CellCoordinate, cell: GridCell) {
        broadcast use vstd::std_specs::hash::group_hash_axioms;
        let k = key_for(coord);
        proof {
            lemma_key_of(*coord);
            lemma_sparse_insert(self.cols_rows@, *coord);
        }
        self.cols_rows.insert(k, cell);
    }

    fn coord_iter(&self) -> (r: Vec<CellCoordinate>) {
        broadcast use vstd::std_specs::hash::group_hash_axioms;
        let mut out: Vec<CellCoordinate> = Vec::new();
        let ghost keys = vstd::std_specs::hash::spec_keys_iter(&self.cols_rows).remaining().unref();
        for k in it: self.cols_rows.keys()
            invariant
                self.wf(),
                out@.len() == it.index(),
                it.seq().unref() == keys,
                keys.to_set() == self.cols_rows@.dom(),
                keys.no_duplicates(),
                forall|i: int| 0 <= i < it.index() ==> out@[i] == coord_of(#[trigger] keys[i]),
        {
            proof {
                assert(self.cols_rows@.contains_key(*k));
            }
            out.push(CellCoordinate { row: (*k / ROW_SPAN) as usize, col: (*k % ROW_SPAN) as usize });
        }
        proof {
            assert(out@.len() == keys.len());
            assert forall|i: int| 0 <= i < out@.len() implies self.cells().contains_key(#[trigger] out@[i]) by {
                assert(keys.to_set().contains(keys[i]));
                lemma_coord_of(keys[i]);
            }
            assert forall|c: CellCoordinate| #[trigger] self.cells().dom().contains(c) implies out@.contains(c) by {
                assert(keys.to_set().contains(key_of(c)));
                let i = choose|i: int| 0 <= i < keys.len() && keys[i] == key_of(c);
                lemma_key_of(c);
                assert(out@[i] == c);
            }
            assert forall|i: int, j: int| 0 <= i < out@.len() && 0 <= j < out@.len() && i != j implies out@[i] != out@[j] by {
                assert(keys.to_set().contains(keys[i]));
                assert(keys.to_set().contains(keys[j]));
                lemma_coord_of(keys[i]);
                lemma_coord_of(keys[j]);
            }
        }
        out
    }
}

/// The active layout of a container: exactly one of the two.
#[derive(Debug)]
enum SwappingGrid {
    Dense(DenseGrid),
    Sparse(SparseGrid),
}

impl SwappingGrid {
    closed spec fn cells(&self) -> Map<CellCoordinate, GridCell> {
        match self {
            SwappingGrid::Dense(g) => g.cells(),
            SwappingGrid::Sparse(g) => g.cells(),
        }
    }

    closed spec fn wf(&self) -> bool {
        match self {
            SwappingGrid::Dense(g) => g.wf(),
            SwappingGrid::Sparse(g) => g.wf(),
        }
    }

    /// The same cells in the other layout.
    fn swap(self) -> (r: SwappingGrid)
        requires
            self.wf(),
        ensures
            r.wf(),
            r.cells() == self.cells(),
            (r is Sparse) != (self is Sparse),
    {
        match self {
            SwappingGrid::Dense(g) => SwappingGrid::Sparse(g.into_sparse()),
            SwappingGrid::Sparse(g) => SwappingGrid::Dense(g.into_dense()),
        }
    }

    /// An empty dense layout.
    fn default() -> (r: SwappingGrid)
        ensures
            r.wf(),
            r.cells() == Map::<CellCoordinate, GridCell>::empty(),
            r matches SwappingGrid::Dense(d) && d.columns().len() == 0,
    {
        SwappingGrid::Dense(DenseGrid::new())
    }

    /// Every occupied coordinate; in column-major order when dense.
    fn coords(&self) -> (r: Vec<CellCoordinate>)
        requires
            self.wf(),
        ensures
            lists(r@, self.cells().dom()),
            !(self is Sparse) ==> column_major_sorted(r@),
    {
        match self {
            SwappingGrid::Dense(g) => g.coords_column_major(),
            SwappingGrid::Sparse(g) => g.coord_iter(),
        }
    }
}

/// A grid that keeps whichever layout its heuristic prefers for the cells it
/// holds, re-deciding after every insert and remove.
#[derive(Debug)]
pub struct GridContainer<H: ConvertHeuristic> {
    grid: SwappingGrid,
    convert_heuristic: H,
}

/// `sparse` is the verdict of `h` on the listings of `dom`: there is one,
/// and every one gets that verdict.
pub open spec fn verdict_of<H: ConvertHeuristic>(h: H, dom: Set<CellCoordinate>, sparse: bool) -> bool {
    &&& exists|s: Seq<CellCoordinate>| lists(s, dom)
    &&& forall|s: Seq<CellCoordinate>| lists(s, dom) ==> sparse == #[trigger] h.prefers_sparse(s)
}

proof fn lemma_listing_set(s: Seq<CellCoordinate>, dom: Set<CellCoordinate>)
    requires
        lists(s, dom),
    ensures
        s.to_set() == dom,
{
    assert forall|c: CellCoordinate| dom.contains(c) implies s.to_set().contains(c) by {
        assert(s.contains(c));
    }
    assert(s.to_set() =~= dom);
}

impl<H: ConvertHeuristic> GridContainer<H> {
    pub closed spec fn cells(&self) -> Map<CellCoordinate, GridCell> {
        self.grid.cells()
    }

    pub closed spec fn wf(&self) -> bool {
        self.grid.wf()
    }

    pub closed spec fn spec_is_sparse(&self) -> bool {
        self.grid is Sparse
    }

    pub closed spec fn heuristic(&self) -> H {
        self.convert_heuristic
    }

    /// An empty container in the dense layout.
    pub fn new(convert_heuristic: H) -> (r: Self)
        ensures
            r.wf(),
            r.cells() == Map::<CellCoordinate, GridCell>::empty(),
            !r.spec_is_sparse(),
            r.heuristic() == convert_heuristic,
    {
        Self { grid: SwappingGrid::default(), convert_heuristic }
    }

    /// Whether the sparse layout is the active one.
    pub fn is_sparse(&self) -> (r: bool)
        ensures
            r == self.spec_is_sparse(),
    {
        match self.grid {
            SwappingGrid::Sparse(_) => true,
            _ => false,
        }
    }

    /// Asks the heuristic about the current cells and changes layout when
    /// its verdict differs from the active one.
    fn settle(&mut self)
        requires
            old(self).wf(),
        ensures
            final(self).wf(),
            final(self).cells() == old(self).cells(),
            final(self).heuristic() == old(self).heuristic(),
            verdict_of(old(self).heuristic(), old(self).cells().dom(), final(self).spec_is_sparse()),
    {
        let coords = self.grid.coords();
        let should_be_sparse = self.convert_heuristic.convert_to_sparse(&coords);
        let is_sparse = self.is_sparse();
        if should_be_sparse != is_sparse {
            let mut to_swap = SwappingGrid::default();
            std::mem::swap(&mut to_swap, &mut self.grid);
            self.grid = to_swap.swap();
        }
        proof {
            let dom = self.cells().dom();
            let h = self.convert_heuristic;
            assert(lists(coords@, dom));
            lemma_listing_set(coords@, dom);
            assert forall|s: Seq<CellCoordinate>| lists(s, dom) implies should_be_sparse == #[trigger] h.prefers_sparse(s) by {
                lemma_listing_set(s, dom);
                h.lemma_same_set_same_verdict(s, coords@);
            }
        }
    }

    /// A mutable reference to the cell at `coord`, if there is one. Never
    /// changes the layout.
    pub fn get_mut(&mut self, coord: &CellCoordinate) -> (r: Option<&mut GridCell>)
        requires
            old(self).wf(),
        ensures
            r.is_some() == old(self).cells().contains_key(*coord),
            r.is_some() ==> *r.unwrap() == old(self).cells()[*coord],
            r.is_some() ==> final(self).cells() == old(self).cells().insert(*coord, *final(r.unwrap())),
            r.is_none() ==> final(self).cells() == old(self).cells(),
            final(self).wf(),
            final(self).spec_is_sparse() == old(self).spec_is_sparse(),
            final(self).heuristic() == old(self).heuristic(),
    {
        match self.grid {
            SwappingGrid::Dense(ref mut g) => g.get_mut(coord),
            SwappingGrid::Sparse(ref mut g) => g.get_mut(coord),
        }
    }

    /// Removes the cell at `coord`, then lets the heuristic choose the layout.
    pub fn remove(&mut self, coord: &CellCoordinate) -> (r: Option<GridCell>)
        requires
            old(self).wf(),
        ensures
            final(self).wf(),
            final(self).cells() == old(self).cells().remove(*coord),
            r == (if old(self).cells().contains_key(*coord) {
                Some(old(self).cells()[*coord])
            } else {
                None
            }),
            final(self).heuristic() == old(self).heuristic(),
            verdict_of(old(self).heuristic(), final(self).cells().dom(), final(self).spec_is_sparse()),
    {
        let return_opt = match self.grid {
            SwappingGrid::Dense(ref mut g) => g.remove(coord),
            SwappingGrid::Sparse(ref mut g) => g.remove(coord),
        };
        self.settle();
        return_opt
    }

    /// Stores `cell` at `coord`, then lets the heuristic choose the layout.
    pub fn insert(&mut self, coord: &CellCoordinate, cell: GridCell)
        requires
            old(self).wf(),
            coord.row < usize::MAX,
            coord.col < usize::MAX,
        ensures
            final(self).wf(),
            final(self).cells() == old(self).cells().insert(*coord, cell),
            final(self).heuristic() == old(self).heuristic(),
            verdict_of(old(self).heuristic(), final(self).cells().dom(), final(self).spec_is_sparse()),
    {
        match self.grid {
            SwappingGrid::Dense(ref mut g) => g.insert(coord, cell),
            SwappingGrid::Sparse(ref mut g) => g.insert(coord, cell),
        }
        self.settle();
    }

    /// Every occupied coordinate, each once; in column-major order while
    /// the dense layout is active.
    pub fn coord_iter(&self) -> (r: Vec<CellCoordinate>)
        requires
            self.wf(),
        ensures
            lists(r@, self.cells().dom()),
            !self.spec_is_sparse() ==> column_major_sorted(r@),
    {
        self.grid.coords()
    }
}

} // verus!
