use crate::grid::CellCoordinate;
use vstd::prelude::*;

verus! {

/// Decides from the occupied coordinates whether the sparse layout is the
/// better one. `prefers_sparse` is the decision as a function of the listing.
pub trait ConvertHeuristic {
    spec fn prefers_sparse(&self, coords: Seq<CellCoordinate>) -> bool;

    /// The decision depends on which coordinates are listed, not on the
    /// order of the listing.
    proof fn lemma_same_set_same_verdict(&self, a: Seq<CellCoordinate>, b: Seq<CellCoordinate>)
        requires
            a.to_set() == b.to_set(),
        ensures
            self.prefers_sparse(a) == self.prefers_sparse(b),
    ;

    fn convert_to_sparse(&self, coords: &Vec<CellCoordinate>) -> (r: bool)
        ensures
            r == self.prefers_sparse(coords@),
    ;
}

pub open spec fn max_nat(a: nat, b: nat) -> nat {
    if a >= b { a } else { b }
}

/// `s` is strictly ascending.
pub open spec fn ascending(s: Seq<usize>) -> bool {
    forall|i: int, j: int| 0 <= i < j < s.len() ==> s[i] < s[j]
}

/// The largest difference between neighbouring elements of the ascending
/// `s`; 0 when `s` has fewer than two.
pub open spec fn adjacent_max_gap(s: Seq<usize>) -> nat
    decreases s.len(),
{
    if s.len() < 2 {
        0
    } else {
        max_nat(adjacent_max_gap(s.drop_last()), (s.last() - s[s.len() - 2]) as nat)
    }
}

/// The elements of the finite set `s` in ascending order.
pub open spec fn sorted_listing(s: Set<usize>) -> Seq<usize> {
    choose|q: Seq<usize>| ascending(q) && q.to_set() == s
}

/// The largest difference between consecutive elements of `s` in sorted
/// order; 0 when `s` has at most one element.
pub open spec fn set_max_gap(s: Set<usize>) -> nat {
    adjacent_max_gap(sorted_listing(s))
}

/// Two ascending sequences with the same elements are equal.
proof fn lemma_ascending_unique(a: Seq<usize>, b: Seq<usize>)
    requires
        ascending(a),
        ascending(b),
        a.to_set() == b.to_set(),
    ensures
        a == b,
    decreases a.len(),
{
    if a.len() == 0 {
        if b.len() > 0 {
            assert(b.to_set().contains(b[0]));
        }
        assert(a =~= b);
    } else {
        if b.len() == 0 {
            assert(a.to_set().contains(a[0]));
        }
        let x = a.last();
        let y = b.last();
        assert(a.to_set().contains(x));
        assert(b.to_set().contains(y));
        let i = choose|i: int| 0 <= i < b.len() && b[i] == x;
        let j = choose|j: int| 0 <= j < a.len() && a[j] == y;
        assert(x <= y) by {
            if i < b.len() - 1 {
                assert(b[i] < b[b.len() - 1]);
            }
        }
        assert(y <= x) by {
            if j < a.len() - 1 {
                assert(a[j] < a[a.len() - 1]);
            }
        }
        let a1 = a.drop_last();
        let b1 = b.drop_last();
        assert forall|z: usize| a1.to_set().contains(z) implies b1.to_set().contains(z) by {
            let k = choose|k: int| 0 <= k < a1.len() && a1[k] == z;
            assert(a[k] < x);
            assert(a.to_set().contains(z));
            let m = choose|m: int| 0 <= m < b.len() && b[m] == z;
            assert(m != b.len() - 1);
            assert(b1[m] == z);
        }
        assert forall|z: usize| b1.to_set().contains(z) implies a1.to_set().contains(z) by {
            let k = choose|k: int| 0 <= k < b1.len() && b1[k] == z;
            assert(b[k] < y);
            assert(b.to_set().contains(z));
            let m = choose|m: int| 0 <= m < a.len() && a[m] == z;
            assert(m != a.len() - 1);
            assert(a1[m] == z);
        }
        assert(a1.to_set() =~= b1.to_set());
        lemma_ascending_unique(a1, b1);
        assert(a.len() == b.len());
        assert forall|k: int| 0 <= k < a.len() implies a[k] == b[k] by {
            if k < a.len() - 1 {
                assert(a[k] == a1[k]);
                assert(b[k] == b1[k]);
            }
        }
        assert(a =~= b);
    }
}

/// The largest gap of a set is the largest difference between neighbours in
/// its ascending listing.
pub proof fn lemma_set_max_gap_sorted(q: Seq<usize>)
    requires
        ascending(q),
    ensures
        set_max_gap(q.to_set()) == adjacent_max_gap(q),
{
    let s = q.to_set();
    assert(ascending(q) && q.to_set() == s);
    let chosen = sorted_listing(s);
    lemma_ascending_unique(chosen, q);
}

/// The rows of a listing of coordinates, in its order.
pub open spec fn rows_of(coords: Seq<CellCoordinate>) -> Seq<usize> {
    coords.map_values(|c: CellCoordinate| c.row)
}

/// The columns of a listing of coordinates, in its order.
pub open spec fn cols_of(coords: Seq<CellCoordinate>) -> Seq<usize> {
    coords.map_values(|c: CellCoordinate| c.col)
}

/// Listings of one set of coordinates have one set of rows and one of columns.
proof fn lemma_projection_sets(a: Seq<CellCoordinate>, b: Seq<CellCoordinate>)
    requires
        a.to_set() == b.to_set(),
    ensures
        rows_of(a).to_set() == rows_of(b).to_set(),
        cols_of(a).to_set() == cols_of(b).to_set(),
{
    assert forall|x: usize| rows_of(a).to_set().contains(x) implies rows_of(b).to_set().contains(x) by {
        let k = choose|k: int| 0 <= k < rows_of(a).len() && rows_of(a)[k] == x;
        assert(a.to_set().contains(a[k]));
        let m = choose|m: int| 0 <= m < b.len() && b[m] == a[k];
        assert(rows_of(b)[m] == x);
    }
    assert forall|x: usize| rows_of(b).to_set().contains(x) implies rows_of(a).to_set().contains(x) by {
        let k = choose|k: int| 0 <= k < rows_of(b).len() && rows_of(b)[k] == x;
        assert(b.to_set().contains(b[k]));
        let m = choose|m: int| 0 <= m < a.len() && a[m] == b[k];
        assert(rows_of(a)[m] == x);
    }
    assert forall|x: usize| cols_of(a).to_set().contains(x) implies cols_of(b).to_set().contains(x) by {
        let k = choose|k: int| 0 <= k < cols_of(a).len() && cols_of(a)[k] == x;
        assert(a.to_set().contains(a[k]));
        let m = choose|m: int| 0 <= m < b.len() && b[m] == a[k];
        assert(cols_of(b)[m] == x);
    }
    assert forall|x: usize| cols_of(b).to_set().contains(x) implies cols_of(a).to_set().contains(x) by {
        let k = choose|k: int| 0 <= k < cols_of(b).len() && cols_of(b)[k] == x;
        assert(b.to_set().contains(b[k]));
        let m = choose|m: int| 0 <= m < a.len() && a[m] == b[k];
        assert(cols_of(a)[m] == x);
    }
    assert(rows_of(a).to_set() =~= rows_of(b).to_set());
    assert(cols_of(a).to_set() =~= cols_of(b).to_set());
}

/// Prefers the sparse layout when the occupied rows or the occupied columns
/// show a gap of at least the threshold between consecutive values.
#[derive(Debug)]
pub struct MaxGapConvertHeuristic {
    max_gap_threshold: usize,
}

impl MaxGapConvertHeuristic {
    pub closed spec fn threshold(&self) -> usize {
        self.max_gap_threshold
    }

    pub fn new(max_gap_threshold: usize) -> (r: Self)
        ensures
            r.threshold() == max_gap_threshold,
    {
        Self { max_gap_threshold }
    }
}

impl ConvertHeuristic for MaxGapConvertHeuristic {
    open spec fn prefers_sparse(&self, coords: Seq<CellCoordinate>) -> bool {
        set_max_gap(rows_of(coords).to_set()) >= self.threshold() || set_max_gap(
            cols_of(coords).to_set(),
        ) >= self.threshold()
    }

    proof fn lemma_same_set_same_verdict(&self, a: Seq<CellCoordinate>, b: Seq<CellCoordinate>) {
        lemma_projection_sets(a, b);
    }

    fn convert_to_sparse(&self, coords: &Vec<CellCoordinate>) -> (r: bool) {
        let mut row_gap_measurment = GapMeasurement::default();
        let mut col_gap_measurment = GapMeasurement::default();
        let mut i: usize = 0;
        while i < coords.len()
            invariant
                i <= coords@.len(),
                row_gap_measurment.wf(),
                col_gap_measurment.wf(),
                row_gap_measurment.values() == rows_of(coords@).subrange(0, i as int).to_set(),
                col_gap_measurment.values() == cols_of(coords@).subrange(0, i as int).to_set(),
            decreases coords@.len() - i,
        {
            let coord = coords[i];
            let ghost rows = rows_of(coords@);
            let ghost cols = cols_of(coords@);
            proof {
                lemma_prefix_step(rows, i as int);
                lemma_prefix_step(cols, i as int);
            }
            row_gap_measurment.add(coord.row);
            col_gap_measurment.add(coord.col);
            i += 1;
        }
        proof {
            assert(rows_of(coords@).subrange(0, coords@.len() as int) =~= rows_of(coords@));
            assert(cols_of(coords@).subrange(0, coords@.len() as int) =~= cols_of(coords@));
            row_gap_measurment.lemma_max_gap_of_values();
            col_gap_measurment.lemma_max_gap_of_values();
        }
        row_gap_measurment.max_gap >= self.max_gap_threshold || col_gap_measurment.max_gap
            >= self.max_gap_threshold
    }
}

proof fn lemma_prefix_step(s: Seq<usize>, i: int)
    requires
        0 <= i < s.len(),
    ensures
        s.subrange(0, i + 1).to_set() == s.subrange(0, i).to_set().insert(s[i]),
{
    assert(s.subrange(0, i + 1) =~= s.subrange(0, i).push(s[i]));
    s.subrange(0, i).lemma_push_to_set_commute(s[i]);
}

/// Tracks the distinct values seen so far, in ascending order, and the
/// largest gap between consecutive ones.
#[derive(Debug)]
pub struct GapMeasurement {
    gaps: Vec<usize>,
    max_gap: usize,
}

impl Default for GapMeasurement {
    fn default() -> (r: Self)
        ensures
            r.wf(),
            r.values() == Set::<usize>::empty(),
            r.spec_max_gap() == 0,
    {
        let r = GapMeasurement { gaps: Vec::new(), max_gap: 0 };
        assert(r.gaps@.to_set() =~= Set::<usize>::empty());
        r
    }
}

/// Where `value` stands in the ascending `v`: `Ok` with its index, or `Err`
/// with the index at which it would be inserted.
fn search(v: &Vec<usize>, value: usize) -> (r: Result<usize, usize>)
    requires
        ascending(v@),
    ensures
        r matches Ok(i) ==> i < v@.len() && v@[i as int] == value,
        r matches Err(p) ==> p <= v@.len() && (forall|j: int| 0 <= j < p ==> v@[j] < value) && (
        forall|j: int| p <= j < v@.len() ==> v@[j] > value),
{
    let mut lo: usize = 0;
    let mut hi: usize = v.len();
    while lo < hi
        invariant
            lo <= hi <= v@.len(),
            ascending(v@),
            forall|j: int| 0 <= j < lo ==> v@[j] < value,
            forall|j: int| hi <= j < v@.len() ==> v@[j] > value,
        decreases hi - lo,
    {
        let mid = lo + (hi - lo) / 2;
        if v[mid] == value {
            return Ok(mid);
        } else if v[mid] < value {
            lo = mid + 1;
        } else {
            hi = mid;
        }
    }
    Err(lo)
}

impl GapMeasurement {
    pub closed spec fn wf(&self) -> bool {
        ascending(self.gaps@) && self.max_gap as nat == adjacent_max_gap(self.gaps@)
    }

    /// The distinct values added so far.
    pub closed spec fn values(&self) -> Set<usize> {
        self.gaps@.to_set()
    }

    pub closed spec fn spec_max_gap(&self) -> nat {
        self.max_gap as nat
    }

    /// A well-formed tracker's gap is the largest gap of its values, so two
    /// trackers that saw the same values, in whatever order, agree.
    pub proof fn lemma_max_gap_of_values(&self)
        requires
            self.wf(),
        ensures
            self.spec_max_gap() == set_max_gap(self.values()),
    {
        lemma_set_max_gap_sorted(self.gaps@);
    }

    /// Two trackers that were given the same values, in whatever order and
    /// with whatever repetitions, report the same gap.
    pub proof fn lemma_order_independent(a: &GapMeasurement, b: &GapMeasurement)
        requires
            a.wf(),
            b.wf(),
            a.values() == b.values(),
        ensures
            a.spec_max_gap() == b.spec_max_gap(),
    {
        a.lemma_max_gap_of_values();
        b.lemma_max_gap_of_values();
    }

    /// The largest gap between consecutive values so far.
    pub fn max_gap(&self) -> (r: usize)
        ensures
            r == self.spec_max_gap(),
    {
        self.max_gap
    }

    /// Adds `value`; a value already present changes nothing. The gap is
    /// then the largest between consecutive values of the new set.
    pub fn add(&mut self, value: usize)
        requires
            old(self).wf(),
        ensures
            final(self).wf(),
            final(self).values() == old(self).values().insert(value),
            final(self).spec_max_gap() == set_max_gap(final(self).values()),
    {
        let ghost s = self.gaps@;
        let pos = match search(&self.gaps, value) {
            Ok(_) => {
                proof {
                    assert(s.to_set().contains(value));
                    assert(s.to_set().insert(value) =~= s.to_set());
                    self.lemma_max_gap_of_values();
                }
                return;
            },
            Err(pos) => pos,
        };
        self.gaps.insert(pos, value);
        let ghost t = self.gaps@;
        proof {
            assert(t =~= s.subrange(0, pos as int).push(value) + s.subrange(pos as int, s.len() as int));
            assert forall|i: int, j: int| 0 <= i < j < t.len() implies t[i] < t[j] by {
                if j < pos {
                    assert(s[i] < s[j]);
                } else if j > pos && i > pos {
                    assert(s[i - 1] < s[j - 1]);
                } else if j > pos && i < pos {
                    assert(s[i] < value && value < s[j - 1]);
                }
            }
            assert(t.to_set() =~= s.to_set().insert(value)) by {
                assert forall|x: usize| t.to_set().contains(x) implies s.to_set().insert(value).contains(x) by {
                    let k = choose|k: int| 0 <= k < t.len() && t[k] == x;
                    if k < pos {
                        assert(s[k] == x);
                    } else if k > pos {
                        assert(s[k - 1] == x);
                    }
                }
                assert forall|x: usize| s.to_set().insert(value).contains(x) implies t.to_set().contains(x) by {
                    if x == value {
                        assert(t[pos as int] == x);
                    } else {
                        let k = choose|k: int| 0 <= k < s.len() && s[k] == x;
                        if k < pos {
                            assert(t[k] == x);
                        } else {
                            assert(t[k + 1] == x);
                        }
                    }
                }
            }
            assert(t.subrange(0, 1).len() == 1);
        }
        let len = self.gaps.len();
        let mut m: usize = 0;
        let mut i: usize = 1;
        while i < len
            invariant
                len == self.gaps@.len(),
                self.gaps@ == t,
                ascending(t),
                1 <= i <= len,
                m as nat == adjacent_max_gap(t.subrange(0, i as int)),
            decreases len - i,
        {
            let d = self.gaps[i] - self.gaps[i - 1];
            proof {
                assert(t.subrange(0, i + 1).drop_last() =~= t.subrange(0, i as int));
                assert(t[i as int - 1] < t[i as int]);
            }
            if d > m {
                m = d;
            }
            i += 1;
        }
        proof {
            assert(t.subrange(0, len as int) =~= t);
        }
        self.max_gap = m;
        proof {
            lemma_set_max_gap_sorted(t);
        }
    }
}

} // verus!
