//! Row-major enumeration of grid cells that satisfy a predicate, and the
//! facts about it that the placement code relies on.

use vstd::prelude::*;

verus! {

/// A grid cell as `(row, column)`.
pub type Cell = (usize, usize);

/// The cells `(r, 0) .. (r, w - 1)` of row `r` that satisfy `p`, left to
/// right.
pub open spec fn row_where(r: int, w: int, p: spec_fn(int, int) -> bool) -> Seq<Cell>
    decreases w,
{
    if w <= 0 {
        Seq::empty()
    } else {
        row_where(r, w - 1, p) + if p(r, w - 1) {
            seq![(r as usize, (w - 1) as usize)]
        } else {
            Seq::empty()
        }
    }
}

/// The cells of the `h` by `w` grid that satisfy `p`, in row-major order.
pub open spec fn cells_where(h: int, w: int, p: spec_fn(int, int) -> bool) -> Seq<Cell>
    decreases h,
{
    if h <= 0 {
        Seq::empty()
    } else {
        cells_where(h - 1, w, p) + row_where(h - 1, w, p)
    }
}

/// A row enumeration has at most `w` cells.
pub proof fn lemma_row_where_len(r: int, w: int, p: spec_fn(int, int) -> bool)
    requires
        0 <= w,
    ensures
        row_where(r, w, p).len() <= w,
    decreases w,
{
    if w > 0 {
        lemma_row_where_len(r, w - 1, p);
    }
}

/// The enumeration of an `h` by `w` grid has at most `h * w` cells.
pub proof fn lemma_cells_where_len(h: int, w: int, p: spec_fn(int, int) -> bool)
    requires
        0 <= h,
        0 <= w,
    ensures
        cells_where(h, w, p).len() <= h * w,
    decreases h,
{
    if h > 0 {
        lemma_cells_where_len(h - 1, w, p);
        lemma_row_where_len(h - 1, w, p);
        assert((h - 1) * w + w == h * w) by (nonlinear_arith);
    }
}

/// Membership in one row of the enumeration.
pub proof fn lemma_row_where_contains(r: int, w: int, p: spec_fn(int, int) -> bool, x: Cell)
    requires
        0 <= r <= usize::MAX,
        0 <= w <= usize::MAX + 1,
    ensures
        row_where(r, w, p).contains(x) <==> (x.0 == r && x.1 < w && p(x.0 as int, x.1 as int)),
    decreases w,
{
    if w > 0 {
        lemma_row_where_contains(r, w - 1, p, x);
        let tail = if p(r, w - 1) {
            seq![(r as usize, (w - 1) as usize)]
        } else {
            Seq::<Cell>::empty()
        };
        let s = row_where(r, w - 1, p) + tail;
        assert(s == row_where(r, w, p));
        if s.contains(x) {
            let i = choose|i: int| 0 <= i < s.len() && s[i] == x;
            if i >= row_where(r, w - 1, p).len() {
                assert(tail[i - row_where(r, w - 1, p).len()] == x);
            } else {
                assert(row_where(r, w - 1, p)[i] == x);
            }
        }
        if x.0 == r && x.1 < w && p(x.0 as int, x.1 as int) {
            if x.1 == w - 1 {
                assert(s[s.len() - 1] == x);
            } else {
                let prev = row_where(r, w - 1, p);
                let j = choose|j: int| 0 <= j < prev.len() && prev[j] == x;
                assert(s[j] == x);
            }
        }
    }
}

/// Every cell of a row enumeration lies in that row, left of `w`.
pub proof fn lemma_row_where_bounds(r: int, w: int, p: spec_fn(int, int) -> bool)
    requires
        0 <= r <= usize::MAX,
        0 <= w <= usize::MAX + 1,
    ensures
        forall|i: int|
            0 <= i < row_where(r, w, p).len() ==> {
                let x = #[trigger] row_where(r, w, p)[i];
                x.0 == r && x.1 < w && p(x.0 as int, x.1 as int)
            },
        row_where(r, w, p).no_duplicates(),
    decreases w,
{
    if w > 0 {
        lemma_row_where_bounds(r, w - 1, p);
        let prev = row_where(r, w - 1, p);
        let s = row_where(r, w, p);
        assert forall|i: int| 0 <= i < s.len() implies {
            let x = #[trigger] s[i];
            x.0 == r && x.1 < w && p(x.0 as int, x.1 as int)
        } by {
            if i < prev.len() {
                assert(s[i] == prev[i]);
            }
        }
        assert forall|i: int, j: int| 0 <= i < s.len() && 0 <= j < s.len() && i != j implies s[i]
            != s[j] by {
            if i < prev.len() && j < prev.len() {
                assert(s[i] == prev[i] && s[j] == prev[j]);
            } else if i < prev.len() {
                assert(s[i] == prev[i]);
            } else if j < prev.len() {
                assert(s[j] == prev[j]);
            }
        }
    }
}

/// Facts about the row-major enumeration: what it contains, that every
/// entry lies inside the grid and satisfies `p`, and that no cell
/// appears twice.
pub proof fn lemma_cells_where(h: int, w: int, p: spec_fn(int, int) -> bool)
    requires
        0 <= h <= usize::MAX + 1,
        0 <= w <= usize::MAX + 1,
    ensures
        forall|i: int|
            0 <= i < cells_where(h, w, p).len() ==> {
                let x = #[trigger] cells_where(h, w, p)[i];
                x.0 < h && x.1 < w && p(x.0 as int, x.1 as int)
            },
        forall|x: Cell|
            #[trigger] cells_where(h, w, p).contains(x) <==> (x.0 < h && x.1 < w && p(
                x.0 as int,
                x.1 as int,
            )),
        cells_where(h, w, p).no_duplicates(),
    decreases h,
{
    if h > 0 {
        lemma_cells_where(h - 1, w, p);
        lemma_row_where_bounds(h - 1, w, p);
        let prev = cells_where(h - 1, w, p);
        let row = row_where(h - 1, w, p);
        let s = cells_where(h, w, p);
        assert(s == prev + row);
        assert forall|i: int| 0 <= i < s.len() implies {
            let x = #[trigger] s[i];
            x.0 < h && x.1 < w && p(x.0 as int, x.1 as int)
        } by {
            if i < prev.len() {
                assert(s[i] == prev[i]);
            } else {
                assert(s[i] == row[i - prev.len()]);
            }
        }
        assert forall|x: Cell| #[trigger]
            s.contains(x) <==> (x.0 < h && x.1 < w && p(x.0 as int, x.1 as int)) by {
            lemma_row_where_contains(h - 1, w, p, x);
            if s.contains(x) {
                let i = choose|i: int| 0 <= i < s.len() && s[i] == x;
                if i < prev.len() {
                    assert(prev[i] == x);
                    assert(prev.contains(x));
                } else {
                    assert(row[i - prev.len()] == x);
                }
            }
            if x.0 < h && x.1 < w && p(x.0 as int, x.1 as int) {
                if x.0 == h - 1 {
                    assert(row.contains(x));
                    let j = choose|j: int| 0 <= j < row.len() && row[j] == x;
                    assert(s[prev.len() + j] == x);
                } else {
                    assert(prev.contains(x));
                    let j = choose|j: int| 0 <= j < prev.len() && prev[j] == x;
                    assert(s[j] == x);
                }
            }
        }
        assert forall|i: int, j: int| 0 <= i < s.len() && 0 <= j < s.len() && i != j implies s[i]
            != s[j] by {
            if i < prev.len() && j < prev.len() {
                assert(s[i] == prev[i] && s[j] == prev[j]);
            } else if i >= prev.len() && j >= prev.len() {
                assert(s[i] == row[i - prev.len()] && s[j] == row[j - prev.len()]);
            } else if i < prev.len() {
                assert(s[i] == prev[i] && s[j] == row[j - prev.len()]);
                assert(row[j - prev.len()].0 == h - 1);
            } else {
                assert(s[j] == prev[j] && s[i] == row[i - prev.len()]);
                assert(row[i - prev.len()].0 == h - 1);
            }
        }
    }
}

/// Appending the next cell of a row to a partial enumeration.
pub proof fn lemma_row_where_step(r: int, c: int, p: spec_fn(int, int) -> bool)
    requires
        0 <= c,
    ensures
        row_where(r, c + 1, p) == row_where(r, c, p) + if p(r, c) {
            seq![(r as usize, c as usize)]
        } else {
            Seq::<Cell>::empty()
        },
{
}

/// Finishing a row of a partial enumeration.
pub proof fn lemma_cells_where_step(r: int, w: int, p: spec_fn(int, int) -> bool)
    requires
        0 <= r,
    ensures
        cells_where(r + 1, w, p) == cells_where(r, w, p) + row_where(r, w, p),
{
}

/// Whether `list` contains `cell`.
pub fn contains_cell(list: &Vec<Cell>, cell: Cell) -> (found: bool)
    ensures
        found == list@.contains(cell),
{
    let mut i: usize = 0;
    while i < list.len()
        invariant
            i <= list.len(),
            forall|j: int| 0 <= j < i ==> list@[j] != cell,
        decreases list.len() - i,
    {
        let other = list[i];
        if other.0 == cell.0 && other.1 == cell.1 {
            return true;
        }
        i += 1;
    }
    false
}

/// A sequence without repeats that only holds elements of `b` is no
/// longer than `b`.
pub proof fn lemma_distinct_subset_len<A>(a: Seq<A>, b: Seq<A>)
    requires
        a.no_duplicates(),
        forall|x: A| a.contains(x) ==> b.contains(x),
    ensures
        a.len() <= b.len(),
{
    broadcast use vstd::seq_lib::seq_to_set_is_finite;
    a.unique_seq_to_set();
    b.lemma_cardinality_of_set();
    assert(a.to_set().subset_of(b.to_set())) by {
        assert forall|x: A| a.to_set().contains(x) implies b.to_set().contains(x) by {
            assert(a.contains(x));
        }
    }
    vstd::set_lib::lemma_len_subset(a.to_set(), b.to_set());
}

/// The distinct elements of `a`, all of them held by the repeat-free
/// `b`, are no more than the elements of `b`.
pub proof fn lemma_set_within_distinct_len<A>(a: Seq<A>, b: Seq<A>)
    requires
        b.no_duplicates(),
        a.to_set().subset_of(b.to_set()),
    ensures
        a.to_set().len() <= b.len(),
{
    broadcast use vstd::seq_lib::seq_to_set_is_finite;
    b.unique_seq_to_set();
    vstd::set_lib::lemma_len_subset(a.to_set(), b.to_set());
}

/// A rearrangement (same multiset) holds the same elements and keeps a
/// sequence free of repeats.
pub proof fn lemma_permutation_facts<A>(s: Seq<A>, t: Seq<A>)
    requires
        t.to_multiset() == s.to_multiset(),
    ensures
        forall|x: A| t.contains(x) <==> s.contains(x),
        s.no_duplicates() ==> t.no_duplicates(),
        t.len() == s.len(),
{
    broadcast use vstd::seq_lib::group_to_multiset_ensures;
    assert(t.len() == t.to_multiset().len());
    assert(s.len() == s.to_multiset().len());
    assert forall|x: A| t.contains(x) <==> s.contains(x) by {
        assert(t.contains(x) <==> t.to_multiset().count(x) > 0);
        assert(s.contains(x) <==> s.to_multiset().count(x) > 0);
    }
    if s.no_duplicates() {
        s.lemma_multiset_has_no_duplicates();
        t.lemma_multiset_has_no_duplicates_conv();
    }
}

} // verus!
