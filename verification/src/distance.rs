//! Navigation distances over the maze: a breadth-first search in the four
//! cardinal directions from an origin cell.

use vstd::prelude::*;

use crate::grid::Cell;
use crate::level::Level;

verus! {

/// A grid of optional distances, row by row.
pub type DistanceGrid = Seq<Seq<Option<u32>>>;

/// The rows of `rows` as sequences.
pub open spec fn deep_grid(rows: Seq<Vec<Option<u32>>>) -> DistanceGrid {
    rows.map_values(|row: Vec<Option<u32>>| row@)
}

/// The entry of `g` at `(r, c)`, `None` outside the grid.
pub open spec fn at(g: DistanceGrid, r: int, c: int) -> Option<u32> {
    if 0 <= r < g.len() && 0 <= c < g[r].len() {
        g[r][c]
    } else {
        None
    }
}

/// `g` has `h` rows of `w` entries.
pub open spec fn has_shape(g: DistanceGrid, h: nat, w: nat) -> bool {
    &&& g.len() == h
    &&& forall|r: int| 0 <= r < h ==> #[trigger] g[r].len() == w
}

/// One of the four neighbours of `(r, c)` holds distance `k - 1`.
pub open spec fn has_predecessor(g: DistanceGrid, r: int, c: int, k: int) -> bool {
    ||| at(g, r - 1, c) == Some((k - 1) as u32)
    ||| at(g, r + 1, c) == Some((k - 1) as u32)
    ||| at(g, r, c - 1) == Some((k - 1) as u32)
    ||| at(g, r, c + 1) == Some((k - 1) as u32)
}

/// If `(nr, nc)` is walkable, it holds a distance at most one more than
/// the distance `k` of its neighbour.
pub open spec fn step_bounded(g: DistanceGrid, level: Level, k: int, nr: int, nc: int) -> bool {
    level.walkable(nr, nc) ==> (at(g, nr, nc) is Some && at(g, nr, nc).unwrap() <= k + 1)
}

/// Every walkable neighbour of `(r, c)`, whose distance is `k`, holds a
/// distance at most `k + 1`.
pub open spec fn closed_at(g: DistanceGrid, level: Level, r: int, c: int, k: int) -> bool {
    &&& step_bounded(g, level, k, r - 1, c)
    &&& step_bounded(g, level, k, r + 1, c)
    &&& step_bounded(g, level, k, r, c - 1)
    &&& step_bounded(g, level, k, r, c + 1)
}

/// `g` holds the breadth-first navigation distances of `level` from
/// `origin`: the origin (when walkable) is at distance zero and is the
/// only such cell, only walkable cells hold a distance, every positive
/// distance is one more than a neighbour's, and every walkable
/// neighbour of a reached cell is reached at most one step later.
/// Together these say that each entry is the length of a shortest
/// four-directional walkable path from `origin`, and `None` exactly
/// where no such path exists.
pub open spec fn is_distance_grid(g: DistanceGrid, level: Level, origin: Cell) -> bool {
    &&& has_shape(g, level.spec_height(), level.spec_width())
    &&& (level.walkable(origin.0 as int, origin.1 as int) ==> at(
        g,
        origin.0 as int,
        origin.1 as int,
    ) == Some(0u32))
    &&& forall|r: int, c: int| #[trigger] entry(g, r, c) is Some ==> level.walkable(r, c)
    &&& forall|r: int, c: int|
        #[trigger] entry(g, r, c) == Some(0u32) ==> r == origin.0 && c == origin.1
    &&& forall|r: int, c: int|
        #[trigger] entry(g, r, c) is Some && at(g, r, c).unwrap() > 0 ==> has_predecessor(
            g,
            r,
            c,
            at(g, r, c).unwrap() as int,
        )
    &&& forall|r: int, c: int| #[trigger]
        entry(g, r, c) is Some ==> closed_at(g, level, r, c, at(g, r, c).unwrap() as int)
}

/// The entry of `g` at `(r, c)`; the name under which the quantified
/// facts about a distance grid are looked up.
pub open spec fn entry(g: DistanceGrid, r: int, c: int) -> Option<u32> {
    at(g, r, c)
}

/// The navigation distance of `(r, c)` from `origin` in `level`: the
/// entry of the (unique) breadth-first distance grid.
pub open spec fn nav_distance(level: Level, origin: Cell, r: int, c: int) -> Option<u32> {
    at(choose|g: DistanceGrid| is_distance_grid(g, level, origin), r, c)
}

/// A distance in one breadth-first grid bounds the distance of the same
/// cell in any other breadth-first grid of the same maze and origin.
proof fn lemma_distance_bounds_other(
    g1: DistanceGrid,
    g2: DistanceGrid,
    level: Level,
    origin: Cell,
    r: int,
    c: int,
    k: nat,
)
    requires
        is_distance_grid(g1, level, origin),
        is_distance_grid(g2, level, origin),
        k <= u32::MAX,
        at(g1, r, c) == Some(k as u32),
    ensures
        at(g2, r, c) is Some,
        at(g2, r, c).unwrap() <= k,
    decreases k,
{
    assert(entry(g1, r, c) == Some(k as u32));
    assert(level.walkable(r, c));
    if k == 0 {
        assert(r == origin.0 && c == origin.1);
    } else {
        assert(has_predecessor(g1, r, c, k as int));
        let pred = (k - 1) as u32;
        if at(g1, r - 1, c) == Some(pred) {
            lemma_distance_bounds_other(g1, g2, level, origin, r - 1, c, (k - 1) as nat);
            assert(entry(g2, r - 1, c) is Some);
            assert(closed_at(g2, level, r - 1, c, at(g2, r - 1, c).unwrap() as int));
            assert(step_bounded(g2, level, at(g2, r - 1, c).unwrap() as int, r - 1 + 1, c));
        } else if at(g1, r + 1, c) == Some(pred) {
            lemma_distance_bounds_other(g1, g2, level, origin, r + 1, c, (k - 1) as nat);
            assert(entry(g2, r + 1, c) is Some);
            assert(closed_at(g2, level, r + 1, c, at(g2, r + 1, c).unwrap() as int));
            assert(step_bounded(g2, level, at(g2, r + 1, c).unwrap() as int, r + 1 - 1, c));
        } else if at(g1, r, c - 1) == Some(pred) {
            lemma_distance_bounds_other(g1, g2, level, origin, r, c - 1, (k - 1) as nat);
            assert(entry(g2, r, c - 1) is Some);
            assert(closed_at(g2, level, r, c - 1, at(g2, r, c - 1).unwrap() as int));
            assert(step_bounded(g2, level, at(g2, r, c - 1).unwrap() as int, r, c - 1 + 1));
        } else {
            assert(at(g1, r, c + 1) == Some(pred));
            lemma_distance_bounds_other(g1, g2, level, origin, r, c + 1, (k - 1) as nat);
            assert(entry(g2, r, c + 1) is Some);
            assert(closed_at(g2, level, r, c + 1, at(g2, r, c + 1).unwrap() as int));
            assert(step_bounded(g2, level, at(g2, r, c + 1).unwrap() as int, r, c + 1 - 1));
        }
    }
}

/// There is at most one breadth-first distance grid for a maze and an
/// origin, so any such grid gives the navigation distances.
pub proof fn lemma_distance_grid_is_unique(g: DistanceGrid, level: Level, origin: Cell)
    requires
        is_distance_grid(g, level, origin),
    ensures
        forall|r: int, c: int| #[trigger] at(g, r, c) == nav_distance(level, origin, r, c),
{
    let h = choose|h: DistanceGrid| is_distance_grid(h, level, origin);
    assert(is_distance_grid(h, level, origin));
    assert forall|r: int, c: int| #[trigger] at(g, r, c) == nav_distance(level, origin, r, c) by {
        assert(entry(g, r, c) == at(g, r, c));
        assert(entry(h, r, c) == at(h, r, c));
        if at(g, r, c) is Some {
            lemma_distance_bounds_other(g, h, level, origin, r, c, at(g, r, c).unwrap() as nat);
            lemma_distance_bounds_other(h, g, level, origin, r, c, at(h, r, c).unwrap() as nat);
        } else if at(h, r, c) is Some {
            lemma_distance_bounds_other(h, g, level, origin, r, c, at(h, r, c).unwrap() as nat);
        }
    }
}

/// Number of `None` entries of a row.
pub open spec fn row_unreached(row: Seq<Option<u32>>) -> nat
    decreases row.len(),
{
    if row.len() == 0 {
        0
    } else {
        row_unreached(row.drop_last()) + if row.last() is None {
            1nat
        } else {
            0nat
        }
    }
}

/// Number of `None` entries of a grid.
pub open spec fn grid_unreached(g: DistanceGrid) -> nat
    decreases g.len(),
{
    if g.len() == 0 {
        0
    } else {
        grid_unreached(g.drop_last()) + row_unreached(g.last())
    }
}

proof fn lemma_row_unreached_update(row: Seq<Option<u32>>, c: int, v: u32)
    requires
        0 <= c < row.len(),
        row[c] is None,
    ensures
        row_unreached(row.update(c, Some(v))) + 1 == row_unreached(row),
    decreases row.len(),
{
    let new_row = row.update(c, Some(v));
    if c == row.len() - 1 {
        assert(new_row.drop_last() == row.drop_last());
    } else {
        lemma_row_unreached_update(row.drop_last(), c, v);
        assert(new_row.drop_last() == row.drop_last().update(c, Some(v)));
    }
}

proof fn lemma_grid_unreached_update(g: DistanceGrid, r: int, c: int, v: u32)
    requires
        0 <= r < g.len(),
        0 <= c < g[r].len(),
        g[r][c] is None,
    ensures
        grid_unreached(g.update(r, g[r].update(c, Some(v)))) + 1 == grid_unreached(g),
    decreases g.len(),
{
    let new_g = g.update(r, g[r].update(c, Some(v)));
    if r == g.len() - 1 {
        assert(new_g.drop_last() == g.drop_last());
        lemma_row_unreached_update(g[r], c, v);
    } else {
        lemma_grid_unreached_update(g.drop_last(), r, c, v);
        assert(new_g.drop_last() == g.drop_last().update(r, g[r].update(c, Some(v))));
    }
}

proof fn lemma_row_unreached_all_none(row: Seq<Option<u32>>)
    requires
        forall|c: int| 0 <= c < row.len() ==> #[trigger] row[c] is None,
    ensures
        row_unreached(row) == row.len(),
    decreases row.len(),
{
    if row.len() > 0 {
        lemma_row_unreached_all_none(row.drop_last());
    }
}

proof fn lemma_grid_unreached_all_none(g: DistanceGrid, w: nat)
    requires
        has_shape(g, g.len(), w),
        forall|r: int, c: int| 0 <= r < g.len() && 0 <= c < w ==> #[trigger] g[r][c] is None,
    ensures
        grid_unreached(g) == g.len() * w,
    decreases g.len(),
{
    if g.len() > 0 {
        let last = g.len() - 1;
        assert forall|c: int| 0 <= c < g[last].len() implies #[trigger] g[last][c] is None by {
            assert(g[last][c] is None);
        }
        lemma_row_unreached_all_none(g[last]);
        assert(has_shape(g.drop_last(), g.drop_last().len(), w)) by {
            assert forall|r: int| 0 <= r < g.drop_last().len() implies #[trigger] g.drop_last()[r].len()
                == w by {
                assert(g.drop_last()[r] == g[r]);
            }
        }
        lemma_grid_unreached_all_none(g.drop_last(), w);
        assert((g.len() - 1) * w + w == g.len() * w) by (nonlinear_arith);
    }
}

/// Breadth-first navigation distances from one origin cell.
pub struct DistanceField {
    rows: Vec<Vec<Option<u32>>>,
}

impl DistanceField {
    /// The distances, row by row.
    pub closed spec fn grid(&self) -> DistanceGrid {
        deep_grid(self.rows@)
    }

    /// The distance of `(r, c)`, `None` when unreachable or outside.
    pub open spec fn get(&self, r: int, c: int) -> Option<u32> {
        at(self.grid(), r, c)
    }

    /// Computes the navigation distances of every cell of `level` from
    /// `origin`. An origin outside the maze or on a wall reaches nothing.
    pub fn from_level(level: &Level, origin: Cell) -> (field: Self)
        ensures
            is_distance_grid(field.grid(), *level, origin),
            forall|r: int, c: int| #[trigger] field.get(r, c) == nav_distance(*level, origin, r, c),
            !level.walkable(origin.0 as int, origin.1 as int) ==> forall|r: int, c: int|
                #[trigger] field.get(r, c) is None,
    {
        let height = level.height();
        let width = level.width();
        let mut rows: Vec<Vec<Option<u32>>> = Vec::new();
        let mut r: usize = 0;
        while r < height
            invariant
                r <= height,
                has_shape(deep_grid(rows@), r as nat, width as nat),
                forall|i: int, j: int|
                    0 <= i < r && 0 <= j < width ==> #[trigger] deep_grid(rows@)[i][j] is None,
            decreases height - r,
        {
            let mut row: Vec<Option<u32>> = Vec::new();
            let mut c: usize = 0;
            while c < width
                invariant
                    c <= width,
                    row@.len() == c,
                    forall|j: int| 0 <= j < c ==> #[trigger] row@[j] is None,
                decreases width - c,
            {
                row.push(None);
                c += 1;
            }
            let ghost before = rows@;
            rows.push(row);
            proof {
                assert(deep_grid(rows@) == deep_grid(before).push(row@));
            }
            r += 1;
        }
        proof {
            lemma_grid_unreached_all_none(deep_grid(rows@), width as nat);
            assert forall|i: int, j: int| #[trigger] at(deep_grid(rows@), i, j) is None by {}
        }
        if !level.is_walkable(origin.0, origin.1) {
            let field = DistanceField { rows };
            proof {
                lemma_distance_grid_is_unique(field.grid(), *level, origin);
            }
            return field;
        }
        proof {
            assert(deep_grid(rows@)[origin.0 as int] == rows@[origin.0 as int]@);
        }
        let ghost start = deep_grid(rows@);
        Self::set_cell(&mut rows, origin.0, origin.1, 0);
        let mut frontier: Vec<Cell> = Vec::new();
        frontier.push(origin);
        proof {
            lemma_grid_unreached_update(start, origin.0 as int, origin.1 as int, 0);
            let g = deep_grid(rows@);
            assert forall|i: int, j: int| #[trigger] at(g, i, j) is Some implies i == origin.0
                && j == origin.1 && at(g, i, j) == Some(0u32) by {
                if i != origin.0 || j != origin.1 {
                    assert(at(start, i, j) is None);
                }
            }
            assert(frontier@[0] == origin);
            assert forall|i: int, j: int| #[trigger] at(g, i, j) == Some(0u32) implies frontier@.contains(
                (i as usize, j as usize),
            ) by {
                assert(frontier@[0] == (i as usize, j as usize));
            }
        }
        let mut k: u32 = 0;
        while frontier.len() > 0
            invariant
                height == level.spec_height(),
                width == level.spec_width(),
                height * width <= u32::MAX,
                has_shape(deep_grid(rows@), height as nat, width as nat),
                at(deep_grid(rows@), origin.0 as int, origin.1 as int) == Some(0u32),
                only_walkable(deep_grid(rows@), *level),
                bounded_by(deep_grid(rows@), k as int),
                forall|i: int, j: int|
                    #[trigger] at(deep_grid(rows@), i, j) == Some(0u32) ==> i == origin.0 && j
                        == origin.1,
                positive_have_predecessors(deep_grid(rows@)),
                closed_below(deep_grid(rows@), *level, k as int),
                forall|f: int|
                    0 <= f < frontier@.len() ==> at(
                        deep_grid(rows@),
                        #[trigger] frontier@[f].0 as int,
                        frontier@[f].1 as int,
                    ) == Some(k),
                forall|i: int, j: int|
                    #[trigger] at(deep_grid(rows@), i, j) == Some(k) ==> frontier@.contains(
                        (i as usize, j as usize),
                    ),
                frontier@.len() > 0 ==> grid_unreached(deep_grid(rows@)) + k < height * width,
            decreases grid_unreached(deep_grid(rows@)), frontier@.len(),
        {
            let ghost layer_start = deep_grid(rows@);
            let next_k: u32 = k + 1;
            let mut next: Vec<Cell> = Vec::new();
            let mut f: usize = 0;
            while f < frontier.len()
                invariant
                    height == level.spec_height(),
                    width == level.spec_width(),
                    next_k == k + 1,
                    f <= frontier@.len(),
                    has_shape(deep_grid(rows@), height as nat, width as nat),
                    grows(layer_start, deep_grid(rows@)),
                    only_walkable(layer_start, *level),
                    new_cells_listed(layer_start, deep_grid(rows@), next@, next_k as int),
                    bounded_by(deep_grid(rows@), next_k as int),
                    only_walkable(deep_grid(rows@), *level),
                    positive_have_predecessors(deep_grid(rows@)),
                    grid_unreached(deep_grid(rows@)) + next@.len() == grid_unreached(layer_start),
                    forall|g: int|
                        0 <= g < frontier@.len() ==> at(
                            layer_start,
                            #[trigger] frontier@[g].0 as int,
                            frontier@[g].1 as int,
                        ) == Some(k),
                    forall|g: int|
                        0 <= g < f ==> closed_at(
                            deep_grid(rows@),
                            *level,
                            #[trigger] frontier@[g].0 as int,
                            frontier@[g].1 as int,
                            k as int,
                        ),
                decreases frontier@.len() - f,
            {
                let ghost before = deep_grid(rows@);
                let cell = frontier[f];
                proof {
                    assert(at(layer_start, cell.0 as int, cell.1 as int) == Some(k));
                    assert(level.walkable(cell.0 as int, cell.1 as int));
                }
                Self::expand(level, &mut rows, &mut next, cell.0, cell.1, next_k, Ghost(layer_start));
                proof {
                    let g = deep_grid(rows@);
                    assert forall|h: int| 0 <= h < f + 1 implies closed_at(
                        g,
                        *level,
                        #[trigger] frontier@[h].0 as int,
                        frontier@[h].1 as int,
                        k as int,
                    ) by {
                        if h < f {
                            lemma_closed_at_grows(before, g, *level, frontier@[h].0 as int, frontier@[h].1 as int, k as int);
                        }
                    }
                }
                f += 1;
            }
            proof {
                let g = deep_grid(rows@);
                assert forall|i: int, j: int|
                    #[trigger] at(g, i, j) is Some && at(g, i, j).unwrap() < next_k implies closed_at(
                    g,
                    *level,
                    i,
                    j,
                    at(g, i, j).unwrap() as int,
                ) by {
                    let v = at(g, i, j).unwrap();
                    assert(at(layer_start, i, j) is Some);
                    if v < k {
                        assert(closed_at(layer_start, *level, i, j, v as int));
                        lemma_closed_at_grows(layer_start, g, *level, i, j, v as int);
                    } else {
                        assert(frontier@.contains((i as usize, j as usize)));
                        let h = choose|h: int| 0 <= h < frontier@.len() && frontier@[h] == (i as usize, j as usize);
                        assert(closed_at(g, *level, frontier@[h].0 as int, frontier@[h].1 as int, k as int));
                    }
                }
                assert forall|i: int, j: int| #[trigger] at(g, i, j) == Some(0u32) implies i == origin.0
                    && j == origin.1 by {
                    if at(layer_start, i, j) is Some {
                        assert(at(layer_start, i, j) == Some(0u32));
                    }
                }
                assert forall|i: int, j: int| #[trigger] at(g, i, j) == Some(next_k) implies next@.contains(
                    (i as usize, j as usize),
                ) by {
                    if at(layer_start, i, j) is Some {
                        assert(at(layer_start, i, j).unwrap() <= k);
                    }
                }
                assert forall|n: int| 0 <= n < next@.len() implies at(
                    g,
                    #[trigger] next@[n].0 as int,
                    next@[n].1 as int,
                ) == Some(next_k) by {}
                assert(at(layer_start, origin.0 as int, origin.1 as int) == Some(0u32));
            }
            frontier = next;
            k = next_k;
        }
        proof {
            let g = deep_grid(rows@);
            assert forall|i: int, j: int| #[trigger] at(g, i, j) is Some implies closed_at(
                g,
                *level,
                i,
                j,
                at(g, i, j).unwrap() as int,
            ) by {
                if at(g, i, j).unwrap() == k {
                    assert(frontier@.contains((i as usize, j as usize)));
                }
            }
        }
        let field = DistanceField { rows };
        proof {
            lemma_distance_grid_is_unique(field.grid(), *level, origin);
        }
        field
    }

    /// The navigation distance of `(row, column)` from the origin, `None`
    /// when it cannot be reached or lies outside the maze.
    pub fn distance_at(&self, row: usize, column: usize) -> (d: Option<u32>)
        ensures
            d == self.get(row as int, column as int),
    {
        if row < self.rows.len() && column < self.rows[row].len() {
            proof {
                assert(self.grid()[row as int] == self.rows@[row as int]@);
            }
            self.rows[row][column]
        } else {
            proof {
                if row < self.rows.len() {
                    assert(self.grid()[row as int] == self.rows@[row as int]@);
                }
            }
            None
        }
    }

    /// Writes `value` at `(r, c)`.
    fn set_cell(rows: &mut Vec<Vec<Option<u32>>>, r: usize, c: usize, value: u32)
        requires
            r < old(rows)@.len(),
            c < old(rows)@[r as int]@.len(),
        ensures
            deep_grid(final(rows)@) == deep_grid(old(rows)@).update(
                r as int,
                deep_grid(old(rows)@)[r as int].update(c as int, Some(value)),
            ),
    {
        let ghost before = rows@;
        rows[r].set(c, Some(value));
        proof {
            assert(deep_grid(rows@) =~= deep_grid(before).update(
                r as int,
                deep_grid(before)[r as int].update(c as int, Some(value)),
            ));
        }
    }

    /// Reaches every walkable, unreached neighbour of `(r, c)`, whose
    /// distance is `value - 1`, at distance `value`.
    fn expand(
        level: &Level,
        rows: &mut Vec<Vec<Option<u32>>>,
        next: &mut Vec<Cell>,
        r: usize,
        c: usize,
        value: u32,
        start: Ghost<DistanceGrid>,
    )
        requires
            layer_step_pre(deep_grid(old(rows)@), start@, old(next)@, *level, value as int),
            at(deep_grid(old(rows)@), r as int, c as int) == Some((value - 1) as u32),
            r < usize::MAX,
            c < usize::MAX,
        ensures
            layer_step_post(
                deep_grid(old(rows)@),
                deep_grid(final(rows)@),
                start@,
                old(next)@,
                final(next)@,
                *level,
                value as int,
            ),
            closed_at(deep_grid(final(rows)@), *level, r as int, c as int, value - 1),
    {
        let ghost g0 = deep_grid(rows@);
        proof {
            assert(level.walkable(r as int, c as int));
        }
        if r > 0 {
            Self::visit(level, rows, next, r - 1, c, value, Ghost((r as int, c as int)), start);
        }
        let ghost g1 = deep_grid(rows@);
        Self::visit(level, rows, next, r + 1, c, value, Ghost((r as int, c as int)), start);
        let ghost g2 = deep_grid(rows@);
        if c > 0 {
            Self::visit(level, rows, next, r, c - 1, value, Ghost((r as int, c as int)), start);
        }
        let ghost g3 = deep_grid(rows@);
        Self::visit(level, rows, next, r, c + 1, value, Ghost((r as int, c as int)), start);
        proof {
            let g = deep_grid(rows@);
            if r > 0 {
                lemma_step_bounded_grows(g1, g, *level, value - 1, r - 1, c as int);
            } else {
                assert(!level.walkable(r - 1, c as int));
            }
            lemma_step_bounded_grows(g2, g, *level, value - 1, r + 1, c as int);
            if c > 0 {
                lemma_step_bounded_grows(g3, g, *level, value - 1, r as int, c - 1);
            } else {
                assert(!level.walkable(r as int, c - 1));
            }
        }
    }

    /// Reaches `(r, c)` at distance `value` from its neighbour `from` when
    /// it is walkable and not reached yet, recording it in `next`.
    fn visit(
        level: &Level,
        rows: &mut Vec<Vec<Option<u32>>>,
        next: &mut Vec<Cell>,
        r: usize,
        c: usize,
        value: u32,
        from: Ghost<(int, int)>,
        start: Ghost<DistanceGrid>,
    )
        requires
            layer_step_pre(deep_grid(old(rows)@), start@, old(next)@, *level, value as int),
            at(deep_grid(old(rows)@), from@.0, from@.1) == Some((value - 1) as u32),
            (from@.0 == r - 1 && from@.1 == c) || (from@.0 == r + 1 && from@.1 == c) || (from@.0
                == r && from@.1 == c - 1) || (from@.0 == r && from@.1 == c + 1),
        ensures
            layer_step_post(
                deep_grid(old(rows)@),
                deep_grid(final(rows)@),
                start@,
                old(next)@,
                final(next)@,
                *level,
                value as int,
            ),
            step_bounded(deep_grid(final(rows)@), *level, value - 1, r as int, c as int),
    {
        let ghost before = deep_grid(rows@);
        if level.is_walkable(r, c) && rows[r][c].is_none() {
            proof {
                assert(before[r as int] == rows@[r as int]@);
                assert(at(start@, r as int, c as int) is None);
            }
            Self::set_cell(rows, r, c, value);
            next.push((r, c));
            proof {
                lemma_grid_unreached_update(before, r as int, c as int, value);
                let g = deep_grid(rows@);
                assert forall|i: int, j: int| #[trigger] at(before, i, j) is Some implies at(g, i, j) == at(
                    before,
                    i,
                    j,
                ) by {
                    if i == r && j != c {
                        assert(g[i][j] == before[i][j]);
                    }
                }
                assert(at(g, from@.0, from@.1) == Some((value - 1) as u32));
                assert forall|i: int, j: int|
                    #[trigger] at(g, i, j) is Some && at(g, i, j).unwrap() > 0 implies has_predecessor(
                    g,
                    i,
                    j,
                    at(g, i, j).unwrap() as int,
                ) by {
                    if i == r && j == c {
                    } else {
                        assert(at(before, i, j) is Some) by {
                            if i == r {
                                assert(g[i][j] == before[i][j]);
                            }
                        }
                        lemma_predecessor_grows(before, g, i, j, at(g, i, j).unwrap() as int);
                    }
                }
                assert forall|i: int, j: int|
                    #[trigger] at(g, i, j) is Some && at(start@, i, j) is None implies at(g, i, j) == Some(
                    value,
                ) && next@.contains((i as usize, j as usize)) by {
                    if i == r && j == c {
                        assert(next@[next@.len() - 1] == (i as usize, j as usize));
                    } else {
                        assert(at(before, i, j) is Some) by {
                            if i == r {
                                assert(g[i][j] == before[i][j]);
                            }
                        }
                        assert(old(next)@.contains((i as usize, j as usize)));
                        let n = choose|n: int| 0 <= n < old(next)@.len() && old(next)@[n] == (i as usize, j as usize);
                        assert(next@[n] == (i as usize, j as usize));
                    }
                }
                assert forall|n: int| 0 <= n < next@.len() implies at(
                    g,
                    #[trigger] next@[n].0 as int,
                    next@[n].1 as int,
                ) == Some(value) && at(start@, next@[n].0 as int, next@[n].1 as int) is None by {
                    if n < old(next)@.len() {
                        assert(next@[n] == old(next)@[n]);
                    }
                }
                assert forall|i: int, j: int| #[trigger] at(g, i, j) is Some implies at(g, i, j).unwrap()
                    <= value && level.walkable(i, j) by {
                    if !(i == r && j == c) {
                        assert(at(before, i, j) is Some) by {
                            if i == r {
                                assert(g[i][j] == before[i][j]);
                            }
                        }
                    }
                }
            }
        } else {
            proof {
                if level.walkable(r as int, c as int) {
                    assert(before[r as int] == rows@[r as int]@);
                }
            }
        }
    }
}

/// `b` agrees with every distance already present in `a`.
spec fn grows(a: DistanceGrid, b: DistanceGrid) -> bool {
    forall|i: int, j: int| #[trigger] at(a, i, j) is Some ==> at(b, i, j) == at(a, i, j)
}

/// Only walkable cells hold a distance.
spec fn only_walkable(g: DistanceGrid, level: Level) -> bool {
    forall|i: int, j: int| #[trigger] at(g, i, j) is Some ==> level.walkable(i, j)
}

/// No distance exceeds `m`.
spec fn bounded_by(g: DistanceGrid, m: int) -> bool {
    forall|i: int, j: int| #[trigger] at(g, i, j) is Some ==> at(g, i, j).unwrap() <= m
}

/// Every positive distance is one more than a neighbour's.
spec fn positive_have_predecessors(g: DistanceGrid) -> bool {
    forall|i: int, j: int|
        #[trigger] at(g, i, j) is Some && at(g, i, j).unwrap() > 0 ==> has_predecessor(
            g,
            i,
            j,
            at(g, i, j).unwrap() as int,
        )
}

/// Every cell at distance below `m` is closed.
spec fn closed_below(g: DistanceGrid, level: Level, m: int) -> bool {
    forall|i: int, j: int|
        #[trigger] at(g, i, j) is Some && at(g, i, j).unwrap() < m ==> closed_at(
            g,
            level,
            i,
            j,
            at(g, i, j).unwrap() as int,
        )
}

/// The cells reached since `start` hold `v` and are exactly those in
/// `next`.
spec fn new_cells_listed(start: DistanceGrid, g: DistanceGrid, next: Seq<Cell>, v: int) -> bool {
    &&& forall|i: int, j: int|
        #[trigger] at(g, i, j) is Some && at(start, i, j) is None ==> at(g, i, j) == Some(v as u32)
            && next.contains((i as usize, j as usize))
    &&& forall|n: int|
        0 <= n < next.len() ==> at(g, #[trigger] next[n].0 as int, next[n].1 as int) == Some(
            v as u32,
        ) && at(start, next[n].0 as int, next[n].1 as int) is None
}

/// The state in the middle of filling layer `v` from `start`.
spec fn layer_step_pre(g: DistanceGrid, start: DistanceGrid, next: Seq<Cell>, level: Level, v: int) -> bool {
    &&& 0 < v <= u32::MAX
    &&& has_shape(g, level.spec_height(), level.spec_width())
    &&& grows(start, g)
    &&& new_cells_listed(start, g, next, v)
    &&& bounded_by(g, v)
    &&& only_walkable(g, level)
    &&& positive_have_predecessors(g)
}

/// One step of filling layer `v` kept the layer state and its count.
spec fn layer_step_post(
    g0: DistanceGrid,
    g: DistanceGrid,
    start: DistanceGrid,
    next0: Seq<Cell>,
    next: Seq<Cell>,
    level: Level,
    v: int,
) -> bool {
    &&& layer_step_pre(g, start, next, level, v)
    &&& grows(g0, g)
    &&& grid_unreached(g) + next.len() == grid_unreached(g0) + next0.len()
}

/// Distances only appear, never change, so a closed cell stays closed.
proof fn lemma_closed_at_grows(a: DistanceGrid, b: DistanceGrid, level: Level, r: int, c: int, k: int)
    requires
        closed_at(a, level, r, c, k),
        grows(a, b),
    ensures
        closed_at(b, level, r, c, k),
{
    lemma_step_bounded_grows(a, b, level, k, r - 1, c);
    lemma_step_bounded_grows(a, b, level, k, r + 1, c);
    lemma_step_bounded_grows(a, b, level, k, r, c - 1);
    lemma_step_bounded_grows(a, b, level, k, r, c + 1);
}

proof fn lemma_step_bounded_grows(a: DistanceGrid, b: DistanceGrid, level: Level, k: int, r: int, c: int)
    requires
        step_bounded(a, level, k, r, c),
        grows(a, b),
    ensures
        step_bounded(b, level, k, r, c),
{
    if level.walkable(r, c) {
        assert(at(a, r, c) is Some);
    }
}

proof fn lemma_predecessor_grows(a: DistanceGrid, b: DistanceGrid, r: int, c: int, k: int)
    requires
        has_predecessor(a, r, c, k),
        grows(a, b),
    ensures
        has_predecessor(b, r, c, k),
{
    if at(a, r - 1, c) == Some((k - 1) as u32) {
        assert(at(b, r - 1, c) == at(a, r - 1, c));
    } else if at(a, r + 1, c) == Some((k - 1) as u32) {
        assert(at(b, r + 1, c) == at(a, r + 1, c));
    } else if at(a, r, c - 1) == Some((k - 1) as u32) {
        assert(at(b, r, c - 1) == at(a, r, c - 1));
    } else {
        assert(at(b, r, c + 1) == at(a, r, c + 1));
    }
}

} // verus!
