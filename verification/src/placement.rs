//! Deterministic choice of the cells where a new Hand's Dealers, The
//! King, and ammunition and health supplies appear.
//!
//! Every choice starts from the navigation distances from the player's
//! cell, considers only free cells (walkable, reachable, not the player's
//! cell and not already occupied; clusters grow only over such cells too), gathers candidates in row-major order
//! and shuffles them with a generator seeded by the caller, so that the
//! same inputs always give the same cells.

use vstd::prelude::*;

use crate::distance::{DistanceField, entry, is_distance_grid, lemma_distance_grid_is_unique, nav_distance};
use crate::grid::{
    Cell, cells_where, contains_cell, lemma_cells_where, lemma_cells_where_len, lemma_cells_where_step,
    lemma_distinct_subset_len, lemma_permutation_facts, lemma_row_where_step, lemma_set_within_distinct_len,
    row_where,
};
use crate::level::Level;
use crate::rng::{Rng, lemma_shuffled_permutes, spec_mix, spec_shuffled, spec_step};

verus! {

/// Desired Chebyshev separation between pickups of one batch.
pub const MIN_AMMO_SEPARATION_CELLS: usize = 3;

/// Minimum safe navigation distance between a new Hand's Dealers and the
/// player, when the map allows it.
pub const SAFE_RESPAWN_DISTANCE_CELLS: u32 = 6;

/// Whether `(r, c)` is flagged in a grid of flags (false outside it).
pub open spec fn flag_at(flags: Seq<Seq<bool>>, r: int, c: int) -> bool {
    0 <= r < flags.len() && 0 <= c < flags[r].len() && flags[r][c]
}

/// The rows of a grid of flags as sequences.
pub open spec fn deep_flags(rows: Seq<Vec<bool>>) -> Seq<Seq<bool>> {
    rows.map_values(|row: Vec<bool>| row@)
}

/// Whether `(r, c)` is a free cell: walkable, reachable from the player's
/// cell, not the player's cell, and not in `occupied`.
pub open spec fn free_cell(level: Level, player_cell: Cell, occupied: Seq<Cell>, r: int, c: int) -> bool {
    &&& level.walkable(r, c)
    &&& !(r == player_cell.0 && c == player_cell.1)
    &&& !occupied.contains((r as usize, c as usize))
    &&& nav_distance(level, player_cell, r, c) is Some
}

/// Whether `(r, c)` is a free cell at navigation distance `low..=high`
/// whose visibility flag matches `wanted_visibility` (any, if `None`).
pub open spec fn candidate(
    level: Level,
    player_cell: Cell,
    occupied: Seq<Cell>,
    visible: Seq<Seq<bool>>,
    low: u32,
    high: u32,
    wanted_visibility: Option<bool>,
    r: int,
    c: int,
) -> bool {
    &&& free_cell(level, player_cell, occupied, r, c)
    &&& low <= nav_distance(level, player_cell, r, c).unwrap() <= high
    &&& match wanted_visibility {
        Some(v) => flag_at(visible, r, c) == v,
        None => true,
    }
}

/// `candidate` as a predicate on cells.
pub open spec fn candidate_pred(
    level: Level,
    player_cell: Cell,
    occupied: Seq<Cell>,
    visible: Seq<Seq<bool>>,
    low: u32,
    high: u32,
    wanted_visibility: Option<bool>,
) -> spec_fn(int, int) -> bool {
    |r: int, c: int|
        candidate(level, player_cell, occupied, visible, low, high, wanted_visibility, r, c)
}

/// The candidates, in row-major order.
pub open spec fn candidates(
    level: Level,
    player_cell: Cell,
    occupied: Seq<Cell>,
    visible: Seq<Seq<bool>>,
    low: u32,
    high: u32,
    wanted_visibility: Option<bool>,
) -> Seq<Cell> {
    cells_where(
        level.spec_height() as int,
        level.spec_width() as int,
        candidate_pred(level, player_cell, occupied, visible, low, high, wanted_visibility),
    )
}

/// Chebyshev distance between two cells.
pub open spec fn spec_chebyshev(a: Cell, b: Cell) -> int {
    let dr = if a.0 >= b.0 { a.0 - b.0 } else { b.0 - a.0 };
    let dc = if a.1 >= b.1 { a.1 - b.1 } else { b.1 - a.1 };
    if dr >= dc { dr } else { dc }
}

/// Chebyshev distance (in grid cells) between two cells.
pub fn cell_chebyshev(a: Cell, b: Cell) -> (d: usize)
    ensures
        d == spec_chebyshev(a, b),
{
    let dr = if a.0 >= b.0 { a.0 - b.0 } else { b.0 - a.0 };
    let dc = if a.1 >= b.1 { a.1 - b.1 } else { b.1 - a.1 };
    if dr >= dc { dr } else { dc }
}

/// Whether `cell` is at Chebyshev distance at least `separation` from
/// every cell of `chosen`.
fn far_from_all(chosen: &Vec<Cell>, cell: Cell, separation: usize) -> (far: bool)
    ensures
        far == forall|k: int| 0 <= k < chosen@.len() ==> spec_chebyshev(#[trigger] chosen@[k], cell) >= separation,
{
    let mut i: usize = 0;
    while i < chosen.len()
        invariant
            i <= chosen@.len(),
            forall|k: int| 0 <= k < i ==> spec_chebyshev(#[trigger] chosen@[k], cell) >= separation,
        decreases chosen@.len() - i,
    {
        if cell_chebyshev(chosen[i], cell) < separation {
            return false;
        }
        i += 1;
    }
    true
}

/// Gathers, in row-major order, the free cells at navigation distance
/// `low..=high` whose visibility flag matches `wanted_visibility`.
fn collect_candidates(
    level: &Level,
    field: &DistanceField,
    player_cell: Cell,
    occupied: &Vec<Cell>,
    visible: &Vec<Vec<bool>>,
    low: u32,
    high: u32,
    wanted_visibility: Option<bool>,
) -> (found: Vec<Cell>)
    requires
        forall|r: int, c: int| #[trigger] field.get(r, c) == nav_distance(*level, player_cell, r, c),
    ensures
        found@ == candidates(*level, player_cell, occupied@, deep_flags(visible@), low, high, wanted_visibility),
{
    let height = level.height();
    let width = level.width();
    let ghost flags = deep_flags(visible@);
    let ghost p = candidate_pred(*level, player_cell, occupied@, flags, low, high, wanted_visibility);
    let mut found: Vec<Cell> = Vec::new();
    let mut r: usize = 0;
    while r < height
        invariant
            height == level.spec_height(),
            width == level.spec_width(),
            flags == deep_flags(visible@),
            p == candidate_pred(*level, player_cell, occupied@, flags, low, high, wanted_visibility),
            forall|r: int, c: int| #[trigger] field.get(r, c) == nav_distance(*level, player_cell, r, c),
            r <= height,
            found@ == cells_where(r as int, width as int, p),
        decreases height - r,
    {
        let mut c: usize = 0;
        while c < width
            invariant
                height == level.spec_height(),
                width == level.spec_width(),
                flags == deep_flags(visible@),
                p == candidate_pred(*level, player_cell, occupied@, flags, low, high, wanted_visibility),
                forall|r: int, c: int| #[trigger] field.get(r, c) == nav_distance(*level, player_cell, r, c),
                r < height,
                c <= width,
                found@ == cells_where(r as int, width as int, p) + row_where(r as int, c as int, p),
            decreases width - c,
        {
            proof {
                lemma_row_where_step(r as int, c as int, p);
            }
            let keep = candidate_here(level, field, player_cell, occupied, visible, low, high, wanted_visibility, r, c);
            if keep {
                found.push((r, c));
            }
            c += 1;
        }
        proof {
            lemma_cells_where_step(r as int, width as int, p);
        }
        r += 1;
    }
    found
}

/// The flag at `(r, c)`, false outside the grid.
pub fn flag_value(flags: &Vec<Vec<bool>>, r: usize, c: usize) -> (flag: bool)
    ensures
        flag == flag_at(deep_flags(flags@), r as int, c as int),
{
    if r < flags.len() && c < flags[r].len() {
        proof {
            assert(deep_flags(flags@)[r as int] == flags@[r as int]@);
        }
        flags[r][c]
    } else {
        proof {
            if r < flags.len() {
                assert(deep_flags(flags@)[r as int] == flags@[r as int]@);
            }
        }
        false
    }
}

/// Whether `(r, c)` is a candidate (see `candidate`).
fn candidate_here(
    level: &Level,
    field: &DistanceField,
    player_cell: Cell,
    occupied: &Vec<Cell>,
    visible: &Vec<Vec<bool>>,
    low: u32,
    high: u32,
    wanted_visibility: Option<bool>,
    r: usize,
    c: usize,
) -> (keep: bool)
    requires
        forall|i: int, j: int| #[trigger] field.get(i, j) == nav_distance(*level, player_cell, i, j),
    ensures
        keep == candidate(*level, player_cell, occupied@, deep_flags(visible@), low, high, wanted_visibility, r as int, c as int),
{
    if !level.is_walkable(r, c) {
        return false;
    }
    if r == player_cell.0 && c == player_cell.1 {
        return false;
    }
    if contains_cell(occupied, (r, c)) {
        return false;
    }
    assert(field.get(r as int, c as int) == nav_distance(*level, player_cell, r as int, c as int));
    match field.distance_at(r, c) {
        None => false,
        Some(d) => {
            if d < low || d > high {
                return false;
            }
            match wanted_visibility {
                None => true,
                Some(v) => flag_value(visible, r, c) == v,
            }
        },
    }
}

/// Every cell of `s` at an index in `from..to` lies at Chebyshev
/// distance at least `sep` from every cell before it.
pub open spec fn spaced_run(s: Seq<Cell>, from: int, to: int, sep: int) -> bool {
    forall|i: int, k: int|
        from <= i < to && 0 <= k < i ==> spec_chebyshev(#[trigger] s[k], #[trigger] s[i]) >= sep
}

/// Every cell of `pool` is among the first `end` cells of `s` or lies
/// closer than `sep` to one of them: no further cell of `pool` could be
/// added at separation `sep`.
pub open spec fn saturated(s: Seq<Cell>, end: int, pool: Seq<Cell>, sep: int) -> bool {
    forall|x: Cell|
        #[trigger] pool.contains(x) ==> s.subrange(0, end).contains(x) || exists|k: int|
            0 <= k < end && spec_chebyshev(#[trigger] s[k], x) < sep
}

/// `new` extends `old` with distinct cells of `pool` not already in it.
pub open spec fn extends_from_pool(old: Seq<Cell>, new: Seq<Cell>, pool: Seq<Cell>) -> bool {
    &&& old.len() <= new.len()
    &&& new.subrange(0, old.len() as int) == old
    &&& forall|i: int| old.len() <= i < new.len() ==> pool.contains(#[trigger] new[i])
    &&& new.no_duplicates()
}

/// The greedy spaced choice made by `take_spaced`: cells of `pool` are
/// appended in pool order while keeping separation 3, then 2, then 1,
/// then 0, each pass stopping only when no further pool cell fits
/// (`e3`, `e2`, `e1` end the first three passes), until `target` cells
/// are chosen or the pool is used up.
pub open spec fn greedy_spaced(old: Seq<Cell>, new: Seq<Cell>, pool: Seq<Cell>, target: int) -> bool {
    &&& extends_from_pool(old, new, pool)
    &&& new.len() <= target
    &&& new.len() < target ==> forall|x: Cell| #[trigger] pool.contains(x) ==> new.contains(x)
    &&& exists|e3: int, e2: int, e1: int|
        {
            &&& old.len() <= e3 <= e2 <= e1 <= new.len()
            &&& spaced_run(new, old.len() as int, e3, 3)
            &&& spaced_run(new, e3, e2, 2)
            &&& spaced_run(new, e2, e1, 1)
            &&& (e3 < target ==> saturated(new, e3, pool, 3))
            &&& (e2 < target ==> saturated(new, e2, pool, 2))
            &&& (e1 < target ==> saturated(new, e1, pool, 1))
        }
}

/// Whether `cell` lies at Chebyshev distance at least `sep` from every
/// cell of `chosen`.
pub open spec fn far_from(chosen: Seq<Cell>, cell: Cell, sep: int) -> bool {
    forall|k: int| 0 <= k < chosen.len() ==> spec_chebyshev(#[trigger] chosen[k], cell) >= sep
}

/// One pass at separation `sep` over `pool` from position `i`: each pool
/// cell not chosen yet and far enough from every chosen cell is appended,
/// until `target` cells are chosen.
pub open spec fn spaced_pass_from(pool: Seq<Cell>, i: int, sep: int, target: int, chosen: Seq<Cell>) -> Seq<Cell>
    decreases pool.len() - i,
{
    if i < 0 || i >= pool.len() || chosen.len() >= target {
        chosen
    } else if !chosen.contains(pool[i]) && far_from(chosen, pool[i], sep) {
        spaced_pass_from(pool, i + 1, sep, target, chosen.push(pool[i]))
    } else {
        spaced_pass_from(pool, i + 1, sep, target, chosen)
    }
}

/// What `take_spaced` appends to `chosen`: passes over `pool` at
/// separation 3, 2, 1 and 0, until `want` more cells are chosen.
pub open spec fn spec_take_spaced(pool: Seq<Cell>, want: nat, chosen: Seq<Cell>) -> Seq<Cell> {
    let target = (chosen.len() + want) as int;
    let s3 = spaced_pass_from(pool, 0, 3, target, chosen);
    let s2 = spaced_pass_from(pool, 0, 2, target, s3);
    let s1 = spaced_pass_from(pool, 0, 1, target, s2);
    spaced_pass_from(pool, 0, 0, target, s1)
}

/// One pass of `take_spaced` at separation `separation`.
fn spaced_pass(pool: &Vec<Cell>, separation: usize, target: usize, chosen: &mut Vec<Cell>)
    requires
        old(chosen)@.len() <= target,
        old(chosen)@.no_duplicates(),
    ensures
        extends_from_pool(old(chosen)@, final(chosen)@, pool@),
        final(chosen)@.len() <= target,
        spaced_run(final(chosen)@, old(chosen)@.len() as int, final(chosen)@.len() as int, separation as int),
        final(chosen)@.len() < target ==> saturated(
            final(chosen)@,
            final(chosen)@.len() as int,
            pool@,
            separation as int,
        ),
        final(chosen)@ == spaced_pass_from(pool@, 0, separation as int, target as int, old(chosen)@),
{
    let ghost start = chosen@;
    proof {
        assert(start.subrange(0, start.len() as int) =~= start);
    }
    let mut i: usize = 0;
    while i < pool.len() && chosen.len() < target
        invariant
            i <= pool@.len(),
            extends_from_pool(start, chosen@, pool@),
            chosen@.len() <= target,
            spaced_run(chosen@, start.len() as int, chosen@.len() as int, separation as int),
            forall|j: int|
                0 <= j < i ==> chosen@.contains(#[trigger] pool@[j]) || exists|k: int|
                    0 <= k < chosen@.len() && spec_chebyshev(#[trigger] chosen@[k], pool@[j])
                        < separation,
            spaced_pass_from(pool@, i as int, separation as int, target as int, chosen@) == spaced_pass_from(
                pool@,
                0,
                separation as int,
                target as int,
                start,
            ),
        decreases pool@.len() - i,
    {
        let cell = pool[i];
        proof {
            assert(far_from(chosen@, cell, separation as int) == forall|k: int|
                0 <= k < chosen@.len() ==> spec_chebyshev(#[trigger] chosen@[k], cell) >= separation);
        }
        if !contains_cell(chosen, cell) && far_from_all(chosen, cell, separation) {
            let ghost before = chosen@;
            chosen.push(cell);
            proof {
                let now = chosen@;
                assert(now.subrange(0, start.len() as int) =~= before.subrange(0, start.len() as int));
                assert forall|x: int, y: int| 0 <= x < now.len() && 0 <= y < now.len() && x != y implies now[x]
                    != now[y] by {
                    if x < before.len() && y < before.len() {
                        assert(now[x] == before[x] && now[y] == before[y]);
                    } else if x < before.len() {
                        assert(before.contains(now[x]));
                    } else if y < before.len() {
                        assert(before.contains(now[y]));
                    }
                }
                assert forall|a: int, k: int|
                    start.len() <= a < now.len() && 0 <= k < a implies spec_chebyshev(
                    #[trigger] now[k],
                    #[trigger] now[a],
                ) >= separation by {
                    if a < before.len() {
                        assert(now[a] == before[a] && now[k] == before[k]);
                    } else {
                        assert(now[k] == before[k]);
                    }
                }
                assert forall|j: int|
                    0 <= j < i + 1 implies now.contains(#[trigger] pool@[j]) || exists|k: int|
                    0 <= k < now.len() && spec_chebyshev(#[trigger] now[k], pool@[j]) < separation by {
                    if j == i {
                        assert(now[now.len() - 1] == pool@[j]);
                    } else if before.contains(pool@[j]) {
                        let k = choose|k: int| 0 <= k < before.len() && before[k] == pool@[j];
                        assert(now[k] == pool@[j]);
                    } else {
                        let k = choose|k: int|
                            0 <= k < before.len() && spec_chebyshev(#[trigger] before[k], pool@[j]) < separation;
                        assert(now[k] == before[k]);
                    }
                }
            }
        }
        i += 1;
    }
    proof {
        let now = chosen@;
        if now.len() < target {
            assert forall|x: Cell| #[trigger] pool@.contains(x) implies now.subrange(0, now.len() as int).contains(x)
                || exists|k: int| 0 <= k < now.len() && spec_chebyshev(#[trigger] now[k], x) < separation by {
                let j = choose|j: int| 0 <= j < pool@.len() && pool@[j] == x;
                assert(now.subrange(0, now.len() as int) =~= now);
                assert(now.contains(pool@[j]) || exists|k: int|
                    0 <= k < now.len() && spec_chebyshev(#[trigger] now[k], pool@[j]) < separation);
            }
        }
    }
}

/// Extending twice from the same pool is extending once.
proof fn lemma_extends_chain(a: Seq<Cell>, b: Seq<Cell>, c: Seq<Cell>, pool: Seq<Cell>)
    requires
        extends_from_pool(a, b, pool),
        extends_from_pool(b, c, pool),
    ensures
        extends_from_pool(a, c, pool),
{
    assert forall|i: int| 0 <= i < b.len() implies c[i] == b[i] by {
        assert(c.subrange(0, b.len() as int)[i] == b[i]);
    }
    assert(c.subrange(0, a.len() as int) =~= a) by {
        assert forall|i: int| 0 <= i < a.len() implies c.subrange(0, a.len() as int)[i] == a[i] by {
            assert(b.subrange(0, a.len() as int)[i] == a[i]);
        }
    }
    assert forall|i: int| a.len() <= i < c.len() implies pool.contains(#[trigger] c[i]) by {
        if i < b.len() {
            assert(c[i] == b[i]);
        }
    }
}

/// A fact about the first `e` cells of `a` holds of any `b` that starts
/// with the same `e` cells.
proof fn lemma_prefix_facts(a: Seq<Cell>, b: Seq<Cell>, e: int, from: int, sep: int, pool: Seq<Cell>)
    requires
        0 <= e <= a.len(),
        e <= b.len(),
        a.subrange(0, e) == b.subrange(0, e),
    ensures
        spaced_run(a, from, e, sep) ==> spaced_run(b, from, e, sep),
        saturated(a, e, pool, sep) ==> saturated(b, e, pool, sep),
{
    assert forall|i: int| 0 <= i < e implies a[i] == b[i] by {
        assert(a.subrange(0, e)[i] == b.subrange(0, e)[i]);
    }
    if saturated(a, e, pool, sep) {
        assert forall|x: Cell| #[trigger] pool.contains(x) implies b.subrange(0, e).contains(x) || exists|k: int|
            0 <= k < e && spec_chebyshev(#[trigger] b[k], x) < sep by {
            if !a.subrange(0, e).contains(x) {
                let k = choose|k: int| 0 <= k < e && spec_chebyshev(#[trigger] a[k], x) < sep;
                assert(b[k] == a[k]);
            }
        }
    }
}

/// Appends to `chosen` up to `want` cells of `pool` (already shuffled),
/// preferring to keep at least `MIN_AMMO_SEPARATION_CELLS` of Chebyshev
/// separation from every cell already chosen, and relaxing the required
/// separation down to zero when that is not enough. Never repeats a cell.
/// Every caller hands it a list free of repeats: an empty one or an
/// earlier result of this function.
#[verifier::spinoff_prover]
#[verifier::rlimit(40)]
fn take_spaced(pool: &Vec<Cell>, want: usize, chosen: &mut Vec<Cell>)
    requires
        old(chosen)@.len() + want <= usize::MAX,
        old(chosen)@.no_duplicates(),
    ensures
        greedy_spaced(old(chosen)@, final(chosen)@, pool@, old(chosen)@.len() + want),
        final(chosen)@ == spec_take_spaced(pool@, want as nat, old(chosen)@),
{
    let ghost start = chosen@;
    let target = chosen.len() + want;
    if want == 0 {
        proof {
            assert(start.subrange(0, start.len() as int) =~= start);
            let e = start.len() as int;
            assert(spaced_run(start, e, e, 3));
            assert(spaced_run(start, e, e, 2));
            assert(spaced_run(start, e, e, 1));
        }
        return;
    }
    spaced_pass(pool, 3, target, chosen);
    let ghost s3 = chosen@;
    if chosen.len() >= target {
        proof {
            let e = s3.len() as int;
            assert(spaced_run(s3, e, e, 2));
            assert(spaced_run(s3, e, e, 1));
        }
        return;
    }
    spaced_pass(pool, 2, target, chosen);
    let ghost s2 = chosen@;
    proof {
        lemma_extends_chain(start, s3, s2, pool@);
        assert(s3.subrange(0, s3.len() as int) =~= s3);
        lemma_prefix_facts(s3, s2, s3.len() as int, start.len() as int, 3, pool@);
    }
    if chosen.len() >= target {
        proof {
            let e = s2.len() as int;
            assert(spaced_run(s2, e, e, 1));
        }
        return;
    }
    spaced_pass(pool, 1, target, chosen);
    let ghost s1 = chosen@;
    proof {
        lemma_extends_chain(start, s2, s1, pool@);
        lemma_extends_chain(s3, s2, s1, pool@);
        assert(s2.subrange(0, s2.len() as int) =~= s2);
        lemma_prefix_facts(s3, s1, s3.len() as int, start.len() as int, 3, pool@);
        lemma_prefix_facts(s2, s1, s2.len() as int, s3.len() as int, 2, pool@);
    }
    if chosen.len() >= target {
        return;
    }
    spaced_pass(pool, 0, target, chosen);
    proof {
        let fin = chosen@;
        lemma_extends_chain(start, s1, fin, pool@);
        lemma_extends_chain(s3, s1, fin, pool@);
        lemma_extends_chain(s2, s1, fin, pool@);
        assert(s1.subrange(0, s1.len() as int) =~= s1);
        lemma_prefix_facts(s3, fin, s3.len() as int, start.len() as int, 3, pool@);
        lemma_prefix_facts(s2, fin, s2.len() as int, s3.len() as int, 2, pool@);
        lemma_prefix_facts(s1, fin, s1.len() as int, s2.len() as int, 1, pool@);
        if fin.len() < target {
            assert forall|x: Cell| #[trigger] pool@.contains(x) implies fin.contains(x) by {
                assert(fin.subrange(0, fin.len() as int) =~= fin);
                if !fin.subrange(0, fin.len() as int).contains(x) {
                    let k = choose|k: int| 0 <= k < fin.len() && spec_chebyshev(#[trigger] fin[k], x) < 0;
                }
            }
        }
    }
}

/// The free cells at navigation distance `low..=high`, row-major.
pub open spec fn band_pool(level: Level, player_cell: Cell, occupied: Seq<Cell>, low: u32, high: u32) -> Seq<Cell> {
    candidates(level, player_cell, occupied, Seq::empty(), low, high, None)
}

/// Facts about any pool of candidates: its cells are candidates, inside
/// the maze, and distinct.
pub proof fn lemma_candidates(
    level: Level,
    player_cell: Cell,
    occupied: Seq<Cell>,
    visible: Seq<Seq<bool>>,
    low: u32,
    high: u32,
    wanted_visibility: Option<bool>,
)
    requires
        level.spec_height() <= usize::MAX,
        level.spec_width() <= usize::MAX,
    ensures
        ({
            let pool = candidates(level, player_cell, occupied, visible, low, high, wanted_visibility);
            &&& pool.no_duplicates()
            &&& forall|x: Cell| #[trigger]
                pool.contains(x) <==> candidate(
                    level,
                    player_cell,
                    occupied,
                    visible,
                    low,
                    high,
                    wanted_visibility,
                    x.0 as int,
                    x.1 as int,
                )
        }),
{
    let p = candidate_pred(level, player_cell, occupied, visible, low, high, wanted_visibility);
    lemma_cells_where(level.spec_height() as int, level.spec_width() as int, p);
    let pool = candidates(level, player_cell, occupied, visible, low, high, wanted_visibility);
    assert forall|x: Cell| #[trigger]
        pool.contains(x) <==> candidate(
            level,
            player_cell,
            occupied,
            visible,
            low,
            high,
            wanted_visibility,
            x.0 as int,
            x.1 as int,
        ) by {
        if candidate(level, player_cell, occupied, visible, low, high, wanted_visibility, x.0 as int, x.1 as int) {
            assert(level.walkable(x.0 as int, x.1 as int));
        }
    }
}

/// A navigation band inside a wider one offers no more free cells, and
/// each of them is a cell of the wider band.
pub proof fn lemma_band_within(
    level: Level,
    player_cell: Cell,
    occupied: Seq<Cell>,
    low: u32,
    high: u32,
    wide_low: u32,
    wide_high: u32,
)
    requires
        level.spec_height() <= usize::MAX,
        level.spec_width() <= usize::MAX,
        wide_low <= low,
        high <= wide_high,
    ensures
        forall|x: Cell| #[trigger]
            band_pool(level, player_cell, occupied, low, high).contains(x) ==> band_pool(
                level,
                player_cell,
                occupied,
                wide_low,
                wide_high,
            ).contains(x),
        band_pool(level, player_cell, occupied, low, high).len() <= band_pool(
            level,
            player_cell,
            occupied,
            wide_low,
            wide_high,
        ).len(),
{
    let narrow = band_pool(level, player_cell, occupied, low, high);
    let wide = band_pool(level, player_cell, occupied, wide_low, wide_high);
    lemma_candidates(level, player_cell, occupied, Seq::empty(), low, high, None);
    lemma_candidates(level, player_cell, occupied, Seq::empty(), wide_low, wide_high, None);
    assert forall|x: Cell| narrow.contains(x) implies wide.contains(x) by {
        assert(candidate(level, player_cell, occupied, Seq::empty(), low, high, None, x.0 as int, x.1 as int));
    }
    lemma_distinct_subset_len(narrow, wide);
}

/// Length and membership of a greedy spaced choice made from scratch.
pub proof fn lemma_greedy_from_scratch(new: Seq<Cell>, pool: Seq<Cell>, target: int)
    requires
        greedy_spaced(Seq::empty(), new, pool, target),
        pool.no_duplicates(),
        target >= 0,
    ensures
        new.len() == if target < pool.len() { target } else { pool.len() as int },
        forall|i: int| 0 <= i < new.len() ==> pool.contains(#[trigger] new[i]),
        new.no_duplicates(),
{
    assert forall|x: Cell| new.contains(x) implies pool.contains(x) by {
        let i = choose|i: int| 0 <= i < new.len() && new[i] == x;
        assert(pool.contains(new[i]));
    }
    lemma_distinct_subset_len(new, pool);
    if new.len() < target {
        lemma_distinct_subset_len(pool, new);
    }
}

/// The navigation band used by the emergency ammunition respawn: the
/// first of `1..=3`, `1..=6` that offers `count` candidates, else every
/// reachable free cell.
pub open spec fn spec_emergency_band(level: Level, player_cell: Cell, occupied: Seq<Cell>, count: nat) -> (u32, u32) {
    if band_pool(level, player_cell, occupied, 1, 3).len() >= count {
        (1u32, 3u32)
    } else if band_pool(level, player_cell, occupied, 1, 6).len() >= count {
        (1u32, 6u32)
    } else {
        (1u32, u32::MAX)
    }
}

/// The emergency ammunition cells: `count` cells taken by `take_spaced`
/// from the emergency band's pool shuffled with `seed`.
pub open spec fn spec_emergency_cells(level: Level, player_cell: Cell, occupied: Seq<Cell>, count: nat, seed: u64) -> Seq<Cell> {
    let band = spec_emergency_band(level, player_cell, occupied, count);
    let pool = band_pool(level, player_cell, occupied, band.0, band.1);
    if count == 0 {
        Seq::empty()
    } else {
        spec_take_spaced(spec_shuffled(pool, seed).0, count, Seq::empty())
    }
}

/// What `select_emergency_ammo_cells` chooses: the cells `take_spaced`
/// takes, `count` of them, from the band's pool shuffled with `seed`; so
/// `count` cells (fewer only when the maze has fewer reachable free
/// cells), distinct, free, from the band's pool, and all within `1..=3`
/// steps whenever that band offers `count` cells.
pub open spec fn emergency_choice(
    level: Level,
    player_cell: Cell,
    occupied: Seq<Cell>,
    count: nat,
    seed: u64,
    cells: Seq<Cell>,
) -> bool {
    let band = spec_emergency_band(level, player_cell, occupied, count);
    let pool = band_pool(level, player_cell, occupied, band.0, band.1);
    &&& count > 0 ==> greedy_spaced(Seq::empty(), cells, spec_shuffled(pool, seed).0, count as int)
    &&& cells == spec_emergency_cells(level, player_cell, occupied, count, seed)
    &&& forall|i: int|
        0 <= i < cells.len() ==> free_cell(level, player_cell, occupied, #[trigger] cells[i].0 as int, cells[i].1 as int)
    &&& cells.len() == if count < pool.len() { count as int } else { pool.len() as int }
    &&& forall|i: int| 0 <= i < cells.len() ==> pool.contains(#[trigger] cells[i])
    &&& cells.no_duplicates()
    &&& ({
        let reachable = band_pool(level, player_cell, occupied, 1, u32::MAX);
        cells.len() == if count < reachable.len() { count as int } else { reachable.len() as int }
    })
    &&& band_pool(level, player_cell, occupied, 1, 3).len() >= count ==> forall|i: int|
        0 <= i < cells.len() ==> band_pool(level, player_cell, occupied, 1, 3).contains(#[trigger] cells[i])
}

/// Picks up to `count` cells for the emergency ammunition respawn: free
/// cells within a near navigation band around the player (relaxed only
/// when the map offers too few), shuffled with `seed` and taken with the
/// spacing preference of `take_spaced`.
pub fn select_emergency_ammo_cells(
    level: &Level,
    player_cell: Cell,
    occupied: &Vec<Cell>,
    count: usize,
    seed: u64,
) -> (cells: Vec<Cell>)
    ensures
        emergency_choice(*level, player_cell, occupied@, count as nat, seed, cells@),
{
    let ghost band = spec_emergency_band(*level, player_cell, occupied@, count as nat);
    let ghost pool_spec = band_pool(*level, player_cell, occupied@, band.0, band.1);
    let height = level.height();
    let width = level.width();
    proof {
        lemma_candidates(*level, player_cell, occupied@, Seq::empty(), band.0, band.1, None);
    }
    if count == 0 {
        let none: Vec<Cell> = Vec::new();
        proof {
            assert(none@ =~= Seq::<Cell>::empty());
        }
        return none;
    }
    let field = DistanceField::from_level(level, player_cell);
    let no_flags: Vec<Vec<bool>> = Vec::new();
    proof {
        assert(deep_flags(no_flags@) =~= Seq::<Seq<bool>>::empty());
    }
    let mut pool = collect_candidates(level, &field, player_cell, occupied, &no_flags, 1, 3, None);
    if pool.len() < count {
        pool = collect_candidates(level, &field, player_cell, occupied, &no_flags, 1, 6, None);
        if pool.len() < count {
            pool = collect_candidates(level, &field, player_cell, occupied, &no_flags, 1, u32::MAX, None);
        }
    }
    assert(pool@ == pool_spec);
    let ghost unshuffled = pool@;
    let mut rng = Rng::new(seed);
    rng.shuffle(&mut pool);
    let mut chosen: Vec<Cell> = Vec::new();
    take_spaced(&pool, count, &mut chosen);
    proof {
        lemma_permutation_facts(unshuffled, pool@);
        lemma_greedy_from_scratch(chosen@, pool@, count as int);
        assert forall|i: int| 0 <= i < chosen@.len() implies pool_spec.contains(#[trigger] chosen@[i]) by {
            assert(pool@.contains(chosen@[i]));
        }
        assert forall|i: int| 0 <= i < chosen@.len() implies free_cell(
            *level,
            player_cell,
            occupied@,
            #[trigger] chosen@[i].0 as int,
            chosen@[i].1 as int,
        ) by {
            assert(pool_spec.contains(chosen@[i]));
        }
        lemma_band_choice(*level, player_cell, occupied@, band.0, band.1, count as nat, chosen@);
    }
    chosen
}

/// Every cell of `s` is a cell of `pool`.
pub open spec fn all_in(pool: Seq<Cell>, s: Seq<Cell>) -> bool {
    forall|i: int| 0 <= i < s.len() ==> pool.contains(#[trigger] s[i])
}

/// All cells of `s` are walkable in `level`.
pub open spec fn all_walkable(level: Level, s: Seq<Cell>) -> bool {
    forall|i: int| 0 <= i < s.len() ==> level.walkable(#[trigger] s[i].0 as int, s[i].1 as int)
}

/// Whether a cluster may still spread to `n`: a cell of the pool of
/// eligible cells that is not chosen yet.
pub open spec fn cluster_open(pool: Seq<Cell>, chosen: Seq<Cell>, n: Cell) -> bool {
    pool.contains(n) && !chosen.contains(n)
}

/// `seq![n]` when the cluster may spread to `n`, else nothing.
pub open spec fn open_neighbour(pool: Seq<Cell>, chosen: Seq<Cell>, n: Cell) -> Seq<Cell> {
    if cluster_open(pool, chosen, n) {
        seq![n]
    } else {
        Seq::empty()
    }
}

/// The neighbours of `c` a cluster spreads to after choosing it, in the
/// order they are stacked: up, down, left, right.
pub open spec fn cluster_neighbours(pool: Seq<Cell>, chosen: Seq<Cell>, c: Cell) -> Seq<Cell> {
    let up = if c.0 > 0 {
        open_neighbour(pool, chosen, ((c.0 - 1) as usize, c.1))
    } else {
        Seq::empty()
    };
    let left = if c.1 > 0 {
        open_neighbour(pool, chosen, (c.0, (c.1 - 1) as usize))
    } else {
        Seq::empty()
    };
    let down = if c.0 < usize::MAX {
        open_neighbour(pool, chosen, ((c.0 + 1) as usize, c.1))
    } else {
        Seq::empty()
    };
    let right = if c.1 < usize::MAX {
        open_neighbour(pool, chosen, (c.0, (c.1 + 1) as usize))
    } else {
        Seq::empty()
    };
    up + down + left + right
}

/// A depth-first flood over the pool: while `left` cells may still be
/// placed, the top of the `frontier` stack is taken; a chosen cell is
/// skipped, a new one is appended to `chosen` and its open neighbours are
/// stacked.
pub open spec fn cluster_flood(pool: Seq<Cell>, chosen: Seq<Cell>, frontier: Seq<Cell>, left: nat) -> Seq<Cell>
    decreases left, frontier.len(),
{
    if left == 0 || frontier.len() == 0 {
        chosen
    } else {
        let c = frontier.last();
        if chosen.contains(c) {
            cluster_flood(pool, chosen, frontier.drop_last(), left)
        } else {
            let now = chosen.push(c);
            cluster_flood(pool, now, frontier.drop_last() + cluster_neighbours(pool, now, c), (left - 1) as nat)
        }
    }
}

/// Whether two cells share a side.
pub open spec fn side_neighbours(a: Cell, b: Cell) -> bool {
    (a.0 == b.0 && (a.1 + 1 == b.1 || b.1 + 1 == a.1)) || (a.1 == b.1 && (a.0 + 1 == b.0 || b.0 + 1 == a.0))
}

/// Every cell of `s` from `base + 1` on shares a side with an earlier
/// cell at or after `base`.
pub open spec fn spreads_from(s: Seq<Cell>, base: int) -> bool {
    forall|i: int|
        base < i < s.len() ==> exists|k: int| base <= k < i && side_neighbours(s[k], #[trigger] s[i])
}

/// The state of a flood over `pool` started from `origin` when `base`
/// cells were already chosen.
pub open spec fn flood_state(pool: Seq<Cell>, chosen: Seq<Cell>, frontier: Seq<Cell>, base: int, origin: Cell) -> bool {
    &&& 0 <= base <= chosen.len()
    &&& spreads_from(chosen, base)
    &&& forall|i: int| base <= i < chosen.len() ==> pool.contains(#[trigger] chosen[i])
    &&& chosen.len() > base ==> chosen[base] == origin
    &&& chosen.len() == base ==> frontier == seq![origin] && !chosen.contains(origin)
    &&& chosen.len() > base ==> forall|j: int|
        0 <= j < frontier.len() ==> exists|k: int|
            base <= k < chosen.len() && side_neighbours(chosen[k], #[trigger] frontier[j])
    &&& all_in(pool, frontier)
}

proof fn lemma_neighbours_touch(pool: Seq<Cell>, chosen: Seq<Cell>, c: Cell)
    ensures
        forall|j: int|
            0 <= j < cluster_neighbours(pool, chosen, c).len() ==> side_neighbours(
                c,
                #[trigger] cluster_neighbours(pool, chosen, c)[j],
            ) && pool.contains(cluster_neighbours(pool, chosen, c)[j]),
{
    let n = cluster_neighbours(pool, chosen, c);
    assert forall|j: int| 0 <= j < n.len() implies side_neighbours(c, #[trigger] n[j]) && pool.contains(n[j]) by {
        assert(n.contains(n[j]));
    }
}

proof fn lemma_flood_spreads(
    pool: Seq<Cell>,
    chosen: Seq<Cell>,
    frontier: Seq<Cell>,
    left: nat,
    base: int,
    origin: Cell,
)
    requires
        flood_state(pool, chosen, frontier, base, origin),
    ensures
        ({
            let result = cluster_flood(pool, chosen, frontier, left);
            &&& spreads_from(result, base)
            &&& forall|i: int| base <= i < result.len() ==> pool.contains(#[trigger] result[i])
            &&& result.len() > base ==> result[base] == origin
            &&& result.len() >= chosen.len()
            &&& result.subrange(0, chosen.len() as int) == chosen
        }),
    decreases left, frontier.len(),
{
    if left == 0 || frontier.len() == 0 {
        assert(chosen.subrange(0, chosen.len() as int) =~= chosen);
    } else {
        let c = frontier.last();
        let rest = frontier.drop_last();
        if chosen.contains(c) {
            assert(chosen.len() > base);
            assert forall|j: int| 0 <= j < rest.len() implies exists|k: int|
                base <= k < chosen.len() && side_neighbours(chosen[k], #[trigger] rest[j]) by {
                assert(rest[j] == frontier[j]);
            }
            assert forall|j: int| 0 <= j < rest.len() implies pool.contains(#[trigger] rest[j]) by {
                assert(rest[j] == frontier[j]);
            }
            lemma_flood_spreads(pool, chosen, rest, left, base, origin);
        } else {
            let now = chosen.push(c);
            let next = rest + cluster_neighbours(pool, now, c);
            assert(pool.contains(c)) by {
                assert(frontier[frontier.len() - 1] == c);
            }
            lemma_neighbours_touch(pool, now, c);
            let i_new = chosen.len() as int;
            if chosen.len() == base {
                assert(frontier == seq![origin]);
                assert(c == origin);
                assert(rest.len() == 0);
            } else {
                assert(exists|k: int| base <= k < chosen.len() && side_neighbours(chosen[k], frontier[frontier.len() - 1]));
            }
            assert forall|i: int| base < i < now.len() implies exists|k: int|
                base <= k < i && side_neighbours(now[k], #[trigger] now[i]) by {
                if i < chosen.len() {
                    let k = choose|k: int| base <= k < i && side_neighbours(chosen[k], chosen[i]);
                    assert(now[k] == chosen[k]);
                } else {
                    let k = choose|k: int| base <= k < chosen.len() && side_neighbours(chosen[k], frontier[frontier.len() - 1]);
                    assert(now[k] == chosen[k]);
                }
            }
            assert forall|i: int| base <= i < now.len() implies pool.contains(#[trigger] now[i]) by {
                if i < chosen.len() {
                    assert(now[i] == chosen[i]);
                }
            }
            assert(now[base] == origin) by {
                if chosen.len() > base {
                    assert(now[base] == chosen[base]);
                }
            }
            assert forall|j: int| 0 <= j < next.len() implies exists|k: int|
                base <= k < now.len() && side_neighbours(now[k], #[trigger] next[j]) by {
                if j < rest.len() {
                    assert(next[j] == frontier[j]);
                    let k = choose|k: int| base <= k < chosen.len() && side_neighbours(chosen[k], frontier[j]);
                    assert(now[k] == chosen[k]);
                } else {
                    assert(next[j] == cluster_neighbours(pool, now, c)[j - rest.len()]);
                    assert(now[i_new] == c);
                }
            }
            assert forall|j: int| 0 <= j < next.len() implies pool.contains(#[trigger] next[j]) by {
                if j < rest.len() {
                    assert(next[j] == frontier[j]);
                } else {
                    assert(next[j] == cluster_neighbours(pool, now, c)[j - rest.len()]);
                }
            }
            lemma_flood_spreads(pool, now, next, (left - 1) as nat, base, origin);
            let result = cluster_flood(pool, now, next, (left - 1) as nat);
            assert forall|i: int| 0 <= i < chosen.len() implies result[i] == chosen[i] by {
                assert(result.subrange(0, now.len() as int)[i] == now[i]);
            }
            assert(result.subrange(0, chosen.len() as int) =~= chosen);
        }
    }
}

/// A cluster spreads from its origin over the pool of eligible cells:
/// grown over cells not chosen yet, its first cell is the origin, every
/// cell of it is a pool cell, and every later cell shares a side with an
/// earlier cell of the same cluster; the cells chosen before it are kept
/// as they were.
pub proof fn lemma_cluster_spreads_from_origin(pool: Seq<Cell>, chosen: Seq<Cell>, origin: Cell, size: nat)
    requires
        pool.contains(origin),
        !chosen.contains(origin),
    ensures
        ({
            let result = cluster_flood(pool, chosen, seq![origin], size);
            &&& result.subrange(0, chosen.len() as int) == chosen
            &&& result.len() > chosen.len() ==> result[chosen.len() as int] == origin
            &&& forall|i: int| chosen.len() <= i < result.len() ==> pool.contains(#[trigger] result[i])
            &&& spreads_from(result, chosen.len() as int)
        }),
{
    let base = chosen.len() as int;
    assert(spreads_from(chosen, base));
    lemma_flood_spreads(pool, chosen, seq![origin], size, base, origin);
}

/// The first position at or after `cursor` whose pool cell is not chosen
/// yet (the pool's length when there is none).
pub open spec fn skip_chosen(pool: Seq<Cell>, cursor: int, chosen: Seq<Cell>) -> int
    decreases pool.len() - cursor,
{
    if 0 <= cursor < pool.len() && chosen.contains(pool[cursor]) {
        skip_chosen(pool, cursor + 1, chosen)
    } else {
        cursor
    }
}

/// One cluster of `select_with_clusters` from state `(chosen, cursor,
/// generator)`: its origin is the next pool cell not chosen yet, its size
/// `base + draw % spread` clamped to what `count` leaves. Also says
/// whether an origin was found.
pub open spec fn next_cluster(
    pool: Seq<Cell>,
    count: nat,
    base: nat,
    spread: nat,
    st: (Seq<Cell>, int, u64),
) -> ((Seq<Cell>, int, u64), bool) {
    let c = skip_chosen(pool, st.1, st.0);
    if c >= pool.len() {
        ((st.0, c, st.2), false)
    } else {
        let next = spec_step(st.2);
        let drawn = base + spec_mix(next) % (spread as u64);
        let remaining = count - st.0.len();
        let size = if drawn < remaining { drawn } else { remaining };
        ((cluster_flood(pool, st.0, seq![pool[c]], size as nat), c + 1, next), true)
    }
}

/// Up to `k` clusters in a row, stopping once `count` cells are chosen or
/// the pool has no origin left.
pub open spec fn cluster_phase(
    pool: Seq<Cell>,
    count: nat,
    base: nat,
    spread: nat,
    st: (Seq<Cell>, int, u64),
    k: nat,
) -> (Seq<Cell>, int, u64)
    decreases k,
{
    if k == 0 || st.0.len() >= count {
        st
    } else {
        let (next, placed) = next_cluster(pool, count, base, spread, st);
        if !placed {
            next
        } else {
            cluster_phase(pool, count, base, spread, next, (k - 1) as nat)
        }
    }
}

/// Single cells from the pool, from `cursor` on, skipping chosen ones,
/// until `count` cells are chosen.
pub open spec fn fill_singles(pool: Seq<Cell>, count: nat, chosen: Seq<Cell>, cursor: int) -> Seq<Cell>
    decreases pool.len() - cursor,
{
    if chosen.len() >= count || cursor >= pool.len() || cursor < 0 {
        chosen
    } else if chosen.contains(pool[cursor]) {
        fill_singles(pool, count, chosen, cursor + 1)
    } else {
        fill_singles(pool, count, chosen.push(pool[cursor]), cursor + 1)
    }
}

/// The cells `select_with_clusters` chooses from `pool` with the generator
/// in state `state`, and the generator state afterwards: one plague of 4
/// to 6 cells (two when `count >= 22`), then `max(count / 6, 2)` groups of
/// 2 to 3 cells, then single cells.
pub open spec fn spec_cluster_cells(pool: Seq<Cell>, count: nat, state: u64) -> (Seq<Cell>, u64) {
    let zones: nat = if count >= 22 { 2 } else { 1 };
    let groups: nat = if count / 6 > 2 { count / 6 } else { 2 };
    let plagues = cluster_phase(pool, count, 4, 3, (Seq::empty(), 0, state), zones);
    let small = cluster_phase(pool, count, 2, 2, plagues, groups);
    (fill_singles(pool, count, small.0, small.1), small.2)
}

proof fn lemma_prefix_trans(a: Seq<Cell>, b: Seq<Cell>, c: Seq<Cell>)
    requires
        a.is_prefix_of(b),
        b.is_prefix_of(c),
    ensures
        a.is_prefix_of(c),
{
    assert forall|i: int| 0 <= i < a.len() implies c[i] == a[i] by {
        assert(c.subrange(0, b.len() as int)[i] == b[i]);
        assert(b.subrange(0, a.len() as int)[i] == a[i]);
    }
    assert(c.subrange(0, a.len() as int) =~= a);
}

proof fn lemma_push_extends(a: Seq<Cell>, x: Cell)
    ensures
        a.is_prefix_of(a.push(x)),
{
    assert(a.push(x).subrange(0, a.len() as int) =~= a);
}

proof fn lemma_flood_extends(pool: Seq<Cell>, chosen: Seq<Cell>, frontier: Seq<Cell>, left: nat)
    ensures
        chosen.is_prefix_of(cluster_flood(pool, chosen, frontier, left)),
    decreases left, frontier.len(),
{
    if left == 0 || frontier.len() == 0 {
        assert(chosen.subrange(0, chosen.len() as int) =~= chosen);
    } else {
        let c = frontier.last();
        if chosen.contains(c) {
            lemma_flood_extends(pool, chosen, frontier.drop_last(), left);
        } else {
            let now = chosen.push(c);
            let next = frontier.drop_last() + cluster_neighbours(pool, now, c);
            lemma_flood_extends(pool, now, next, (left - 1) as nat);
            lemma_push_extends(chosen, c);
            lemma_prefix_trans(chosen, now, cluster_flood(pool, now, next, (left - 1) as nat));
        }
    }
}

proof fn lemma_phase_extends(pool: Seq<Cell>, count: nat, base: nat, spread: nat, st: (Seq<Cell>, int, u64), k: nat)
    ensures
        st.0.is_prefix_of(cluster_phase(pool, count, base, spread, st, k).0),
    decreases k,
{
    if k == 0 || st.0.len() >= count {
        assert(st.0.subrange(0, st.0.len() as int) =~= st.0);
    } else {
        let c = skip_chosen(pool, st.1, st.0);
        let (next, placed) = next_cluster(pool, count, base, spread, st);
        if c >= pool.len() {
            assert(st.0.subrange(0, st.0.len() as int) =~= st.0);
        } else {
            let step = spec_step(st.2);
            let drawn = base + spec_mix(step) % (spread as u64);
            let remaining = count - st.0.len();
            let size = if drawn < remaining { drawn } else { remaining };
            lemma_flood_extends(pool, st.0, seq![pool[c]], size as nat);
            lemma_phase_extends(pool, count, base, spread, next, (k - 1) as nat);
            lemma_prefix_trans(st.0, next.0, cluster_phase(pool, count, base, spread, next, (k - 1) as nat).0);
        }
    }
}

proof fn lemma_fill_extends(pool: Seq<Cell>, count: nat, chosen: Seq<Cell>, cursor: int)
    ensures
        chosen.is_prefix_of(fill_singles(pool, count, chosen, cursor)),
    decreases pool.len() - cursor,
{
    if chosen.len() >= count || cursor >= pool.len() || cursor < 0 {
        assert(chosen.subrange(0, chosen.len() as int) =~= chosen);
    } else if chosen.contains(pool[cursor]) {
        lemma_fill_extends(pool, count, chosen, cursor + 1);
    } else {
        let now = chosen.push(pool[cursor]);
        lemma_fill_extends(pool, count, now, cursor + 1);
        lemma_push_extends(chosen, pool[cursor]);
        lemma_prefix_trans(chosen, now, fill_singles(pool, count, now, cursor + 1));
    }
}

/// The first cell that `select_with_clusters` chooses is the first cell
/// of its pool: the origin of the first plague.
proof fn lemma_clusters_start_at_pool_head(pool: Seq<Cell>, count: nat, state: u64)
    requires
        count > 0,
        pool.len() > 0,
    ensures
        spec_cluster_cells(pool, count, state).0.len() > 0,
        spec_cluster_cells(pool, count, state).0[0] == pool[0],
{
    let zones: nat = if count >= 22 { 2 } else { 1 };
    let groups: nat = if count / 6 > 2 { count / 6 } else { 2 };
    let st0: (Seq<Cell>, int, u64) = (Seq::empty(), 0, state);
    assert(skip_chosen(pool, 0, Seq::<Cell>::empty()) == 0);
    let step = spec_step(state);
    let drawn = 4 + spec_mix(step) % 3u64;
    let remaining = count - Seq::<Cell>::empty().len();
    let size: nat = (if drawn < remaining { drawn } else { remaining }) as nat;
    assert(size >= 1);
    let first = seq![pool[0]];
    let now = Seq::<Cell>::empty().push(pool[0]);
    assert(now =~= first);
    let frontier = seq![pool[0]].drop_last() + cluster_neighbours(pool, now, pool[0]);
    let flooded = cluster_flood(pool, Seq::empty(), seq![pool[0]], size);
    assert(flooded == cluster_flood(pool, now, frontier, (size - 1) as nat));
    lemma_flood_extends(pool, now, frontier, (size - 1) as nat);
    let after_first = (flooded, 1int, step);
    assert(next_cluster(pool, count, 4, 3, st0) == (after_first, true));
    let plagues = cluster_phase(pool, count, 4, 3, st0, zones);
    assert(plagues == cluster_phase(pool, count, 4, 3, after_first, (zones - 1) as nat));
    lemma_phase_extends(pool, count, 4, 3, after_first, (zones - 1) as nat);
    let small = cluster_phase(pool, count, 2, 2, plagues, groups);
    lemma_phase_extends(pool, count, 2, 2, plagues, groups);
    lemma_fill_extends(pool, count, small.0, small.1);
    lemma_prefix_trans(now, flooded, plagues.0);
    lemma_prefix_trans(now, plagues.0, small.0);
    let fin = fill_singles(pool, count, small.0, small.1);
    lemma_prefix_trans(now, small.0, fin);
    assert(fin.subrange(0, 1)[0] == now[0]);
}

/// Stacks the neighbours of `candidate` a cluster spreads to, given the
/// cells already chosen.
#[verifier::spinoff_prover]
#[verifier::rlimit(40)]
fn push_open_neighbours(pool: &Vec<Cell>, result: &Vec<Cell>, frontier: &mut Vec<Cell>, candidate: Cell)
    requires
        all_in(pool@, old(frontier)@),
    ensures
        final(frontier)@ == old(frontier)@ + cluster_neighbours(pool@, result@, candidate),
        all_in(pool@, final(frontier)@),
{
    let ghost rest = frontier@;
    let ghost now = result@;
    let (row, column) = candidate;
    if row > 0 {
        let up = (row - 1, column);
        if contains_cell(pool, up) && !contains_cell(result, up) {
            frontier.push(up);
        }
    }
    proof {
        let up_part = if row > 0 {
            open_neighbour(pool@, now, ((row - 1) as usize, column))
        } else {
            Seq::<Cell>::empty()
        };
        assert(frontier@ =~= rest + up_part);
    }
    let ghost after_up = frontier@;
    if row < usize::MAX {
        let down = (row + 1, column);
        if contains_cell(pool, down) && !contains_cell(result, down) {
            frontier.push(down);
        }
    }
    proof {
        let down_part = if row < usize::MAX {
            open_neighbour(pool@, now, ((row + 1) as usize, column))
        } else {
            Seq::<Cell>::empty()
        };
        assert(frontier@ =~= after_up + down_part);
    }
    let ghost after_down = frontier@;
    if column > 0 {
        let left = (row, column - 1);
        if contains_cell(pool, left) && !contains_cell(result, left) {
            frontier.push(left);
        }
    }
    proof {
        let left_part = if column > 0 {
            open_neighbour(pool@, now, (row, (column - 1) as usize))
        } else {
            Seq::<Cell>::empty()
        };
        assert(frontier@ =~= after_down + left_part);
    }
    let ghost after_left = frontier@;
    if column < usize::MAX {
        let right = (row, column + 1);
        if contains_cell(pool, right) && !contains_cell(result, right) {
            frontier.push(right);
        }
    }
    proof {
        let right_part = if column < usize::MAX {
            open_neighbour(pool@, now, (row, (column + 1) as usize))
        } else {
            Seq::<Cell>::empty()
        };
        assert(frontier@ =~= after_left + right_part);
        assert(frontier@ =~= rest + cluster_neighbours(pool@, now, candidate));
        assert forall|i: int| 0 <= i < frontier@.len() implies pool@.contains(#[trigger] frontier@[i]) by {
            if i >= rest.len() {
                let n = frontier@[i];
                assert(cluster_neighbours(pool@, now, candidate).contains(n));
            }
        }
    }
}

/// Grows one cluster from `origin`: a depth-first flood over the cells
/// of `pool` not chosen yet, placing at most `size` cells (the origin first)
/// at the end of `result`.
fn place_cluster(pool: &Vec<Cell>, origin: Cell, size: usize, result: &mut Vec<Cell>)
    requires
        pool@.contains(origin),
        !old(result)@.contains(origin),
        old(result)@.no_duplicates(),
        size >= 1,
        old(result)@.len() + size <= usize::MAX,
    ensures
        final(result)@.subrange(0, old(result)@.len() as int) == old(result)@,
        old(result)@.len() < final(result)@.len() <= old(result)@.len() + size,
        final(result)@[old(result)@.len() as int] == origin,
        final(result)@.no_duplicates(),
        forall|i: int| old(result)@.len() <= i < final(result)@.len() ==> pool@.contains(#[trigger] final(result)@[i]),
        final(result)@ == cluster_flood(pool@, old(result)@, seq![origin], size as nat),
{
    let ghost start = result@;
    assert(start == old(result)@);
    assert(!start.contains(origin));
    let mut placed: usize = 0;
    let mut frontier: Vec<Cell> = Vec::new();
    frontier.push(origin);
    proof {
        assert(start.subrange(0, start.len() as int) =~= start);
    }
    while placed < size
        invariant
            placed <= size,
            size >= 1,
            result@.len() == start.len() + placed,
            start.len() + size <= usize::MAX,
            !start.contains(origin),
            result@.subrange(0, start.len() as int) == start,
            result@.no_duplicates(),
            all_in(pool@, frontier@),
            forall|i: int| start.len() <= i < result@.len() ==> pool@.contains(#[trigger] result@[i]),
            placed == 0 ==> frontier@ == seq![origin],
            placed >= 1 ==> result@[start.len() as int] == origin,
            cluster_flood(pool@, result@, frontier@, (size - placed) as nat) == cluster_flood(
                pool@,
                start,
                seq![origin],
                size as nat,
            ),
        ensures
            placed >= 1,
            result@.len() == start.len() + placed,
            placed <= size,
            result@.subrange(0, start.len() as int) == start,
            result@.no_duplicates(),
            forall|i: int| start.len() <= i < result@.len() ==> pool@.contains(#[trigger] result@[i]),
            result@[start.len() as int] == origin,
            result@ == cluster_flood(pool@, start, seq![origin], size as nat),
        decreases size - placed, frontier@.len(),
    {
        let ghost frontier_before = frontier@;
        let popped = frontier.pop();
        proof {
            if placed == 0 {
                assert(frontier_before.len() == 1);
                assert(popped == Some(origin));
                assert(result@ =~= result@.subrange(0, start.len() as int));
            }
        }
        let candidate = match popped {
            Some(cell) => cell,
            None => {
                proof {
                    assert(frontier_before.len() == 0);
                }
                break;
            },
        };
        proof {
            assert(frontier_before.last() == candidate);
            assert(frontier@ == frontier_before.drop_last());
            assert forall|i: int| 0 <= i < frontier@.len() implies pool@.contains(#[trigger] frontier@[i]) by {
                assert(frontier@[i] == frontier_before[i]);
            }
        }
        proof {
            assert(pool@.contains(candidate)) by {
                assert(frontier_before[frontier_before.len() - 1] == candidate);
            }
        }
        proof {
            if placed == 0 {
                assert(candidate == origin);
                assert(result@ == start);
                assert(!result@.contains(candidate));
            }
        }
        if contains_cell(result, candidate) {
            continue;
        }
        let ghost before = result@;
        result.push(candidate);
        placed += 1;
        proof {
            let now = result@;
            assert(now.subrange(0, start.len() as int) =~= before.subrange(0, start.len() as int));
            assert forall|x: int, y: int| 0 <= x < now.len() && 0 <= y < now.len() && x != y implies now[x]
                != now[y] by {
                if x < before.len() && y < before.len() {
                    assert(now[x] == before[x] && now[y] == before[y]);
                } else if x < before.len() {
                    assert(before.contains(now[x]));
                } else if y < before.len() {
                    assert(before.contains(now[y]));
                }
            }
            assert forall|i: int| start.len() <= i < now.len() implies pool@.contains(#[trigger] now[i]) by {
                if i < before.len() {
                    assert(now[i] == before[i]);
                }
            }
            assert forall|i: int| 0 <= i < frontier@.len() implies pool@.contains(#[trigger] frontier@[i]) by {
                assert(frontier@[i] == frontier_before[i]);
            }
            if placed == 1 {
                assert(now[start.len() as int] == origin);
            } else {
                assert(now[start.len() as int] == before[start.len() as int]);
            }
        }
        push_open_neighbours(pool, result, &mut frontier, candidate);
    }
}

/// Draws the size of a cluster (`base + gen_range(spread)`), clamps it
/// to what is left of the budget, takes the next pool cell not chosen yet
/// as its origin and grows the cluster. Returns false when the pool has
/// no cell left.
fn place_next_cluster(
    pool: &Vec<Cell>,
    cursor: &mut usize,
    count: usize,
    base: usize,
    spread: usize,
    rng: &mut Rng,
    result: &mut Vec<Cell>,
) -> (placed: bool)
    requires
        cluster_state(pool@, *old(cursor) as int, count as int, old(result)@),
        old(result)@.len() < count,
        base >= 1,
        spread >= 1,
        base + spread <= usize::MAX,
    ensures
        cluster_state(pool@, *final(cursor) as int, count as int, final(result)@),
        old(result)@.len() <= final(result)@.len(),
        !placed ==> *final(cursor) == pool@.len(),
        ({
            let spec = next_cluster(
                pool@,
                count as nat,
                base as nat,
                spread as nat,
                (old(result)@, *old(cursor) as int, old(rng)@),
            );
            &&& final(result)@ == spec.0.0
            &&& *final(cursor) as int == spec.0.1
            &&& final(rng)@ == spec.0.2
            &&& placed == spec.1
        }),
{
    let ghost c0 = *cursor as int;
    while *cursor < pool.len() && contains_cell(result, pool[*cursor])
        invariant
            cluster_state(pool@, *cursor as int, count as int, result@),
            skip_chosen(pool@, *cursor as int, result@) == skip_chosen(pool@, c0, result@),
        decreases pool@.len() - *cursor,
    {
        *cursor = *cursor + 1;
    }
    proof {
        assert(skip_chosen(pool@, *cursor as int, result@) == *cursor as int);
    }
    if *cursor >= pool.len() {
        return false;
    }
    let origin = pool[*cursor];
    *cursor = *cursor + 1;
    let remaining = count - result.len();
    let drawn = base + rng.gen_range(spread);
    let size = if drawn < remaining { drawn } else { remaining };
    let ghost before = result@;
    place_cluster(pool, origin, size, result);
    proof {
        let now = result@;
        assert forall|i: int| 0 <= i < now.len() implies pool@.contains(#[trigger] now[i]) by {
            if i < before.len() {
                assert(now.subrange(0, before.len() as int)[i] == before[i]);
            }
        }
        assert forall|j: int| 0 <= j < *cursor implies now.contains(#[trigger] pool@[j]) by {
            if j == *cursor - 1 {
                assert(now[before.len() as int] == origin);
            } else {
                assert(before.contains(pool@[j]));
                let k = choose|k: int| 0 <= k < before.len() && before[k] == pool@[j];
                assert(now.subrange(0, before.len() as int)[k] == before[k]);
            }
        }
    }
    true
}

/// Up to `k` clusters in a row (see `cluster_phase`).
fn place_clusters(
    pool: &Vec<Cell>,
    cursor: &mut usize,
    count: usize,
    base: usize,
    spread: usize,
    k: usize,
    rng: &mut Rng,
    result: &mut Vec<Cell>,
)
    requires
        cluster_state(pool@, *old(cursor) as int, count as int, old(result)@),
        base >= 1,
        spread >= 1,
        base + spread <= usize::MAX,
    ensures
        cluster_state(pool@, *final(cursor) as int, count as int, final(result)@),
        old(result)@.len() <= final(result)@.len(),
        (final(result)@, *final(cursor) as int, final(rng)@) == cluster_phase(
            pool@,
            count as nat,
            base as nat,
            spread as nat,
            (old(result)@, *old(cursor) as int, old(rng)@),
            k as nat,
        ),
{
    let ghost target = cluster_phase(
        pool@,
        count as nat,
        base as nat,
        spread as nat,
        (result@, *cursor as int, rng@),
        k as nat,
    );
    let ghost start_len = result@.len();
    let mut done: usize = 0;
    while done < k && result.len() < count
        invariant
            cluster_state(pool@, *cursor as int, count as int, result@),
            base >= 1,
            spread >= 1,
            base + spread <= usize::MAX,
            done <= k,
            start_len <= result@.len(),
            cluster_phase(
                pool@,
                count as nat,
                base as nat,
                spread as nat,
                (result@, *cursor as int, rng@),
                (k - done) as nat,
            ) == target,
        ensures
            cluster_state(pool@, *cursor as int, count as int, result@),
            start_len <= result@.len(),
            (result@, *cursor as int, rng@) == target,
        decreases k - done,
    {
        let ghost st = (result@, *cursor as int, rng@);
        if !place_next_cluster(pool, cursor, count, base, spread, rng, result) {
            proof {
                let st2 = (result@, *cursor as int, rng@);
                assert(st2 == target);
                assert(skip_chosen(pool@, *cursor as int, result@) == *cursor as int);
                assert(cluster_phase(pool@, count as nat, base as nat, spread as nat, st2, (k - done) as nat) == st2);
            }
            break;
        }
        done += 1;
    }
}

/// The bookkeeping of `select_with_clusters`: every pool cell before
/// `cursor` is chosen, and the chosen cells are distinct pool cells, at
/// most `count` of them.
pub open spec fn cluster_state(pool: Seq<Cell>, cursor: int, count: int, result: Seq<Cell>) -> bool {
    &&& 0 <= cursor <= pool.len()
    &&& forall|j: int| 0 <= j < cursor ==> result.contains(#[trigger] pool[j])
    &&& result.no_duplicates()
    &&& all_in(pool, result)
    &&& result.len() <= count
}

/// Places up to `count` cells grouped in small clusters: one or two
/// plagues of 4 to 6 cells (two when `count >= 22`), a handful of groups
/// of 2 to 3 cells (`max(count / 6, 2)` of them), and single cells for
/// the rest, taking cluster origins from `ordered_pool` in order and
/// skipping cells already chosen. Cluster cells spread from their origin
/// over the cells of `ordered_pool`, so every chosen cell is a pool cell:
/// walkable when the pool is. Fewer than `count` cells come back only
/// when every cell of the pool was chosen.
#[verifier::spinoff_prover]
#[verifier::rlimit(60)]
pub fn select_with_clusters(level: &Level, ordered_pool: &Vec<Cell>, count: usize, rng: &mut Rng) -> (cells: Vec<Cell>)
    ensures
        cells@.len() <= count,
        cells@.len() >= if count < ordered_pool@.to_set().len() {
            count as int
        } else {
            ordered_pool@.to_set().len() as int
        },
        cells@.no_duplicates(),
        all_walkable(*level, ordered_pool@) ==> all_walkable(*level, cells@),
        forall|j: int| 0 <= j < ordered_pool@.len() && cells@.len() < count ==> cells@.contains(#[trigger] ordered_pool@[j]),
        (cells@, final(rng)@) == spec_cluster_cells(ordered_pool@, count as nat, old(rng)@),
        all_in(ordered_pool@, cells@),
        count > 0 && ordered_pool@.len() > 0 ==> cells@.len() > 0 && cells@[0] == ordered_pool@[0],
{
    let ghost pool = ordered_pool@;
    let ghost zones: nat = if count >= 22 { 2 } else { 1 };
    let ghost groups: nat = if count / 6 > 2 { (count / 6) as nat } else { 2 };
    let ghost plagues = cluster_phase(pool, count as nat, 4, 3, (Seq::empty(), 0, rng@), zones);
    let ghost small = cluster_phase(pool, count as nat, 2, 2, plagues, groups);
    let mut result: Vec<Cell> = Vec::new();
    let plague_zone_count: usize = if count >= 22 { 2 } else { 1 };
    let mut cursor: usize = 0;
    proof {
        assert(result@ =~= Seq::<Cell>::empty());
    }
    place_clusters(ordered_pool, &mut cursor, count, 4, 3, plague_zone_count, rng, &mut result);
    let small_group_target: usize = if count / 6 > 2 { count / 6 } else { 2 };
    place_clusters(ordered_pool, &mut cursor, count, 2, 2, small_group_target, rng, &mut result);
    proof {
        assert((result@, cursor as int, rng@) == small);
    }
    while result.len() < count && cursor < ordered_pool.len()
        invariant
            cluster_state(ordered_pool@, cursor as int, count as int, result@),
            pool == ordered_pool@,
            rng@ == small.2,
            fill_singles(pool, count as nat, result@, cursor as int) == fill_singles(pool, count as nat, small.0, small.1),
        decreases ordered_pool@.len() - cursor,
    {
        let candidate = ordered_pool[cursor];
        cursor += 1;
        if contains_cell(&result, candidate) {
            continue;
        }
        let ghost before = result@;
        result.push(candidate);
        proof {
            let now = result@;
            assert forall|x: int, y: int| 0 <= x < now.len() && 0 <= y < now.len() && x != y implies now[x]
                != now[y] by {
                if x < before.len() && y < before.len() {
                    assert(now[x] == before[x] && now[y] == before[y]);
                } else if x < before.len() {
                    assert(before.contains(now[x]));
                } else if y < before.len() {
                    assert(before.contains(now[y]));
                }
            }
            assert forall|i: int| 0 <= i < now.len() implies ordered_pool@.contains(#[trigger] now[i]) by {
                if i < before.len() {
                    assert(now[i] == before[i]);
                } else {
                    assert(ordered_pool@[cursor - 1] == candidate);
                }
            }
            assert forall|j: int| 0 <= j < cursor implies now.contains(#[trigger] ordered_pool@[j]) by {
                if j == cursor - 1 {
                    assert(now[before.len() as int] == candidate);
                } else {
                    let k = choose|k: int| 0 <= k < before.len() && before[k] == ordered_pool@[j];
                    assert(now[k] == before[k]);
                }
            }
        }
    }
    proof {
        let fin = result@;
        assert(fill_singles(pool, count as nat, fin, cursor as int) == fin);
        assert((fin, rng@) == spec_cluster_cells(pool, count as nat, old(rng)@));
        if count > 0 && pool.len() > 0 {
            lemma_clusters_start_at_pool_head(pool, count as nat, old(rng)@);
        }
        if fin.len() < count {
            assert(cursor == ordered_pool@.len());
            assert forall|x: Cell| ordered_pool@.to_set().contains(x) implies fin.to_set().contains(x) by {
                let j = choose|j: int| 0 <= j < ordered_pool@.len() && ordered_pool@[j] == x;
                assert(fin.contains(ordered_pool@[j]));
            }
            lemma_set_within_distinct_len(ordered_pool@, fin);
        }
        if all_walkable(*level, ordered_pool@) {
            assert forall|i: int| 0 <= i < fin.len() implies level.walkable(#[trigger] fin[i].0 as int, fin[i].1 as int) by {
                assert(ordered_pool@.contains(fin[i]));
                let k = choose|k: int| 0 <= k < ordered_pool@.len() && ordered_pool@[k] == fin[i];
                assert(level.walkable(ordered_pool@[k].0 as int, ordered_pool@[k].1 as int));
            }
        }
    }
    result
}

/// Free cells at navigation distance at least `threshold` whose
/// visibility flag is `want_visible`, row-major.
pub open spec fn spawn_pool(
    level: Level,
    player_cell: Cell,
    occupied: Seq<Cell>,
    visible: Seq<Seq<bool>>,
    threshold: u32,
    want_visible: bool,
) -> Seq<Cell> {
    candidates(level, player_cell, occupied, visible, threshold, u32::MAX, Some(want_visible))
}

/// Whether the free cells at distance at least `threshold` number at
/// least `count`.
pub open spec fn spawn_pool_suffices(
    level: Level,
    player_cell: Cell,
    occupied: Seq<Cell>,
    visible: Seq<Seq<bool>>,
    threshold: u32,
    count: nat,
) -> bool {
    spawn_pool(level, player_cell, occupied, visible, threshold, false).len() + spawn_pool(
        level,
        player_cell,
        occupied,
        visible,
        threshold,
        true,
    ).len() >= count
}

/// The safe distance used for a spawn: the first of 6, 4, 2 cells that
/// leaves enough candidates, else no distance requirement at all.
pub open spec fn spec_spawn_threshold(
    level: Level,
    player_cell: Cell,
    occupied: Seq<Cell>,
    visible: Seq<Seq<bool>>,
    count: nat,
) -> u32 {
    if spawn_pool_suffices(level, player_cell, occupied, visible, 6, count) {
        6
    } else if spawn_pool_suffices(level, player_cell, occupied, visible, 4, count) {
        4
    } else if spawn_pool_suffices(level, player_cell, occupied, visible, 2, count) {
        2
    } else {
        0
    }
}

/// The ordered spawn pool and the generator state after building it: the
/// shuffled cells out of the player's view cone first, then the shuffled
/// cells inside it.
pub open spec fn spec_spawn_order(
    level: Level,
    player_cell: Cell,
    occupied: Seq<Cell>,
    visible: Seq<Seq<bool>>,
    count: nat,
    seed: u64,
) -> (Seq<Cell>, u64) {
    let t = spec_spawn_threshold(level, player_cell, occupied, visible, count);
    let hidden = spec_shuffled(spawn_pool(level, player_cell, occupied, visible, t, false), seed);
    let shown = spec_shuffled(spawn_pool(level, player_cell, occupied, visible, t, true), hidden.1);
    (hidden.0 + shown.0, shown.1)
}

/// The cells `select_spawn_cells` returns: with clusters, those that
/// `select_with_clusters` picks from the ordered spawn pool with the
/// generator where the ordering left it; without, the first `count`
/// cells of the ordered spawn pool (all of it when shorter).
pub open spec fn spec_spawn_cells(
    level: Level,
    player_cell: Cell,
    occupied: Seq<Cell>,
    visible: Seq<Seq<bool>>,
    count: nat,
    use_clusters: bool,
    seed: u64,
) -> Seq<Cell> {
    let order = spec_spawn_order(level, player_cell, occupied, visible, count, seed);
    if count == 0 {
        Seq::empty()
    } else if use_clusters {
        spec_cluster_cells(order.0, count, order.1).0
    } else {
        order.0.subrange(0, if count < order.0.len() { count as int } else { order.0.len() as int })
    }
}

/// Every cell of a shuffled candidate pool is a candidate.
proof fn lemma_shuffled_candidates(
    level: Level,
    player_cell: Cell,
    occupied: Seq<Cell>,
    visible: Seq<Seq<bool>>,
    threshold: u32,
    want_visible: bool,
    seed: u64,
)
    requires
        level.well_formed_tiles(),
    ensures
        ({
            let pool = spawn_pool(level, player_cell, occupied, visible, threshold, want_visible);
            let shuffled = spec_shuffled(pool, seed).0;
            &&& shuffled.no_duplicates()
            &&& forall|i: int|
                0 <= i < shuffled.len() ==> candidate(
                    level,
                    player_cell,
                    occupied,
                    visible,
                    threshold,
                    u32::MAX,
                    Some(want_visible),
                    #[trigger] shuffled[i].0 as int,
                    shuffled[i].1 as int,
                )
        }),
{
    let h = level.spec_height() as int;
    let w = level.spec_width() as int;
    assert(h <= u32::MAX && w <= u32::MAX) by (nonlinear_arith)
        requires
            h * w <= u32::MAX,
            h >= 1,
            w >= 1,
    ;
    let pool = spawn_pool(level, player_cell, occupied, visible, threshold, want_visible);
    lemma_candidates(level, player_cell, occupied, visible, threshold, u32::MAX, Some(want_visible));
    lemma_cells_where_len(h, w, candidate_pred(level, player_cell, occupied, visible, threshold, u32::MAX, Some(want_visible)));
    lemma_shuffled_permutes(pool, seed);
    let shuffled = spec_shuffled(pool, seed).0;
    lemma_permutation_facts(pool, shuffled);
    assert forall|i: int| 0 <= i < shuffled.len() implies candidate(
        level,
        player_cell,
        occupied,
        visible,
        threshold,
        u32::MAX,
        Some(want_visible),
        #[trigger] shuffled[i].0 as int,
        shuffled[i].1 as int,
    ) by {
        assert(shuffled.contains(shuffled[i]));
        assert(pool.contains(shuffled[i]));
    }
}

/// The cells of a spawn selection without clusters are distinct free
/// cells at the safe distance chosen for it: never the player's cell or
/// an occupied cell.
pub proof fn lemma_spawn_cells_are_free(
    level: Level,
    player_cell: Cell,
    occupied: Seq<Cell>,
    visible: Seq<Seq<bool>>,
    count: nat,
    seed: u64,
)
    requires
        level.well_formed_tiles(),
    ensures
        ({
            let cells = spec_spawn_cells(level, player_cell, occupied, visible, count, false, seed);
            let t = spec_spawn_threshold(level, player_cell, occupied, visible, count);
            &&& cells.len() <= count
            &&& cells.no_duplicates()
            &&& forall|i: int|
                0 <= i < cells.len() ==> {
                    let x = #[trigger] cells[i];
                    &&& free_cell(level, player_cell, occupied, x.0 as int, x.1 as int)
                    &&& nav_distance(level, player_cell, x.0 as int, x.1 as int).unwrap() >= t
                }
        }),
{
    let t = spec_spawn_threshold(level, player_cell, occupied, visible, count);
    let hidden = spec_shuffled(spawn_pool(level, player_cell, occupied, visible, t, false), seed);
    let shown = spec_shuffled(spawn_pool(level, player_cell, occupied, visible, t, true), hidden.1);
    lemma_shuffled_candidates(level, player_cell, occupied, visible, t, false, seed);
    lemma_shuffled_candidates(level, player_cell, occupied, visible, t, true, hidden.1);
    let order = hidden.0 + shown.0;
    let cells = spec_spawn_cells(level, player_cell, occupied, visible, count, false, seed);
    assert forall|i: int| 0 <= i < order.len() implies {
        let x = #[trigger] order[i];
        &&& free_cell(level, player_cell, occupied, x.0 as int, x.1 as int)
        &&& nav_distance(level, player_cell, x.0 as int, x.1 as int).unwrap() >= t
        &&& flag_at(visible, x.0 as int, x.1 as int) == (i >= hidden.0.len())
    } by {
        if i < hidden.0.len() {
            assert(order[i] == hidden.0[i]);
        } else {
            assert(order[i] == shown.0[i - hidden.0.len()]);
        }
    }
    assert(order.no_duplicates()) by {
        assert forall|i: int, j: int| 0 <= i < order.len() && 0 <= j < order.len() && i != j implies order[i]
            != order[j] by {
            if i < hidden.0.len() && j < hidden.0.len() {
                assert(order[i] == hidden.0[i] && order[j] == hidden.0[j]);
            } else if i >= hidden.0.len() && j >= hidden.0.len() {
                assert(order[i] == shown.0[i - hidden.0.len()] && order[j] == shown.0[j - hidden.0.len()]);
            }
        }
    }
    if count > 0 {
        let n = if count < order.len() { count as int } else { order.len() as int };
        assert(cells == order.subrange(0, n));
        assert forall|i: int| 0 <= i < cells.len() implies {
            let x = #[trigger] cells[i];
            &&& free_cell(level, player_cell, occupied, x.0 as int, x.1 as int)
            &&& nav_distance(level, player_cell, x.0 as int, x.1 as int).unwrap() >= t
        } by {
            assert(cells[i] == order[i]);
        }
        assert forall|i: int, j: int| 0 <= i < cells.len() && 0 <= j < cells.len() && i != j implies cells[i]
            != cells[j] by {
            assert(cells[i] == order[i] && cells[j] == order[j]);
        }
    }
}

/// `a` followed by `b`.
pub(crate) fn concat_cells(a: Vec<Cell>, b: &Vec<Cell>) -> (joined: Vec<Cell>)
    ensures
        joined@ == a@ + b@,
{
    let mut joined = a;
    let ghost first = joined@;
    let mut i: usize = 0;
    while i < b.len()
        invariant
            i <= b@.len(),
            joined@ == first + b@.subrange(0, i as int),
        decreases b@.len() - i,
    {
        joined.push(b[i]);
        i += 1;
        proof {
            assert(joined@ =~= first + b@.subrange(0, i as int));
        }
    }
    proof {
        assert(b@.subrange(0, b@.len() as int) =~= b@);
    }
    joined
}

/// The first `n` cells of `v` (all of them if it is shorter).
pub(crate) fn first_cells(v: &Vec<Cell>, n: usize) -> (prefix: Vec<Cell>)
    ensures
        prefix@ == v@.subrange(0, if n < v@.len() { n as int } else { v@.len() as int }),
{
    let end = if n < v.len() { n } else { v.len() };
    let mut prefix: Vec<Cell> = Vec::new();
    let mut i: usize = 0;
    while i < end
        invariant
            end <= v@.len(),
            i <= end,
            prefix@ == v@.subrange(0, i as int),
        decreases end - i,
    {
        prefix.push(v[i]);
        i += 1;
        proof {
            assert(prefix@ =~= v@.subrange(0, i as int));
        }
    }
    prefix
}

/// The free cells of a band out of the view cone and those inside it
/// together are the band.
proof fn lemma_flag_split(level: Level, player_cell: Cell, occupied: Seq<Cell>, flags: Seq<Seq<bool>>, t: u32)
    requires
        level.spec_height() <= usize::MAX,
        level.spec_width() <= usize::MAX,
    ensures
        spawn_pool(level, player_cell, occupied, flags, t, false).len() + spawn_pool(
            level,
            player_cell,
            occupied,
            flags,
            t,
            true,
        ).len() == band_pool(level, player_cell, occupied, t, u32::MAX).len(),
{
    broadcast use vstd::seq_lib::seq_to_set_is_finite;

    let a = spawn_pool(level, player_cell, occupied, flags, t, false);
    let b = spawn_pool(level, player_cell, occupied, flags, t, true);
    let c = band_pool(level, player_cell, occupied, t, u32::MAX);
    lemma_candidates(level, player_cell, occupied, flags, t, u32::MAX, Some(false));
    lemma_candidates(level, player_cell, occupied, flags, t, u32::MAX, Some(true));
    lemma_candidates(level, player_cell, occupied, Seq::empty(), t, u32::MAX, None);
    a.unique_seq_to_set();
    b.unique_seq_to_set();
    c.unique_seq_to_set();
    assert(a.to_set().disjoint(b.to_set())) by {
        assert forall|x: Cell| !(a.to_set().contains(x) && b.to_set().contains(x)) by {
            if a.contains(x) && b.contains(x) {
                assert(candidate(level, player_cell, occupied, flags, t, u32::MAX, Some(false), x.0 as int, x.1 as int));
                assert(candidate(level, player_cell, occupied, flags, t, u32::MAX, Some(true), x.0 as int, x.1 as int));
            }
        }
    }
    assert(a.to_set() + b.to_set() =~= c.to_set()) by {
        assert forall|x: Cell| (a.to_set() + b.to_set()).contains(x) <==> c.to_set().contains(x) by {
            if c.contains(x) {
                assert(candidate(level, player_cell, occupied, Seq::empty(), t, u32::MAX, None, x.0 as int, x.1 as int));
                if flag_at(flags, x.0 as int, x.1 as int) {
                    assert(candidate(level, player_cell, occupied, flags, t, u32::MAX, Some(true), x.0 as int, x.1 as int));
                } else {
                    assert(candidate(level, player_cell, occupied, flags, t, u32::MAX, Some(false), x.0 as int, x.1 as int));
                }
            }
            if a.contains(x) {
                assert(candidate(level, player_cell, occupied, flags, t, u32::MAX, Some(false), x.0 as int, x.1 as int));
                assert(candidate(level, player_cell, occupied, Seq::empty(), t, u32::MAX, None, x.0 as int, x.1 as int));
            }
            if b.contains(x) {
                assert(candidate(level, player_cell, occupied, flags, t, u32::MAX, Some(true), x.0 as int, x.1 as int));
                assert(candidate(level, player_cell, occupied, Seq::empty(), t, u32::MAX, None, x.0 as int, x.1 as int));
            }
        }
    }
    vstd::set_lib::lemma_set_disjoint_lens(a.to_set(), b.to_set());
}

/// Every free cell is at least one step from the player, so the band
/// from zero steps is the band from one step.
proof fn lemma_band_from_zero(level: Level, player_cell: Cell, occupied: Seq<Cell>, g: Seq<Seq<Option<u32>>>)
    requires
        level.spec_height() <= usize::MAX,
        level.spec_width() <= usize::MAX,
        is_distance_grid(g, level, player_cell),
    ensures
        band_pool(level, player_cell, occupied, 0, u32::MAX).len() == band_pool(
            level,
            player_cell,
            occupied,
            1,
            u32::MAX,
        ).len(),
{
    let zero = band_pool(level, player_cell, occupied, 0, u32::MAX);
    let one = band_pool(level, player_cell, occupied, 1, u32::MAX);
    lemma_candidates(level, player_cell, occupied, Seq::empty(), 0, u32::MAX, None);
    lemma_candidates(level, player_cell, occupied, Seq::empty(), 1, u32::MAX, None);
    lemma_distance_grid_is_unique(g, level, player_cell);
    assert forall|x: Cell| zero.contains(x) implies one.contains(x) by {
        assert(candidate(level, player_cell, occupied, Seq::empty(), 0, u32::MAX, None, x.0 as int, x.1 as int));
        let d = nav_distance(level, player_cell, x.0 as int, x.1 as int);
        assert(d == entry(g, x.0 as int, x.1 as int));
        if d == Some(0u32) {
            assert(x.0 == player_cell.0 && x.1 == player_cell.1);
        }
        assert(candidate(level, player_cell, occupied, Seq::empty(), 1, u32::MAX, None, x.0 as int, x.1 as int));
    }
    lemma_distinct_subset_len(zero, one);
    lemma_band_within(level, player_cell, occupied, 1, u32::MAX, 0, u32::MAX);
}

/// The spawn pool at the chosen safe distance holds `count` cells, or
/// else every reachable free cell: so taking `count` of it takes as many
/// as the maze offers. The safe distance is 6 whenever at least `count`
/// free cells lie 6 or more steps away.
proof fn lemma_spawn_totals(
    level: Level,
    player_cell: Cell,
    occupied: Seq<Cell>,
    flags: Seq<Seq<bool>>,
    count: nat,
    g: Seq<Seq<Option<u32>>>,
)
    requires
        level.spec_height() <= usize::MAX,
        level.spec_width() <= usize::MAX,
        is_distance_grid(g, level, player_cell),
    ensures
        ({
            let t = spec_spawn_threshold(level, player_cell, occupied, flags, count);
            let total = spawn_pool(level, player_cell, occupied, flags, t, false).len() + spawn_pool(
                level,
                player_cell,
                occupied,
                flags,
                t,
                true,
            ).len();
            let reachable = band_pool(level, player_cell, occupied, 1, u32::MAX);
            &&& (if count < total { count as int } else { total as int }) == (if count < reachable.len() {
                count as int
            } else {
                reachable.len() as int
            })
            &&& band_pool(level, player_cell, occupied, 6, u32::MAX).len() >= count ==> t == 6
        }),
{
    let t = spec_spawn_threshold(level, player_cell, occupied, flags, count);
    lemma_flag_split(level, player_cell, occupied, flags, 6);
    lemma_flag_split(level, player_cell, occupied, flags, t);
    if t == 0 {
        lemma_band_from_zero(level, player_cell, occupied, g);
    } else {
        lemma_band_within(level, player_cell, occupied, t, u32::MAX, 1, u32::MAX);
    }
}

/// Collects up to `count` cells where a new Hand's Dealers may spawn:
/// free cells (walkable, reachable, neither the player's cell nor
/// occupied) at a safe navigation distance from the player (6 cells,
/// relaxed to 4, 2 and 0 only when the map offers too few), preferring
/// cells outside the player's view cone (`visible`). With `use_clusters`
/// the cells are grouped as `select_with_clusters` does; otherwise the
/// ordered pool is simply cut at `count`. Never returns more cells than
/// requested.
pub fn select_spawn_cells(
    level: &Level,
    player_cell: Cell,
    visible: &Vec<Vec<bool>>,
    occupied: &Vec<Cell>,
    count: usize,
    use_clusters: bool,
    seed: u64,
) -> (cells: Vec<Cell>)
    ensures
        ({
            let flags = deep_flags(visible@);
            let t = spec_spawn_threshold(*level, player_cell, occupied@, flags, count as nat);
            let hidden = spawn_pool(*level, player_cell, occupied@, flags, t, false);
            let shown = spawn_pool(*level, player_cell, occupied@, flags, t, true);
            let order = spec_spawn_order(*level, player_cell, occupied@, flags, count as nat, seed).0;
            let total = hidden.len() + shown.len();
            &&& count == 0 ==> cells@.len() == 0
            &&& cells@.len() <= count
            &&& cells@.no_duplicates()
            &&& all_walkable(*level, cells@)
            &&& cells@ == spec_spawn_cells(*level, player_cell, occupied@, flags, count as nat, use_clusters, seed)
            &&& count > 0 && !use_clusters ==> cells@ == order.subrange(
                0,
                if count < order.len() { count as int } else { order.len() as int },
            )
            &&& !use_clusters ==> cells@.len() == if count < total { count as int } else { total as int }
            &&& !use_clusters ==> forall|i: int|
                0 <= i < cells@.len() ==> {
                    let x = #[trigger] cells@[i];
                    &&& free_cell(*level, player_cell, occupied@, x.0 as int, x.1 as int)
                    &&& nav_distance(*level, player_cell, x.0 as int, x.1 as int).unwrap() >= t
                    &&& flag_at(flags, x.0 as int, x.1 as int) == (i >= hidden.len())
                }
            &&& use_clusters ==> cells@.len() >= if count < total { count as int } else { total as int }
            &&& ({
                let reachable = band_pool(*level, player_cell, occupied@, 1, u32::MAX);
                let wanted = if count < reachable.len() { count as int } else { reachable.len() as int };
                &&& !use_clusters ==> cells@.len() == wanted
                &&& use_clusters ==> cells@.len() >= wanted
            })
            &&& band_pool(*level, player_cell, occupied@, 6, u32::MAX).len() >= count ==> forall|i: int|
                0 <= i < cells@.len() ==> nav_distance(
                    *level,
                    player_cell,
                    #[trigger] cells@[i].0 as int,
                    cells@[i].1 as int,
                ).unwrap() >= 6
            &&& forall|i: int|
                0 <= i < cells@.len() ==> {
                    let x = #[trigger] cells@[i];
                    &&& free_cell(*level, player_cell, occupied@, x.0 as int, x.1 as int)
                    &&& nav_distance(*level, player_cell, x.0 as int, x.1 as int).unwrap() >= t
                }
        }),
{
    let ghost flags = deep_flags(visible@);
    let ghost t_spec = spec_spawn_threshold(*level, player_cell, occupied@, flags, count as nat);
    if count == 0 {
        return Vec::new();
    }
    let mut rng = Rng::new(seed);
    let field = DistanceField::from_level(level, player_cell);
    let height = level.height();
    let width = level.width();
    proof {
        lemma_spawn_totals(*level, player_cell, occupied@, flags, count as nat, field.grid());
    }
    let mut threshold: u32 = SAFE_RESPAWN_DISTANCE_CELLS;
    let mut hidden = collect_candidates(level, &field, player_cell, occupied, visible, threshold, u32::MAX, Some(false));
    let mut shown = collect_candidates(level, &field, player_cell, occupied, visible, threshold, u32::MAX, Some(true));
    if hidden.len() < count && shown.len() < count - hidden.len() {
        threshold = 4;
        hidden = collect_candidates(level, &field, player_cell, occupied, visible, threshold, u32::MAX, Some(false));
        shown = collect_candidates(level, &field, player_cell, occupied, visible, threshold, u32::MAX, Some(true));
        if hidden.len() < count && shown.len() < count - hidden.len() {
            threshold = 2;
            hidden = collect_candidates(level, &field, player_cell, occupied, visible, threshold, u32::MAX, Some(false));
            shown = collect_candidates(level, &field, player_cell, occupied, visible, threshold, u32::MAX, Some(true));
            if hidden.len() < count && shown.len() < count - hidden.len() {
                threshold = 0;
                hidden = collect_candidates(level, &field, player_cell, occupied, visible, threshold, u32::MAX, Some(false));
                shown = collect_candidates(level, &field, player_cell, occupied, visible, threshold, u32::MAX, Some(true));
            }
        }
    }
    assert(threshold == t_spec);
    let ghost hidden_pool = hidden@;
    let ghost shown_pool = shown@;
    let ghost state0 = rng@;
    rng.shuffle(&mut hidden);
    let ghost state1 = rng@;
    rng.shuffle(&mut shown);
    let ordered = concat_cells(hidden, &shown);
    proof {
        lemma_candidates(*level, player_cell, occupied@, flags, threshold, u32::MAX, Some(false));
        lemma_candidates(*level, player_cell, occupied@, flags, threshold, u32::MAX, Some(true));
        lemma_permutation_facts(hidden_pool, hidden@);
        lemma_permutation_facts(shown_pool, shown@);
        assert(ordered@ == spec_spawn_order(*level, player_cell, occupied@, flags, count as nat, seed).0);
        let o = ordered@;
        assert forall|i: int| 0 <= i < o.len() implies {
            let x = #[trigger] o[i];
            &&& free_cell(*level, player_cell, occupied@, x.0 as int, x.1 as int)
            &&& nav_distance(*level, player_cell, x.0 as int, x.1 as int).unwrap() >= threshold
            &&& flag_at(flags, x.0 as int, x.1 as int) == (i >= hidden@.len())
            &&& level.walkable(x.0 as int, x.1 as int)
        } by {
            if i < hidden@.len() {
                assert(o[i] == hidden@[i]);
                assert(hidden_pool.contains(hidden@[i]));
            } else {
                assert(o[i] == shown@[i - hidden@.len()]);
                assert(shown_pool.contains(shown@[i - hidden@.len()]));
            }
        }
        assert(o.no_duplicates()) by {
            assert forall|i: int, j: int| 0 <= i < o.len() && 0 <= j < o.len() && i != j implies o[i] != o[j] by {
                if i < hidden@.len() && j < hidden@.len() {
                    assert(o[i] == hidden@[i] && o[j] == hidden@[j]);
                } else if i >= hidden@.len() && j >= hidden@.len() {
                    assert(o[i] == shown@[i - hidden@.len()] && o[j] == shown@[j - hidden@.len()]);
                }
            }
        }
    }
    if use_clusters {
        proof {
            let o = ordered@;
            assert forall|i: int| 0 <= i < o.len() implies level.walkable(#[trigger] o[i].0 as int, o[i].1 as int) by {
                let x = o[i];
                assert(free_cell(*level, player_cell, occupied@, x.0 as int, x.1 as int));
            }
            o.unique_seq_to_set();
        }
        let cells = select_with_clusters(level, &ordered, count, &mut rng);
        proof {
            let o = ordered@;
            assert forall|i: int| 0 <= i < cells@.len() implies {
                let x = #[trigger] cells@[i];
                &&& free_cell(*level, player_cell, occupied@, x.0 as int, x.1 as int)
                &&& nav_distance(*level, player_cell, x.0 as int, x.1 as int).unwrap() >= threshold
            } by {
                assert(o.contains(cells@[i]));
                let k = choose|k: int| 0 <= k < o.len() && o[k] == cells@[i];
                assert(o[k] == cells@[i]);
            }
        }
        cells
    } else {
        let cells = first_cells(&ordered, count);
        proof {
            let o = ordered@;
            assert forall|i: int| 0 <= i < cells@.len() implies {
                let x = #[trigger] cells@[i];
                &&& free_cell(*level, player_cell, occupied@, x.0 as int, x.1 as int)
                &&& nav_distance(*level, player_cell, x.0 as int, x.1 as int).unwrap() >= threshold
                &&& flag_at(flags, x.0 as int, x.1 as int) == (i >= hidden@.len())
            } by {
                assert(cells@[i] == o[i]);
            }
            assert(cells@.no_duplicates()) by {
                assert forall|i: int, j: int| 0 <= i < cells@.len() && 0 <= j < cells@.len() && i != j implies cells@[i] != cells@[j] by {
                    assert(cells@[i] == o[i] && cells@[j] == o[j]);
                }
            }
            assert forall|i: int| 0 <= i < cells@.len() implies level.walkable(#[trigger] cells@[i].0 as int, cells@[i].1 as int) by {
                assert(cells@[i] == o[i]);
            }
        }
        cells
    }
}

/// The navigation band of the easy-to-reach half of a Hand's ammunition:
/// the first of `2..=5`, `1..=9` that offers `count` candidates outside
/// the view cone, else every reachable free cell outside it.
pub open spec fn spec_easy_ammo_band(
    level: Level,
    player_cell: Cell,
    occupied: Seq<Cell>,
    flags: Seq<Seq<bool>>,
    count: nat,
) -> (u32, u32) {
    if candidates(level, player_cell, occupied, flags, 2, 5, Some(false)).len() >= count {
        (2u32, 5u32)
    } else if candidates(level, player_cell, occupied, flags, 1, 9, Some(false)).len() >= count {
        (1u32, 9u32)
    } else {
        (1u32, u32::MAX)
    }
}

/// The minimum navigation distance of the hard-to-reach half of a
/// Hand's ammunition: the first of 6, 4 that offers `count` candidates,
/// else 1.
pub open spec fn spec_hard_ammo_floor(level: Level, player_cell: Cell, occupied: Seq<Cell>, count: nat) -> u32 {
    if band_pool(level, player_cell, occupied, 6, u32::MAX).len() >= count {
        6
    } else if band_pool(level, player_cell, occupied, 4, u32::MAX).len() >= count {
        4
    } else {
        1
    }
}

/// Appends the cells of `src` not yet in `chosen`, in order, until
/// `chosen` holds `total` cells.
pub open spec fn spec_fill(chosen: Seq<Cell>, src: Seq<Cell>, total: int) -> Seq<Cell>
    decreases src.len(),
{
    if src.len() == 0 || chosen.len() >= total {
        chosen
    } else if chosen.contains(src[0]) {
        spec_fill(chosen, src.drop_first(), total)
    } else {
        spec_fill(chosen.push(src[0]), src.drop_first(), total)
    }
}

/// Appends to `chosen` the cells of `src` it does not hold yet, in
/// order, until it holds `total` cells.
fn fill_from(src: &Vec<Cell>, total: usize, chosen: &mut Vec<Cell>)
    requires
        old(chosen)@.len() <= total,
        old(chosen)@.no_duplicates(),
    ensures
        final(chosen)@ == spec_fill(old(chosen)@, src@, total as int),
        final(chosen)@.len() <= total,
        final(chosen)@.no_duplicates(),
        forall|x: Cell| #[trigger] final(chosen)@.contains(x) ==> old(chosen)@.contains(x) || src@.contains(x),
        forall|x: Cell| #[trigger] old(chosen)@.contains(x) ==> final(chosen)@.contains(x),
        final(chosen)@.len() < total ==> forall|x: Cell| #[trigger] src@.contains(x) ==> final(chosen)@.contains(x),
{
    let ghost start = chosen@;
    let mut i: usize = 0;
    assert(src@.skip(0) =~= src@);
    while i < src.len() && chosen.len() < total
        invariant
            i <= src@.len(),
            chosen@.len() <= total,
            chosen@.no_duplicates(),
            spec_fill(chosen@, src@.skip(i as int), total as int) == spec_fill(start, src@, total as int),
            forall|x: Cell| #[trigger] chosen@.contains(x) ==> start.contains(x) || src@.contains(x),
            forall|x: Cell| #[trigger] start.contains(x) ==> chosen@.contains(x),
            forall|j: int| 0 <= j < i ==> chosen@.contains(#[trigger] src@[j]),
        decreases src@.len() - i,
    {
        let cell = src[i];
        let ghost before = chosen@;
        proof {
            assert(src@.skip(i as int).drop_first() =~= src@.skip(i + 1));
            assert(src@.skip(i as int)[0] == cell);
        }
        if !contains_cell(chosen, cell) {
            chosen.push(cell);
            proof {
                assert forall|x: Cell| #[trigger] chosen@.contains(x) implies start.contains(x) || src@.contains(x) by {
                    if x != cell {
                        let k = choose|k: int| 0 <= k < chosen@.len() && chosen@[k] == x;
                        assert(before[k] == x);
                        assert(before.contains(x));
                    } else {
                        assert(src@[i as int] == x);
                    }
                }
                assert forall|x: Cell| #[trigger] start.contains(x) implies chosen@.contains(x) by {
                    let k = choose|k: int| 0 <= k < before.len() && before[k] == x;
                    assert(chosen@[k] == x);
                }
                assert forall|j: int| 0 <= j < i + 1 implies chosen@.contains(#[trigger] src@[j]) by {
                    if j == i {
                        assert(chosen@[before.len() as int] == cell);
                    } else {
                        let k = choose|k: int| 0 <= k < before.len() && before[k] == src@[j];
                        assert(chosen@[k] == src@[j]);
                    }
                }
            }
        }
        i += 1;
    }
    proof {
        if i < src@.len() {
            assert(spec_fill(chosen@, src@.skip(i as int), total as int) == chosen@);
        } else {
            assert(src@.skip(i as int).len() == 0);
        }
        if chosen@.len() < total {
            assert forall|x: Cell| #[trigger] src@.contains(x) implies chosen@.contains(x) by {
                let j = choose|j: int| 0 <= j < src@.len() && src@[j] == x;
                assert(chosen@.contains(src@[j]));
            }
        }
    }
}

/// Selects the cells of one Hand's ammunition, split in two groups so
/// that it neither piles up nor is all trivial to collect:
///
/// - `easy_count` cells easy to reach: near the player (band
///   `spec_easy_ammo_band`) and outside the immediate view cone
///   (`visible`), a short detour away;
/// - `hard_count` cells hard to reach: at least `spec_hard_ammo_floor`
///   navigation steps away, anywhere in the maze.
///
/// Each group is shuffled (easy first, then hard, with one generator
/// seeded by `seed`) and taken with the spacing preference of
/// `take_spaced`: easy, then hard for everything still missing, then
/// easy again; what is still missing on a tiny map is filled without
/// spacing, hard cells first. Never the player's cell, a wall or an
/// occupied cell.
#[verifier::spinoff_prover]
#[verifier::rlimit(40)]
pub fn select_split_ammo_cells(
    level: &Level,
    player_cell: Cell,
    visible: &Vec<Vec<bool>>,
    occupied: &Vec<Cell>,
    easy_count: usize,
    hard_count: usize,
    seed: u64,
) -> (cells: Vec<Cell>)
    requires
        easy_count + hard_count <= usize::MAX,
    ensures
        ({
            let flags = deep_flags(visible@);
            let total = easy_count + hard_count;
            let eb = spec_easy_ammo_band(*level, player_cell, occupied@, flags, easy_count as nat);
            let easy_pool = candidates(*level, player_cell, occupied@, flags, eb.0, eb.1, Some(false));
            let floor = spec_hard_ammo_floor(*level, player_cell, occupied@, hard_count as nat);
            let hard_pool = band_pool(*level, player_cell, occupied@, floor, u32::MAX);
            let easy_shuffle = spec_shuffled(easy_pool, seed);
            let es = easy_shuffle.0;
            let hs = spec_shuffled(hard_pool, easy_shuffle.1).0;
            &&& total == 0 ==> cells@.len() == 0
            &&& total > 0 ==> {
                let c1 = spec_take_spaced(es, easy_count as nat, Seq::empty());
                let c2 = spec_take_spaced(hs, (total - c1.len()) as nat, c1);
                let c3 = spec_take_spaced(es, (total - c2.len()) as nat, c2);
                cells@ == spec_fill(spec_fill(c3, hs, total), es, total)
            }
            &&& cells@.len() <= total
            &&& cells@.no_duplicates()
            &&& forall|i: int|
                0 <= i < cells@.len() ==> easy_pool.contains(#[trigger] cells@[i]) || hard_pool.contains(cells@[i])
            &&& forall|i: int|
                0 <= i < cells@.len() ==> free_cell(*level, player_cell, occupied@, #[trigger] cells@[i].0 as int, cells@[i].1 as int)
            &&& cells@.len() < total ==> forall|x: Cell|
                easy_pool.contains(x) || hard_pool.contains(x) ==> #[trigger] cells@.contains(x)
        }),
{
    let ghost flags = deep_flags(visible@);
    let ghost eb = spec_easy_ammo_band(*level, player_cell, occupied@, flags, easy_count as nat);
    let ghost floor = spec_hard_ammo_floor(*level, player_cell, occupied@, hard_count as nat);
    let total = easy_count + hard_count;
    if total == 0 {
        return Vec::new();
    }
    let mut rng = Rng::new(seed);
    let field = DistanceField::from_level(level, player_cell);
    let height = level.height();
    let width = level.width();
    let mut easy = collect_candidates(level, &field, player_cell, occupied, visible, 2, 5, Some(false));
    if easy.len() < easy_count {
        easy = collect_candidates(level, &field, player_cell, occupied, visible, 1, 9, Some(false));
        if easy.len() < easy_count {
            easy = collect_candidates(level, &field, player_cell, occupied, visible, 1, u32::MAX, Some(false));
        }
    }
    let no_flags: Vec<Vec<bool>> = Vec::new();
    proof {
        assert(deep_flags(no_flags@) =~= Seq::<Seq<bool>>::empty());
    }
    let mut hard = collect_candidates(level, &field, player_cell, occupied, &no_flags, 6, u32::MAX, None);
    if hard.len() < hard_count {
        hard = collect_candidates(level, &field, player_cell, occupied, &no_flags, 4, u32::MAX, None);
        if hard.len() < hard_count {
            hard = collect_candidates(level, &field, player_cell, occupied, &no_flags, 1, u32::MAX, None);
        }
    }
    let ghost easy_pool = easy@;
    let ghost hard_pool = hard@;
    assert(easy_pool == candidates(*level, player_cell, occupied@, flags, eb.0, eb.1, Some(false)));
    assert(hard_pool == band_pool(*level, player_cell, occupied@, floor, u32::MAX));
    let ghost state0 = rng@;
    rng.shuffle(&mut easy);
    let ghost state1 = rng@;
    rng.shuffle(&mut hard);
    let ghost es = easy@;
    let ghost hs = hard@;
    assert(es == spec_shuffled(easy_pool, seed).0);
    assert(state1 == spec_shuffled(easy_pool, seed).1);
    assert(hs == spec_shuffled(hard_pool, state1).0);
    proof {
        lemma_candidates(*level, player_cell, occupied@, flags, eb.0, eb.1, Some(false));
        lemma_candidates(*level, player_cell, occupied@, Seq::empty(), floor, u32::MAX, None);
        lemma_permutation_facts(easy_pool, easy@);
        lemma_permutation_facts(hard_pool, hard@);
    }
    let mut chosen: Vec<Cell> = Vec::new();
    take_spaced(&easy, easy_count, &mut chosen);
    let ghost c1 = chosen@;
    take_spaced(&hard, total - chosen.len(), &mut chosen);
    let ghost c2 = chosen@;
    take_spaced(&easy, total - chosen.len(), &mut chosen);
    let ghost c3 = chosen@;
    proof {
        assert(greedy_spaced(Seq::empty(), c1, easy@, easy_count as int));
        assert(greedy_spaced(c1, c2, hard@, total as int));
        assert(greedy_spaced(c2, c3, easy@, total as int));
    }
    fill_from(&hard, total, &mut chosen);
    fill_from(&easy, total, &mut chosen);
    proof {
        let fin = chosen@;
        let t = easy_count + hard_count;
        assert(greedy_spaced(Seq::empty(), c1, es, easy_count as int));
        assert(greedy_spaced(c1, c2, hs, t));
        assert(greedy_spaced(c2, c3, es, t));
        assert(fin == spec_fill(spec_fill(c3, hs, t), es, t));
        assert forall|x: Cell| #[trigger] c1.contains(x) implies easy@.contains(x) by {
            let k = choose|k: int| 0 <= k < c1.len() && c1[k] == x;
            assert(easy@.contains(c1[k]));
        }
        assert forall|x: Cell| #[trigger] c2.contains(x) implies easy@.contains(x) || hard@.contains(x) by {
            let k = choose|k: int| 0 <= k < c2.len() && c2[k] == x;
            if k < c1.len() {
                assert(c2.subrange(0, c1.len() as int)[k] == c1[k]);
                assert(c1.contains(x));
            } else {
                assert(hard@.contains(c2[k]));
            }
        }
        assert forall|x: Cell| #[trigger] c3.contains(x) implies easy@.contains(x) || hard@.contains(x) by {
            let k = choose|k: int| 0 <= k < c3.len() && c3[k] == x;
            if k < c2.len() {
                assert(c3.subrange(0, c2.len() as int)[k] == c2[k]);
                assert(c2.contains(x));
            } else {
                assert(easy@.contains(c3[k]));
            }
        }
        assert forall|i: int| 0 <= i < fin.len() implies easy_pool.contains(#[trigger] fin[i]) || hard_pool.contains(fin[i]) by {
            assert(fin.contains(fin[i]));
        }
    }
    proof {
        let fin = chosen@;
        lemma_candidates(*level, player_cell, occupied@, flags, eb.0, eb.1, Some(false));
        lemma_candidates(*level, player_cell, occupied@, Seq::empty(), floor, u32::MAX, None);
        assert forall|i: int| 0 <= i < fin.len() implies free_cell(
            *level,
            player_cell,
            occupied@,
            #[trigger] fin[i].0 as int,
            fin[i].1 as int,
        ) by {
            if easy_pool.contains(fin[i]) {
                assert(candidate(*level, player_cell, occupied@, flags, eb.0, eb.1, Some(false), fin[i].0 as int, fin[i].1 as int));
            } else {
                assert(hard_pool.contains(fin[i]));
                assert(candidate(*level, player_cell, occupied@, Seq::empty(), floor, u32::MAX, None, fin[i].0 as int, fin[i].1 as int));
            }
        }
    }
    chosen
}

/// The octant (0 to 7, counter-clockwise in screen coordinates, 0
/// pointing along increasing columns) of the direction `(dy, dx)`: the
/// multiple of 45 degrees nearest to its angle. The boundaries lie at odd
/// multiples of 22.5 degrees, whose tangents are irrational, so integer
/// directions never fall on one; `(0, 0)` is octant 0.
pub open spec fn spec_octant(dy: int, dx: int) -> int {
    let ax = if dx >= 0 { dx } else { -dx };
    let ay = if dy >= 0 { dy } else { -dy };
    if dx == 0 && dy == 0 {
        0
    } else if (ax + ay) * (ax + ay) < 2 * (ax * ax) {
        if dx > 0 { 0 } else { 4 }
    } else if (ax + ay) * (ax + ay) < 2 * (ay * ay) {
        if dy > 0 { 2 } else { 6 }
    } else if dy > 0 {
        if dx > 0 { 1 } else { 3 }
    } else {
        if dx < 0 { 5 } else { 7 }
    }
}

/// The octant of `cell` around `center`.
pub open spec fn cell_octant(center: Cell, cell: Cell) -> int {
    spec_octant(cell.0 - center.0, cell.1 - center.1)
}

/// The octant of `cell` seen from `center` (see `spec_octant`).
pub fn octant_of(center: Cell, cell: Cell) -> (octant: usize)
    requires
        center.0 <= u32::MAX,
        center.1 <= u32::MAX,
        cell.0 <= u32::MAX,
        cell.1 <= u32::MAX,
    ensures
        octant == cell_octant(center, cell),
        octant < 8,
{
    let dy_pos = cell.0 >= center.0;
    let dx_pos = cell.1 >= center.1;
    let ay: u128 = if dy_pos { (cell.0 - center.0) as u128 } else { (center.0 - cell.0) as u128 };
    let ax: u128 = if dx_pos { (cell.1 - center.1) as u128 } else { (center.1 - cell.1) as u128 };
    if ax == 0 && ay == 0 {
        return 0;
    }
    let sum = ax + ay;
    proof {
        assert(sum * sum <= 0x3_0000_0000 * 0x3_0000_0000) by (nonlinear_arith)
            requires
                sum <= 0x3_0000_0000,
        ;
        assert(ax * ax <= 0x2_0000_0000 * 0x2_0000_0000) by (nonlinear_arith)
            requires
                ax <= 0x2_0000_0000,
        ;
        assert(ay * ay <= 0x2_0000_0000 * 0x2_0000_0000) by (nonlinear_arith)
            requires
                ay <= 0x2_0000_0000,
        ;
    }
    let sum_sq = sum * sum;
    let ax_sq = ax * ax;
    let ay_sq = ay * ay;
    if sum_sq < 2 * ax_sq {
        if dx_pos && ax > 0 { 0 } else { 4 }
    } else if sum_sq < 2 * ay_sq {
        if dy_pos && ay > 0 { 2 } else { 6 }
    } else if dy_pos && ay > 0 {
        if dx_pos && ax > 0 { 1 } else { 3 }
    } else {
        if !dx_pos { 5 } else { 7 }
    }
}

/// Total length of a list of sequences.
pub open spec fn total_len(b: Seq<Seq<Cell>>) -> nat
    decreases b.len(),
{
    if b.len() == 0 {
        0
    } else {
        total_len(b.drop_last()) + b.last().len()
    }
}

/// Occurrences of `x` in a list of sequences.
pub open spec fn total_count(b: Seq<Seq<Cell>>, x: Cell) -> nat
    decreases b.len(),
{
    if b.len() == 0 {
        0
    } else {
        total_count(b.drop_last(), x) + b.last().to_multiset().count(x)
    }
}

proof fn lemma_totals_update(b: Seq<Seq<Cell>>, a: int, s: Seq<Cell>)
    requires
        0 <= a < b.len(),
    ensures
        total_len(b.update(a, s)) == total_len(b) - b[a].len() + s.len(),
        forall|x: Cell| #[trigger] total_count(b.update(a, s), x) == total_count(b, x) - b[a].to_multiset().count(x)
            + s.to_multiset().count(x),
    decreases b.len(),
{
    let u = b.update(a, s);
    if a == b.len() - 1 {
        assert(u.drop_last() =~= b.drop_last());
    } else {
        lemma_totals_update(b.drop_last(), a, s);
        assert(u.drop_last() =~= b.drop_last().update(a, s));
    }
    assert forall|x: Cell| #[trigger] total_count(u, x) == total_count(b, x) - b[a].to_multiset().count(x)
        + s.to_multiset().count(x) by {
        if a != b.len() - 1 {
            assert(total_count(u.drop_last(), x) == total_count(b.drop_last(), x) - b[a].to_multiset().count(x)
                + s.to_multiset().count(x));
        } else {
            assert(u.drop_last() =~= b.drop_last());
        }
    }
}

proof fn lemma_totals_zero(b: Seq<Seq<Cell>>)
    requires
        total_len(b) == 0,
    ensures
        forall|a: int| 0 <= a < b.len() ==> #[trigger] b[a].len() == 0,
    decreases b.len(),
{
    if b.len() > 0 {
        lemma_totals_zero(b.drop_last());
        assert forall|a: int| 0 <= a < b.len() implies #[trigger] b[a].len() == 0 by {
            if a < b.len() - 1 {
                assert(b[a] == b.drop_last()[a]);
            }
        }
    }
}

proof fn lemma_totals_empty(b: Seq<Seq<Cell>>)
    requires
        forall|a: int| 0 <= a < b.len() ==> #[trigger] b[a].len() == 0,
    ensures
        total_len(b) == 0,
        forall|x: Cell| #[trigger] total_count(b, x) == 0,
    decreases b.len(),
{
    broadcast use vstd::seq_lib::group_to_multiset_ensures;
    if b.len() > 0 {
        lemma_totals_empty(b.drop_last());
        assert(b.last().len() == 0);
        assert(b.last() =~= Seq::<Cell>::empty());
        assert forall|x: Cell| #[trigger] total_count(b, x) == 0 by {
            assert(!b.last().contains(x));
            assert(b.last().to_multiset().count(x) == 0);
            assert(total_count(b.drop_last(), x) == 0);
        }
    }
}

/// The bucket contents and the chosen cells together are exactly the
/// pool.
pub open spec fn buckets_partition(pool: Seq<Cell>, chosen: Seq<Cell>, buckets: Seq<Seq<Cell>>) -> bool {
    &&& chosen.len() + total_len(buckets) == pool.len()
    &&& forall|x: Cell| #[trigger] pool.to_multiset().count(x) == chosen.to_multiset().count(x) + total_count(buckets, x)
}

/// Free cells at navigation distance in one of the near bands of the
/// punishment wave: the first of `2..=5`, `2..=8` that offers `count`
/// candidates, else every reachable free cell.
pub open spec fn spec_encircling_band(level: Level, player_cell: Cell, occupied: Seq<Cell>, count: nat) -> (u32, u32) {
    if band_pool(level, player_cell, occupied, 2, 5).len() >= count {
        (2u32, 5u32)
    } else if band_pool(level, player_cell, occupied, 2, 8).len() >= count {
        (2u32, 8u32)
    } else {
        (1u32, u32::MAX)
    }
}

/// Whether a cell lies in octant `k` around `center`.
pub open spec fn in_octant(center: Cell, k: int) -> spec_fn(Cell) -> bool {
    |c: Cell| cell_octant(center, c) == k
}

/// The cells of `s` sorted into the eight octants around `center`, each
/// bucket in the order of `s`.
pub open spec fn octant_buckets(s: Seq<Cell>, center: Cell) -> Seq<Seq<Cell>> {
    Seq::new(8, |k: int| s.filter(in_octant(center, k)))
}

/// What round `r` of the turns takes from the first `a` buckets: from each
/// bucket in turn, its `r`-th cell counted from the back, if it has one.
pub open spec fn turn_picks(buckets: Seq<Seq<Cell>>, r: int, a: int) -> Seq<Cell>
    decreases a,
{
    if a <= 0 {
        Seq::empty()
    } else {
        let b = buckets[a - 1];
        turn_picks(buckets, r, a - 1) + if 0 <= r < b.len() {
            seq![b[b.len() - 1 - r]]
        } else {
            Seq::<Cell>::empty()
        }
    }
}

/// The cells taken by the first `n` rounds of turns over eight buckets.
pub open spec fn turns(buckets: Seq<Seq<Cell>>, n: int) -> Seq<Cell>
    decreases n,
{
    if n <= 0 {
        Seq::empty()
    } else {
        turns(buckets, n - 1) + turn_picks(buckets, n - 1, 8)
    }
}

/// The punishment wave's cells: the candidates of the encircling band,
/// shuffled with `seed`, sorted into octant buckets, then taken in turns
/// (bucket 0 to 7, each from its back) until `count` are taken or none
/// is left.
pub open spec fn spec_encircling_cells(level: Level, player_cell: Cell, occupied: Seq<Cell>, count: nat, seed: u64) -> Seq<Cell> {
    let band = spec_encircling_band(level, player_cell, occupied, count);
    let pool = band_pool(level, player_cell, occupied, band.0, band.1);
    let shuffled = spec_shuffled(pool, seed).0;
    let all = turns(octant_buckets(shuffled, player_cell), shuffled.len() as int);
    if count <= all.len() {
        all.take(count as int)
    } else {
        all
    }
}

proof fn lemma_first_round_octants(b: Seq<Seq<Cell>>, center: Cell, a: int)
    requires
        b.len() == 8,
        0 <= a <= 8,
        forall|k: int, i: int| 0 <= k < 8 && 0 <= i < b[k].len() ==> cell_octant(center, #[trigger] b[k][i]) == k,
    ensures
        ({
            let first = turn_picks(b, 0, a);
            &&& forall|i: int, j: int| 0 <= i < j < first.len() ==> cell_octant(center, #[trigger] first[i])
                < cell_octant(center, #[trigger] first[j])
            &&& forall|i: int| 0 <= i < first.len() ==> cell_octant(center, #[trigger] first[i]) < a
            &&& forall|k: int| 0 <= k < a && b[k].len() > 0 ==> first.contains(#[trigger] b[k].last())
        }),
    decreases a,
{
    if a > 0 {
        lemma_first_round_octants(b, center, a - 1);
        let prev = turn_picks(b, 0, a - 1);
        let first = turn_picks(b, 0, a);
        let last = b[a - 1];
        if last.len() > 0 {
            assert(first == prev + seq![last[last.len() - 1]]);
            assert(cell_octant(center, last[last.len() - 1]) == a - 1);
            assert forall|k: int| 0 <= k < a && b[k].len() > 0 implies first.contains(#[trigger] b[k].last()) by {
                if k == a - 1 {
                    assert(first[first.len() - 1] == last.last());
                } else {
                    let i = choose|i: int| 0 <= i < prev.len() && prev[i] == b[k].last();
                    assert(first[i] == prev[i]);
                }
            }
        } else {
            assert(first =~= prev);
        }
    }
}

/// Whether some cell of `s` lies in octant `k` around `center`.
pub open spec fn has_cell_in_octant(s: Seq<Cell>, center: Cell, k: int) -> bool {
    exists|x: Cell| #[trigger] s.contains(x) && cell_octant(center, x) == k
}

/// The punishment wave surrounds the player rather than piling up in one
/// direction: it takes one cell per octant in turns, so its first cells
/// lie in distinct octants (in increasing octant order) for as long as
/// there are octants with candidates, and a wave of at least eight cells
/// has a cell in every octant around the player that has a candidate.
pub proof fn lemma_encircling_surrounds(level: Level, player_cell: Cell, occupied: Seq<Cell>, count: nat, seed: u64)
    requires
        level.well_formed_tiles(),
    ensures
        ({
            let band = spec_encircling_band(level, player_cell, occupied, count);
            let pool = band_pool(level, player_cell, occupied, band.0, band.1);
            let cells = spec_encircling_cells(level, player_cell, occupied, count, seed);
            let first_round = turn_picks(octant_buckets(spec_shuffled(pool, seed).0, player_cell), 0, 8);
            &&& forall|i: int, j: int|
                0 <= i < j < cells.len() && j < first_round.len() ==> cell_octant(player_cell, #[trigger] cells[i])
                    < cell_octant(player_cell, #[trigger] cells[j])
            &&& count >= 8 ==> forall|k: int|
                0 <= k < 8 && #[trigger] has_cell_in_octant(pool, player_cell, k) ==> has_cell_in_octant(
                    cells,
                    player_cell,
                    k,
                )
        }),
{
    let band = spec_encircling_band(level, player_cell, occupied, count);
    let pool = band_pool(level, player_cell, occupied, band.0, band.1);
    let shuffled = spec_shuffled(pool, seed).0;
    let b = octant_buckets(shuffled, player_cell);
    let n = shuffled.len() as int;
    let all = turns(b, n);
    let cells = spec_encircling_cells(level, player_cell, occupied, count, seed);
    let first = turn_picks(b, 0, 8);
    assert forall|k: int, i: int| 0 <= k < 8 && 0 <= i < b[k].len() implies cell_octant(
        player_cell,
        #[trigger] b[k][i],
    ) == k by {
        shuffled.lemma_filter_pred(in_octant(player_cell, k), i);
    }
    lemma_first_round_octants(b, player_cell, 8);
    assert(first.len() <= 8) by {
        assert forall|a: int| 0 <= a <= 8 implies #[trigger] turn_picks(b, 0, a).len() <= a by {
            lemma_picks_len(b, 0, a);
        }
    }
    if n >= 1 {
        lemma_turns_prefix(b, 1, n);
        assert(turns(b, 0) =~= Seq::<Cell>::empty());
        assert(turns(b, 1) == turns(b, 0) + turn_picks(b, 0, 8));
        assert(turns(b, 1) =~= first);
    } else {
        assert forall|k: int| 0 <= k < 8 implies #[trigger] b[k].len() <= 0 by {
            shuffled.lemma_filter_len(in_octant(player_cell, k));
        }
        lemma_turn_picks_empty(b, 0, 8);
    }
    // `first` begins `all`, and `cells` begins `all` too.
    assert(first.is_prefix_of(all));
    assert forall|i: int| 0 <= i < cells.len() && i < first.len() implies cells[i] == first[i] by {
        assert(all.subrange(0, first.len() as int)[i] == first[i]);
        if count <= all.len() {
            assert(cells[i] == all[i]);
        }
    }
    if count >= 8 {
        lemma_cells_where_len(
            level.spec_height() as int,
            level.spec_width() as int,
            candidate_pred(level, player_cell, occupied, Seq::empty(), band.0, band.1, None),
        );
        lemma_shuffled_permutes(pool, seed);
        lemma_permutation_facts(pool, shuffled);
        assert forall|k: int|
            0 <= k < 8 && #[trigger] has_cell_in_octant(pool, player_cell, k) implies has_cell_in_octant(
            cells,
            player_cell,
            k,
        ) by {
            let x = choose|x: Cell| #[trigger] pool.contains(x) && cell_octant(player_cell, x) == k;
            assert(shuffled.contains(x));
            let m = choose|m: int| 0 <= m < shuffled.len() && shuffled[m] == x;
            shuffled.lemma_filter_contains(in_octant(player_cell, k), m);
            assert(b[k].len() > 0);
            assert(first.contains(b[k].last()));
            let i = choose|i: int| 0 <= i < first.len() && first[i] == b[k].last();
            assert(cell_octant(player_cell, b[k].last()) == k);
            assert(cells.len() >= first.len());
            assert(cells[i] == first[i]);
            assert(cells.contains(cells[i]));
        }
    }
}

proof fn lemma_picks_len(b: Seq<Seq<Cell>>, r: int, a: int)
    requires
        0 <= a,
    ensures
        turn_picks(b, r, a).len() <= a,
    decreases a,
{
    if a > 0 {
        lemma_picks_len(b, r, a - 1);
    }
}

/// The bucket `b` after `r` of its cells were taken from its back.
pub open spec fn bucket_after(b: Seq<Cell>, r: int) -> Seq<Cell> {
    if r < b.len() {
        b.take(b.len() - r)
    } else {
        Seq::empty()
    }
}

proof fn lemma_filter_push(s: Seq<Cell>, x: Cell, p: spec_fn(Cell) -> bool)
    ensures
        s.push(x).filter(p) == if p(x) {
            s.filter(p).push(x)
        } else {
            s.filter(p)
        },
{
    reveal(Seq::filter);
    assert(s.push(x).drop_last() =~= s);
}

proof fn lemma_turn_picks_empty(b: Seq<Seq<Cell>>, r: int, a: int)
    requires
        0 <= a <= b.len(),
        forall|k: int| 0 <= k < b.len() ==> #[trigger] b[k].len() <= r,
    ensures
        turn_picks(b, r, a) == Seq::<Cell>::empty(),
    decreases a,
{
    if a > 0 {
        lemma_turn_picks_empty(b, r, a - 1);
        assert(b[a - 1].len() <= r);
        assert(turn_picks(b, r, a) =~= Seq::<Cell>::empty());
    }
}

proof fn lemma_turns_stable(b: Seq<Seq<Cell>>, m: int, big: int)
    requires
        b.len() == 8,
        0 <= m <= big,
        forall|k: int| 0 <= k < 8 ==> #[trigger] b[k].len() <= m,
    ensures
        turns(b, big) == turns(b, m),
    decreases big - m,
{
    if big > m {
        lemma_turns_stable(b, m, big - 1);
        lemma_turn_picks_empty(b, big - 1, 8);
        assert(turns(b, big) =~= turns(b, big - 1));
    }
}

proof fn lemma_turn_picks_prefix(b: Seq<Seq<Cell>>, r: int, a: int, a2: int)
    requires
        0 <= a <= a2,
    ensures
        turn_picks(b, r, a).is_prefix_of(turn_picks(b, r, a2)),
    decreases a2 - a,
{
    if a < a2 {
        lemma_turn_picks_prefix(b, r, a, a2 - 1);
        let x = turn_picks(b, r, a);
        let y = turn_picks(b, r, a2 - 1);
        let z = turn_picks(b, r, a2);
        assert(z.subrange(0, y.len() as int) =~= y);
        assert(z.subrange(0, x.len() as int) =~= y.subrange(0, x.len() as int));
    }
}

proof fn lemma_turns_prefix(b: Seq<Seq<Cell>>, n: int, big: int)
    requires
        0 <= n <= big,
    ensures
        turns(b, n).is_prefix_of(turns(b, big)),
    decreases big - n,
{
    if n < big {
        lemma_turns_prefix(b, n, big - 1);
        let x = turns(b, n);
        let y = turns(b, big - 1);
        let z = turns(b, big);
        assert(z.subrange(0, y.len() as int) =~= y);
        assert(z.subrange(0, x.len() as int) =~= y.subrange(0, x.len() as int));
    }
}

/// The cells taken so far, at any point of the turns, begin the cells
/// that all the rounds take.
proof fn lemma_partial_turns_prefix(b: Seq<Seq<Cell>>, r: int, a: int, n: int)
    requires
        b.len() == 8,
        0 <= r,
        0 <= a <= 8,
        0 <= n,
        forall|k: int| 0 <= k < 8 ==> #[trigger] b[k].len() <= n,
    ensures
        (turns(b, r) + turn_picks(b, r, a)).is_prefix_of(turns(b, n)),
{
    let x = turns(b, r) + turn_picks(b, r, a);
    if r < n {
        lemma_turn_picks_prefix(b, r, a, 8);
        lemma_turns_prefix(b, r + 1, n);
        let full = turns(b, r + 1);
        assert(full == turns(b, r) + turn_picks(b, r, 8));
        assert(full.subrange(0, x.len() as int) =~= x);
        assert(turns(b, n).subrange(0, x.len() as int) =~= full.subrange(0, x.len() as int));
    } else {
        lemma_turns_stable(b, n, r);
        lemma_turn_picks_empty(b, r, a);
        assert(x =~= turns(b, n));
    }
}

/// Places `count` free cells NEAR the player and spread over the eight
/// octants around them (not at a safe distance): the punishment wave of
/// The King's flight. Candidates come from a near navigation band
/// (relaxed when the map offers too few), are shuffled with `seed`,
/// sorted into octant buckets, and taken one bucket at a time in turns.
pub fn select_encircling_cells(
    level: &Level,
    player_cell: Cell,
    occupied: &Vec<Cell>,
    count: usize,
    seed: u64,
) -> (cells: Vec<Cell>)
    ensures
        ({
            let band = spec_encircling_band(*level, player_cell, occupied@, count as nat);
            let pool = band_pool(*level, player_cell, occupied@, band.0, band.1);
            let reachable = band_pool(*level, player_cell, occupied@, 1, u32::MAX);
            let near = band_pool(*level, player_cell, occupied@, 2, 5);
            &&& count == 0 ==> cells@.len() == 0
            &&& count > 0 ==> cells@.len() == if count < pool.len() { count as int } else { pool.len() as int }
            &&& cells@.len() == if count < reachable.len() { count as int } else { reachable.len() as int }
            &&& forall|i: int| 0 <= i < cells@.len() ==> pool.contains(#[trigger] cells@[i])
            &&& forall|i: int|
                0 <= i < cells@.len() ==> free_cell(*level, player_cell, occupied@, #[trigger] cells@[i].0 as int, cells@[i].1 as int)
            &&& near.len() >= count ==> forall|i: int| 0 <= i < cells@.len() ==> near.contains(#[trigger] cells@[i])
            &&& cells@.no_duplicates()
        }),
        cells@ == spec_encircling_cells(*level, player_cell, occupied@, count as nat, seed),
{
    let ghost band = spec_encircling_band(*level, player_cell, occupied@, count as nat);
    let ghost pool_spec = band_pool(*level, player_cell, occupied@, band.0, band.1);
    if count == 0 {
        proof {
            let shuffled = spec_shuffled(pool_spec, seed).0;
            let all = turns(octant_buckets(shuffled, player_cell), shuffled.len() as int);
            assert(all.take(0) =~= Seq::<Cell>::empty());
        }
        return Vec::new();
    }
    let height = level.height();
    let width = level.width();
    let mut rng = Rng::new(seed);
    let field = DistanceField::from_level(level, player_cell);
    let no_flags: Vec<Vec<bool>> = Vec::new();
    proof {
        assert(deep_flags(no_flags@) =~= Seq::<Seq<bool>>::empty());
        lemma_candidates(*level, player_cell, occupied@, Seq::empty(), band.0, band.1, None);
    }
    let mut pool = collect_candidates(level, &field, player_cell, occupied, &no_flags, 2, 5, None);
    if pool.len() < count {
        pool = collect_candidates(level, &field, player_cell, occupied, &no_flags, 2, 8, None);
        if pool.len() < count {
            pool = collect_candidates(level, &field, player_cell, occupied, &no_flags, 1, u32::MAX, None);
        }
    }
    assert(pool@ == pool_spec);
    let ghost unshuffled = pool@;
    rng.shuffle(&mut pool);
    proof {
        lemma_permutation_facts(unshuffled, pool@);
        assert forall|k: int| 0 <= k < pool@.len() implies level.walkable(#[trigger] pool@[k].0 as int, pool@[k].1 as int)
            && field.get(pool@[k].0 as int, pool@[k].1 as int) is Some by {
            assert(pool@.contains(pool@[k]));
            assert(unshuffled.contains(pool@[k]));
        }
        if pool@.len() > 0 {
            assert(field.get(pool@[0].0 as int, pool@[0].1 as int) is Some);
            assert(level.walkable(player_cell.0 as int, player_cell.1 as int));
        }
    }
    let ghost shuffled = pool@;
    let mut buckets: Vec<Vec<Cell>> = Vec::new();
    let mut b: usize = 0;
    while b < 8
        invariant
            b <= 8,
            buckets@.len() == b,
            forall|a: int| 0 <= a < b ==> #[trigger] buckets@[a]@.len() == 0,
        decreases 8 - b,
    {
        buckets.push(Vec::new());
        b += 1;
    }
    let ghost empty: Seq<Cell> = Seq::empty();
    proof {
        lemma_totals_empty(deep_cells(buckets@));
        assert(shuffled.subrange(0, 0) =~= empty);
        reveal(Seq::filter);
        assert forall|k: int| 0 <= k < 8 implies #[trigger] deep_cells(buckets@)[k] == shuffled.subrange(0, 0).filter(
            in_octant(player_cell, k),
        ) by {
            assert(shuffled.subrange(0, 0).filter(in_octant(player_cell, k)) =~= empty);
            assert(deep_cells(buckets@)[k] =~= empty);
        }
    }
    let mut i: usize = 0;
    while i < pool.len()
        invariant
            pool@ == shuffled,
            i <= pool@.len(),
            buckets@.len() == 8,
            buckets_partition(shuffled.subrange(0, i as int), empty, deep_cells(buckets@)),
            forall|k: int| 0 <= k < 8 ==> #[trigger] deep_cells(buckets@)[k] == shuffled.subrange(0, i as int).filter(
                in_octant(player_cell, k),
            ),
            forall|k: int| 0 <= k < shuffled.len() ==> level.walkable(#[trigger] shuffled[k].0 as int, shuffled[k].1 as int),
            height == level.spec_height(),
            width == level.spec_width(),
            height * width <= u32::MAX,
            pool@.len() > 0 ==> level.walkable(player_cell.0 as int, player_cell.1 as int),
        decreases pool@.len() - i,
    {
        let cell = pool[i];
        proof {
            assert(level.walkable(cell.0 as int, cell.1 as int));
            assert(cell.0 < height && cell.1 < width);
            assert(player_cell.0 < height && player_cell.1 < width);
            assert(height <= u32::MAX) by (nonlinear_arith)
                requires
                    height * width <= u32::MAX,
                    width > 0,
            ;
            assert(width <= u32::MAX) by (nonlinear_arith)
                requires
                    height * width <= u32::MAX,
                    height > 0,
            ;
        }
        let octant = octant_of(player_cell, cell);
        let ghost before = deep_cells(buckets@);
        buckets[octant].push(cell);
        proof {
            broadcast use vstd::seq_lib::group_to_multiset_ensures;
            broadcast use vstd::multiset::group_multiset_axioms;
            assert(deep_cells(buckets@) =~= before.update(octant as int, before[octant as int].push(cell)));
            lemma_totals_update(before, octant as int, before[octant as int].push(cell));
            assert(shuffled.subrange(0, i + 1) =~= shuffled.subrange(0, i as int).push(cell));
            assert forall|k: int| 0 <= k < 8 implies #[trigger] deep_cells(buckets@)[k] == shuffled.subrange(
                0,
                i + 1,
            ).filter(in_octant(player_cell, k)) by {
                lemma_filter_push(shuffled.subrange(0, i as int), cell, in_octant(player_cell, k));
            }
        }
        i += 1;
    }
    let ghost orig = deep_cells(buckets@);
    let ghost n_all = shuffled.len() as int;
    proof {
        assert(shuffled.subrange(0, shuffled.len() as int) =~= shuffled);
        assert(orig =~= octant_buckets(shuffled, player_cell));
        assert forall|k: int| 0 <= k < 8 implies #[trigger] orig[k].len() <= n_all by {
            shuffled.lemma_filter_len(in_octant(player_cell, k));
        }
        assert forall|k: int| 0 <= k < 8 implies #[trigger] deep_cells(buckets@)[k] == bucket_after(orig[k], 0) by {
            assert(orig[k].take(orig[k].len() as int) =~= orig[k]);
        }
        assert(turns(orig, 0) + turn_picks(orig, 0, 0) =~= Seq::<Cell>::empty());
    }
    let ghost mut r: int = 0;
    let mut chosen: Vec<Cell> = Vec::new();
    let mut progress = true;
    while chosen.len() < count && progress
        invariant
            buckets@.len() == 8,
            buckets_partition(shuffled, chosen@, deep_cells(buckets@)),
            !progress ==> total_len(deep_cells(buckets@)) == 0,
            chosen@.len() <= count,
            orig.len() == 8,
            r >= 0,
            forall|k: int| 0 <= k < 8 ==> #[trigger] orig[k].len() <= n_all,
            chosen@.is_prefix_of(turns(orig, n_all)),
            chosen@.len() < count ==> chosen@ == turns(orig, r),
            chosen@.len() < count ==> forall|k: int| 0 <= k < 8 ==> #[trigger] deep_cells(buckets@)[k] == bucket_after(
                orig[k],
                r,
            ),
        decreases total_len(deep_cells(buckets@)) + if progress { 1nat } else { 0nat },
    {
        progress = false;
        let mut a: usize = 0;
        let ghost round_start = total_len(deep_cells(buckets@));
        proof {
            assert(turn_picks(orig, r, 0) =~= Seq::<Cell>::empty());
            assert(chosen@ =~= turns(orig, r) + turn_picks(orig, r, 0));
        }
        while a < 8
            invariant
                buckets@.len() == 8,
                a <= 8,
                chosen@.len() <= count,
                buckets_partition(shuffled, chosen@, deep_cells(buckets@)),
                !progress ==> total_len(deep_cells(buckets@)) == round_start,
                progress ==> total_len(deep_cells(buckets@)) < round_start,
                !progress ==> forall|k: int| 0 <= k < a ==> #[trigger] deep_cells(buckets@)[k].len() == 0,
                orig.len() == 8,
                r >= 0,
                chosen@ == turns(orig, r) + turn_picks(orig, r, a as int),
                forall|k: int| 0 <= k < 8 ==> #[trigger] deep_cells(buckets@)[k] == bucket_after(
                    orig[k],
                    if k < a { r + 1 } else { r },
                ),
            ensures
                buckets@.len() == 8,
                chosen@.len() <= count,
                buckets_partition(shuffled, chosen@, deep_cells(buckets@)),
                !progress ==> total_len(deep_cells(buckets@)) == round_start,
                progress ==> total_len(deep_cells(buckets@)) < round_start,
                !progress && chosen@.len() < count ==> forall|k: int| 0 <= k < 8 ==> #[trigger] deep_cells(buckets@)[k].len() == 0,
                a <= 8,
                chosen@ == turns(orig, r) + turn_picks(orig, r, a as int),
                a < 8 ==> chosen@.len() >= count,
                forall|k: int| 0 <= k < 8 ==> #[trigger] deep_cells(buckets@)[k] == bucket_after(
                    orig[k],
                    if k < a { r + 1 } else { r },
                ),
            decreases 8 - a,
        {
            if chosen.len() >= count {
                break;
            }
            let ghost before = deep_cells(buckets@);
            let ghost picks_before = turn_picks(orig, r, a as int);
            let popped = buckets[a].pop();
            match popped {
                Some(cell) => {
                    proof {
                        broadcast use vstd::seq_lib::group_to_multiset_ensures;
                        broadcast use vstd::multiset::group_multiset_axioms;
                        assert(deep_cells(buckets@) =~= before.update(a as int, before[a as int].drop_last()));
                        lemma_totals_update(before, a as int, before[a as int].drop_last());
                        assert(before[a as int] =~= before[a as int].drop_last().push(cell));
                        let ob = orig[a as int];
                        assert(before[a as int] == bucket_after(ob, r));
                        assert(r < ob.len());
                        assert(cell == ob[ob.len() - 1 - r]);
                        assert(turn_picks(orig, r, a + 1) == picks_before + seq![ob[ob.len() - 1 - r]]);
                        assert forall|k: int| 0 <= k < 8 implies #[trigger] deep_cells(buckets@)[k] == bucket_after(
                            orig[k],
                            if k < a + 1 { r + 1 } else { r },
                        ) by {
                            if k == a {
                                assert(before[a as int].drop_last() =~= bucket_after(ob, r + 1));
                            }
                        }
                    }
                    chosen.push(cell);
                    progress = true;
                },
                None => {
                    proof {
                        assert(deep_cells(buckets@) =~= before);
                        let ob = orig[a as int];
                        assert(before[a as int].len() == 0);
                        if r < ob.len() {
                            assert(bucket_after(ob, r).len() == ob.len() - r);
                        }
                        assert(r >= ob.len());
                        assert(turn_picks(orig, r, a + 1) =~= picks_before);
                        assert forall|k: int| 0 <= k < 8 implies #[trigger] deep_cells(buckets@)[k] == bucket_after(
                            orig[k],
                            if k < a + 1 { r + 1 } else { r },
                        ) by {
                            if k == a {
                                assert(bucket_after(ob, r + 1) =~= Seq::<Cell>::empty());
                                assert(before[a as int] =~= Seq::<Cell>::empty());
                            }
                        }
                    }
                },
            }
            proof {
                assert(chosen@ =~= turns(orig, r) + turn_picks(orig, r, a + 1));
            }
            a += 1;
        }
        proof {
            if !progress && chosen.len() < count {
                lemma_totals_empty(deep_cells(buckets@));
            }
            lemma_partial_turns_prefix(orig, r, a as int, n_all);
            if a == 8 {
                assert(chosen@ == turns(orig, r + 1));
                r = r + 1;
            }
        }
    }
    proof {
        let all = turns(orig, n_all);
        if chosen@.len() >= count {
            assert(chosen@ =~= all.take(count as int));
        } else {
            lemma_totals_zero(deep_cells(buckets@));
            assert forall|k: int| 0 <= k < 8 implies #[trigger] orig[k].len() <= r by {
                assert(deep_cells(buckets@)[k].len() == 0);
                assert(deep_cells(buckets@)[k] == bucket_after(orig[k], r));
                if r < orig[k].len() {
                    assert(bucket_after(orig[k], r).len() == orig[k].len() - r);
                }
            }
            if r <= n_all {
                lemma_turns_stable(orig, r, n_all);
            } else {
                lemma_turns_stable(orig, n_all, r);
            }
            assert(chosen@ == all);
        }
    }
    proof {
        broadcast use vstd::seq_lib::group_to_multiset_ensures;
        let c = chosen@;
        assert forall|x: Cell| c.to_multiset().contains(x) implies c.to_multiset().count(x) == 1 by {
            shuffled.lemma_multiset_has_no_duplicates();
            assert(shuffled.to_multiset().count(x) >= c.to_multiset().count(x));
        }
        c.lemma_multiset_has_no_duplicates_conv();
        assert forall|k: int| 0 <= k < c.len() implies pool_spec.contains(#[trigger] c[k]) by {
            assert(c.contains(c[k]));
            assert(c.to_multiset().count(c[k]) > 0);
            assert(shuffled.to_multiset().count(c[k]) > 0);
        }
        lemma_band_choice(*level, player_cell, occupied@, band.0, band.1, count as nat, c);
    }
    chosen
}

/// A choice of `min(count, |band|)` cells of a navigation band, where the
/// band is the widest one (`1..`) unless it offers `count` cells, has
/// `min(count, |reachable|)` free cells.
proof fn lemma_band_choice(level: Level, player_cell: Cell, occupied: Seq<Cell>, low: u32, high: u32, count: nat, cells: Seq<Cell>)
    requires
        level.spec_height() <= usize::MAX,
        level.spec_width() <= usize::MAX,
        1 <= low,
        band_pool(level, player_cell, occupied, low, high).len() >= count || (low == 1 && high == u32::MAX),
        cells.len() == if count < band_pool(level, player_cell, occupied, low, high).len() {
            count as int
        } else {
            band_pool(level, player_cell, occupied, low, high).len() as int
        },
        forall|i: int| 0 <= i < cells.len() ==> band_pool(level, player_cell, occupied, low, high).contains(#[trigger] cells[i]),
    ensures
        ({
            let reachable = band_pool(level, player_cell, occupied, 1, u32::MAX);
            &&& cells.len() == if count < reachable.len() { count as int } else { reachable.len() as int }
            &&& forall|i: int|
                0 <= i < cells.len() ==> free_cell(level, player_cell, occupied, #[trigger] cells[i].0 as int, cells[i].1 as int)
        }),
{
    let pool = band_pool(level, player_cell, occupied, low, high);
    lemma_band_within(level, player_cell, occupied, low, high, 1, u32::MAX);
    lemma_candidates(level, player_cell, occupied, Seq::empty(), low, high, None);
    assert forall|i: int| 0 <= i < cells.len() implies free_cell(level, player_cell, occupied, #[trigger] cells[i].0 as int, cells[i].1 as int) by {
        assert(pool.contains(cells[i]));
    }
}

/// The rows of a list of cell vectors as sequences.
pub open spec fn deep_cells(rows: Seq<Vec<Cell>>) -> Seq<Seq<Cell>> {
    rows.map_values(|row: Vec<Cell>| row@)
}

} // verus!
