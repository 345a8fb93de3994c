//! The maze: a rectangular grid of tiles with exactly one player spawn and
//! exactly one goal.

use vstd::prelude::*;

use crate::grid::{Cell, cells_where, lemma_cells_where, lemma_cells_where_step, lemma_row_where_step, row_where};

verus! {

/// Tile of the player's spawn cell.
pub const PLAYER_TILE: char = 'p';

/// Tile of the goal portal.
pub const GOAL_TILE: char = 'g';

/// Tile of a Dealer spawn.
pub const ENEMY_TILE: char = 'e';

/// Tile of an ammunition pickup spawn.
pub const AMMO_TILE: char = 'a';

/// Tile of a health pickup spawn.
pub const HEALTH_TILE: char = 'h';

/// Tile of an empty floor cell.
pub const FLOOR_TILE: char = ' ';

/// Whether a tile can be walked on: the floor and every spawn marker.
/// Every other character is a wall whose glyph chooses its texture.
pub open spec fn is_walkable_tile(t: char) -> bool {
    t == FLOOR_TILE || t == PLAYER_TILE || t == GOAL_TILE || t == ENEMY_TILE || t == AMMO_TILE
        || t == HEALTH_TILE
}

/// The rows of `cells` as sequences of tiles.
pub open spec fn deep_rows(cells: Seq<Vec<char>>) -> Seq<Seq<char>> {
    cells.map_values(|row: Vec<char>| row@)
}

/// Every row of `rows` has exactly `w` tiles.
pub open spec fn all_rows_have_width(rows: Seq<Seq<char>>, w: nat) -> bool {
    forall|r: int| 0 <= r < rows.len() ==> #[trigger] rows[r].len() == w
}

/// The predicate "the tile at `(r, c)` of `rows` is `t`".
pub open spec fn tile_is(rows: Seq<Seq<char>>, t: char) -> spec_fn(int, int) -> bool {
    |r: int, c: int| rows[r][c] == t
}

/// The cells of a rectangular grid whose tile is `t`, row-major.
pub open spec fn tiles_where(rows: Seq<Seq<char>>, t: char) -> Seq<Cell> {
    cells_where(rows.len() as int, rows[0].len() as int, tile_is(rows, t))
}

/// Whether the tile at `(r, c)` of a (possibly ragged) grid is `t`.
pub open spec fn has_tile_at(rows: Seq<Seq<char>>, r: int, c: int, t: char) -> bool {
    0 <= r < rows.len() && 0 <= c < rows[r].len() && rows[r][c] == t
}

/// The first cell, in row-major order, of a grid of tiles holding the
/// player's spawn marker `p`, if any: where the player is placed.
pub fn find_player_marker(maze: &Vec<Vec<char>>) -> (cell: Option<Cell>)
    ensures
        match cell {
            Some(found) => {
                &&& has_tile_at(deep_rows(maze@), found.0 as int, found.1 as int, PLAYER_TILE)
                &&& forall|r: int, c: int|
                    #![trigger has_tile_at(deep_rows(maze@), r, c, PLAYER_TILE)]
                    (r < found.0 || (r == found.0 && c < found.1)) ==> !has_tile_at(
                        deep_rows(maze@),
                        r,
                        c,
                        PLAYER_TILE,
                    )
            },
            None => forall|r: int, c: int| !#[trigger] has_tile_at(deep_rows(maze@), r, c, PLAYER_TILE),
        },
{
    let ghost rows = deep_rows(maze@);
    let mut r: usize = 0;
    while r < maze.len()
        invariant
            rows == deep_rows(maze@),
            r <= maze@.len(),
            forall|i: int, c: int| #![trigger has_tile_at(rows, i, c, PLAYER_TILE)] i < r ==> !has_tile_at(rows, i, c, PLAYER_TILE),
        decreases maze@.len() - r,
    {
        let row = &maze[r];
        proof {
            assert(rows[r as int] == row@);
        }
        let mut c: usize = 0;
        while c < row.len()
            invariant
                rows == deep_rows(maze@),
                r < maze@.len(),
                rows[r as int] == row@,
                c <= row@.len(),
                forall|i: int, j: int|
                    #![trigger has_tile_at(rows, i, j, PLAYER_TILE)]
                    (i < r || (i == r && j < c)) ==> !has_tile_at(rows, i, j, PLAYER_TILE),
            decreases row@.len() - c,
        {
            if row[c] == PLAYER_TILE {
                return Some((r, c));
            }
            c += 1;
        }
        r += 1;
    }
    None
}

/// Position of the first line feed of `text` at or after `start`, or the
/// length of `text` when there is none.
pub open spec fn line_end(text: Seq<char>, start: int) -> int
    decreases text.len() - start,
{
    if start < 0 || start >= text.len() {
        text.len() as int
    } else if text[start] == '\n' {
        start
    } else {
        line_end(text, start + 1)
    }
}

/// Where a line ends: at or after its start, on a line feed or at the
/// end of the text, with no line feed before.
pub proof fn lemma_line_end_bounds(text: Seq<char>, start: int)
    requires
        0 <= start <= text.len(),
    ensures
        start <= line_end(text, start) <= text.len(),
        line_end(text, start) < text.len() ==> text[line_end(text, start)] == '\n',
        forall|k: int| start <= k < line_end(text, start) ==> #[trigger] text[k] != '\n',
    decreases text.len() - start,
{
    if start < text.len() && text[start] != '\n' {
        lemma_line_end_bounds(text, start + 1);
    }
}

/// `line` without one trailing carriage return.
pub open spec fn without_cr(line: Seq<char>) -> Seq<char> {
    if line.len() > 0 && line.last() == '\r' {
        line.drop_last()
    } else {
        line
    }
}

/// The lines of `text` from position `start`: the pieces between line
/// feeds (none after a final line feed), each without a trailing
/// carriage return.
pub open spec fn lines_from(text: Seq<char>, start: int) -> Seq<Seq<char>>
    decreases text.len() - start,
{
    let end = line_end(text, start);
    if start < 0 || start >= text.len() || end < start {
        Seq::empty()
    } else if end >= text.len() {
        seq![without_cr(text.subrange(start, end))]
    } else {
        seq![without_cr(text.subrange(start, end))] + lines_from(text, end + 1)
    }
}

/// `rows` without its trailing empty rows.
pub open spec fn without_trailing_blank(rows: Seq<Seq<char>>) -> Seq<Seq<char>>
    decreases rows.len(),
{
    if rows.len() > 0 && rows.last().len() == 0 {
        without_trailing_blank(rows.drop_last())
    } else {
        rows
    }
}

/// The rows of tiles a level file holds: one per line, trailing blank
/// lines ignored.
pub open spec fn spec_level_rows(text: Seq<char>) -> Seq<Seq<char>> {
    without_trailing_blank(lines_from(text, 0))
}

/// Splits the characters of a level file into its rows of tiles (see
/// `spec_level_rows`).
pub fn level_rows(text: &Vec<char>) -> (rows: Vec<Vec<char>>)
    ensures
        deep_rows(rows@) == spec_level_rows(text@),
{
    let ghost t = text@;
    let mut rows: Vec<Vec<char>> = Vec::new();
    let mut start: usize = 0;
    proof {
        assert(deep_rows(rows@) =~= Seq::<Seq<char>>::empty());
        assert(deep_rows(rows@) + lines_from(t, 0) =~= lines_from(t, 0));
    }
    while start < text.len()
        invariant
            t == text@,
            start <= text.len(),
            deep_rows(rows@) + lines_from(t, start as int) == lines_from(t, 0),
        decreases text.len() - start,
    {
        let mut end: usize = start;
        let mut line: Vec<char> = Vec::new();
        proof {
            lemma_line_end_bounds(t, start as int);
        }
        while end < text.len() && text[end] != '\n'
            invariant
                t == text@,
                start <= end <= text.len(),
                line@ == t.subrange(start as int, end as int),
                line_end(t, start as int) == line_end(t, end as int),
            decreases text.len() - end,
        {
            line.push(text[end]);
            end += 1;
            proof {
                assert(line@ =~= t.subrange(start as int, end as int));
            }
        }
        proof {
            assert(line_end(t, start as int) == end as int);
        }
        let ghost piece = line@;
        if line.len() > 0 && line[line.len() - 1] == '\r' {
            line.pop();
        }
        proof {
            assert(line@ == without_cr(piece));
        }
        let ghost before = rows@;
        rows.push(line);
        proof {
            assert(deep_rows(rows@) =~= deep_rows(before).push(without_cr(piece)));
            assert(lines_from(t, end + 1) =~= Seq::<Seq<char>>::empty() || end < text.len());
            assert(lines_from(t, start as int) =~= seq![without_cr(piece)] + lines_from(t, end + 1));
        }
        let ghost rest = lines_from(t, end + 1);
        if end >= text.len() {
            start = text.len();
            proof {
                assert(rest =~= Seq::<Seq<char>>::empty());
                assert(lines_from(t, start as int) =~= Seq::<Seq<char>>::empty());
            }
        } else {
            start = end + 1;
        }
        proof {
            assert(lines_from(t, start as int) == rest);
            assert(deep_rows(rows@) + lines_from(t, start as int) =~= deep_rows(before) + (seq![without_cr(piece)]
                + rest));
        }
    }
    proof {
        assert(lines_from(t, start as int) =~= Seq::<Seq<char>>::empty());
        assert(deep_rows(rows@) =~= lines_from(t, 0));
    }
    while rows.len() > 0 && rows[rows.len() - 1].len() == 0
        invariant
            without_trailing_blank(deep_rows(rows@)) == spec_level_rows(t),
        decreases rows.len(),
    {
        let ghost before = deep_rows(rows@);
        rows.pop();
        proof {
            assert(deep_rows(rows@) =~= before.drop_last());
        }
    }
    rows
}

/// Why a grid of tiles is not a valid maze.
#[derive(Debug, Clone, Copy, PartialEq, Eq, Structural)]
pub enum LevelError {
    /// No rows, or an empty first row.
    Empty,
    /// A row whose length differs from the first row's.
    RaggedRow,
    /// More cells than navigation distances can count.
    TooLarge,
    MissingPlayerSpawn,
    MultiplePlayerSpawns,
    MissingGoal,
    MultipleGoals,
}

/// The error, if any, that `rows` has as a maze, checked in the order
/// listed by `LevelError`.
pub open spec fn spec_level_error(rows: Seq<Seq<char>>) -> Option<LevelError> {
    if rows.len() == 0 || rows[0].len() == 0 {
        Some(LevelError::Empty)
    } else if !all_rows_have_width(rows, rows[0].len()) {
        Some(LevelError::RaggedRow)
    } else if rows.len() * rows[0].len() > u32::MAX {
        Some(LevelError::TooLarge)
    } else if tiles_where(rows, PLAYER_TILE).len() == 0 {
        Some(LevelError::MissingPlayerSpawn)
    } else if tiles_where(rows, PLAYER_TILE).len() > 1 {
        Some(LevelError::MultiplePlayerSpawns)
    } else if tiles_where(rows, GOAL_TILE).len() == 0 {
        Some(LevelError::MissingGoal)
    } else if tiles_where(rows, GOAL_TILE).len() > 1 {
        Some(LevelError::MultipleGoals)
    } else {
        None
    }
}

/// A validated maze.
pub struct Level {
    cells: Vec<Vec<char>>,
    height: usize,
    width: usize,
    player_spawn: Cell,
    goal: Cell,
    enemy_spawns: Vec<Cell>,
    ammo_spawns: Vec<Cell>,
    health_spawns: Vec<Cell>,
}

impl Level {
    /// The tiles of the maze, row by row.
    pub closed spec fn tiles(&self) -> Seq<Seq<char>> {
        deep_rows(self.cells@)
    }

    /// Number of rows.
    pub open spec fn spec_height(&self) -> nat {
        self.tiles().len()
    }

    /// Number of columns.
    pub open spec fn spec_width(&self) -> nat {
        self.tiles()[0].len()
    }

    /// The tile at `(r, c)`.
    pub open spec fn tile(&self, r: int, c: int) -> char {
        self.tiles()[r][c]
    }

    /// Whether `(r, c)` lies inside the maze.
    pub open spec fn in_bounds(&self, r: int, c: int) -> bool {
        0 <= r < self.spec_height() && 0 <= c < self.spec_width()
    }

    /// Whether `(r, c)` lies inside the maze on a walkable tile.
    pub open spec fn walkable(&self, r: int, c: int) -> bool {
        self.in_bounds(r, c) && is_walkable_tile(self.tile(r, c))
    }

    /// The shape guarantees that every valid maze has.
    pub open spec fn well_formed_tiles(&self) -> bool {
        spec_level_error(self.tiles()) is None
    }

    #[verifier::type_invariant]
    closed spec fn inv(self) -> bool {
        &&& self.well_formed_tiles()
        &&& self.height == self.spec_height()
        &&& self.width == self.spec_width()
        &&& all_rows_have_width(self.tiles(), self.width as nat)
        &&& self.cells@.len() == self.height
        &&& forall|r: int| 0 <= r < self.height ==> #[trigger] self.cells@[r]@.len() == self.width
        &&& tiles_where(self.tiles(), PLAYER_TILE) == seq![self.player_spawn]
        &&& tiles_where(self.tiles(), GOAL_TILE) == seq![self.goal]
        &&& self.enemy_spawns@ == tiles_where(self.tiles(), ENEMY_TILE)
        &&& self.ammo_spawns@ == tiles_where(self.tiles(), AMMO_TILE)
        &&& self.health_spawns@ == tiles_where(self.tiles(), HEALTH_TILE)
    }

    /// The cell where the player starts.
    pub closed spec fn spec_player_spawn(&self) -> Cell {
        self.player_spawn
    }

    /// The goal cell.
    pub closed spec fn spec_goal(&self) -> Cell {
        self.goal
    }

    /// Reads a maze from the characters of a level file: one row of
    /// tiles per line (see `spec_level_rows`), validated as
    /// `from_cells` does.
    pub fn from_text(text: &Vec<char>) -> (result: Result<Level, LevelError>)
        ensures
            match result {
                Ok(level) => spec_level_error(spec_level_rows(text@)) is None && level.tiles() == spec_level_rows(
                    text@,
                ),
                Err(e) => spec_level_error(spec_level_rows(text@)) == Some(e),
            },
    {
        Level::from_cells(level_rows(text))
    }

    /// Builds a maze from its rows of tiles, rejecting empty or ragged
    /// grids, grids with more cells than fit in a `u32`, and grids
    /// without exactly one player spawn and exactly one goal.
    pub fn from_cells(cells: Vec<Vec<char>>) -> (result: Result<Level, LevelError>)
        ensures
            match result {
                Ok(level) => spec_level_error(deep_rows(cells@)) is None && level.tiles() == deep_rows(
                    cells@,
                ),
                Err(e) => spec_level_error(deep_rows(cells@)) == Some(e),
            },
    {
        let ghost rows = deep_rows(cells@);
        let height = cells.len();
        if height == 0 || cells[0].len() == 0 {
            return Err(LevelError::Empty);
        }
        let width = cells[0].len();
        let mut r: usize = 0;
        while r < height
            invariant
                rows == deep_rows(cells@),
                height == cells@.len(),
                width == rows[0].len(),
                width > 0,
                r <= height,
                forall|i: int| 0 <= i < r ==> #[trigger] rows[i].len() == width,
            decreases height - r,
        {
            assert(rows[r as int] == cells@[r as int]@);
            if cells[r].len() != width {
                assert(rows[0] == cells@[0]@);
                assert(rows[r as int].len() != rows[0].len());
                assert(!all_rows_have_width(rows, rows[0].len()));
                return Err(LevelError::RaggedRow);
            }
            r += 1;
        }
        assert(all_rows_have_width(rows, width as nat));
        assert forall|i: int| 0 <= i < height implies #[trigger] cells@[i]@.len() == width by {
            assert(rows[i] == cells@[i]@);
        }
        let limit: usize = u32::MAX as usize;
        if height > limit / width {
            proof {
                assert(height * width > limit) by (nonlinear_arith)
                    requires
                        height > limit / width,
                        width > 0,
                ;
            }
            return Err(LevelError::TooLarge);
        }
        proof {
            assert(height * width <= limit) by (nonlinear_arith)
                requires
                    height <= limit / width,
                    width > 0,
            ;
        }
        let players = Self::scan_tiles(&cells, height, width, PLAYER_TILE);
        if players.len() == 0 {
            return Err(LevelError::MissingPlayerSpawn);
        }
        if players.len() > 1 {
            return Err(LevelError::MultiplePlayerSpawns);
        }
        let goals = Self::scan_tiles(&cells, height, width, GOAL_TILE);
        if goals.len() == 0 {
            return Err(LevelError::MissingGoal);
        }
        if goals.len() > 1 {
            return Err(LevelError::MultipleGoals);
        }
        let enemy_spawns = Self::scan_tiles(&cells, height, width, ENEMY_TILE);
        let ammo_spawns = Self::scan_tiles(&cells, height, width, AMMO_TILE);
        let health_spawns = Self::scan_tiles(&cells, height, width, HEALTH_TILE);
        let player_spawn = players[0];
        let goal = goals[0];
        assert(players@ == seq![player_spawn]);
        assert(goals@ == seq![goal]);
        Ok(Level { cells, height, width, player_spawn, goal, enemy_spawns, ammo_spawns, health_spawns })
    }

    /// The cells of `cells` whose tile is `t`, row-major.
    fn scan_tiles(cells: &Vec<Vec<char>>, height: usize, width: usize, t: char) -> (found: Vec<
        Cell,
    >)
        requires
            height == cells@.len(),
            height > 0,
            width == cells@[0]@.len(),
            forall|i: int| 0 <= i < height ==> #[trigger] cells@[i]@.len() == width,
        ensures
            found@ == tiles_where(deep_rows(cells@), t),
    {
        let ghost rows = deep_rows(cells@);
        let ghost p = tile_is(rows, t);
        let mut found: Vec<Cell> = Vec::new();
        let mut r: usize = 0;
        while r < height
            invariant
                rows == deep_rows(cells@),
                p == tile_is(rows, t),
                height == cells@.len(),
                forall|i: int| 0 <= i < height ==> #[trigger] cells@[i]@.len() == width,
                r <= height,
                found@ == cells_where(r as int, width as int, p),
            decreases height - r,
        {
            let mut c: usize = 0;
            while c < width
                invariant
                    rows == deep_rows(cells@),
                    p == tile_is(rows, t),
                    height == cells@.len(),
                    forall|i: int| 0 <= i < height ==> #[trigger] cells@[i]@.len() == width,
                    r < height,
                    c <= width,
                    found@ == cells_where(r as int, width as int, p) + row_where(
                        r as int,
                        c as int,
                        p,
                    ),
                decreases width - c,
            {
                proof {
                    lemma_row_where_step(r as int, c as int, p);
                }
                assert(rows[r as int] == cells@[r as int]@);
                if cells[r][c] == t {
                    found.push((r, c));
                }
                c += 1;
            }
            proof {
                lemma_cells_where_step(r as int, width as int, p);
            }
            r += 1;
        }
        assert(rows[0] == cells@[0]@);
        found
    }

    /// Number of rows.
    pub fn height(&self) -> (h: usize)
        ensures
            h == self.spec_height(),
            h > 0,
            self.spec_width() > 0,
            h * self.spec_width() <= u32::MAX,
            self.well_formed_tiles(),
    {
        proof {
            use_type_invariant(self);
        }
        self.height
    }

    /// Number of columns.
    pub fn width(&self) -> (w: usize)
        ensures
            w == self.spec_width(),
            w > 0,
            all_rows_have_width(self.tiles(), w as nat),
    {
        proof {
            use_type_invariant(self);
        }
        self.width
    }

    /// The tile at `(row, column)`, or `None` outside the maze.
    pub fn cell_at(&self, row: usize, column: usize) -> (tile: Option<char>)
        ensures
            tile == if self.in_bounds(row as int, column as int) {
                Some(self.tile(row as int, column as int))
            } else {
                None
            },
    {
        proof {
            use_type_invariant(self);
        }
        if row < self.height && column < self.width {
            assert(self.cells@[row as int]@[column as int] == self.tile(row as int, column as int));
            Some(self.cells[row][column])
        } else {
            None
        }
    }

    /// Whether `(row, column)` is inside the maze and walkable.
    pub fn is_walkable(&self, row: usize, column: usize) -> (ok: bool)
        ensures
            ok == self.walkable(row as int, column as int),
    {
        match self.cell_at(row, column) {
            Some(t) => t == FLOOR_TILE || t == PLAYER_TILE || t == GOAL_TILE || t == ENEMY_TILE
                || t == AMMO_TILE || t == HEALTH_TILE,
            None => false,
        }
    }

    /// The cell where the player starts: the only `p` tile.
    pub fn player_spawn(&self) -> (cell: Cell)
        ensures
            cell == self.spec_player_spawn(),
            tiles_where(self.tiles(), PLAYER_TILE) == seq![cell],
    {
        proof {
            use_type_invariant(self);
        }
        self.player_spawn
    }

    /// The goal cell: the only `g` tile.
    pub fn goal(&self) -> (cell: Cell)
        ensures
            cell == self.spec_goal(),
            tiles_where(self.tiles(), GOAL_TILE) == seq![cell],
    {
        proof {
            use_type_invariant(self);
        }
        self.goal
    }

    /// The Dealer spawn cells (`e` tiles), row-major.
    pub fn enemy_spawns(&self) -> (cells: &Vec<Cell>)
        ensures
            cells@ == tiles_where(self.tiles(), ENEMY_TILE),
    {
        proof {
            use_type_invariant(self);
        }
        &self.enemy_spawns
    }

    /// The ammunition pickup spawn cells (`a` tiles), row-major.
    pub fn ammo_spawns(&self) -> (cells: &Vec<Cell>)
        ensures
            cells@ == tiles_where(self.tiles(), AMMO_TILE),
    {
        proof {
            use_type_invariant(self);
        }
        &self.ammo_spawns
    }

    /// The health pickup spawn cells (`h` tiles), row-major.
    pub fn health_spawns(&self) -> (cells: &Vec<Cell>)
        ensures
            cells@ == tiles_where(self.tiles(), HEALTH_TILE),
    {
        proof {
            use_type_invariant(self);
        }
        &self.health_spawns
    }
}

} // verus!
