//! The brick layout of each level: which cells of the grid hold a brick, of what kind,
//! with how many hits and which paint.
use vstd::prelude::*;
use crate::kinds::{BrickKind, BrickColor, spec_durability};

verus! {

/// The number of brick columns of every level.
pub const COLS: usize = 12;

/// A brick of the grid, by its cell; where it is drawn and how it moves is up to the caller.
#[derive(Clone, Copy, Debug, PartialEq, Eq, Structural)]
pub struct Brick {
    pub row: usize,
    pub col: usize,
    pub kind: BrickKind,
    pub color: BrickColor,
    pub alive: bool,
    pub hits: u32,
    pub max_hits: u32,
}

/// Levels cycle through eight patterns, the first level having pattern 0.
pub open spec fn spec_pattern(level: u32) -> u32
    recommends
        level >= 1,
{
    ((level - 1) % 8) as u32
}

/// The number of brick rows of a pattern.
pub open spec fn spec_rows(pattern: u32) -> usize {
    if pattern == 0 {
        6
    } else if pattern == 1 {
        8
    } else if pattern == 2 {
        7
    } else if pattern == 3 {
        9
    } else if pattern == 4 {
        8
    } else if pattern == 5 {
        10
    } else if pattern == 6 {
        9
    } else if pattern == 7 {
        10
    } else {
        6
    }
}

pub open spec fn abs(x: int) -> int {
    if x < 0 {
        -x
    } else {
        x
    }
}

pub open spec fn min(a: int, b: int) -> int {
    if a < b {
        a
    } else {
        b
    }
}

/// Whether the cell (`row`, `col`) of a grid of `rows` rows holds a brick in a pattern.
/// 0: full grid; 1: a diamond, cells whose distance from the grid's centre
/// (`rows / 2`, `COLS / 2 - 1/2`), summed over both axes, is below `min(rows, COLS) / 2 + 1`
/// (stated here with every length doubled); 2: a checkerboard; 3: a zigzag; 4: a V;
/// 5: a border and a cross; 6: arcs, the cells where `floor(1.5 row + col)` is not a multiple
/// of 4; 7: a fortress of walls, towers and a rampart.
pub open spec fn spec_present(pattern: u32, row: int, col: int, rows: int) -> bool {
    if pattern == 0 {
        true
    } else if pattern == 1 {
        abs(2 * row - rows) + abs(2 * col - 11) < min(rows, 12) + 2
    } else if pattern == 2 {
        (row + col) % 2 == 0
    } else if pattern == 3 {
        (col + (if row % 2 == 0 { 0int } else { 1int })) % 3 != 0
    } else if pattern == 4 {
        row < (if col < 6 { 6 - col } else { col - 6 + 1 }) + 2
    } else if pattern == 5 {
        row == 0 || row == rows - 1 || col == 0 || col == 11 || col == 6 || col == 5 || row == rows / 2
    } else if pattern == 6 {
        ((3 * row + 2 * col) / 2) % 4 != 0
    } else if pattern == 7 {
        row < 2 || col == 0 || col == 11 || ((col == 2 || col == 9) && row < 4) || (row == 4 && col
            > 2 && col < 9)
    } else {
        true
    }
}

/// The kind of the brick in a cell: special bricks grow more common with the level.
pub open spec fn spec_kind(level: u32, row: int, col: int, rows: int, pattern: u32) -> BrickKind {
    if pattern == 7 && (row < 2 || col == 0 || col == 11) && level >= 3 {
        BrickKind::Armored
    } else if level >= 6 && row == 0 && col % 4 == 0 {
        BrickKind::Indestructible
    } else if level >= 4 && row == rows / 2 && (col == 3 || col == 9) {
        BrickKind::Explosive
    } else if level >= 5 && row % 3 == 0 && col % 5 == 2 {
        BrickKind::Moving
    } else if level >= 3 && row < 2 {
        BrickKind::Armored
    } else if row < min(level as int, 4) {
        BrickKind::Tough
    } else if level >= 2 && (row + col) % 7 == 0 {
        BrickKind::Explosive
    } else {
        BrickKind::Normal
    }
}

/// Whether finding the kind of a cell comes to its last test, the one on `row + col`.
pub open spec fn kind_adds_row_and_col(level: u32, row: int, col: int, rows: int, pattern: u32) -> bool {
    &&& !(pattern == 7 && (row < 2 || col == 0 || col == 11) && level >= 3)
    &&& !(level >= 6 && row == 0 && col % 4 == 0)
    &&& !(level >= 4 && row == rows / 2 && (col == 3 || col == 9))
    &&& !(level >= 5 && row % 3 == 0 && col % 5 == 2)
    &&& !(level >= 3 && row < 2)
    &&& !(row < min(level as int, 4))
    &&& level >= 2
}

/// Law: from level 6 on, the kind of a cell's brick no longer depends on the level.
pub proof fn lemma_kinds_settle_from_level_six(l1: u32, l2: u32, row: int, col: int, rows: int, pattern: u32)
    requires
        l1 >= 6,
        l2 >= 6,
    ensures
        spec_kind(l1, row, col, rows, pattern) == spec_kind(l2, row, col, rows, pattern),
{
}

/// Law: the tough rows grow with the level: a brick is tough only in the first
/// `min(level, 4)` rows; on the first two levels it is tough exactly there; and from level 3
/// on, each cell of rows 2 up to that bound is tough unless an armoured, explosive or moving
/// brick takes it.
pub proof fn lemma_tough_rows(level: u32, row: int, col: int, rows: int, pattern: u32)
    requires
        level >= 1,
        row >= 0,
        col >= 0,
    ensures
        spec_kind(level, row, col, rows, pattern) == BrickKind::Tough ==> row < vstd::math::min(
            level as int,
            4,
        ),
        level <= 2 ==> (spec_kind(level, row, col, rows, pattern) == BrickKind::Tough <==> row < level),
        level >= 3 && 2 <= row < vstd::math::min(level as int, 4) && !(pattern == 7 && (col == 0 || col
            == 11)) && !(level >= 4 && row == rows / 2 && (col == 3 || col == 9)) && !(level >= 5 && row
            % 3 == 0 && col % 5 == 2) ==> spec_kind(level, row, col, rows, pattern) == BrickKind::Tough,
{
}

/// Law: special bricks come with the levels: indestructible bricks only from level 6, in
/// the top row every fourth column; armoured ones only from level 3; moving ones only from
/// level 5, every third row and fifth column; explosive ones only from level 2. The first
/// level has a tough top row over normal bricks.
pub proof fn lemma_kinds_by_level(level: u32, row: int, col: int, rows: int, pattern: u32)
    requires
        level >= 1,
        row >= 0,
        col >= 0,
    ensures
        spec_kind(level, row, col, rows, pattern) == BrickKind::Indestructible ==> level >= 6 && row == 0
            && col % 4 == 0,
        level >= 6 && row == 0 && col % 4 == 0 && pattern != 7 ==> spec_kind(level, row, col, rows, pattern)
            == BrickKind::Indestructible,
        spec_kind(level, row, col, rows, pattern) == BrickKind::Armored ==> level >= 3,
        spec_kind(level, row, col, rows, pattern) == BrickKind::Moving ==> level >= 5 && row % 3 == 0 && col
            % 5 == 2,
        spec_kind(level, row, col, rows, pattern) == BrickKind::Explosive ==> level >= 2,
        level == 1 ==> spec_kind(level, row, col, rows, pattern) == if row == 0 {
            BrickKind::Tough
        } else {
            BrickKind::Normal
        },
{
}

/// The paint of a brick: a fixed colour for the special kinds, else a hue that turns
/// by 40 degrees per row and 30 degrees per level.
pub open spec fn spec_brick_color(kind: BrickKind, row: int, level: u32) -> BrickColor {
    match kind {
        BrickKind::Indestructible => BrickColor::Rgba(100, 100, 110, 255),
        BrickKind::Explosive => BrickColor::Rgba(255, 120, 30, 255),
        BrickKind::Moving => BrickColor::Rgba(255, 255, 100, 255),
        BrickKind::Armored => BrickColor::Rgba(180, 180, 200, 255),
        _ => BrickColor::Hue(((row * 40 + level * 30) % 360) as u32),
    }
}

/// The brick that a level places in a cell.
pub open spec fn spec_fresh_brick(level: u32, pattern: u32, rows: usize, row: usize, col: usize) -> Brick {
    let kind = spec_kind(level, row as int, col as int, rows as int, pattern);
    Brick {
        row,
        col,
        kind,
        color: spec_brick_color(kind, row as int, level),
        alive: true,
        hits: spec_durability(kind),
        max_hits: spec_durability(kind),
    }
}

/// The bricks of the first `ncols` cells of one row, left to right.
pub open spec fn spec_row_bricks(level: u32, pattern: u32, rows: usize, row: usize, ncols: nat) -> Seq<Brick>
    decreases ncols,
{
    if ncols == 0 {
        seq![]
    } else {
        let prev = spec_row_bricks(level, pattern, rows, row, (ncols - 1) as nat);
        let col = (ncols - 1) as usize;
        if spec_present(pattern, row as int, col as int, rows as int) {
            prev.push(spec_fresh_brick(level, pattern, rows, row, col))
        } else {
            prev
        }
    }
}

/// The bricks of the first `nrows` rows, top to bottom, each row left to right.
pub open spec fn spec_grid_bricks(level: u32, pattern: u32, rows: usize, nrows: nat) -> Seq<Brick>
    decreases nrows,
{
    if nrows == 0 {
        seq![]
    } else {
        spec_grid_bricks(level, pattern, rows, (nrows - 1) as nat) + spec_row_bricks(
            level,
            pattern,
            rows,
            (nrows - 1) as usize,
            COLS as nat,
        )
    }
}

/// The bricks of a level, row by row.
pub open spec fn spec_level_bricks(level: u32) -> Seq<Brick>
    recommends
        level >= 1,
{
    let pattern = spec_pattern(level);
    let rows = spec_rows(pattern);
    spec_grid_bricks(level, pattern, rows, rows as nat)
}

/// The pattern of a level.
pub fn level_pattern(level: u32) -> (pattern: u32)
    requires
        level >= 1,
    ensures
        pattern == spec_pattern(level),
        pattern < 8,
{
    (level - 1) % 8
}

/// The number of brick rows of a pattern.
pub fn pattern_rows(pattern: u32) -> (rows: usize)
    ensures
        rows == spec_rows(pattern),
        6 <= rows <= 10,
{
    if pattern == 0 {
        6
    } else if pattern == 1 {
        8
    } else if pattern == 2 {
        7
    } else if pattern == 3 {
        9
    } else if pattern == 4 {
        8
    } else if pattern == 5 {
        10
    } else if pattern == 6 {
        9
    } else if pattern == 7 {
        10
    } else {
        6
    }
}

/// Whether the cell (`row`, `col`) of a grid of `rows` rows holds a brick in a pattern.
pub fn brick_present(pattern: u32, row: usize, col: usize, rows: usize) -> (present: bool)
    requires
        row < rows,
        col < COLS,
    ensures
        present == spec_present(pattern, row as int, col as int, rows as int),
{
    if pattern == 0 {
        true
    } else if pattern == 1 {
        // |2 row - rows|, as the distance between `row` and the rows below it
        let below: usize = rows - row;
        let cr: usize = if row >= below {
            row - below
        } else {
            below - row
        };
        let cc: usize = if 2 * col >= 11 {
            2 * col - 11
        } else {
            11 - 2 * col
        };
        let span: usize = if rows < COLS {
            rows
        } else {
            COLS
        };
        cc < span + 2 && cr < span + 2 - cc
    } else if pattern == 2 {
        proof {
            vstd::arithmetic::div_mod::lemma_add_mod_noop(row as int, col as int, 2);
        }
        (row % 2 + col % 2) % 2 == 0
    } else if pattern == 3 {
        let offset: usize = if row % 2 == 0 {
            0
        } else {
            1
        };
        (col + offset) % 3 != 0
    } else if pattern == 4 {
        let mid: usize = COLS / 2;
        let dist: usize = if col < mid {
            mid - col
        } else {
            col - mid + 1
        };
        row < dist + 2
    } else if pattern == 5 {
        row == 0 || row == rows - 1 || col == 0 || col == COLS - 1 || col == COLS / 2 || col == COLS
            / 2 - 1 || row == rows / 2
    } else if pattern == 6 {
        // floor((3 row + 2 col) / 2) = row + col + floor(row / 2), taken modulo 4
        proof {
            lemma_arcs_reduce(row as int, col as int);
        }
        (row % 4 + col % 4 + (row / 2) % 4) % 4 != 0
    } else if pattern == 7 {
        let is_wall = row < 2 || col == 0 || col == COLS - 1;
        let is_tower = (col == 2 || col == COLS - 3) && row < 4;
        is_wall || is_tower || (row == 4 && col > 2 && col < COLS - 3)
    } else {
        true
    }
}

proof fn lemma_arcs_reduce(row: int, col: int)
    requires
        row >= 0,
        col >= 0,
    ensures
        ((3 * row + 2 * col) / 2) % 4 == (row % 4 + col % 4 + (row / 2) % 4) % 4,
{
    let q = row / 2;
    let s = row % 2;
    vstd::arithmetic::div_mod::lemma_fundamental_div_mod(row, 2);
    assert(row == 2 * q + s);
    assert(3 * row + 2 * col == (row + col + q) * 2 + s);
    vstd::arithmetic::div_mod::lemma_fundamental_div_mod_converse(3 * row + 2 * col, 2, row + col + q, s);
    vstd::arithmetic::div_mod::lemma_add_mod_noop(row, col, 4);
    vstd::arithmetic::div_mod::lemma_add_mod_noop(row + col, q, 4);
    vstd::arithmetic::div_mod::lemma_add_mod_noop(row % 4 + col % 4, q % 4, 4);
    vstd::arithmetic::div_mod::lemma_add_mod_noop(row % 4 + col % 4, q, 4);
}

/// The kind of the brick in a cell of a level.
pub fn determine_brick_kind(level: u32, row: usize, col: usize, rows: usize, pattern: u32) -> (kind:
    BrickKind)
    requires
        kind_adds_row_and_col(level, row as int, col as int, rows as int, pattern) ==> row + col
            <= usize::MAX,
    ensures
        kind == spec_kind(level, row as int, col as int, rows as int, pattern),
{
    if pattern == 7 && (row < 2 || col == 0 || col == COLS - 1) && level >= 3 {
        return BrickKind::Armored;
    }
    if level >= 6 && row == 0 && col % 4 == 0 {
        return BrickKind::Indestructible;
    }
    if level >= 4 && row == rows / 2 && (col == COLS / 4 || col == 3 * COLS / 4) {
        return BrickKind::Explosive;
    }
    if level >= 5 && row % 3 == 0 && col % 5 == 2 {
        return BrickKind::Moving;
    }
    if level >= 3 && row < 2 {
        return BrickKind::Armored;
    }
    let cap: u32 = if level < 4 {
        level
    } else {
        4
    };
    if row < cap as usize {
        return BrickKind::Tough;
    }
    if level >= 2 && (row + col) % 7 == 0 {
        return BrickKind::Explosive;
    }
    BrickKind::Normal
}

/// The paint of a brick of a kind in a row of a level.
pub fn brick_color(kind: BrickKind, row: usize, level: u32) -> (color: BrickColor)
    ensures
        color == spec_brick_color(kind, row as int, level),
{
    match kind {
        BrickKind::Indestructible => BrickColor::Rgba(100, 100, 110, 255),
        BrickKind::Explosive => BrickColor::Rgba(255, 120, 30, 255),
        BrickKind::Moving => BrickColor::Rgba(255, 255, 100, 255),
        BrickKind::Armored => BrickColor::Rgba(180, 180, 200, 255),
        _ => {
            // A turn of 40 degrees repeats every 9 rows, one of 30 degrees every 12 levels.
            let r: u32 = (row % 9) as u32;
            let l: u32 = level % 12;
            let hue: u32 = (r * 40 + l * 30) % 360;
            proof {
                lemma_hue_reduces(row as int, level as int);
            }
            BrickColor::Hue(hue)
        },
    }
}

proof fn lemma_hue_reduces(row: int, level: int)
    requires
        row >= 0,
        level >= 0,
    ensures
        ((row % 9) * 40 + (level % 12) * 30) % 360 == (row * 40 + level * 30) % 360,
{
    let a = row / 9;
    let b = level / 12;
    assert(row == 9 * a + row % 9) by (nonlinear_arith)
        requires
            row >= 0,
            a == row / 9,
    ;
    assert(level == 12 * b + level % 12) by (nonlinear_arith)
        requires
            level >= 0,
            b == level / 12,
    ;
    let small = (row % 9) * 40 + (level % 12) * 30;
    assert(row * 40 + level * 30 == small + 360 * (a + b)) by (nonlinear_arith)
        requires
            row == 9 * a + row % 9,
            level == 12 * b + level % 12,
            small == (row % 9) * 40 + (level % 12) * 30,
    ;
    vstd::arithmetic::div_mod::lemma_mod_multiples_vanish(a + b, small, 360);
}

/// The speed with which a brick of a kind in a column starts to slide, in pixels per second:
/// moving bricks in even columns go right, in odd columns left; other bricks stand still.
pub fn initial_move_dir(kind: BrickKind, col: usize) -> (dir: i32)
    ensures
        kind == BrickKind::Moving && col % 2 == 0 ==> dir == 60,
        kind == BrickKind::Moving && col % 2 == 1 ==> dir == -60,
        kind != BrickKind::Moving ==> dir == 0,
{
    if kind == BrickKind::Moving {
        if col % 2 == 0 {
            60
        } else {
            -60
        }
    } else {
        0
    }
}

/// The bricks of a level, row by row, each row left to right.
pub fn level_bricks(level: u32) -> (bricks: Vec<Brick>)
    requires
        level >= 1,
    ensures
        bricks@ == spec_level_bricks(level),
{
    let mut bricks: Vec<Brick> = Vec::new();
    let pattern = level_pattern(level);
    let rows = pattern_rows(pattern);
    for row in 0..rows
        invariant
            pattern == spec_pattern(level),
            rows == spec_rows(pattern),
            rows <= 10,
            bricks@ == spec_grid_bricks(level, pattern, rows, row as nat),
    {
        for col in 0..COLS
            invariant
                pattern == spec_pattern(level),
                rows == spec_rows(pattern),
                rows <= 10,
                row < rows,
                bricks@ == spec_grid_bricks(level, pattern, rows, row as nat) + spec_row_bricks(
                    level,
                    pattern,
                    rows,
                    row,
                    col as nat,
                ),
        {
            let present = brick_present(pattern, row, col, rows);
            proof {
                assert((col + 1 - 1) as usize == col);
            }
            if present {
                let kind = determine_brick_kind(level, row, col, rows, pattern);
                let hits = kind.durability();
                let color = brick_color(kind, row, level);
                let b = Brick { row, col, kind, color, alive: true, hits, max_hits: hits };
                bricks.push(b);
                proof {
                    assert(b == spec_fresh_brick(level, pattern, rows, row, col));
                }
            }
            assert(bricks@ == spec_grid_bricks(level, pattern, rows, row as nat) + spec_row_bricks(
                level,
                pattern,
                rows,
                row,
                (col + 1) as nat,
            ));
        }
        assert(bricks@ == spec_grid_bricks(level, pattern, rows, (row + 1) as nat));
    }
    bricks
}

/// The place of a cell in row-major order.
pub open spec fn cell_key(b: Brick) -> int {
    b.row * COLS + b.col
}

/// The cells of a list of bricks.
pub open spec fn cells(s: Seq<Brick>) -> Seq<(usize, usize)> {
    s.map_values(|b: Brick| (b.row, b.col))
}

spec fn row_facts(level: u32, pattern: u32, rows: usize, row: usize, ncols: nat, s: Seq<Brick>) -> bool {
    &&& forall|i: int|
        0 <= i < s.len() ==> {
            &&& #[trigger] s[i].row == row
            &&& s[i].col < ncols
            &&& spec_present(pattern, row as int, s[i].col as int, rows as int)
            &&& s[i] == spec_fresh_brick(level, pattern, rows, row, s[i].col)
        }
    &&& forall|i: int, j: int| 0 <= i < j < s.len() ==> #[trigger] s[i].col < #[trigger] s[j].col
    &&& forall|c: usize| #![trigger spec_present(pattern, row as int, c as int, rows as int)]
        c < ncols && spec_present(pattern, row as int, c as int, rows as int) ==> exists|i: int|
            0 <= i < s.len() && #[trigger] s[i].col == c
}

proof fn lemma_row_bricks(level: u32, pattern: u32, rows: usize, row: usize, ncols: nat)
    requires
        ncols <= COLS,
    ensures
        row_facts(level, pattern, rows, row, ncols, spec_row_bricks(level, pattern, rows, row, ncols)),
    decreases ncols,
{
    if ncols > 0 {
        lemma_row_bricks(level, pattern, rows, row, (ncols - 1) as nat);
        let prev = spec_row_bricks(level, pattern, rows, row, (ncols - 1) as nat);
        let s = spec_row_bricks(level, pattern, rows, row, ncols);
        let col = (ncols - 1) as usize;
        let fresh = spec_fresh_brick(level, pattern, rows, row, col);
        assert(col == ncols - 1);
        if spec_present(pattern, row as int, col as int, rows as int) {
            assert(s == prev.push(fresh));
            assert(s[s.len() - 1] == fresh);
        } else {
            assert(s == prev);
        }
        assert forall|i: int| 0 <= i < s.len() implies s[i].row == row && s[i].col < ncols
            && spec_present(pattern, row as int, s[i].col as int, rows as int) && s[i]
            == spec_fresh_brick(level, pattern, rows, row, s[i].col) by {
            if i < prev.len() {
                assert(s[i] == prev[i]);
                assert(prev[i].row == row);
            } else {
                assert(s[i] == fresh);
            }
        }
        assert forall|i: int, j: int| 0 <= i < j < s.len() implies #[trigger] s[i].col
            < #[trigger] s[j].col by {
            assert(s[i] == prev[i]);
            assert(prev[i].row == row);
            if j < prev.len() {
                assert(s[j] == prev[j]);
            } else {
                assert(s[j] == fresh);
            }
        }
        assert forall|c: usize| #![trigger spec_present(pattern, row as int, c as int, rows as int)]
            c < ncols && spec_present(pattern, row as int, c as int, rows as int) implies exists|i: int|
            0 <= i < s.len() && #[trigger] s[i].col == c by {
            if c == col {
                assert(s[s.len() - 1].col == c);
            } else {
                let i = choose|i: int| 0 <= i < prev.len() && #[trigger] prev[i].col == c;
                assert(s[i] == prev[i]);
            }
        }
        assert(row_facts(level, pattern, rows, row, ncols, s));
    } else {
        assert(spec_row_bricks(level, pattern, rows, row, ncols).len() == 0);
    }
}

proof fn lemma_grid_bricks(level: u32, pattern: u32, rows: usize, nrows: nat)
    requires
        nrows <= usize::MAX + 1,
    ensures
        ({
            let s = spec_grid_bricks(level, pattern, rows, nrows);
            &&& forall|i: int|
                0 <= i < s.len() ==> {
                    &&& (#[trigger] s[i]).row < nrows
                    &&& s[i].col < COLS
                    &&& spec_present(pattern, s[i].row as int, s[i].col as int, rows as int)
                    &&& s[i] == spec_fresh_brick(level, pattern, rows, s[i].row, s[i].col)
                }
            &&& forall|i: int, j: int|
                0 <= i < j < s.len() ==> cell_key(#[trigger] s[i]) < cell_key(#[trigger] s[j])
            &&& forall|r: usize, c: usize|
                r < nrows && c < COLS && spec_present(pattern, r as int, c as int, rows as int)
                    ==> exists|i: int| 0 <= i < s.len() && #[trigger] s[i].row == r && s[i].col == c
        }),
    decreases nrows,
{
    if nrows > 0 {
        let row = (nrows - 1) as usize;
        lemma_grid_bricks(level, pattern, rows, (nrows - 1) as nat);
        lemma_row_bricks(level, pattern, rows, row, COLS as nat);
        let prev = spec_grid_bricks(level, pattern, rows, (nrows - 1) as nat);
        let tail = spec_row_bricks(level, pattern, rows, row, COLS as nat);
        let s = spec_grid_bricks(level, pattern, rows, nrows);
        assert(s == prev + tail);
        assert forall|i: int|
            0 <= i < s.len() implies {
                &&& (#[trigger] s[i]).row < nrows
                &&& s[i].col < COLS
                &&& spec_present(pattern, s[i].row as int, s[i].col as int, rows as int)
                &&& s[i] == spec_fresh_brick(level, pattern, rows, s[i].row, s[i].col)
            } by {
            if i < prev.len() {
                assert(s[i] == prev[i]);
            } else {
                assert(s[i] == tail[i - prev.len()]);
            }
        }
        assert forall|i: int, j: int|
            0 <= i < j < s.len() implies cell_key(#[trigger] s[i]) < cell_key(#[trigger] s[j]) by {
            if j < prev.len() {
                assert(s[i] == prev[i]);
                assert(s[j] == prev[j]);
            } else if i < prev.len() {
                assert(s[i] == prev[i]);
                assert(s[j] == tail[j - prev.len()]);
                assert(prev[i].row < row);
                assert(tail[j - prev.len()].row == row);
                assert(cell_key(s[i]) < cell_key(s[j])) by (nonlinear_arith)
                    requires
                        s[i].row < s[j].row,
                        s[i].col < COLS,
                ;
            } else {
                assert(s[i] == tail[i - prev.len()]);
                assert(s[j] == tail[j - prev.len()]);
                assert(tail[i - prev.len()].col < tail[j - prev.len()].col);
            }
        }
        assert forall|r: usize, c: usize|
            r < nrows && c < COLS && spec_present(pattern, r as int, c as int, rows as int)
                implies exists|i: int| 0 <= i < s.len() && #[trigger] s[i].row == r && s[i].col == c by {
            if r == row {
                let k = choose|k: int| 0 <= k < tail.len() && #[trigger] tail[k].col == c;
                assert(s[prev.len() + k] == tail[k]);
                assert(s[prev.len() + k].row == r && s[prev.len() + k].col == c);
            } else {
                let k = choose|k: int| 0 <= k < prev.len() && #[trigger] prev[k].row == r && prev[k].col == c;
                assert(s[k] == prev[k]);
            }
        }
    }
}

/// Law: a level places one fresh brick on each cell that its pattern fills and on no
/// other cell, and lists them row by row, each row left to right.
pub proof fn lemma_level_layout(level: u32)
    requires
        level >= 1,
    ensures
        ({
            let s = spec_level_bricks(level);
            let pattern = spec_pattern(level);
            let rows = spec_rows(pattern);
            &&& forall|i: int|
                0 <= i < s.len() ==> {
                    &&& (#[trigger] s[i]).row < rows
                    &&& s[i].col < COLS
                    &&& spec_present(pattern, s[i].row as int, s[i].col as int, rows as int)
                    &&& s[i] == spec_fresh_brick(level, pattern, rows, s[i].row, s[i].col)
                    &&& s[i].alive
                    &&& s[i].hits == s[i].max_hits
                    &&& s[i].max_hits == spec_durability(s[i].kind)
                }
            &&& forall|i: int, j: int|
                0 <= i < j < s.len() ==> cell_key(#[trigger] s[i]) < cell_key(#[trigger] s[j])
            &&& forall|r: usize, c: usize|
                r < rows && c < COLS && spec_present(pattern, r as int, c as int, rows as int)
                    ==> exists|i: int| 0 <= i < s.len() && #[trigger] s[i].row == r && s[i].col == c
        }),
{
    let pattern = spec_pattern(level);
    let rows = spec_rows(pattern);
    lemma_grid_bricks(level, pattern, rows, rows as nat);
}

/// Law: on the first two levels the bricks of the first `level` rows are tough, with two
/// hits, and no other brick is.
pub proof fn lemma_early_levels_tough_rows(level: u32)
    requires
        1 <= level <= 2,
    ensures
        forall|i: int|
            0 <= i < spec_level_bricks(level).len() ==> {
                &&& ((#[trigger] spec_level_bricks(level)[i]).kind == BrickKind::Tough
                    <==> spec_level_bricks(level)[i].row < level)
                &&& (spec_level_bricks(level)[i].row < level ==> spec_level_bricks(level)[i].hits == 2)
            },
{
    lemma_level_layout(level);
    let s = spec_level_bricks(level);
    assert forall|i: int| 0 <= i < s.len() implies {
        &&& ((#[trigger] s[i]).kind == BrickKind::Tough <==> s[i].row < level)
        &&& (s[i].row < level ==> s[i].hits == 2)
    } by {
        let pattern = spec_pattern(level);
        let rows = spec_rows(pattern);
        assert(s[i] == spec_fresh_brick(level, pattern, rows, s[i].row, s[i].col));
        lemma_tough_rows(level, s[i].row as int, s[i].col as int, rows as int, pattern);
    }
}

proof fn lemma_row_cells_level_free(l1: u32, l2: u32, pattern: u32, rows: usize, row: usize, ncols: nat)
    ensures
        cells(spec_row_bricks(l1, pattern, rows, row, ncols)) == cells(
            spec_row_bricks(l2, pattern, rows, row, ncols),
        ),
    decreases ncols,
{
    if ncols > 0 {
        lemma_row_cells_level_free(l1, l2, pattern, rows, row, (ncols - 1) as nat);
        let a = spec_row_bricks(l1, pattern, rows, row, (ncols - 1) as nat);
        let b = spec_row_bricks(l2, pattern, rows, row, (ncols - 1) as nat);
        let col = (ncols - 1) as usize;
        if spec_present(pattern, row as int, col as int, rows as int) {
            let x = spec_fresh_brick(l1, pattern, rows, row, col);
            let y = spec_fresh_brick(l2, pattern, rows, row, col);
            assert(cells(a.push(x)) =~= cells(a).push((row, col)));
            assert(cells(b.push(y)) =~= cells(b).push((row, col)));
        }
    }
}

proof fn lemma_grid_cells_level_free(l1: u32, l2: u32, pattern: u32, rows: usize, nrows: nat)
    ensures
        cells(spec_grid_bricks(l1, pattern, rows, nrows)) == cells(
            spec_grid_bricks(l2, pattern, rows, nrows),
        ),
    decreases nrows,
{
    if nrows > 0 {
        let row = (nrows - 1) as usize;
        lemma_grid_cells_level_free(l1, l2, pattern, rows, (nrows - 1) as nat);
        lemma_row_cells_level_free(l1, l2, pattern, rows, row, COLS as nat);
        let a = spec_grid_bricks(l1, pattern, rows, (nrows - 1) as nat);
        let b = spec_grid_bricks(l2, pattern, rows, (nrows - 1) as nat);
        let ra = spec_row_bricks(l1, pattern, rows, row, COLS as nat);
        let rb = spec_row_bricks(l2, pattern, rows, row, COLS as nat);
        assert(cells(a + ra) =~= cells(a) + cells(ra));
        assert(cells(b + rb) =~= cells(b) + cells(rb));
    }
}

/// Law: the layouts repeat every eight levels: a level and the level eight further on
/// fill the same cells, in the same order (the kinds of the bricks may differ).
pub proof fn lemma_layout_repeats(level: u32)
    requires
        1 <= level,
        level + 8 <= u32::MAX,
    ensures
        cells(spec_level_bricks((level + 8) as u32)) == cells(spec_level_bricks(level)),
{
    let later = (level + 8) as u32;
    assert(spec_pattern(later) == spec_pattern(level));
    let pattern = spec_pattern(level);
    let rows = spec_rows(pattern);
    lemma_grid_cells_level_free(later, level, pattern, rows, rows as nat);
}

/// A cell that one level fills and another does not tells their layouts apart.
proof fn lemma_cell_tells_apart(x: u32, y: u32, r: usize, c: usize)
    requires
        1 <= x,
        1 <= y,
        r < spec_rows(spec_pattern(x)),
        c < COLS,
        spec_present(spec_pattern(x), r as int, c as int, spec_rows(spec_pattern(x)) as int),
        !(r < spec_rows(spec_pattern(y)) && spec_present(
            spec_pattern(y),
            r as int,
            c as int,
            spec_rows(spec_pattern(y)) as int,
        )),
    ensures
        cells(spec_level_bricks(x)) != cells(spec_level_bricks(y)),
{
    lemma_level_layout(x);
    lemma_level_layout(y);
    let sx = spec_level_bricks(x);
    let sy = spec_level_bricks(y);
    let i = choose|i: int| 0 <= i < sx.len() && #[trigger] sx[i].row == r && sx[i].col == c;
    if cells(sx) == cells(sy) {
        assert(cells(sx)[i] == (r, c));
        assert(cells(sy).len() == sy.len());
        assert(cells(sy)[i] == (sy[i].row, sy[i].col));
        assert(sy[i].row < spec_rows(spec_pattern(y)));
    }
}

/// Law: the first eight levels have eight different layouts (and, since layouts repeat
/// every eight levels, there are exactly eight).
pub proof fn lemma_eight_unique_levels(a: u32, b: u32)
    requires
        1 <= a < b <= 8,
    ensures
        cells(spec_level_bricks(a)) != cells(spec_level_bricks(b)),
{
    if a == 1 && b == 2 {
        lemma_cell_tells_apart(1, 2, 0, 0);
    } else if a == 1 && b == 3 {
        lemma_cell_tells_apart(1, 3, 0, 1);
    } else if a == 1 && b == 4 {
        lemma_cell_tells_apart(1, 4, 0, 0);
    } else if a == 1 && b == 5 {
        lemma_cell_tells_apart(1, 5, 3, 5);
    } else if a == 1 && b == 6 {
        lemma_cell_tells_apart(1, 6, 1, 1);
    } else if a == 1 && b == 7 {
        lemma_cell_tells_apart(1, 7, 0, 0);
    } else if a == 1 && b == 8 {
        lemma_cell_tells_apart(1, 8, 2, 1);
    } else if a == 2 && b == 3 {
        lemma_cell_tells_apart(3, 2, 0, 0);
    } else if a == 2 && b == 4 {
        lemma_cell_tells_apart(4, 2, 0, 1);
    } else if a == 2 && b == 5 {
        lemma_cell_tells_apart(5, 2, 0, 0);
    } else if a == 2 && b == 6 {
        lemma_cell_tells_apart(6, 2, 0, 0);
    } else if a == 2 && b == 7 {
        lemma_cell_tells_apart(7, 2, 0, 1);
    } else if a == 2 && b == 8 {
        lemma_cell_tells_apart(8, 2, 0, 0);
    } else if a == 3 && b == 4 {
        lemma_cell_tells_apart(3, 4, 0, 0);
    } else if a == 3 && b == 5 {
        lemma_cell_tells_apart(5, 3, 0, 1);
    } else if a == 3 && b == 6 {
        lemma_cell_tells_apart(6, 3, 0, 1);
    } else if a == 3 && b == 7 {
        lemma_cell_tells_apart(3, 7, 0, 0);
    } else if a == 3 && b == 8 {
        lemma_cell_tells_apart(8, 3, 0, 1);
    } else if a == 4 && b == 5 {
        lemma_cell_tells_apart(5, 4, 0, 0);
    } else if a == 4 && b == 6 {
        lemma_cell_tells_apart(6, 4, 0, 0);
    } else if a == 4 && b == 7 {
        lemma_cell_tells_apart(7, 4, 0, 3);
    } else if a == 4 && b == 8 {
        lemma_cell_tells_apart(8, 4, 0, 0);
    } else if a == 5 && b == 6 {
        lemma_cell_tells_apart(5, 6, 1, 1);
    } else if a == 5 && b == 7 {
        lemma_cell_tells_apart(5, 7, 0, 0);
    } else if a == 5 && b == 8 {
        lemma_cell_tells_apart(5, 8, 2, 1);
    } else if a == 6 && b == 7 {
        lemma_cell_tells_apart(6, 7, 0, 0);
    } else if a == 6 && b == 8 {
        lemma_cell_tells_apart(8, 6, 1, 1);
    } else if a == 7 && b == 8 {
        lemma_cell_tells_apart(8, 7, 0, 0);
    }
}

} // verus!
