use breakout::kinds::{BrickColor, BrickKind};
use breakout::layout::{
    brick_color, brick_present, determine_brick_kind, initial_move_dir, level_bricks, level_pattern,
    pattern_rows, COLS,
};

fn cells(level: u32) -> Vec<(usize, usize)> {
    level_bricks(level).iter().map(|b| (b.row, b.col)).collect()
}

#[test]
fn patterns_cycle_through_eight() {
    assert_eq!(level_pattern(1), 0);
    assert_eq!(level_pattern(8), 7);
    assert_eq!(level_pattern(9), 0);
    assert_eq!(level_pattern(20), 3);
}

#[test]
fn rows_per_pattern() {
    let rows: Vec<usize> = (0..9).map(pattern_rows).collect();
    assert_eq!(rows, vec![6, 8, 7, 9, 8, 10, 9, 10, 6]);
}

#[test]
fn presence_spot_checks() {
    assert!(brick_present(0, 5, 11, 6));
    assert!(!brick_present(2, 0, 1, 7));
    assert!(brick_present(2, 1, 1, 7));
    assert!(!brick_present(6, 0, 0, 9));
    assert!(brick_present(6, 1, 0, 9));
    assert!(brick_present(7, 4, 5, 10));
    assert!(!brick_present(7, 5, 5, 10));
    assert!(brick_present(1, 4, 5, 8));
    assert!(!brick_present(1, 0, 0, 8));
}

#[test]
fn kinds_grow_with_level() {
    assert_eq!(determine_brick_kind(1, 0, 0, 6, 0), BrickKind::Tough);
    assert_eq!(determine_brick_kind(1, 1, 0, 6, 0), BrickKind::Normal);
    assert_eq!(determine_brick_kind(2, 0, 7, 8, 1), BrickKind::Tough);
    assert_eq!(determine_brick_kind(2, 3, 4, 8, 1), BrickKind::Explosive);
    assert_eq!(determine_brick_kind(3, 1, 5, 7, 2), BrickKind::Armored);
    assert_eq!(determine_brick_kind(4, 4, 3, 8, 3), BrickKind::Explosive);
    assert_eq!(determine_brick_kind(5, 3, 7, 8, 4), BrickKind::Moving);
    assert_eq!(determine_brick_kind(6, 0, 8, 10, 5), BrickKind::Indestructible);
    assert_eq!(determine_brick_kind(8, 5, 5, 10, 7), BrickKind::Normal);
    assert_eq!(determine_brick_kind(3, 5, 0, 10, 7), BrickKind::Armored);
}

#[test]
fn brick_colors() {
    assert_eq!(brick_color(BrickKind::Normal, 0, 1), BrickColor::Hue(30));
    assert_eq!(brick_color(BrickKind::Normal, 2, 1), BrickColor::Hue(110));
    assert_eq!(brick_color(BrickKind::Tough, 9, 13), BrickColor::Hue(30));
    assert_eq!(brick_color(BrickKind::Normal, 4, 20), BrickColor::Hue(40));
    assert_eq!(brick_color(BrickKind::Indestructible, 0, 6), BrickColor::Rgba(100, 100, 110, 255));
    assert_eq!(brick_color(BrickKind::Explosive, 3, 2), BrickColor::Rgba(255, 120, 30, 255));
    assert_eq!(brick_color(BrickKind::Moving, 3, 5), BrickColor::Rgba(255, 255, 100, 255));
    assert_eq!(brick_color(BrickKind::Armored, 0, 3), BrickColor::Rgba(180, 180, 200, 255));
}

#[test]
fn moving_bricks_alternate_direction() {
    assert_eq!(initial_move_dir(BrickKind::Moving, 2), 60);
    assert_eq!(initial_move_dir(BrickKind::Moving, 7), -60);
    assert_eq!(initial_move_dir(BrickKind::Normal, 2), 0);
}

#[test]
fn first_level_is_a_full_grid() {
    let bricks = level_bricks(1);
    assert_eq!(bricks.len(), 72);
    assert_eq!(bricks.iter().filter(|b| b.kind == BrickKind::Tough).count(), 12);
    assert_eq!(bricks[0].row, 0);
    assert_eq!(bricks[0].col, 0);
    assert_eq!(bricks[0].hits, 2);
    assert_eq!(bricks[0].max_hits, 2);
    assert_eq!(bricks[0].color, BrickColor::Hue(30));
    assert!(bricks[0].alive);
    assert_eq!(bricks[71].row, 5);
    assert_eq!(bricks[71].col, COLS - 1);
}

#[test]
fn brick_counts_per_level() {
    let counts: Vec<usize> = (1..10).map(|l| level_bricks(l).len()).collect();
    assert_eq!(counts, vec![72, 48, 42, 72, 66, 64, 81, 50, 72]);
}

#[test]
fn kind_counts_of_level_six() {
    let bricks = level_bricks(6);
    let count = |k: BrickKind| bricks.iter().filter(|b| b.kind == k).count();
    assert_eq!(count(BrickKind::Indestructible), 3);
    assert_eq!(count(BrickKind::Moving), 4);
    assert_eq!(count(BrickKind::Explosive), 6);
    assert_eq!(count(BrickKind::Armored), 11);
    assert_eq!(count(BrickKind::Tough), 8);
    assert_eq!(count(BrickKind::Normal), 32);
    assert_eq!(bricks[0].kind, BrickKind::Indestructible);
    assert_eq!(bricks[0].hits, 999);
}

#[test]
fn layouts_repeat_every_eight_levels() {
    for level in 1..9 {
        assert_eq!(cells(level), cells(level + 8));
    }
    assert_ne!(level_bricks(1)[0].kind, level_bricks(9)[0].kind);
}

#[test]
fn bricks_come_row_by_row_left_to_right() {
    for level in 1..9 {
        let c = cells(level);
        for w in c.windows(2) {
            assert!(w[0].0 * COLS + w[0].1 < w[1].0 * COLS + w[1].1);
        }
    }
}

#[test]
fn the_eight_layouts_differ() {
    let all: Vec<Vec<(usize, usize)>> = (1..9).map(cells).collect();
    for a in 0..8 {
        for b in (a + 1)..8 {
            assert_ne!(all[a], all[b]);
        }
    }
}

#[test]
fn kinds_settle_from_level_six() {
    for pattern in 0..8 {
        let rows = pattern_rows(pattern);
        for row in 0..rows {
            for col in 0..COLS {
                let k6 = determine_brick_kind(6, row, col, rows, pattern);
                assert_eq!(k6, determine_brick_kind(7, row, col, rows, pattern));
                assert_eq!(k6, determine_brick_kind(1000, row, col, rows, pattern));
            }
        }
    }
}

#[test]
fn presence_on_large_grids() {
    assert!(brick_present(1, 500, 5, 1000));
    assert!(!brick_present(1, 0, 5, 1000));
    assert!(!brick_present(6, 1000, 0, 2000));
    assert!(brick_present(6, 1001, 0, 2000));
}
