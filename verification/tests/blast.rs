use breakout::blast::BlastEvent;
use breakout::game::Game;
use breakout::kinds::{BrickColor, BrickKind};
use breakout::layout::Brick;

fn brick(col: usize, kind: BrickKind) -> Brick {
    let hits = kind.durability();
    Brick { row: 0, col, kind, color: BrickColor::Hue(0), alive: true, hits, max_hits: hits }
}

fn table(n: usize, pairs: &[(usize, usize)]) -> Vec<Vec<bool>> {
    let mut near = vec![vec![false; n]; n];
    for i in 0..n {
        near[i][i] = true;
    }
    for &(a, b) in pairs {
        near[a][b] = true;
        near[b][a] = true;
    }
    near
}

fn game_with(bricks: Vec<Brick>) -> Game {
    let mut g = Game::new();
    g.start_level(1);
    g.bricks = bricks;
    g
}

#[test]
fn explosions_chain_through_explosive_bricks() {
    let mut bricks = vec![
        brick(0, BrickKind::Explosive),
        brick(1, BrickKind::Normal),
        brick(2, BrickKind::Explosive),
        brick(3, BrickKind::Armored),
        brick(4, BrickKind::Indestructible),
        brick(5, BrickKind::Normal),
    ];
    // the first explosive brick was just destroyed by a ball
    bricks[0].alive = false;
    bricks[0].hits = 0;
    let mut g = game_with(bricks);
    g.score = 100;
    let near = table(6, &[(0, 1), (0, 2), (2, 3), (2, 4)]);
    let events = g.explode_around(0, &near);
    let alive: Vec<bool> = g.bricks.iter().map(|b| b.alive).collect();
    assert_eq!(alive, vec![false, false, false, false, true, true]);
    assert_eq!(g.bricks[3].hits, 0);
    assert_eq!(g.bricks[4].hits, 999);
    assert_eq!(g.score, 130);
    assert_eq!(
        events,
        vec![
            BlastEvent::Center(0),
            BlastEvent::Debris(1),
            BlastEvent::Debris(2),
            BlastEvent::Center(2),
            BlastEvent::Debris(3),
        ]
    );
}

#[test]
fn an_explosion_out_of_range_wrecks_nothing() {
    let mut bricks = vec![brick(0, BrickKind::Explosive), brick(1, BrickKind::Normal)];
    bricks[0].alive = false;
    bricks[0].hits = 0;
    let mut g = game_with(bricks);
    let near = table(2, &[]);
    let events = g.explode_around(0, &near);
    assert!(g.bricks[1].alive);
    assert_eq!(g.score, 0);
    assert_eq!(events, vec![BlastEvent::Center(0)]);
}

#[test]
fn two_explosive_bricks_set_each_other_off_once() {
    let mut bricks = vec![
        brick(0, BrickKind::Normal),
        brick(1, BrickKind::Explosive),
        brick(2, BrickKind::Explosive),
        brick(3, BrickKind::Tough),
    ];
    bricks[0].alive = false;
    bricks[0].hits = 0;
    let mut g = game_with(bricks);
    let near = table(4, &[(0, 1), (1, 2), (2, 3)]);
    let events = g.explode_around(0, &near);
    assert!(g.bricks.iter().all(|b| !b.alive));
    assert_eq!(g.score, 30);
    assert_eq!(
        events,
        vec![
            BlastEvent::Center(0),
            BlastEvent::Debris(1),
            BlastEvent::Center(1),
            BlastEvent::Debris(2),
            BlastEvent::Center(2),
            BlastEvent::Debris(3),
        ]
    );
}

#[test]
fn a_live_explosive_centre_blasts_itself_once_more() {
    let bricks = vec![brick(0, BrickKind::Explosive), brick(1, BrickKind::Normal)];
    let mut g = game_with(bricks);
    let near = table(2, &[(0, 1)]);
    let events = g.explode_around(0, &near);
    assert!(g.bricks.iter().all(|b| !b.alive));
    assert_eq!(g.score, 20);
    assert_eq!(
        events,
        vec![
            BlastEvent::Center(0),
            BlastEvent::Debris(0),
            BlastEvent::Debris(1),
            BlastEvent::Center(0),
        ]
    );
}

#[test]
fn a_score_near_the_top_suffices_for_what_the_blast_reaches() {
    let mut bricks = vec![
        brick(0, BrickKind::Explosive),
        brick(1, BrickKind::Normal),
        brick(2, BrickKind::Normal),
        brick(3, BrickKind::Normal),
    ];
    bricks[0].alive = false;
    bricks[0].hits = 0;
    let mut g = game_with(bricks);
    g.score = u32::MAX - 10;
    let near = table(4, &[(0, 1)]);
    g.explode_around(0, &near);
    assert_eq!(g.score, u32::MAX);
    assert!(g.bricks[2].alive && g.bricks[3].alive);
}

#[test]
fn the_reach_of_a_blast_is_counted_without_touching_the_game() {
    let mut bricks = vec![
        brick(0, BrickKind::Explosive),
        brick(1, BrickKind::Normal),
        brick(2, BrickKind::Explosive),
        brick(3, BrickKind::Armored),
        brick(4, BrickKind::Indestructible),
        brick(5, BrickKind::Normal),
    ];
    bricks[0].alive = false;
    bricks[0].hits = 0;
    let g = game_with(bricks);
    let near = table(6, &[(0, 1), (0, 2), (2, 3), (2, 4)]);
    let before = g.bricks.clone();
    assert_eq!(g.blast_reach_size(0, &near), 3);
    assert_eq!(g.bricks, before);
    assert_eq!(g.blast_reach_size(5, &near), 1);
}

#[test]
fn there_is_one_blast_more_than_explosive_bricks_wrecked() {
    let mut bricks = vec![
        brick(0, BrickKind::Normal),
        brick(1, BrickKind::Explosive),
        brick(2, BrickKind::Explosive),
        brick(3, BrickKind::Explosive),
    ];
    bricks[0].alive = false;
    bricks[0].hits = 0;
    let mut g = game_with(bricks);
    // the last explosive brick lies out of every blast's range
    let near = table(4, &[(0, 1), (1, 2)]);
    let events = g.explode_around(0, &near);
    let blasts = events.iter().filter(|e| matches!(e, BlastEvent::Center(_))).count();
    let explosive_wrecked = 2;
    assert_eq!(blasts, 1 + explosive_wrecked);
    assert!(g.bricks[3].alive);
    assert!(blasts <= 1 + 3);
}
