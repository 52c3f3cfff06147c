use breakout::game::{sweep_balls, Game, GameState, Shot, Strike, LIVES_INIT, PADDLE_W_DEFAULT};
use breakout::kinds::{BrickKind, PowerupKind};
use breakout::layout::level_bricks;

fn playing(level: u32) -> Game {
    let mut g = Game::new();
    g.start_level(level);
    g
}

#[test]
fn new_game_waits_at_the_menu() {
    let g = Game::new();
    assert_eq!(g.state, GameState::Menu);
    assert_eq!(g.lives, LIVES_INIT);
    assert_eq!(g.score, 0);
    assert_eq!(g.level, 0);
    assert_eq!(g.paddle_w, PADDLE_W_DEFAULT);
    assert!(g.bricks.is_empty());
    assert!(!g.shield_active && !g.magnet_active);
}

#[test]
fn starting_a_level_lays_its_bricks() {
    let mut g = Game::new();
    g.score = 40;
    g.paddle_w = 200;
    g.magnet_active = true;
    g.combo = 4;
    g.start_level(3);
    assert_eq!(g.state, GameState::Playing);
    assert_eq!(g.level, 3);
    assert_eq!(g.bricks, level_bricks(3));
    assert_eq!(g.paddle_w, PADDLE_W_DEFAULT);
    assert!(!g.magnet_active);
    assert_eq!(g.combo, 0);
    assert_eq!(g.score, 40);
}

#[test]
fn paddle_width_stays_between_bounds() {
    let mut g = playing(1);
    for _ in 0..5 {
        g.apply_powerup(PowerupKind::WidePaddle);
    }
    assert_eq!(g.paddle_w, 240);
    g.apply_powerup(PowerupKind::ShrinkPaddle);
    assert_eq!(g.paddle_w, 210);
    for _ in 0..10 {
        g.apply_powerup(PowerupKind::ShrinkPaddle);
    }
    assert_eq!(g.paddle_w, 50);
    g.apply_powerup(PowerupKind::WidePaddle);
    assert_eq!(g.paddle_w, 90);
}

#[test]
fn extra_life_shield_and_magnet() {
    let mut g = playing(1);
    g.apply_powerup(PowerupKind::ExtraLife);
    assert_eq!(g.lives, 4);
    g.apply_powerup(PowerupKind::Shield);
    assert!(g.shield_active);
    assert_eq!(g.shield_hits, 3);
    g.apply_powerup(PowerupKind::Magnet);
    assert!(g.magnet_active);
    g.end_magnet();
    assert!(!g.magnet_active);
    let before = (g.paddle_w, g.lives, g.score);
    g.apply_powerup(PowerupKind::MultiBall);
    g.apply_powerup(PowerupKind::FireBall);
    g.apply_powerup(PowerupKind::SlowBall);
    g.apply_powerup(PowerupKind::FastBall);
    g.apply_powerup(PowerupKind::LaserUpgrade);
    assert_eq!((g.paddle_w, g.lives, g.score), before);
}

#[test]
fn shield_catches_three_falls() {
    let mut g = playing(1);
    assert!(!g.absorb_fall());
    g.apply_powerup(PowerupKind::Shield);
    assert!(g.absorb_fall());
    assert!(g.absorb_fall());
    assert!(g.shield_active);
    assert!(g.absorb_fall());
    assert!(!g.shield_active);
    assert_eq!(g.shield_hits, 0);
    assert!(!g.absorb_fall());
}

#[test]
fn combo_multiplies_ball_points() {
    let mut g = playing(1);
    // row 1 holds normal bricks of one hit: indices 12..24
    assert_eq!(g.bricks[12].kind, BrickKind::Normal);
    assert!(g.ball_hits_brick(12, false).destroyed);
    assert_eq!((g.combo, g.score), (1, 10));
    assert!(g.ball_hits_brick(13, false).destroyed);
    assert_eq!((g.combo, g.score), (2, 30));
    assert!(g.ball_hits_brick(14, false).destroyed);
    assert_eq!((g.combo, g.score), (3, 60));
    assert!(!g.paddle_contact());
    assert_eq!(g.combo, 0);
    assert!(g.ball_hits_brick(15, false).destroyed);
    assert_eq!((g.combo, g.score), (1, 70));
    assert!(!g.bricks[12].alive);
    assert_eq!(g.bricks[12].hits, 0);
}

#[test]
fn tough_bricks_take_two_hits() {
    let mut g = playing(1);
    assert_eq!(g.bricks[0].kind, BrickKind::Tough);
    assert!(!g.ball_hits_brick(0, false).destroyed);
    assert_eq!(g.bricks[0].hits, 1);
    assert!(g.bricks[0].alive);
    assert_eq!((g.combo, g.score), (0, 0));
    assert!(g.ball_hits_brick(0, false).destroyed);
    assert_eq!((g.combo, g.score), (1, 20));
}

#[test]
fn balls_only_bounce_off_indestructible_bricks() {
    let mut g = playing(6);
    assert_eq!(g.bricks[0].kind, BrickKind::Indestructible);
    let before = g.bricks.clone();
    assert!(!g.ball_hits_brick(0, false).destroyed);
    assert_eq!(g.bricks, before);
    assert_eq!((g.combo, g.score), (0, 0));
}

#[test]
fn bullets_score_five_without_combo() {
    let mut g = playing(1);
    assert!(!g.bullet_hits_brick(0).destroyed);
    assert!(g.bullet_hits_brick(0).destroyed);
    assert!(g.bullet_hits_brick(12).destroyed);
    assert_eq!(g.score, 10);
    assert_eq!(g.combo, 0);
}

#[test]
fn lives_run_out_into_game_over() {
    let mut g = playing(1);
    g.apply_powerup(PowerupKind::ShrinkPaddle);
    g.combo = 3;
    assert!(g.lose_ball());
    assert_eq!(g.lives, 2);
    assert_eq!(g.combo, 0);
    assert_eq!(g.paddle_w, PADDLE_W_DEFAULT);
    assert!(g.lose_ball());
    assert_eq!(g.state, GameState::Playing);
    assert!(!g.lose_ball());
    assert_eq!(g.lives, 0);
    assert_eq!(g.state, GameState::Lost);
    assert!(!g.lose_ball());
    assert_eq!(g.lives, 0);
}

#[test]
fn magnet_makes_balls_stick() {
    let mut g = playing(1);
    g.combo = 2;
    g.apply_powerup(PowerupKind::Magnet);
    assert!(g.paddle_contact());
    assert_eq!(g.combo, 0);
}

#[test]
fn clearing_a_level_pays_a_bonus() {
    let mut g = playing(2);
    assert!(g.destroyable_left());
    assert!(!g.check_level_clear());
    for b in g.bricks.iter_mut() {
        b.alive = false;
        b.hits = 0;
    }
    assert!(!g.destroyable_left());
    assert!(g.check_level_clear());
    assert_eq!(g.state, GameState::LevelClear);
    assert_eq!(g.score, 1000);
    assert!(!g.check_level_clear());
    assert_eq!(g.score, 1000);
}

#[test]
fn indestructible_bricks_do_not_block_a_clear() {
    let mut g = playing(6);
    for b in g.bricks.iter_mut() {
        if b.kind != BrickKind::Indestructible {
            b.alive = false;
            b.hits = 0;
        }
    }
    assert!(!g.destroyable_left());
    assert!(g.check_level_clear());
    assert_eq!(g.score, 3000);
}

#[test]
fn clicks_move_through_the_game() {
    let mut g = Game::new();
    assert!(g.handle_click(false));
    assert_eq!((g.state, g.level), (GameState::Playing, 1));
    assert!(!g.handle_click(true));
    assert_eq!(g.state, GameState::Playing);
    g.score = 70;
    g.state = GameState::LevelClear;
    assert!(!g.handle_click(false));
    assert_eq!(g.state, GameState::LevelClear);
    assert!(g.handle_click(true));
    assert_eq!((g.state, g.level, g.score), (GameState::Playing, 2, 70));
    assert_eq!(g.bricks, level_bricks(2));
    g.lives = 1;
    assert!(!g.lose_ball());
    assert_eq!(g.state, GameState::Lost);
    assert!(g.handle_click(false));
    assert_eq!((g.state, g.level, g.score, g.lives), (GameState::Playing, 1, 0, 3));
    assert_eq!(g.bricks, level_bricks(1));
}

#[test]
fn every_level_starts_with_bricks_to_break() {
    for level in 1..=17 {
        let g = playing(level);
        assert!(g.destroyable_left());
    }
}

#[test]
fn fire_balls_pass_through_breakable_bricks() {
    let mut g = playing(1);
    let s = g.ball_hits_brick(12, true);
    assert_eq!(s, Strike {
            destroyed: true,
            bounces: false,
            passes_on: true,
            speeds_up: true,
            explodes: false,
            drops_powerup: false,
        });
    let s = g.ball_hits_brick(0, true);
    assert_eq!(s, Strike {
            destroyed: false,
            bounces: false,
            passes_on: true,
            speeds_up: true,
            explodes: false,
            drops_powerup: false,
        });
    let s = g.ball_hits_brick(13, false);
    assert_eq!(s, Strike {
            destroyed: true,
            bounces: true,
            passes_on: false,
            speeds_up: true,
            explodes: false,
            drops_powerup: false,
        });
}

#[test]
fn fire_balls_still_bounce_off_indestructible_bricks() {
    let mut g = playing(6);
    let s = g.ball_hits_brick(0, true);
    assert_eq!(s, Strike {
            destroyed: false,
            bounces: true,
            passes_on: false,
            speeds_up: false,
            explodes: false,
            drops_powerup: false,
        });
}

#[test]
fn sweeping_keeps_balls_in_play() {
    let s = sweep_balls(&vec![true, false, true]);
    assert_eq!(s.keep, vec![true, false, true]);
    assert!(!s.last_ball_lost);
    let s = sweep_balls(&vec![false, false]);
    assert_eq!(s.keep, vec![true, true]);
    assert!(!s.last_ball_lost);
    let s = sweep_balls(&vec![]);
    assert!(s.keep.is_empty());
    assert!(!s.last_ball_lost);
}

#[test]
fn a_frame_of_rule_steps_keeps_level_and_raises_score() {
    let mut g = playing(1);
    let level = g.level;
    let mut last = g.score;
    let kinds_before: Vec<BrickKind> = g.bricks.iter().map(|b| b.kind).collect();
    for i in 0..g.bricks.len() {
        if g.bricks[i].alive {
            g.ball_hits_brick(i, i % 2 == 0);
        }
        if i % 7 == 0 {
            g.paddle_contact();
        }
        assert!(g.score >= last);
        last = g.score;
    }
    for i in 0..g.bricks.len() {
        while g.bricks[i].alive {
            g.bullet_hits_brick(i);
        }
    }
    assert!(g.check_level_clear());
    assert!(g.score >= last + 500 * level);
    assert_eq!(g.level, level);
    let kinds_after: Vec<BrickKind> = g.bricks.iter().map(|b| b.kind).collect();
    assert_eq!(kinds_before, kinds_after);
}

fn first_of(g: &Game, kind: BrickKind) -> usize {
    g.bricks.iter().position(|b| b.kind == kind && b.alive).unwrap()
}

#[test]
fn a_destroyed_explosive_brick_explodes() {
    let mut g = playing(2);
    let e = first_of(&g, BrickKind::Explosive);
    let s = g.ball_hits_brick(e, false);
    assert!(s.destroyed && s.explodes && !s.drops_powerup);
    let mut g = playing(2);
    let e = first_of(&g, BrickKind::Explosive);
    let shot = g.bullet_hits_brick(e);
    assert_eq!(shot, Shot { destroyed: true, explodes: true, drops_powerup: true });
}

#[test]
fn only_bullet_kills_may_drop_a_power_up() {
    let mut g = playing(1);
    let s = g.ball_hits_brick(12, false);
    assert!(s.destroyed && !s.explodes && !s.drops_powerup);
    let shot = g.bullet_hits_brick(13);
    assert_eq!(shot, Shot { destroyed: true, explodes: false, drops_powerup: true });
    let tough = first_of(&g, BrickKind::Tough);
    let shot = g.bullet_hits_brick(tough);
    assert_eq!(shot, Shot { destroyed: false, explodes: false, drops_powerup: false });
}
