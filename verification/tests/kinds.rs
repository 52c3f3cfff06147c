use breakout::kinds::{all_powerups, BrickColor, BrickKind, PowerupKind, Tint};

#[test]
fn durability_per_kind() {
    assert_eq!(BrickKind::Normal.durability(), 1);
    assert_eq!(BrickKind::Tough.durability(), 2);
    assert_eq!(BrickKind::Armored.durability(), 3);
    assert_eq!(BrickKind::Explosive.durability(), 1);
    assert_eq!(BrickKind::Indestructible.durability(), 999);
    assert_eq!(BrickKind::Moving.durability(), 1);
}

#[test]
fn base_score_per_kind() {
    assert_eq!(BrickKind::Normal.base_score(), 10);
    assert_eq!(BrickKind::Tough.base_score(), 20);
    assert_eq!(BrickKind::Armored.base_score(), 30);
    assert_eq!(BrickKind::Explosive.base_score(), 25);
    assert_eq!(BrickKind::Moving.base_score(), 25);
    assert_eq!(BrickKind::Indestructible.base_score(), 10);
}

#[test]
fn ten_powerups_in_order() {
    let all = all_powerups();
    assert_eq!(all.len(), 10);
    assert_eq!(all[0], PowerupKind::MultiBall);
    assert_eq!(all[7], PowerupKind::ShrinkPaddle);
    assert_eq!(all[9], PowerupKind::Magnet);
}

#[test]
fn only_shrink_and_fast_are_negative() {
    let negatives: Vec<PowerupKind> = all_powerups().into_iter().filter(|k| k.is_negative()).collect();
    assert_eq!(negatives, vec![PowerupKind::ShrinkPaddle, PowerupKind::FastBall]);
}

#[test]
fn labels_are_single_symbols() {
    let labels: Vec<&str> = all_powerups().iter().map(|k| k.label()).collect();
    assert_eq!(labels, vec!["M", "W", "L", "S", "+", "=", "F", "v", "!", "@"]);
}

#[test]
fn pickup_messages() {
    assert_eq!(PowerupKind::MultiBall.pickup_message(), "Multi Ball!");
    assert_eq!(PowerupKind::WidePaddle.pickup_message(), "Wide Paddle!");
    assert_eq!(PowerupKind::LaserUpgrade.pickup_message(), "Rapid Fire!");
    assert_eq!(PowerupKind::SlowBall.pickup_message(), "Slow Ball!");
    assert_eq!(PowerupKind::ExtraLife.pickup_message(), "Extra Life!");
    assert_eq!(PowerupKind::Shield.pickup_message(), "Shield!");
    assert_eq!(PowerupKind::FireBall.pickup_message(), "Fire Ball!");
    assert_eq!(PowerupKind::ShrinkPaddle.pickup_message(), "Shrink!");
    assert_eq!(PowerupKind::FastBall.pickup_message(), "Speed Up!");
    assert_eq!(PowerupKind::Magnet.pickup_message(), "Magnet!");
}

#[test]
fn powerup_tints() {
    assert_eq!(PowerupKind::MultiBall.color(), Tint::SkyBlue);
    assert_eq!(PowerupKind::WidePaddle.color(), Tint::Green);
    assert_eq!(PowerupKind::LaserUpgrade.color(), Tint::Orange);
    assert_eq!(PowerupKind::SlowBall.color(), Tint::Blue);
    assert_eq!(PowerupKind::ExtraLife.color(), Tint::Pink);
    assert_eq!(PowerupKind::Shield.color(), Tint::Rgba(0, 255, 200, 255));
    assert_eq!(PowerupKind::FireBall.color(), Tint::Rgba(255, 80, 0, 255));
    assert_eq!(PowerupKind::ShrinkPaddle.color(), Tint::Rgba(180, 0, 0, 255));
    assert_eq!(PowerupKind::FastBall.color(), Tint::Rgba(180, 0, 0, 255));
    assert_eq!(PowerupKind::Magnet.color(), Tint::Rgba(200, 200, 0, 255));
    assert_ne!(BrickColor::Hue(30), BrickColor::Hue(31));
}
