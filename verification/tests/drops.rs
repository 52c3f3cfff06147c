use breakout::drops::{choose_drop, positive_at, positives};
use breakout::kinds::PowerupKind;

#[test]
fn positives_are_the_eight_helpful_kinds() {
    assert_eq!(
        positives(),
        vec![
            PowerupKind::MultiBall,
            PowerupKind::WidePaddle,
            PowerupKind::LaserUpgrade,
            PowerupKind::SlowBall,
            PowerupKind::ExtraLife,
            PowerupKind::Shield,
            PowerupKind::FireBall,
            PowerupKind::Magnet,
        ]
    );
}

#[test]
fn positive_at_indexes_the_helpful_list() {
    assert_eq!(positive_at(0), PowerupKind::MultiBall);
    assert_eq!(positive_at(6), PowerupKind::FireBall);
    assert_eq!(positive_at(7), PowerupKind::Magnet);
}

#[test]
fn harmful_drops_follow_the_coin() {
    assert_eq!(choose_drop(true, true), PowerupKind::ShrinkPaddle);
    assert_eq!(choose_drop(true, false), PowerupKind::FastBall);
}

#[test]
fn helpful_drops_are_never_harmful() {
    let pool = positives();
    for _ in 0..200 {
        let k = choose_drop(false, true);
        assert!(!k.is_negative());
        assert!(pool.contains(&k));
    }
}
