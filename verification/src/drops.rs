//! Which power-up a destroyed brick drops.
use vstd::prelude::*;
use crate::kinds::{PowerupKind, all_powerups, spec_all_powerups, spec_is_negative, spec_positives};

verus! {

/// The test that keeps a power-up among the helpful ones.
pub open spec fn helpful() -> spec_fn(PowerupKind) -> bool {
    |k: PowerupKind| !spec_is_negative(k)
}

/// The helpful power-ups are the eight kinds other than the two harmful ones, in declaration order.
pub proof fn lemma_positives_listed()
    ensures
        spec_positives() == seq![
            PowerupKind::MultiBall,
            PowerupKind::WidePaddle,
            PowerupKind::LaserUpgrade,
            PowerupKind::SlowBall,
            PowerupKind::ExtraLife,
            PowerupKind::Shield,
            PowerupKind::FireBall,
            PowerupKind::Magnet,
        ],
{
    reveal_with_fuel(Seq::filter, 11);
    assert(spec_positives() =~= seq![
        PowerupKind::MultiBall,
        PowerupKind::WidePaddle,
        PowerupKind::LaserUpgrade,
        PowerupKind::SlowBall,
        PowerupKind::ExtraLife,
        PowerupKind::Shield,
        PowerupKind::FireBall,
        PowerupKind::Magnet,
    ]);
}

/// Law: every helpful kind, the last (the magnet) included, sits at an index below the
/// number of helpful kinds, so a draw over that whole range can give any of them, and
/// `positive_at` gives a helpful kind for every such index.
pub proof fn lemma_every_helpful_kind_can_drop()
    ensures
        spec_positives().len() == 8,
        forall|k: PowerupKind|
            !spec_is_negative(k) ==> exists|i: int| 0 <= i < spec_positives().len() && #[trigger] spec_positives()[i]
                == k,
        spec_positives()[spec_positives().len() - 1] == PowerupKind::Magnet,
        forall|i: int| 0 <= i < spec_positives().len() ==> !spec_is_negative(#[trigger] spec_positives()[i]),
{
    lemma_positives_listed();
    assert forall|k: PowerupKind| !spec_is_negative(k) implies exists|i: int|
        0 <= i < spec_positives().len() && #[trigger] spec_positives()[i] == k by {
        let i: int = match k {
            PowerupKind::MultiBall => 0,
            PowerupKind::WidePaddle => 1,
            PowerupKind::LaserUpgrade => 2,
            PowerupKind::SlowBall => 3,
            PowerupKind::ExtraLife => 4,
            PowerupKind::Shield => 5,
            PowerupKind::FireBall => 6,
            _ => 7,
        };
        assert(spec_positives()[i] == k);
    }
}

/// The helpful power-ups: every kind of power-up that is not harmful, in declaration order.
pub fn positives() -> (v: Vec<PowerupKind>)
    ensures
        v@ == spec_positives(),
        v@ == spec_all_powerups().filter(helpful()),
{
    let all = all_powerups();
    let mut v: Vec<PowerupKind> = Vec::new();
    let n = all.len();
    for i in 0..n
        invariant
            n == all@.len(),
            all@ == spec_all_powerups(),
            v@ == all@.take(i as int).filter(helpful()),
    {
        proof {
            reveal_with_fuel(Seq::filter, 1);
            assert(all@.take(i + 1).drop_last() =~= all@.take(i as int));
        }
        if !all[i].is_negative() {
            v.push(all[i]);
        }
    }
    proof {
        assert(all@.take(n as int) =~= all@);
        assert(spec_positives() =~= spec_all_powerups().filter(helpful()));
    }
    v
}

/// The helpful power-up at `index` in the list of helpful power-ups.
pub fn positive_at(index: usize) -> (k: PowerupKind)
    requires
        index < spec_positives().len(),
    ensures
        k == spec_positives()[index as int],
        !spec_is_negative(k),
{
    proof {
        lemma_positives_listed();
    }
    let v = positives();
    v[index]
}

/// Draws a pseudo-random index below `n` from the drawing library's global generator.
/// Calls `macroquad::rand::gen_range(0, n)` (the `gen_range` of quad-rand for `usize`).
/// Its source computes `(0 + n * r) as usize` with `r = rand() / 2^32`, which is below 1;
/// for `n` up to 1024 the product is exact in `f64`, so the result is below `n`.
/// Which index comes back depends on the generator's state and is not stated.
#[verifier::external_body]
fn random_index(n: usize) -> (i: usize)
    requires
        0 < n <= 1024,
    ensures
        i < n,
{
    macroquad::rand::gen_range(0, n)
}

/// The kind of power-up that a destroyed brick drops, once the drop itself has been decided.
/// A harmful drop (`negative`) is a shrinking paddle when `shrink` holds and a faster ball
/// otherwise; a helpful drop is one of the helpful kinds, picked at random.
pub fn choose_drop(negative: bool, shrink: bool) -> (k: PowerupKind)
    ensures
        negative && shrink ==> k == PowerupKind::ShrinkPaddle,
        negative && !shrink ==> k == PowerupKind::FastBall,
        !negative ==> spec_positives().contains(k),
        !negative ==> !spec_is_negative(k),
{
    if negative {
        if shrink {
            PowerupKind::ShrinkPaddle
        } else {
            PowerupKind::FastBall
        }
    } else {
        proof {
            lemma_positives_listed();
        }
        let pool = positives();
        let i = random_index(pool.len());
        let k = positive_at(i);
        assert(spec_positives()[i as int] == k);
        k
    }
}

} // verus!
