//! The rules of a game: bricks, score, lives, combo, paddle width, shield, magnet,
//! and the flow from the menu through the levels to game over.
//!
//! Positions, speeds and timers are real-valued and stay with the caller, who tells the
//! rules what the geometry decided (which brick a ball or bullet struck, which bricks lie
//! within blast range of one another, whether a timer ran out).
use vstd::prelude::*;
use crate::kinds::{BrickKind, PowerupKind, spec_base_score, spec_durability};
use crate::layout::{
    Brick, COLS, level_bricks, spec_level_bricks, lemma_level_layout, spec_pattern, spec_present,
    spec_rows,
};

verus! {

/// The width of the paddle at the start of a level and after a lost ball.
pub const PADDLE_W_DEFAULT: u32 = 120;

/// The width that widening stops at.
pub const PADDLE_W_MAX: u32 = 240;

/// The width that shrinking stops at.
pub const PADDLE_W_MIN: u32 = 50;

/// The lives of a new game.
pub const LIVES_INIT: u32 = 3;

/// The falls that a fresh shield catches.
pub const SHIELD_CHARGES: u32 = 3;

/// The points for a brick destroyed by a bullet.
pub const BULLET_POINTS: u32 = 5;

/// The points for a brick destroyed by an explosion.
pub const BLAST_POINTS: u32 = 10;

/// The bonus per level number for clearing a level.
pub const LEVEL_BONUS: u32 = 500;

/// Where the game stands.
#[derive(Clone, Copy, Debug, PartialEq, Eq, Structural)]
pub enum GameState {
    Menu,
    Playing,
    LevelClear,
    Lost,
}

/// The rules' part of a game.
pub struct Game {
    /// The paddle's width in pixels.
    pub paddle_w: u32,
    pub bricks: Vec<Brick>,
    pub score: u32,
    pub lives: u32,
    pub level: u32,
    /// Bricks destroyed by balls since a ball last touched the paddle.
    pub combo: u32,
    pub state: GameState,
    pub shield_active: bool,
    /// Falls that the shield still catches.
    pub shield_hits: u32,
    pub magnet_active: bool,
}

/// What became of a ball that struck a brick.
#[derive(Clone, Copy, Debug, PartialEq, Eq, Structural)]
pub struct Strike {
    /// The brick was destroyed.
    pub destroyed: bool,
    /// The ball bounces off the brick.
    pub bounces: bool,
    /// The ball goes on through the brick and may strike more bricks this frame.
    pub passes_on: bool,
    /// The ball gains speed.
    pub speeds_up: bool,
    /// The brick was destroyed and explodes.
    pub explodes: bool,
    /// A power-up may drop: never for a ball.
    pub drops_powerup: bool,
}

/// What became of a brick that a bullet struck.
#[derive(Clone, Copy, Debug, PartialEq, Eq, Structural)]
pub struct Shot {
    /// The brick was destroyed.
    pub destroyed: bool,
    /// The brick was destroyed and explodes.
    pub explodes: bool,
    /// A power-up may drop: a brick destroyed by a bullet gets the chance.
    pub drops_powerup: bool,
}

/// What a bullet does to a brick of a kind: only a destroyed brick explodes (when it is
/// explosive) and gives the chance of a power-up.
pub open spec fn spec_shot(kind: BrickKind, destroyed: bool) -> Shot {
    Shot { destroyed, explodes: destroyed && kind == BrickKind::Explosive, drops_powerup: destroyed }
}

/// What a ball striking a brick of a kind does: an indestructible brick turns the ball
/// back at the same speed; any other brick speeds the ball up, and turns it back unless
/// the ball is on fire, in which case the ball goes on through it. A destroyed explosive
/// brick explodes; bricks that balls destroy drop no power-up.
pub open spec fn spec_strike(kind: BrickKind, fire: bool, destroyed: bool) -> Strike {
    if kind == BrickKind::Indestructible {
        Strike {
            destroyed: false,
            bounces: true,
            passes_on: false,
            speeds_up: false,
            explodes: false,
            drops_powerup: false,
        }
    } else {
        Strike {
            destroyed,
            bounces: !fire,
            passes_on: fire,
            speeds_up: true,
            explodes: destroyed && kind == BrickKind::Explosive,
            drops_powerup: false,
        }
    }
}

/// Which balls stay after a frame, and whether the last ball in play was lost.
pub struct BallSweep {
    /// For each ball, whether it stays.
    pub keep: Vec<bool>,
    /// Some ball was in play and none that stays is.
    pub last_ball_lost: bool,
}

/// Some ball is in play (moving or held by the magnet).
pub open spec fn any_in_play(in_play: Seq<bool>) -> bool {
    exists|i: int| 0 <= i < in_play.len() && #[trigger] in_play[i]
}

/// A ball stays when it is in play, or when no ball is.
pub open spec fn spec_keep(in_play: Seq<bool>) -> Seq<bool> {
    Seq::new(in_play.len(), |i: int| in_play[i] || !any_in_play(in_play))
}

/// The last ball was lost: some ball was in play and none that stays is.
pub open spec fn spec_last_ball_lost(in_play: Seq<bool>) -> bool {
    any_in_play(in_play) && !exists|i: int|
        0 <= i < in_play.len() && #[trigger] spec_keep(in_play)[i] && in_play[i]
}

/// How the bricks may change within a frame of play: same bricks, kinds, cells, paint and
/// maximum hits; hits only go down; a gone brick stays gone; an indestructible brick does
/// not change at all.
pub open spec fn bricks_step(a: Seq<Brick>, b: Seq<Brick>) -> bool {
    &&& b.len() == a.len()
    &&& forall|i: int|
        0 <= i < a.len() ==> {
            &&& (#[trigger] b[i]).row == a[i].row
            &&& b[i].col == a[i].col
            &&& b[i].kind == a[i].kind
            &&& b[i].color == a[i].color
            &&& b[i].max_hits == a[i].max_hits
            &&& b[i].hits <= a[i].hits
            &&& (!a[i].alive ==> !b[i].alive)
            &&& (a[i].kind == BrickKind::Indestructible ==> b[i] == a[i])
        }
}

/// How the game may change within a frame of play: the score does not go down, the level
/// stays, the bricks change only as `bricks_step` allows, play ends only in a level clear
/// (worth at least the level bonus) or in game over.
pub open spec fn frame_step(a: Game, b: Game) -> bool {
    &&& b.score >= a.score
    &&& b.level == a.level
    &&& bricks_step(a.bricks@, b.bricks@)
    &&& (b.state == a.state || (a.state == GameState::Playing && b.state == GameState::LevelClear)
        || b.state == GameState::Lost)
    &&& (a.state == GameState::Playing && b.state == GameState::LevelClear ==> b.score >= a.score
        + LEVEL_BONUS * a.level)
}

/// A brick that can still be destroyed.
pub open spec fn live(b: Brick) -> bool {
    b.alive && b.kind != BrickKind::Indestructible
}

/// A brick's hits agree with its kind and with its being alive; indestructible bricks
/// keep all their hits.
pub open spec fn brick_wf(b: Brick) -> bool {
    &&& b.max_hits == spec_durability(b.kind)
    &&& b.hits <= b.max_hits
    &&& (b.alive <==> b.hits > 0)
    &&& (b.kind == BrickKind::Indestructible ==> b.hits == b.max_hits)
}

/// A brick after one hit: one hit fewer, and gone when none is left.
pub open spec fn damaged(b: Brick) -> Brick {
    Brick { hits: (b.hits - 1) as u32, alive: b.hits > 1, ..b }
}

/// A brick after an explosion took it.
pub open spec fn wrecked_brick(b: Brick) -> Brick {
    Brick { hits: 0, alive: false, ..b }
}

/// The number of bricks that can still be destroyed.
pub open spec fn live_count(s: Seq<Brick>) -> nat
    decreases s.len(),
{
    if s.len() == 0 {
        0
    } else {
        live_count(s.drop_last()) + if live(s.last()) {
            1nat
        } else {
            0nat
        }
    }
}

/// Whether some brick can still be destroyed.
pub open spec fn any_live(s: Seq<Brick>) -> bool {
    exists|i: int| 0 <= i < s.len() && live(#[trigger] s[i])
}

/// The shield after a ball falls past the paddle: a charge is spent, and the shield
/// goes when no charge is left.
pub open spec fn shield_after_fall(active: bool, hits: u32) -> (bool, u32) {
    if active {
        let left = if hits > 0 {
            (hits - 1) as u32
        } else {
            0u32
        };
        (left != 0, left)
    } else {
        (active, hits)
    }
}

/// The paddle's width after a power-up.
pub open spec fn paddle_after(kind: PowerupKind, w: u32) -> u32 {
    match kind {
        PowerupKind::WidePaddle => if w + 40 < PADDLE_W_MAX {
            (w + 40) as u32
        } else {
            PADDLE_W_MAX
        },
        PowerupKind::ShrinkPaddle => if w - 30 > PADDLE_W_MIN {
            (w - 30) as u32
        } else {
            PADDLE_W_MIN
        },
        _ => w,
    }
}

/// Destroying one live brick lowers the count of live bricks by one.
pub proof fn lemma_live_count_update(s: Seq<Brick>, i: int, b: Brick)
    requires
        0 <= i < s.len(),
        live(s[i]),
        !live(b),
    ensures
        live_count(s.update(i, b)) + 1 == live_count(s),
    decreases s.len(),
{
    let t = s.update(i, b);
    if i == s.len() - 1 {
        assert(t.drop_last() =~= s.drop_last());
    } else {
        assert(t.drop_last() =~= s.drop_last().update(i, b));
        lemma_live_count_update(s.drop_last(), i, b);
    }
}

impl Game {
    /// Paddle width in range, shield charges matching the shield, every brick consistent.
    pub open spec fn wf(&self) -> bool {
        &&& PADDLE_W_MIN <= self.paddle_w <= PADDLE_W_MAX
        &&& (self.shield_active <==> self.shield_hits > 0)
        &&& self.shield_hits <= SHIELD_CHARGES
        &&& forall|i: int| 0 <= i < self.bricks@.len() ==> brick_wf(#[trigger] self.bricks@[i])
    }

    /// The state right after a level began from a game with the given score, lives and shield.
    pub open spec fn began_level(
        &self,
        level: u32,
        score: u32,
        lives: u32,
        shield_active: bool,
        shield_hits: u32,
    ) -> bool {
        &&& self.level == level
        &&& self.bricks@ == spec_level_bricks(level)
        &&& self.paddle_w == PADDLE_W_DEFAULT
        &&& !self.magnet_active
        &&& self.combo == 0
        &&& self.state == GameState::Playing
        &&& self.score == score
        &&& self.lives == lives
        &&& self.shield_active == shield_active
        &&& self.shield_hits == shield_hits
    }

    /// A new game at the menu: no bricks, no score, three lives, no shield, no magnet.
    pub fn new() -> (g: Game)
        ensures
            g.wf(),
            g.paddle_w == PADDLE_W_DEFAULT,
            g.bricks@.len() == 0,
            g.score == 0,
            g.lives == LIVES_INIT,
            g.level == 0,
            g.combo == 0,
            g.state == GameState::Menu,
            !g.shield_active,
            g.shield_hits == 0,
            !g.magnet_active,
    {
        Game {
            paddle_w: PADDLE_W_DEFAULT,
            bricks: Vec::new(),
            score: 0,
            lives: LIVES_INIT,
            level: 0,
            combo: 0,
            state: GameState::Menu,
            shield_active: false,
            shield_hits: 0,
            magnet_active: false,
        }
    }

    /// Begins a level: lays out its bricks, restores the paddle, ends the magnet, resets
    /// the combo and starts play; score, lives and shield carry over.
    pub fn start_level(&mut self, level: u32)
        requires
            old(self).wf(),
            level >= 1,
        ensures
            final(self).wf(),
            final(self).began_level(
                level,
                old(self).score,
                old(self).lives,
                old(self).shield_active,
                old(self).shield_hits,
            ),
    {
        proof {
            lemma_level_layout(level);
        }
        self.level = level;
        self.bricks = level_bricks(level);
        self.paddle_w = PADDLE_W_DEFAULT;
        self.magnet_active = false;
        self.combo = 0;
        self.state = GameState::Playing;
        assert forall|i: int| 0 <= i < self.bricks@.len() implies brick_wf(#[trigger] self.bricks@[i]) by {
            let b = self.bricks@[i];
            assert(b.alive && b.hits == b.max_hits && b.max_hits == spec_durability(b.kind));
        }
    }

    /// Applies the rules' part of a collected power-up: widening or shrinking the paddle
    /// (within 50 to 240 pixels), an extra life, a fresh three-charge shield, the magnet.
    /// The other kinds act on balls, bullets and timers only, which the caller holds.
    pub fn apply_powerup(&mut self, kind: PowerupKind)
        requires
            old(self).wf(),
            kind == PowerupKind::ExtraLife ==> old(self).lives < u32::MAX,
        ensures
            final(self).wf(),
            frame_step(*old(self), *final(self)),
            final(self).paddle_w == paddle_after(kind, old(self).paddle_w),
            kind == PowerupKind::WidePaddle ==> final(self).paddle_w == vstd::math::min(
                old(self).paddle_w + 40,
                PADDLE_W_MAX as int,
            ),
            kind == PowerupKind::ShrinkPaddle ==> final(self).paddle_w == vstd::math::max(
                old(self).paddle_w - 30,
                PADDLE_W_MIN as int,
            ),
            kind != PowerupKind::WidePaddle && kind != PowerupKind::ShrinkPaddle ==> final(self).paddle_w
                == old(self).paddle_w,
            final(self).lives == if kind == PowerupKind::ExtraLife {
                old(self).lives + 1
            } else {
                old(self).lives as int
            },
            final(self).shield_active == (kind == PowerupKind::Shield || old(self).shield_active),
            final(self).shield_hits == if kind == PowerupKind::Shield {
                SHIELD_CHARGES
            } else {
                old(self).shield_hits
            },
            final(self).magnet_active == (kind == PowerupKind::Magnet || old(self).magnet_active),
            final(self).bricks@ == old(self).bricks@,
            final(self).score == old(self).score,
            final(self).level == old(self).level,
            final(self).combo == old(self).combo,
            final(self).state == old(self).state,
    {
        match kind {
            PowerupKind::WidePaddle => {
                self.paddle_w = if self.paddle_w + 40 < PADDLE_W_MAX {
                    self.paddle_w + 40
                } else {
                    PADDLE_W_MAX
                };
            },
            PowerupKind::ShrinkPaddle => {
                self.paddle_w = if self.paddle_w > PADDLE_W_MIN + 30 {
                    self.paddle_w - 30
                } else {
                    PADDLE_W_MIN
                };
            },
            PowerupKind::ExtraLife => {
                self.lives = self.lives + 1;
            },
            PowerupKind::Shield => {
                self.shield_active = true;
                self.shield_hits = SHIELD_CHARGES;
            },
            PowerupKind::Magnet => {
                self.magnet_active = true;
            },
            _ => {},
        }
    }

    /// A ball (on fire when `fire` holds) struck the live brick at `index`. An
    /// indestructible brick only turns the ball back. Any other brick loses a hit; when none
    /// is left it is destroyed, the combo grows by one and the score by the brick's base
    /// points times the new combo. Returns what became of the ball (see `spec_strike`).
    pub fn ball_hits_brick(&mut self, index: usize, fire: bool) -> (strike: Strike)
        requires
            old(self).wf(),
            index < old(self).bricks@.len(),
            old(self).bricks@[index as int].alive,
            live(old(self).bricks@[index as int]) && old(self).bricks@[index as int].hits == 1 ==> {
                &&& old(self).combo < u32::MAX
                &&& old(self).score + spec_base_score(old(self).bricks@[index as int].kind) * (
                old(self).combo + 1) <= u32::MAX
            },
        ensures
            final(self).wf(),
            frame_step(*old(self), *final(self)),
            strike == spec_strike(
                old(self).bricks@[index as int].kind,
                fire,
                old(self).bricks@[index as int].hits == 1,
            ),
            strike.explodes == (strike.destroyed && old(self).bricks@[index as int].kind
                == BrickKind::Explosive),
            !strike.drops_powerup,
            strike.passes_on == (fire && old(self).bricks@[index as int].kind != BrickKind::Indestructible),
            strike.bounces == !strike.passes_on,
            ({
                let b = old(self).bricks@[index as int];
                let destroyed = strike.destroyed;
                if b.kind == BrickKind::Indestructible {
                    &&& !destroyed
                    &&& final(self).bricks@ == old(self).bricks@
                    &&& final(self).combo == old(self).combo
                    &&& final(self).score == old(self).score
                } else {
                    &&& destroyed == (b.hits == 1)
                    &&& final(self).bricks@ == old(self).bricks@.update(index as int, damaged(b))
                    &&& final(self).combo == if destroyed {
                        old(self).combo + 1
                    } else {
                        old(self).combo as int
                    }
                    &&& final(self).score == if destroyed {
                        old(self).score + spec_base_score(b.kind) * (old(self).combo + 1)
                    } else {
                        old(self).score as int
                    }
                }
            }),
            final(self).paddle_w == old(self).paddle_w,
            final(self).lives == old(self).lives,
            final(self).level == old(self).level,
            final(self).state == old(self).state,
            final(self).shield_active == old(self).shield_active,
            final(self).shield_hits == old(self).shield_hits,
            final(self).magnet_active == old(self).magnet_active,
    {
        let b = self.bricks[index];
        if b.kind == BrickKind::Indestructible {
            return Strike {
                destroyed: false,
                bounces: true,
                passes_on: false,
                speeds_up: false,
                explodes: false,
                drops_powerup: false,
            };
        }
        assert(brick_wf(self.bricks@[index as int]));
        let hits = b.hits - 1;
        let nb = Brick { hits, alive: hits > 0, ..b };
        self.bricks.set(index, nb);
        assert forall|i: int| 0 <= i < self.bricks@.len() implies brick_wf(#[trigger] self.bricks@[i]) by {
            if i != index {
                assert(self.bricks@[i] == old(self).bricks@[i]);
                assert(brick_wf(old(self).bricks@[i]));
            }
        }
        let destroyed = hits == 0;
        if destroyed {
            self.combo = self.combo + 1;
            let points = b.kind.base_score() * self.combo;
            self.score = self.score + points;
        }
        let explodes = destroyed && b.kind == BrickKind::Explosive;
        Strike { destroyed, bounces: !fire, passes_on: fire, speeds_up: true, explodes, drops_powerup: false }
    }

    /// A bullet struck the live, destructible brick at `index`: the brick loses a hit and,
    /// when none is left, is destroyed for five points. The combo is not touched.
    /// Returns what became of the brick (see `spec_shot`).
    pub fn bullet_hits_brick(&mut self, index: usize) -> (shot: Shot)
        requires
            old(self).wf(),
            index < old(self).bricks@.len(),
            live(old(self).bricks@[index as int]),
            old(self).bricks@[index as int].hits == 1 ==> old(self).score + BULLET_POINTS <= u32::MAX,
        ensures
            final(self).wf(),
            frame_step(*old(self), *final(self)),
            shot == spec_shot(
                old(self).bricks@[index as int].kind,
                old(self).bricks@[index as int].hits == 1,
            ),
            shot.destroyed == (old(self).bricks@[index as int].hits == 1),
            shot.drops_powerup == shot.destroyed,
            shot.explodes == (shot.destroyed && old(self).bricks@[index as int].kind
                == BrickKind::Explosive),
            final(self).bricks@ == old(self).bricks@.update(
                index as int,
                damaged(old(self).bricks@[index as int]),
            ),
            final(self).score == if shot.destroyed {
                old(self).score + BULLET_POINTS
            } else {
                old(self).score as int
            },
            final(self).combo == old(self).combo,
            final(self).paddle_w == old(self).paddle_w,
            final(self).lives == old(self).lives,
            final(self).level == old(self).level,
            final(self).state == old(self).state,
            final(self).shield_active == old(self).shield_active,
            final(self).shield_hits == old(self).shield_hits,
            final(self).magnet_active == old(self).magnet_active,
    {
        let b = self.bricks[index];
        assert(brick_wf(self.bricks@[index as int]));
        let hits = b.hits - 1;
        let nb = Brick { hits, alive: hits > 0, ..b };
        self.bricks.set(index, nb);
        assert forall|i: int| 0 <= i < self.bricks@.len() implies brick_wf(#[trigger] self.bricks@[i]) by {
            if i != index {
                assert(self.bricks@[i] == old(self).bricks@[i]);
                assert(brick_wf(old(self).bricks@[i]));
            }
        }
        let destroyed = hits == 0;
        if destroyed {
            self.score = self.score + BULLET_POINTS;
        }
        Shot { destroyed, explodes: destroyed && b.kind == BrickKind::Explosive, drops_powerup: destroyed }
    }

    /// The last ball in play was lost: a life goes (never below zero) and the combo resets.
    /// With no life left the game is lost; otherwise the paddle is restored and the caller
    /// puts a new ball on it. Returns whether a new ball is due.
    pub fn lose_ball(&mut self) -> (respawn: bool)
        requires
            old(self).wf(),
        ensures
            final(self).wf(),
            frame_step(*old(self), *final(self)),
            final(self).lives == if old(self).lives > 0 {
                old(self).lives - 1
            } else {
                0
            },
            final(self).combo == 0,
            respawn == (final(self).lives > 0),
            final(self).state == if respawn {
                old(self).state
            } else {
                GameState::Lost
            },
            final(self).paddle_w == if respawn {
                PADDLE_W_DEFAULT
            } else {
                old(self).paddle_w
            },
            final(self).bricks@ == old(self).bricks@,
            final(self).score == old(self).score,
            final(self).level == old(self).level,
            final(self).shield_active == old(self).shield_active,
            final(self).shield_hits == old(self).shield_hits,
            final(self).magnet_active == old(self).magnet_active,
    {
        self.lives = if self.lives > 0 {
            self.lives - 1
        } else {
            0
        };
        self.combo = 0;
        if self.lives == 0 {
            self.state = GameState::Lost;
            false
        } else {
            self.paddle_w = PADDLE_W_DEFAULT;
            true
        }
    }

    /// A ball fell past the paddle. An active shield catches it and spends a charge.
    /// Returns whether the ball was caught.
    pub fn absorb_fall(&mut self) -> (caught: bool)
        requires
            old(self).wf(),
        ensures
            final(self).wf(),
            frame_step(*old(self), *final(self)),
            caught == old(self).shield_active,
            (final(self).shield_active, final(self).shield_hits) == shield_after_fall(
                old(self).shield_active,
                old(self).shield_hits,
            ),
            final(self).bricks@ == old(self).bricks@,
            final(self).paddle_w == old(self).paddle_w,
            final(self).score == old(self).score,
            final(self).lives == old(self).lives,
            final(self).level == old(self).level,
            final(self).combo == old(self).combo,
            final(self).state == old(self).state,
            final(self).magnet_active == old(self).magnet_active,
    {
        if self.shield_active {
            self.shield_hits = if self.shield_hits > 0 {
                self.shield_hits - 1
            } else {
                0
            };
            if self.shield_hits == 0 {
                self.shield_active = false;
            }
            true
        } else {
            false
        }
    }

    /// A ball came down on the paddle: the combo resets. Returns whether the ball sticks
    /// to the paddle, which it does while the magnet is active.
    pub fn paddle_contact(&mut self) -> (sticks: bool)
        requires
            old(self).wf(),
        ensures
            final(self).wf(),
            frame_step(*old(self), *final(self)),
            sticks == old(self).magnet_active,
            final(self).combo == 0,
            final(self).bricks@ == old(self).bricks@,
            final(self).paddle_w == old(self).paddle_w,
            final(self).score == old(self).score,
            final(self).lives == old(self).lives,
            final(self).level == old(self).level,
            final(self).state == old(self).state,
            final(self).shield_active == old(self).shield_active,
            final(self).shield_hits == old(self).shield_hits,
            final(self).magnet_active == old(self).magnet_active,
    {
        self.combo = 0;
        self.magnet_active
    }

    /// The magnet's time ran out.
    pub fn end_magnet(&mut self)
        requires
            old(self).wf(),
        ensures
            final(self).wf(),
            frame_step(*old(self), *final(self)),
            !final(self).magnet_active,
            final(self).bricks@ == old(self).bricks@,
            final(self).paddle_w == old(self).paddle_w,
            final(self).score == old(self).score,
            final(self).lives == old(self).lives,
            final(self).level == old(self).level,
            final(self).combo == old(self).combo,
            final(self).state == old(self).state,
            final(self).shield_active == old(self).shield_active,
            final(self).shield_hits == old(self).shield_hits,
    {
        self.magnet_active = false;
    }

    /// Whether some brick that can be destroyed is still standing.
    pub fn destroyable_left(&self) -> (left: bool)
        ensures
            left == any_live(self.bricks@),
    {
        let n = self.bricks.len();
        for i in 0..n
            invariant
                n == self.bricks@.len(),
                forall|k: int| 0 <= k < i ==> !live(#[trigger] self.bricks@[k]),
        {
            let b = &self.bricks[i];
            if b.alive && b.kind != BrickKind::Indestructible {
                assert(live(self.bricks@[i as int]));
                return true;
            }
        }
        false
    }

    /// Ends a level in play whose destructible bricks are all gone, with a bonus of 500
    /// points per level number. Returns whether the level was cleared.
    pub fn check_level_clear(&mut self) -> (cleared: bool)
        requires
            old(self).wf(),
            old(self).state == GameState::Playing && !any_live(old(self).bricks@) ==> old(self).score
                + LEVEL_BONUS * old(self).level <= u32::MAX,
        ensures
            final(self).wf(),
            frame_step(*old(self), *final(self)),
            cleared == (old(self).state == GameState::Playing && !any_live(old(self).bricks@)),
            final(self).state == if cleared {
                GameState::LevelClear
            } else {
                old(self).state
            },
            final(self).score == if cleared {
                old(self).score + LEVEL_BONUS * old(self).level
            } else {
                old(self).score as int
            },
            final(self).bricks@ == old(self).bricks@,
            final(self).paddle_w == old(self).paddle_w,
            final(self).lives == old(self).lives,
            final(self).level == old(self).level,
            final(self).combo == old(self).combo,
            final(self).shield_active == old(self).shield_active,
            final(self).shield_hits == old(self).shield_hits,
            final(self).magnet_active == old(self).magnet_active,
    {
        let left = self.destroyable_left();
        if !left && self.state == GameState::Playing {
            self.state = GameState::LevelClear;
            self.score = self.score + LEVEL_BONUS * self.level;
            true
        } else {
            false
        }
    }

    /// A click (or the Enter key) outside play: at the menu it starts level 1; once a
    /// cleared level's pause is over (`pause_over`) it starts the next level; after game
    /// over it starts a new game at level 1. Returns whether a level began.
    pub fn handle_click(&mut self, pause_over: bool) -> (started: bool)
        requires
            old(self).wf(),
            old(self).state == GameState::LevelClear && pause_over ==> old(self).level < u32::MAX,
        ensures
            final(self).wf(),
            started == (old(self).state == GameState::Menu || old(self).state == GameState::Lost || (
            old(self).state == GameState::LevelClear && pause_over)),
            old(self).state == GameState::Menu ==> final(self).began_level(
                1,
                old(self).score,
                old(self).lives,
                old(self).shield_active,
                old(self).shield_hits,
            ),
            old(self).state == GameState::LevelClear && pause_over ==> final(self).began_level(
                (old(self).level + 1) as u32,
                old(self).score,
                old(self).lives,
                old(self).shield_active,
                old(self).shield_hits,
            ),
            old(self).state == GameState::Lost ==> final(self).began_level(
                1,
                0,
                LIVES_INIT,
                false,
                0,
            ),
            !started ==> {
                &&& final(self).bricks@ == old(self).bricks@
                &&& final(self).paddle_w == old(self).paddle_w
                &&& final(self).score == old(self).score
                &&& final(self).lives == old(self).lives
                &&& final(self).level == old(self).level
                &&& final(self).combo == old(self).combo
                &&& final(self).state == old(self).state
                &&& final(self).shield_active == old(self).shield_active
                &&& final(self).shield_hits == old(self).shield_hits
                &&& final(self).magnet_active == old(self).magnet_active
            },
    {
        match self.state {
            GameState::Menu => {
                self.start_level(1);
                true
            },
            GameState::LevelClear => {
                if pause_over {
                    let next = self.level + 1;
                    self.start_level(next);
                    true
                } else {
                    false
                }
            },
            GameState::Lost => {
                *self = Game::new();
                self.start_level(1);
                true
            },
            GameState::Playing => false,
        }
    }
}

/// Law: no rule ever destroys an indestructible brick: in every well-formed game each of
/// them stands with all its hits.
pub proof fn lemma_indestructible_bricks_stand(g: &Game)
    requires
        g.wf(),
    ensures
        forall|i: int|
            0 <= i < g.bricks@.len() && (#[trigger] g.bricks@[i]).kind == BrickKind::Indestructible
                ==> g.bricks@[i].alive && g.bricks@[i].hits == spec_durability(BrickKind::Indestructible),
{
    assert forall|i: int|
        0 <= i < g.bricks@.len() && (#[trigger] g.bricks@[i]).kind == BrickKind::Indestructible
            implies g.bricks@[i].alive && g.bricks@[i].hits == spec_durability(BrickKind::Indestructible) by {
        assert(brick_wf(g.bricks@[i]));
    }
}

/// Law: a fresh shield catches exactly three falls: it is still up after the first and the
/// second, and gone after the third.
pub proof fn lemma_shield_catches_three_falls()
    ensures
        ({
            let first = shield_after_fall(true, SHIELD_CHARGES);
            let second = shield_after_fall(first.0, first.1);
            let third = shield_after_fall(second.0, second.1);
            &&& first.0
            &&& second.0
            &&& !third.0
            &&& third == shield_after_fall(third.0, third.1)
        }),
{
}

/// Law: every level begins with a brick to destroy, so no level is clear before play.
pub proof fn lemma_every_level_has_work(level: u32)
    requires
        level >= 1,
    ensures
        any_live(spec_level_bricks(level)),
{
    let pattern = spec_pattern(level);
    let rows = spec_rows(pattern);
    let c: usize = if pattern == 1 {
        5
    } else if pattern == 2 {
        1
    } else {
        0
    };
    assert(1 < rows && c < COLS);
    assert(spec_present(pattern, 1, c as int, rows as int));
    lemma_level_layout(level);
    let s = spec_level_bricks(level);
    let i = choose|i: int| 0 <= i < s.len() && #[trigger] s[i].row == 1usize && s[i].col == c;
    assert(live(s[i]));
}

/// Which balls stay after a frame, from whether each ball is in play (moving or held by
/// the magnet): while some ball is in play the others go; when none is, all stay (to be
/// put back on the paddle). The last ball counts as lost when some ball was in play and
/// none that stays is.
pub fn sweep_balls(in_play: &Vec<bool>) -> (sweep: BallSweep)
    ensures
        sweep.keep@ == spec_keep(in_play@),
        sweep.last_ball_lost == spec_last_ball_lost(in_play@),
{
    let n = in_play.len();
    let mut had = false;
    for i in 0..n
        invariant
            n == in_play@.len(),
            had == exists|k: int| 0 <= k < i && #[trigger] in_play@[k],
    {
        if in_play[i] {
            had = true;
        }
    }
    let mut keep: Vec<bool> = Vec::new();
    let mut left = false;
    for i in 0..n
        invariant
            n == in_play@.len(),
            had == any_in_play(in_play@),
            keep@.len() == i,
            forall|k: int| 0 <= k < i ==> #[trigger] keep@[k] == (in_play@[k] || !had),
            left == exists|k: int| 0 <= k < i && #[trigger] keep@[k] && in_play@[k],
    {
        let stays = in_play[i] || !had;
        let ghost before = keep@;
        keep.push(stays);
        if stays && in_play[i] {
            left = true;
        }
        proof {
            assert(forall|k: int| 0 <= k < i ==> keep@[k] == before[k]);
            assert(keep@[i as int] == stays);
        }
    }
    proof {
        assert(keep@ =~= spec_keep(in_play@));
    }
    BallSweep { keep, last_ball_lost: had && !left }
}

/// Law: as the rules are written, the last ball is never lost: the check runs on the balls
/// that stay, and while some ball is in play every ball that stays is in play. (A ball that
/// falls out of play is put back on the paddle instead, and no life is spent.)
pub proof fn lemma_last_ball_never_lost(in_play: Seq<bool>)
    ensures
        !spec_last_ball_lost(in_play),
{
    if any_in_play(in_play) {
        let i = choose|i: int| 0 <= i < in_play.len() && #[trigger] in_play[i];
        assert(spec_keep(in_play)[i] && in_play[i]);
    }
}

/// Law: the steps of a frame of play compose: whatever sequence of rule steps a frame
/// takes, the score does not go down, the level stays, the bricks change only by losing
/// hits and falling (indestructible ones not at all), and a level cleared in the frame
/// earned at least its bonus.
pub proof fn lemma_frame_steps_compose(a: Game, b: Game, c: Game)
    requires
        frame_step(a, b),
        frame_step(b, c),
    ensures
        frame_step(a, c),
{
    assert forall|i: int| 0 <= i < a.bricks@.len() implies {
        &&& (#[trigger] c.bricks@[i]).row == a.bricks@[i].row
        &&& c.bricks@[i].col == a.bricks@[i].col
        &&& c.bricks@[i].kind == a.bricks@[i].kind
        &&& c.bricks@[i].color == a.bricks@[i].color
        &&& c.bricks@[i].max_hits == a.bricks@[i].max_hits
        &&& c.bricks@[i].hits <= a.bricks@[i].hits
        &&& (!a.bricks@[i].alive ==> !c.bricks@[i].alive)
        &&& (a.bricks@[i].kind == BrickKind::Indestructible ==> c.bricks@[i] == a.bricks@[i])
    } by {
        assert(b.bricks@[i].row == a.bricks@[i].row);
        assert(c.bricks@[i].row == b.bricks@[i].row);
    }
}

/// Law: a whole frame of play, taken as the sequence of states its rule steps pass
/// through, keeps the promises of a single step: from the first state to the last the
/// score does not go down, the level stays, the bricks change only by losing hits and
/// falling (indestructible ones not at all), and a level cleared in the frame earned at
/// least its bonus.
pub proof fn lemma_frame(states: Seq<Game>)
    requires
        states.len() >= 1,
        forall|i: int| 0 <= i < states.len() - 1 ==> frame_step(#[trigger] states[i], states[i + 1]),
    ensures
        frame_step(states[0], states.last()),
    decreases states.len(),
{
    if states.len() == 1 {
        assert(bricks_step(states[0].bricks@, states[0].bricks@));
    } else {
        let init = states.drop_last();
        assert forall|i: int| 0 <= i < init.len() - 1 implies frame_step(#[trigger] init[i], init[i + 1]) by {
            assert(frame_step(states[i], states[i + 1]));
        }
        lemma_frame(init);
        assert(frame_step(states[states.len() - 2], states[states.len() - 1]));
        lemma_frame_steps_compose(states[0], init.last(), states.last());
    }
}

/// Law: a widening power-up adds 40 pixels to the paddle but never takes it past 240, so
/// it never narrows the paddle and a paddle within 40 pixels of the maximum ends at the
/// maximum; a shrinking one takes 30 pixels off but never goes below 50; no other kind
/// touches the width.
pub proof fn lemma_paddle_steps(w: u32)
    ensures
        paddle_after(PowerupKind::WidePaddle, w) == vstd::math::min(w + 40, 240),
        paddle_after(PowerupKind::WidePaddle, w) >= vstd::math::min(w as int, 240),
        w + 40 >= 240 ==> paddle_after(PowerupKind::WidePaddle, w) == 240,
        paddle_after(PowerupKind::ShrinkPaddle, w) == vstd::math::max(w - 30, 50),
        w - 30 <= 50 ==> paddle_after(PowerupKind::ShrinkPaddle, w) == 50,
        forall|k: PowerupKind|
            k != PowerupKind::WidePaddle && k != PowerupKind::ShrinkPaddle ==> #[trigger] paddle_after(k, w)
                == w,
{
}

/// Law: whatever a ball strikes, fire or no fire, the brick explodes exactly when the
/// strike destroys it and it is explosive; fire decides only whether the ball goes on
/// through a breakable brick; a ball never earns a power-up drop; only an indestructible
/// brick survives a last hit.
pub proof fn lemma_strike_rules(kind: BrickKind, fire: bool, last_hit: bool)
    ensures
        spec_strike(kind, fire, last_hit).explodes == (spec_strike(kind, fire, last_hit).destroyed
            && kind == BrickKind::Explosive),
        spec_strike(kind, true, last_hit).explodes == spec_strike(kind, false, last_hit).explodes,
        spec_strike(kind, true, last_hit).destroyed == spec_strike(kind, false, last_hit).destroyed,
        spec_strike(kind, fire, last_hit).destroyed == (last_hit && kind != BrickKind::Indestructible),
        kind == BrickKind::Explosive && last_hit ==> spec_strike(kind, fire, last_hit).explodes,
        spec_strike(kind, fire, last_hit).passes_on == (fire && kind != BrickKind::Indestructible),
        spec_strike(kind, fire, last_hit).bounces != spec_strike(kind, fire, last_hit).passes_on,
        !spec_strike(kind, fire, last_hit).drops_powerup,
        spec_strike(kind, fire, last_hit).speeds_up == (kind != BrickKind::Indestructible),
{
}

/// Law: every brick that a bullet destroys, of any kind, gets the chance of a power-up
/// drop, and it explodes exactly when it is explosive; a bullet that only wears a brick
/// down does neither.
pub proof fn lemma_shot_rules(kind: BrickKind, last_hit: bool)
    ensures
        spec_shot(kind, last_hit).destroyed == last_hit,
        spec_shot(kind, last_hit).drops_powerup == last_hit,
        spec_shot(kind, last_hit).explodes == (last_hit && kind == BrickKind::Explosive),
        forall|k1: BrickKind, k2: BrickKind| #[trigger] spec_shot(k1, last_hit).drops_powerup
            == #[trigger] spec_shot(k2, last_hit).drops_powerup,
{
}

/// Law: a power-up keeps the paddle's width between 50 and 240 pixels.
pub proof fn lemma_paddle_stays_in_bounds(kind: PowerupKind, w: u32)
    requires
        PADDLE_W_MIN <= w <= PADDLE_W_MAX,
    ensures
        PADDLE_W_MIN <= paddle_after(kind, w) <= PADDLE_W_MAX,
{
}

} // verus!
