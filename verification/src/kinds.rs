//! The kinds of bricks and power-ups, and the fixed facts attached to each kind.
use vstd::prelude::*;

verus! {

/// What a brick is made of.
#[derive(Clone, Copy, Debug, PartialEq, Eq, Structural)]
pub enum BrickKind {
    /// One hit.
    Normal,
    /// Two hits.
    Tough,
    /// Three hits.
    Armored,
    /// One hit; blows up its neighbours when destroyed.
    Explosive,
    /// Never destroyed; balls bounce off it.
    Indestructible,
    /// One hit; slides left and right.
    Moving,
}

/// The power-ups that destroyed bricks may drop.
#[derive(Clone, Copy, Debug, PartialEq, Eq, Structural)]
pub enum PowerupKind {
    MultiBall,
    WidePaddle,
    LaserUpgrade,
    SlowBall,
    ExtraLife,
    Shield,
    /// The ball pierces through bricks.
    FireBall,
    /// Harmful: the paddle shrinks.
    ShrinkPaddle,
    /// Harmful: the balls speed up.
    FastBall,
    /// The ball sticks to the paddle.
    Magnet,
}

/// How a power-up is painted: a named colour of the drawing library, or an RGBA value.
#[derive(Clone, Copy, Debug, PartialEq, Eq, Structural)]
pub enum Tint {
    SkyBlue,
    Green,
    Orange,
    Blue,
    Pink,
    Rgba(u8, u8, u8, u8),
}

/// How a brick is painted: an RGBA value, or a hue in degrees (below 360) of the
/// standard brick saturation and lightness.
#[derive(Clone, Copy, Debug, PartialEq, Eq, Structural)]
pub enum BrickColor {
    Rgba(u8, u8, u8, u8),
    Hue(u32),
}

/// The number of hits that a fresh brick of this kind takes.
pub open spec fn spec_durability(kind: BrickKind) -> u32 {
    match kind {
        BrickKind::Normal => 1,
        BrickKind::Tough => 2,
        BrickKind::Armored => 3,
        BrickKind::Explosive => 1,
        BrickKind::Indestructible => 999,
        BrickKind::Moving => 1,
    }
}

/// The points that a ball earns for destroying a brick of this kind, before the combo factor.
pub open spec fn spec_base_score(kind: BrickKind) -> u32 {
    match kind {
        BrickKind::Armored => 30,
        BrickKind::Tough => 20,
        BrickKind::Explosive => 25,
        BrickKind::Moving => 25,
        _ => 10,
    }
}

impl BrickKind {
    /// The number of hits that a fresh brick of this kind takes (its hits and its maximum).
    pub fn durability(self) -> (n: u32)
        ensures
            n == spec_durability(self),
            n >= 1,
    {
        match self {
            BrickKind::Normal => 1,
            BrickKind::Tough => 2,
            BrickKind::Armored => 3,
            BrickKind::Explosive => 1,
            BrickKind::Indestructible => 999,
            BrickKind::Moving => 1,
        }
    }

    /// The points that a ball earns for destroying a brick of this kind, before the combo factor.
    pub fn base_score(self) -> (points: u32)
        ensures
            points == spec_base_score(self),
            10 <= points <= 30,
    {
        match self {
            BrickKind::Armored => 30,
            BrickKind::Tough => 20,
            BrickKind::Explosive => 25,
            BrickKind::Moving => 25,
            _ => 10,
        }
    }
}

/// Every power-up kind, in the order of declaration.
pub open spec fn spec_all_powerups() -> Seq<PowerupKind> {
    seq![
        PowerupKind::MultiBall,
        PowerupKind::WidePaddle,
        PowerupKind::LaserUpgrade,
        PowerupKind::SlowBall,
        PowerupKind::ExtraLife,
        PowerupKind::Shield,
        PowerupKind::FireBall,
        PowerupKind::ShrinkPaddle,
        PowerupKind::FastBall,
        PowerupKind::Magnet,
    ]
}

/// The harmful power-ups.
pub open spec fn spec_is_negative(kind: PowerupKind) -> bool {
    kind == PowerupKind::ShrinkPaddle || kind == PowerupKind::FastBall
}

/// The power-ups that help the player, in the order of declaration.
pub open spec fn spec_positives() -> Seq<PowerupKind> {
    spec_all_powerups().filter(|k: PowerupKind| !spec_is_negative(k))
}

/// The single letter drawn on a falling power-up.
pub open spec fn spec_label(kind: PowerupKind) -> Seq<char> {
    match kind {
        PowerupKind::MultiBall => "M"@,
        PowerupKind::WidePaddle => "W"@,
        PowerupKind::LaserUpgrade => "L"@,
        PowerupKind::SlowBall => "S"@,
        PowerupKind::ExtraLife => "+"@,
        PowerupKind::Shield => "="@,
        PowerupKind::FireBall => "F"@,
        PowerupKind::ShrinkPaddle => "v"@,
        PowerupKind::FastBall => "!"@,
        PowerupKind::Magnet => "@"@,
    }
}

/// The message shown when the paddle collects a power-up.
pub open spec fn spec_pickup_message(kind: PowerupKind) -> Seq<char> {
    match kind {
        PowerupKind::MultiBall => "Multi Ball!"@,
        PowerupKind::WidePaddle => "Wide Paddle!"@,
        PowerupKind::LaserUpgrade => "Rapid Fire!"@,
        PowerupKind::SlowBall => "Slow Ball!"@,
        PowerupKind::ExtraLife => "Extra Life!"@,
        PowerupKind::Shield => "Shield!"@,
        PowerupKind::FireBall => "Fire Ball!"@,
        PowerupKind::ShrinkPaddle => "Shrink!"@,
        PowerupKind::FastBall => "Speed Up!"@,
        PowerupKind::Magnet => "Magnet!"@,
    }
}

/// The paint of a falling power-up.
pub open spec fn spec_tint(kind: PowerupKind) -> Tint {
    match kind {
        PowerupKind::MultiBall => Tint::SkyBlue,
        PowerupKind::WidePaddle => Tint::Green,
        PowerupKind::LaserUpgrade => Tint::Orange,
        PowerupKind::SlowBall => Tint::Blue,
        PowerupKind::ExtraLife => Tint::Pink,
        PowerupKind::Shield => Tint::Rgba(0, 255, 200, 255),
        PowerupKind::FireBall => Tint::Rgba(255, 80, 0, 255),
        PowerupKind::ShrinkPaddle => Tint::Rgba(180, 0, 0, 255),
        PowerupKind::FastBall => Tint::Rgba(180, 0, 0, 255),
        PowerupKind::Magnet => Tint::Rgba(200, 200, 0, 255),
    }
}

impl PowerupKind {
    /// Whether the power-up harms the player.
    pub fn is_negative(self) -> (b: bool)
        ensures
            b == spec_is_negative(self),
    {
        match self {
            PowerupKind::ShrinkPaddle | PowerupKind::FastBall => true,
            _ => false,
        }
    }

    /// The paint of a falling power-up.
    pub fn color(self) -> (t: Tint)
        ensures
            t == spec_tint(self),
    {
        match self {
            PowerupKind::MultiBall => Tint::SkyBlue,
            PowerupKind::WidePaddle => Tint::Green,
            PowerupKind::LaserUpgrade => Tint::Orange,
            PowerupKind::SlowBall => Tint::Blue,
            PowerupKind::ExtraLife => Tint::Pink,
            PowerupKind::Shield => Tint::Rgba(0, 255, 200, 255),
            PowerupKind::FireBall => Tint::Rgba(255, 80, 0, 255),
            PowerupKind::ShrinkPaddle => Tint::Rgba(180, 0, 0, 255),
            PowerupKind::FastBall => Tint::Rgba(180, 0, 0, 255),
            PowerupKind::Magnet => Tint::Rgba(200, 200, 0, 255),
        }
    }

    /// The single letter drawn on a falling power-up.
    pub fn label(self) -> (s: &'static str)
        ensures
            s@ == spec_label(self),
    {
        match self {
            PowerupKind::MultiBall => "M",
            PowerupKind::WidePaddle => "W",
            PowerupKind::LaserUpgrade => "L",
            PowerupKind::SlowBall => "S",
            PowerupKind::ExtraLife => "+",
            PowerupKind::Shield => "=",
            PowerupKind::FireBall => "F",
            PowerupKind::ShrinkPaddle => "v",
            PowerupKind::FastBall => "!",
            PowerupKind::Magnet => "@",
        }
    }

    /// The message shown when the paddle collects this power-up.
    pub fn pickup_message(self) -> (s: &'static str)
        ensures
            s@ == spec_pickup_message(self),
    {
        match self {
            PowerupKind::MultiBall => "Multi Ball!",
            PowerupKind::WidePaddle => "Wide Paddle!",
            PowerupKind::LaserUpgrade => "Rapid Fire!",
            PowerupKind::SlowBall => "Slow Ball!",
            PowerupKind::ExtraLife => "Extra Life!",
            PowerupKind::Shield => "Shield!",
            PowerupKind::FireBall => "Fire Ball!",
            PowerupKind::ShrinkPaddle => "Shrink!",
            PowerupKind::FastBall => "Speed Up!",
            PowerupKind::Magnet => "Magnet!",
        }
    }
}

/// Every power-up kind, in the order of declaration.
pub fn all_powerups() -> (v: Vec<PowerupKind>)
    ensures
        v@ == spec_all_powerups(),
{
    let v = vec![
        PowerupKind::MultiBall,
        PowerupKind::WidePaddle,
        PowerupKind::LaserUpgrade,
        PowerupKind::SlowBall,
        PowerupKind::ExtraLife,
        PowerupKind::Shield,
        PowerupKind::FireBall,
        PowerupKind::ShrinkPaddle,
        PowerupKind::FastBall,
        PowerupKind::Magnet,
    ];
    assert(v@ =~= spec_all_powerups());
    v
}

} // verus!
