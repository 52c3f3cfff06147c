//! The rules of a brick-breaking game: level layouts, brick damage, scoring,
//! power-ups, explosions and the flow between menu, play, level clear and game over.
pub mod kinds;
pub mod drops;
pub mod layout;
pub mod game;
pub mod blast;
