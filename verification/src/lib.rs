//! Game logic of a small arcade for a 16x2 character LCD: grid positions,
//! the games (block catch, black jack, space shooter, sokoban, note beat,
//! moon landing) and the overworld that selects between them, the random
//! number generator they share, the pacing of frames, and the byte-level
//! protocol of the LCD.

pub mod display;
pub mod frame;
pub mod game;
pub mod lcd;
pub mod rng;
pub mod screen;
