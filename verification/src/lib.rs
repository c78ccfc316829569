//! Game logic of a falling-block puzzle: pieces and their rotations, the well,
//! line clearing and scoring, the high-score table and the screens' decisions.

pub mod application;
pub mod game;
pub mod input;
pub mod screens;
