use vstd::prelude::*;

verus! {

/// The player asked for a new game.
#[derive(Copy, Clone, Debug, PartialEq, Eq, Structural)]
pub struct StartGame();

/// The assets are loaded, or the player left the high scores.
#[derive(Copy, Clone, Debug, PartialEq, Eq, Structural)]
pub struct Loaded();

/// A game ended with `score` (0 where the player only asked for the high scores).
#[derive(Copy, Clone, Debug, PartialEq, Eq, Structural)]
pub struct GameOver {
    pub score: u32,
}

/// An event that moves the application from one screen to another.
#[derive(Copy, Clone, Debug, PartialEq, Eq, Structural)]
pub enum Transition {
    StartGame(StartGame),
    Loaded(Loaded),
    GameOver(GameOver),
}

} // verus!
