pub mod gamescreen;
pub mod highscorescreen;
pub mod loadscreen;
pub mod titlescreen;
pub mod transitions;
