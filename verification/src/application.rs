pub mod savegame;
pub mod tetris;
