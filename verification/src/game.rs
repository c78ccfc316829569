pub mod block;
pub mod tetromino;
