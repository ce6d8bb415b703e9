//! The engine of a 15-puzzle: a 4x4 board of sliding tiles, the moves that
//! act on it, the random walk that scrambles it, and the game around it.
//!
//! `model` holds the mathematics that every contract speaks of, `board` the
//! executable board, `shuffle` the scrambling walk and `game` a game in
//! play. `tiles` cuts a picture into the tiles of the board, `gallery`
//! picks that picture among the files of a directory, and `console` reads
//! and writes the game as text.
//!
//! Four modules stand between the library and code that is not verified:
//! `rng` (the `rand` crate), `picture` (the `image` crate), `clock`
//! (`std::time`) and `text` (`str::to_lowercase`). What they state is
//! believed, not proved.

pub mod board;
pub mod clock;
pub mod console;
pub mod direction;
pub mod gallery;
pub mod game;
pub mod model;
pub mod picture;
pub mod rng;
pub mod shuffle;
pub mod text;
pub mod tiles;
