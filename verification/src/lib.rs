//! Rules engine of a falling-block puzzle game.
//!
//! - `piece`: the seven tetrominoes, their occupancy matrices and the
//!   in-place quarter turn.
//! - `board`: the playfield, with the collision test, locking and the
//!   clearing of full rows.
//! - `bag`: the randomizer that deals every kind of piece once before any
//!   kind again.
//! - `game`: the state machine of one game: move, turn, fall, lock, score.
//! - `input`: keys, and how raw input bytes are read as keys.
//! - `feed`: how readings of an outside signal set the pace of gravity.
//! - `session`: what one update of the session loop does to the game.
//! - `render`: the list of paints that shows a board and a game.
//!
//! Every type has a mathematical value, its view, and the contracts of the
//! functions are stated over these values.

pub mod bag;
pub mod board;
pub mod feed;
pub mod game;
pub mod input;
pub mod piece;
pub mod render;
pub mod session;
