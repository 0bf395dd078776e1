//! Verified core of a number-guessing game: parsing a guessed integer out of
//! a line of input, and replying to a guess held against a secret value.

pub mod game;
pub mod parse;
