//! Game logic of a small collection of terminal games: a falling-block
//! puzzle, a poker hand evaluator, a word-guessing game and two dungeon
//! crawlers built on an entity/component model.

mod equality_helpers;
mod random;
mod text;
pub mod dungeon;
pub mod grid;
pub mod poker;
pub mod tetris;
pub mod word_dungeon;
pub mod wordle;
pub mod wordle_classic;
