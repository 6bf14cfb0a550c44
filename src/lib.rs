//! Rules engine of a trick-taking card game: cards, the deck, the pairwise
//! "beats" relation that decides a trick, and the bookkeeping of a table.
pub mod game;
pub mod online_board;
pub mod user;
