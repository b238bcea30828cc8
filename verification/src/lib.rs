//! Core of a chess engine: a transposition table, move ordering, a negamax
//! search with principal-variation scouting and a capture-only quiescence
//! extension, iterative deepening, and the counters that describe a search.
//!
//! Positions are plain values of this crate. Move generation, move
//! application, hashing and check detection are done by the `chess` crate,
//! and sorting by `rayon`; the module `oracle` and one function of `ordering`
//! state what is taken on trust from them. The evaluator of positions is an
//! argument of the search: any function from a position to a score.
//!
//! - `board`: pieces, moves and positions.
//! - `oracle`: the rules of chess, as the `chess` crate implements them.
//! - `table`: the transposition table.
//! - `statistics`: the counters of a search.
//! - `evaluation`: the rank of a move, and the cached evaluation.
//! - `ordering`: the moves of a position, best first.
//! - `search`: the search itself, and what it computes.
//! - `driver`: iterative deepening, round by round, and the controller that
//!   latches the best move.
//! - `nnue`: the lists of chessmen that a network is given.
//! - `static_eval`, `material`: evaluations that need no network.
//! - `text`, `uci`, `book`: the answer of another engine, and the opening
//!   book.

pub mod board;
pub mod book;
pub mod driver;
pub mod evaluation;
pub mod material;
pub mod nnue;
pub mod oracle;
pub mod ordering;
pub mod search;
pub mod static_eval;
pub mod statistics;
pub mod table;
pub mod text;
pub mod uci;
