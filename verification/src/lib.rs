//! A compact, fully-legal chess library.
//!
//! Positions have two representations: [`Board`], the working form
//! (per-piece-type and per-color bitboards plus a byte mailbox, an incremental
//! Zobrist key, and make/unmake), and [`Packed`], the 34-byte canonical form.
//! Move generation is fully legal (castling, en passant, promotion); [`Game`]
//! adds the history-dependent draw rules. FEN, UCI and SAN notation are read
//! and written, and the repetition identity follows the FIDE rules.
//!
//! Around the rules sit the analysis server's text handling ([`http`],
//! [`web`], [`uci_client`]), the opening book and the review scheduler of the
//! trainer ([`book`], [`review`]), and the transposition table ([`tt`]).

pub mod attacks;
pub mod bitboard;
pub mod bits;
pub mod board;
pub mod clock;
pub mod book;
pub mod cards;
pub mod eval;
pub mod fen;
pub mod fen_round_trip;
pub mod game;
pub mod http;
pub mod magic;
pub mod movegen;
pub mod moves;
pub mod packed;
pub mod perft;
pub mod pgn;
pub mod repetition;
pub mod review;
pub mod review_api;
pub mod review_log;
pub mod san;
pub mod search;
pub mod selfplay;
pub mod series;
pub mod state;
pub mod text;
pub mod trainer;
pub mod tt;
pub mod types;
pub mod uci;
pub mod uci_client;
pub mod web;
pub mod zobrist;

pub use bitboard::Bitboard;
pub use board::{Board, Undo};
pub use eval::Evaluator;
pub use fen::FenError;
pub use game::{DrawReason, Game, Outcome};
pub use moves::{Move, MoveFlag, MoveList};
pub use packed::Packed;
pub use repetition::RepetitionKey;
pub use search::{Analysis, Engine, Limits, SearchInfo};
pub use types::{CastlingRights, CastlingSide, Color, File, Piece, PieceType, Rank, Square};
