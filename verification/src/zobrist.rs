//! Zobrist hashing keys.
//!
//! The key table has the Polyglot layout: 768 piece-square keys (piece kind
//! `2 * piece_type + (white ? 1 : 0)`, then square), 4 castling keys, 8
//! en-passant file keys, and one side-to-move key. Each key is the SplitMix64
//! output for its table index, so the table is fixed and reproducible.

use crate::types::{CastlingRights, Color, File, Piece, color_index, pt_index};
use vstd::prelude::*;

verus! {

pub open spec fn mul64(x: u64, y: u64) -> u64 {
    vstd::wrapping::u64_specs::wrapping_mul(x, y)
}

pub open spec fn add64(x: u64, y: u64) -> u64 {
    vstd::wrapping::u64_specs::wrapping_add(x, y)
}

/// The SplitMix64 finalizer.
pub open spec fn mix(z: u64) -> u64 {
    let z1 = mul64(z ^ (z >> 30u64), 0xBF58476D1CE4E5B9u64);
    let z2 = mul64(z1 ^ (z1 >> 27u64), 0x94D049BB133111EBu64);
    z2 ^ (z2 >> 31u64)
}

/// The key at table index `i`.
pub open spec fn zkey(i: u64) -> u64 {
    mix(mul64(add64(i, 1), 0x9E3779B97F4A7C15u64))
}

/// Table index of a piece-square key.
pub open spec fn piece_index(p: Piece, sq: int) -> int {
    64 * (2 * pt_index(p.piece_type) + if p.color == Color::White {
        1int
    } else {
        0int
    }) + sq
}

/// Key contribution of piece `p` on square `sq`.
pub open spec fn piece_key_spec(p: Piece, sq: int) -> u64 {
    zkey(piece_index(p, sq) as u64)
}

/// Key contribution of a square's (possibly empty) content.
pub open spec fn content_key(c: Option<Piece>, sq: int) -> u64 {
    match c {
        Some(p) => piece_key_spec(p, sq),
        None => 0,
    }
}

/// Combined key of a castling-rights set.
pub open spec fn castling_key_spec(c: u8) -> u64 {
    (if c & 1u8 != 0 {
        zkey(768)
    } else {
        0u64
    }) ^ (if c & 2u8 != 0 {
        zkey(769)
    } else {
        0u64
    }) ^ (if c & 4u8 != 0 {
        zkey(770)
    } else {
        0u64
    }) ^ (if c & 8u8 != 0 {
        zkey(771)
    } else {
        0u64
    })
}

pub open spec fn ep_file_key_spec(file: int) -> u64 {
    zkey((772 + file) as u64)
}

pub open spec fn turn_key_spec() -> u64 {
    zkey(780)
}

/// The key at table index `i`.
fn random_key(i: u64) -> (r: u64)
    ensures
        r == zkey(i),
{
    let z = (i.wrapping_add(1)).wrapping_mul(0x9E3779B97F4A7C15u64);
    let z1 = (z ^ (z >> 30)).wrapping_mul(0xBF58476D1CE4E5B9u64);
    let z2 = (z1 ^ (z1 >> 27)).wrapping_mul(0x94D049BB133111EBu64);
    z2 ^ (z2 >> 31)
}

/// Key contribution of `piece` standing on `square` (0..64, a1=0).
pub fn piece_key(piece: Piece, square: u8) -> (r: u64)
    requires
        square < 64,
    ensures
        r == piece_key_spec(piece, square as int),
{
    let kind = 2 * piece.piece_type.index() as u64 + match piece.color {
        Color::White => 1u64,
        Color::Black => 0u64,
    };
    random_key(64 * kind + square as u64)
}

/// Key for a single castling right by its canonical index
/// (0 = White O-O, 1 = White O-O-O, 2 = Black O-O, 3 = Black O-O-O).
pub fn castling_index_key(i: usize) -> (r: u64)
    requires
        i < 4,
    ensures
        r == zkey((768 + i) as u64),
{
    random_key(768 + i as u64)
}

/// Combined key for a whole set of castling rights.
pub fn castling_key(rights: CastlingRights) -> (r: u64)
    ensures
        r == castling_key_spec(rights.0),
{
    let a = if rights.0 & 2 != 0 {
        random_key(769)
    } else {
        0
    };
    let b = if rights.0 & 4 != 0 {
        random_key(770)
    } else {
        0
    };
    let c = if rights.0 & 8 != 0 {
        random_key(771)
    } else {
        0
    };
    let h0 = if rights.0 & 1 != 0 {
        random_key(768)
    } else {
        0
    };
    h0 ^ a ^ b ^ c
}

/// Key for an en-passant file. Per the Polyglot rule it is only applied when
/// a pawn can actually make the en-passant capture.
pub fn ep_file_key(file: File) -> (r: u64)
    requires
        file.0 < 8,
    ensures
        r == ep_file_key_spec(file.0 as int),
{
    random_key(772 + file.0 as u64)
}

/// Key xored in when it is White's turn to move.
pub fn turn_key() -> (r: u64)
    ensures
        r == turn_key_spec(),
{
    random_key(780)
}

} // verus!
