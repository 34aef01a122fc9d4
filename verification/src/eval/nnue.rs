//! The input encoding of the NNUE evaluator: 768 piece-square features seen
//! from each side's perspective.
use crate::types::{Color, PieceType, pt_index};
use vstd::prelude::*;

verus! {

/// Number of input features: 2 colors × 6 piece types × 64 squares.
pub const INPUTS: usize = 768;

/// Width of each accumulator half.
pub const HIDDEN: usize = 256;

/// Quantization scale of the feature transformer.
pub const QA: i32 = 1024;

/// Quantization scale of the output layer.
pub const QB: i32 = 4096;

/// `(white_perspective_index, black_perspective_index)` for a piece: own
/// pieces first, and the board mirrored vertically for Black.
pub fn feature_indices(color: Color, pt: PieceType, sq: usize) -> (r: (usize, usize))
    requires
        sq + 768 <= usize::MAX,
    ensures
        r.0 == (if color == Color::White {
            0int
        } else {
            1int
        } * 6 + pt_index(pt)) * 64 + sq,
        r.1 == (if color == Color::Black {
            0int
        } else {
            1int
        } * 6 + pt_index(pt)) * 64 + (sq ^ 56usize),
{
    let t = pt.index();
    // White perspective: own pieces are White.
    let w_rel_color: usize = if color == Color::White {
        0
    } else {
        1
    };
    let wi = (w_rel_color * 6 + t) * 64 + sq;
    // Black perspective: own pieces are Black; board mirrored vertically.
    let b_rel_color: usize = if color == Color::Black {
        0
    } else {
        1
    };
    let m = sq ^ 56;
    assert(m <= sq + 56) by (bit_vector)
        requires
            m == sq ^ 56usize,
    ;
    let bi = (b_rel_color * 6 + t) * 64 + m;
    (wi, bi)
}

} // verus!
