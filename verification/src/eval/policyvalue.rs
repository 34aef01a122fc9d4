//! The policy/value network's move and feature encodings.
use crate::moves::{Move, mfrom, mto};
use vstd::prelude::*;

verus! {

/// Number of input features: 2 colors × 6 piece types × 64 squares.
pub const INPUTS: usize = 768;

/// Feature-transformer width.
pub const FT: usize = 256;

/// Hidden-layer width.
pub const HID: usize = 256;

/// Number of policy outputs: `from * 64 + to`.
pub const POLICY: usize = 4096;

/// Policy index for a move (promotions of the same from/to share an index).
pub fn move_index(mv: Move) -> (r: usize)
    ensures
        r == mfrom(mv) * 64 + mto(mv),
        r < POLICY,
{
    mv.from().index() * 64 + mv.to().index()
}

} // verus!
