//! Fundamental chess value types: [`Color`], [`PieceType`], [`Piece`],
//! [`File`], [`Rank`], [`Square`], and [`CastlingRights`].
//!
//! Square numbering is little-endian rank-file (LERF): `a1 = 0`, `b1 = 1`,
//! ..., `h1 = 7`, `a2 = 8`, ..., `h8 = 63`.

use vstd::prelude::*;
use vstd::string::StringSliceAdditionalSpecFns;

verus! {

/// Side to move / piece owner.
#[derive(Clone, Copy, PartialEq, Eq, Structural, Hash, Debug)]
pub enum Color {
    White,
    Black,
}

/// Index of a color: `0` for White, `1` for Black.
pub open spec fn color_index(c: Color) -> int {
    match c {
        Color::White => 0,
        Color::Black => 1,
    }
}

/// The opposing color.
pub open spec fn opposite(c: Color) -> Color {
    match c {
        Color::White => Color::Black,
        Color::Black => Color::White,
    }
}

impl Color {
    /// The opposing color.
    pub fn flip(self) -> (r: Color)
        ensures
            r == opposite(self),
    {
        match self {
            Color::White => Color::Black,
            Color::Black => Color::White,
        }
    }

    /// Index `0` (White) or `1` (Black), for array lookups.
    pub fn index(self) -> (r: usize)
        ensures
            r == color_index(self),
    {
        match self {
            Color::White => 0,
            Color::Black => 1,
        }
    }

    /// `+1` for White, `-1` for Black: the direction pawns advance in ranks.
    pub fn forward(self) -> (r: i8)
        ensures
            r == (if self == Color::White {
                1i8
            } else {
                -1i8
            }),
    {
        match self {
            Color::White => 1,
            Color::Black => -1,
        }
    }
}

/// The six kinds of piece, indexed `0..6` in this order.
#[derive(Clone, Copy, PartialEq, Eq, Structural, Hash, Debug)]
pub enum PieceType {
    Pawn,
    Knight,
    Bishop,
    Rook,
    Queen,
    King,
}

/// Index `0..6` of a piece type.
pub open spec fn pt_index(pt: PieceType) -> int {
    match pt {
        PieceType::Pawn => 0,
        PieceType::Knight => 1,
        PieceType::Bishop => 2,
        PieceType::Rook => 3,
        PieceType::Queen => 4,
        PieceType::King => 5,
    }
}

/// The piece type with index `i`, for `0 <= i < 6`.
pub open spec fn pt_from_index(i: int) -> Option<PieceType> {
    if i == 0 {
        Some(PieceType::Pawn)
    } else if i == 1 {
        Some(PieceType::Knight)
    } else if i == 2 {
        Some(PieceType::Bishop)
    } else if i == 3 {
        Some(PieceType::Rook)
    } else if i == 4 {
        Some(PieceType::Queen)
    } else if i == 5 {
        Some(PieceType::King)
    } else {
        None
    }
}

/// Lowercase FEN/SAN letter of a piece type.
pub open spec fn pt_char(pt: PieceType) -> char {
    match pt {
        PieceType::Pawn => 'p',
        PieceType::Knight => 'n',
        PieceType::Bishop => 'b',
        PieceType::Rook => 'r',
        PieceType::Queen => 'q',
        PieceType::King => 'k',
    }
}

/// The piece type named by a letter of either case.
pub open spec fn pt_of_char(c: char) -> Option<PieceType> {
    if c == 'p' || c == 'P' {
        Some(PieceType::Pawn)
    } else if c == 'n' || c == 'N' {
        Some(PieceType::Knight)
    } else if c == 'b' || c == 'B' {
        Some(PieceType::Bishop)
    } else if c == 'r' || c == 'R' {
        Some(PieceType::Rook)
    } else if c == 'q' || c == 'Q' {
        Some(PieceType::Queen)
    } else if c == 'k' || c == 'K' {
        Some(PieceType::King)
    } else {
        None
    }
}

/// Uppercase form of an ASCII lowercase letter (others unchanged).
pub open spec fn upper(c: char) -> char {
    if 'a' <= c && c <= 'z' {
        ((c as u32) - 32) as char
    } else {
        c
    }
}

impl PieceType {
    /// Index `0..6` for array lookups.
    pub fn index(self) -> (r: usize)
        ensures
            r == pt_index(self),
    {
        match self {
            PieceType::Pawn => 0,
            PieceType::Knight => 1,
            PieceType::Bishop => 2,
            PieceType::Rook => 3,
            PieceType::Queen => 4,
            PieceType::King => 5,
        }
    }

    /// Construct from a `0..6` index, if in range.
    pub fn from_index(i: usize) -> (r: Option<PieceType>)
        ensures
            r == pt_from_index(i as int),
    {
        match i {
            0 => Some(PieceType::Pawn),
            1 => Some(PieceType::Knight),
            2 => Some(PieceType::Bishop),
            3 => Some(PieceType::Rook),
            4 => Some(PieceType::Queen),
            5 => Some(PieceType::King),
            _ => None,
        }
    }

    /// Lowercase piece letter as used in FEN/SAN (`p n b r q k`).
    pub fn to_char(self) -> (r: char)
        ensures
            r == pt_char(self),
    {
        match self {
            PieceType::Pawn => 'p',
            PieceType::Knight => 'n',
            PieceType::Bishop => 'b',
            PieceType::Rook => 'r',
            PieceType::Queen => 'q',
            PieceType::King => 'k',
        }
    }

    /// Parse a piece letter (case-insensitive).
    pub fn from_char(c: char) -> (r: Option<PieceType>)
        ensures
            r == pt_of_char(c),
    {
        match c {
            'p' | 'P' => Some(PieceType::Pawn),
            'n' | 'N' => Some(PieceType::Knight),
            'b' | 'B' => Some(PieceType::Bishop),
            'r' | 'R' => Some(PieceType::Rook),
            'q' | 'Q' => Some(PieceType::Queen),
            'k' | 'K' => Some(PieceType::King),
            _ => None,
        }
    }

    /// Whether this piece slides along rays (bishop, rook, queen).
    pub fn is_slider(self) -> (r: bool)
        ensures
            r == (self == PieceType::Bishop || self == PieceType::Rook || self
                == PieceType::Queen),
    {
        match self {
            PieceType::Bishop | PieceType::Rook | PieceType::Queen => true,
            _ => false,
        }
    }
}

/// A colored piece.
#[derive(Clone, Copy, PartialEq, Eq, Structural, Hash, Debug)]
pub struct Piece {
    pub color: Color,
    pub piece_type: PieceType,
}

/// FEN letter of a piece: uppercase for White, lowercase for Black.
pub open spec fn piece_char(p: Piece) -> char {
    if p.color == Color::White {
        upper(pt_char(p.piece_type))
    } else {
        pt_char(p.piece_type)
    }
}

/// The piece a FEN letter names; its case selects the color.
pub open spec fn piece_of_char(c: char) -> Option<Piece> {
    match pt_of_char(c) {
        Some(pt) => Some(
            Piece {
                color: if 'A' <= c && c <= 'Z' {
                    Color::White
                } else {
                    Color::Black
                },
                piece_type: pt,
            },
        ),
        None => None,
    }
}

impl Piece {
    pub fn new(color: Color, piece_type: PieceType) -> (r: Piece)
        ensures
            r == (Piece { color, piece_type }),
    {
        Piece { color, piece_type }
    }

    /// FEN/SAN letter: uppercase for White, lowercase for Black.
    pub fn to_char(self) -> (r: char)
        ensures
            r == piece_char(self),
    {
        let c = self.piece_type.to_char();
        match self.color {
            Color::White => match self.piece_type {
                PieceType::Pawn => 'P',
                PieceType::Knight => 'N',
                PieceType::Bishop => 'B',
                PieceType::Rook => 'R',
                PieceType::Queen => 'Q',
                PieceType::King => 'K',
            },
            Color::Black => c,
        }
    }

    /// Parse a FEN piece letter; case selects the color.
    pub fn from_char(c: char) -> (r: Option<Piece>)
        ensures
            r == piece_of_char(c),
    {
        let color = if 'A' <= c && c <= 'Z' {
            Color::White
        } else {
            Color::Black
        };
        match PieceType::from_char(c) {
            Some(piece_type) => Some(Piece { color, piece_type }),
            None => None,
        }
    }
}

/// A board file (column), `0 = a` ... `7 = h`.
#[derive(Clone, Copy, PartialEq, Eq, Structural, Hash, Debug)]
pub struct File(pub u8);

/// The letter naming file index `i`.
pub open spec fn file_char(i: int) -> char {
    (97 + i) as char
}

/// The rank digit naming rank index `i`.
pub open spec fn rank_char(i: int) -> char {
    (49 + i) as char
}

impl File {
    /// Construct from `0..8`, if in range.
    pub fn new(i: u8) -> (r: Option<File>)
        ensures
            r == (if i < 8 {
                Some(File(i))
            } else {
                None
            }),
    {
        if i < 8 {
            Some(File(i))
        } else {
            None
        }
    }

    pub fn index(self) -> (r: usize)
        ensures
            r == self.0,
    {
        self.0 as usize
    }

    pub fn to_char(self) -> (r: char)
        requires
            self.0 < 8,
        ensures
            r == file_char(self.0 as int),
    {
        (97u8 + self.0) as char
    }

    pub fn from_char(c: char) -> (r: Option<File>)
        ensures
            r == (if 'a' <= c && c <= 'h' {
                Some(File(((c as u32) - 97) as u8))
            } else {
                None
            }),
    {
        if 'a' <= c && c <= 'h' {
            Some(File(((c as u32) - 97) as u8))
        } else {
            None
        }
    }
}

/// A board rank (row), `0 = rank 1` ... `7 = rank 8`.
#[derive(Clone, Copy, PartialEq, Eq, Structural, Hash, Debug)]
pub struct Rank(pub u8);

impl Rank {
    /// Construct from `0..8`, if in range.
    pub fn new(i: u8) -> (r: Option<Rank>)
        ensures
            r == (if i < 8 {
                Some(Rank(i))
            } else {
                None
            }),
    {
        if i < 8 {
            Some(Rank(i))
        } else {
            None
        }
    }

    pub fn index(self) -> (r: usize)
        ensures
            r == self.0,
    {
        self.0 as usize
    }

    pub fn to_char(self) -> (r: char)
        requires
            self.0 < 8,
        ensures
            r == rank_char(self.0 as int),
    {
        (49u8 + self.0) as char
    }

    pub fn from_char(c: char) -> (r: Option<Rank>)
        ensures
            r == (if '1' <= c && c <= '8' {
                Some(Rank(((c as u32) - 49) as u8))
            } else {
                None
            }),
    {
        if '1' <= c && c <= '8' {
            Some(Rank(((c as u32) - 49) as u8))
        } else {
            None
        }
    }
}

/// A square `0..64` in little-endian rank-file order (`a1 = 0`).
#[derive(Clone, Copy, PartialEq, Eq, Structural, Hash, Debug)]
pub struct Square(pub u8);

/// File index `0..8` of square index `s`.
pub open spec fn sq_file(s: int) -> int {
    s % 8
}

/// Rank index `0..8` of square index `s`.
pub open spec fn sq_rank(s: int) -> int {
    s / 8
}

impl Square {
    /// Whether this square is on the board.
    pub open spec fn wf(self) -> bool {
        self.0 < 64
    }

    /// Construct from a raw `0..64` index, if in range.
    pub fn new(i: u8) -> (r: Option<Square>)
        ensures
            r == (if i < 64 {
                Some(Square(i))
            } else {
                None
            }),
    {
        if i < 64 {
            Some(Square(i))
        } else {
            None
        }
    }

    /// Construct from a raw index without checking it; the square is only
    /// meaningful (and accepted by the other operations) when `i < 64`.
    pub fn new_unchecked(i: u8) -> (r: Square)
        ensures
            r == Square(i),
    {
        Square(i)
    }

    /// Compose a square from a file and rank.
    pub fn make(file: File, rank: Rank) -> (r: Square)
        requires
            file.0 < 8,
            rank.0 < 8,
        ensures
            r.0 == rank.0 * 8 + file.0,
            r.wf(),
    {
        Square(rank.0 * 8 + file.0)
    }

    /// Raw `0..64` index.
    pub fn index(self) -> (r: usize)
        ensures
            r == self.0,
    {
        self.0 as usize
    }

    pub fn file(self) -> (r: File)
        ensures
            r.0 == self.0 % 8,
    {
        File(self.0 % 8)
    }

    pub fn rank(self) -> (r: Rank)
        ensures
            r.0 == self.0 / 8,
    {
        Rank(self.0 / 8)
    }

    /// Mirror vertically (swap ranks): `a1 <-> a8`.
    pub fn flip_rank(self) -> (r: Square)
        requires
            self.wf(),
        ensures
            r.0 == (7 - sq_rank(self.0 as int)) * 8 + sq_file(self.0 as int),
            r.wf(),
    {
        Square((7 - self.0 / 8) * 8 + self.0 % 8)
    }

    /// Mirror horizontally (swap files): `a1 <-> h1`.
    pub fn flip_file(self) -> (r: Square)
        requires
            self.wf(),
        ensures
            r.0 == sq_rank(self.0 as int) * 8 + (7 - sq_file(self.0 as int)),
            r.wf(),
    {
        Square((self.0 / 8) * 8 + (7 - self.0 % 8))
    }

    /// The single-bit word for this square.
    pub fn bit(self) -> (r: u64)
        requires
            self.wf(),
        ensures
            r == 1u64 << self.0,
    {
        1u64 << self.0
    }

    /// Two-character algebraic name, e.g. `"e4"`, as ASCII bytes.
    pub fn to_algebraic(self) -> (r: [u8; 2])
        requires
            self.wf(),
        ensures
            r@ == seq![(97 + sq_file(self.0 as int)) as u8, (49 + sq_rank(self.0 as int)) as u8],
    {
        let r = [97u8 + self.0 % 8, 49u8 + self.0 / 8];
        assert(r@ =~= seq![(97 + sq_file(self.0 as int)) as u8, (49 + sq_rank(self.0 as int)) as u8]);
        r
    }

    /// Parse algebraic coordinates like `"e4"`.
    pub fn from_algebraic(s: &str) -> (r: Option<Square>)
        ensures
            r == square_of_bytes(s.spec_bytes()),
    {
        Square::from_ascii(s.as_bytes())
    }

    /// Parse two ASCII bytes naming a square.
    pub fn from_ascii(b: &[u8]) -> (r: Option<Square>)
        ensures
            r == square_of_bytes(b@),
    {
        if b.len() != 2 {
            return None;
        }
        let f = b[0];
        let k = b[1];
        if 97 <= f && f <= 104 && 49 <= k && k <= 56 {
            Some(Square((k - 49) * 8 + (f - 97)))
        } else {
            None
        }
    }
}

/// The square named by two ASCII bytes (file letter, rank digit), if any.
pub open spec fn square_of_bytes(b: Seq<u8>) -> Option<Square> {
    if b.len() == 2 && 97 <= b[0] <= 104 && 49 <= b[1] <= 56 {
        Some(Square(((b[1] - 49) * 8 + (b[0] - 97)) as u8))
    } else {
        None
    }
}

/// One side of one color's castling ability.
#[derive(Clone, Copy, PartialEq, Eq, Structural, Hash, Debug)]
pub enum CastlingSide {
    /// Short castle (toward the h-file rook).
    King,
    /// Long castle (toward the a-file rook).
    Queen,
}

/// The castling-rights bit for a color and side: `0 = White O-O`,
/// `1 = White O-O-O`, `2 = Black O-O`, `3 = Black O-O-O`.
pub open spec fn castle_bit(color: Color, side: CastlingSide) -> u8 {
    match (color, side) {
        (Color::White, CastlingSide::King) => 1,
        (Color::White, CastlingSide::Queen) => 2,
        (Color::Black, CastlingSide::King) => 4,
        (Color::Black, CastlingSide::Queen) => 8,
    }
}

/// The set of remaining castling rights, as a 4-bit set.
#[derive(Clone, Copy, PartialEq, Eq, Structural, Hash, Debug)]
pub struct CastlingRights(pub u8);

impl CastlingRights {
    /// Bit mask for a given color + side.
    pub fn mask(color: Color, side: CastlingSide) -> (r: u8)
        ensures
            r == castle_bit(color, side),
    {
        match (color, side) {
            (Color::White, CastlingSide::King) => 1,
            (Color::White, CastlingSide::Queen) => 2,
            (Color::Black, CastlingSide::King) => 4,
            (Color::Black, CastlingSide::Queen) => 8,
        }
    }

    pub fn has(self, color: Color, side: CastlingSide) -> (r: bool)
        ensures
            r == (self.0 & castle_bit(color, side) != 0),
    {
        self.0 & Self::mask(color, side) != 0
    }

    pub fn with(self, color: Color, side: CastlingSide) -> (r: CastlingRights)
        ensures
            r.0 == self.0 | castle_bit(color, side),
    {
        CastlingRights(self.0 | Self::mask(color, side))
    }

    /// Remove a specific right.
    pub fn remove(&mut self, color: Color, side: CastlingSide)
        ensures
            final(self).0 == old(self).0 & !castle_bit(color, side),
    {
        self.0 = self.0 & !Self::mask(color, side);
    }

    /// Remove both of a color's rights (e.g. after the king moves).
    pub fn remove_color(&mut self, color: Color)
        ensures
            final(self).0 == old(self).0 & !(castle_bit(color, CastlingSide::King) | castle_bit(
                color,
                CastlingSide::Queen,
            )),
    {
        let both: u8 = match color {
            Color::White => 3,
            Color::Black => 12,
        };
        assert(3u8 == 1u8 | 2u8 && 12u8 == 4u8 | 8u8) by (bit_vector);
        self.0 = self.0 & !both;
    }

    pub fn is_empty(self) -> (r: bool)
        ensures
            r == (self.0 == 0),
    {
        self.0 == 0
    }
}

} // verus!
