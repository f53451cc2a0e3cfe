//! One packed byte per square: occupancy (1 bit), color (1 bit), piece
//! kind (3 bits), and two context-dependent flag bits. An all-zero byte
//! means an unoccupied square; flag bits carry no meaning while the
//! occupancy bit is clear.
use vstd::prelude::*;

verus! {

/// The side a packed piece belongs to.
#[derive(Debug, Copy, Clone, PartialEq, Eq, Structural)]
pub enum ByteColor {
    White,
    Black,
}

impl ByteColor {
    /// The color's contribution to the packed byte.
    pub open spec fn mask_spec(self) -> u8 {
        match self {
            ByteColor::White => 0x00,
            ByteColor::Black => 0x40,
        }
    }

    pub fn mask(self) -> (r: u8)
        ensures
            r == self.mask_spec(),
    {
        match self {
            ByteColor::White => 0x00,
            ByteColor::Black => 0x40,
        }
    }

    /// The opposing side.
    pub fn other(self) -> (r: ByteColor)
        ensures
            r != self,
    {
        match self {
            ByteColor::White => ByteColor::Black,
            ByteColor::Black => ByteColor::White,
        }
    }
}

/// The piece kind held in the three kind bits; two of the eight codes
/// denote no piece at all.
#[derive(Debug, Copy, Clone, PartialEq, Eq, Structural)]
pub enum PieceType {
    King,
    Queen,
    Rook,
    Bishop,
    Knight,
    Pawn,
}

impl PieceType {
    /// The kind's three-bit code.
    pub open spec fn code_spec(self) -> u8 {
        match self {
            PieceType::King => 0,
            PieceType::Queen => 1,
            PieceType::Rook => 2,
            PieceType::Bishop => 3,
            PieceType::Knight => 4,
            PieceType::Pawn => 5,
        }
    }

    pub fn code(self) -> (r: u8)
        ensures
            r == self.code_spec(),
    {
        match self {
            PieceType::King => 0,
            PieceType::Queen => 1,
            PieceType::Rook => 2,
            PieceType::Bishop => 3,
            PieceType::Knight => 4,
            PieceType::Pawn => 5,
        }
    }

    /// The kind a three-bit code denotes, if any.
    pub open spec fn of_code_spec(code: u8) -> Option<PieceType> {
        if code == 0 {
            Some(PieceType::King)
        } else if code == 1 {
            Some(PieceType::Queen)
        } else if code == 2 {
            Some(PieceType::Rook)
        } else if code == 3 {
            Some(PieceType::Bishop)
        } else if code == 4 {
            Some(PieceType::Knight)
        } else if code == 5 {
            Some(PieceType::Pawn)
        } else {
            None
        }
    }
}

/// Which fields a packed byte holds, read off directly.
pub open spec fn occupied_of(b: u8) -> bool {
    b & 0x80 != 0
}

pub open spec fn color_of(b: u8) -> ByteColor {
    if b & 0x40 == 0 {
        ByteColor::White
    } else {
        ByteColor::Black
    }
}

/// The three kind bits of a packed byte.
pub open spec fn piece_code_of(b: u8) -> u8 {
    (b >> 3) & 7
}

pub open spec fn piece_type_of(b: u8) -> Option<PieceType> {
    PieceType::of_code_spec(piece_code_of(b))
}

pub open spec fn king_or_rook_moved_of(b: u8) -> bool {
    b & 0x04 != 0
}

pub open spec fn pawn_en_passant_of(b: u8) -> bool {
    b & 0x04 != 0
}

pub open spec fn last_move_of(b: u8) -> bool {
    b & 0x02 != 0
}

/// How each single-field update acts on a packed byte: the named field
/// takes the new value and every other field keeps its bits.
pub(crate) proof fn lemma_byte_update(b: u8, cm: u8, pc: u8)
    by (bit_vector)
    ensures
        (b | 0x80) & 0x80 != 0 && (b & 0x7F) & 0x80 == 0,
        (b | 0x80) & 0x40 == b & 0x40 && (b & 0x7F) & 0x40 == b & 0x40,
        ((b | 0x80) >> 3) & 7 == (b >> 3) & 7 && ((b & 0x7F) >> 3) & 7 == (b >> 3) & 7,
        (b | 0x80) & 0x04 == b & 0x04 && (b & 0x7F) & 0x04 == b & 0x04,
        (b | 0x80) & 0x02 == b & 0x02 && (b & 0x7F) & 0x02 == b & 0x02,
        cm == 0 || cm == 0x40 ==> ((b & 0xBF) | cm) & 0x40 == cm && ((b & 0xBF) | cm) & 0x80 == b
            & 0x80 && (((b & 0xBF) | cm) >> 3) & 7 == (b >> 3) & 7 && ((b & 0xBF) | cm) & 0x04 == b
            & 0x04 && ((b & 0xBF) | cm) & 0x02 == b & 0x02,
        ((b ^ 0x40) & 0x40 == 0 <==> b & 0x40 != 0) && (b ^ 0x40) & 0x80 == b & 0x80 && ((b ^ 0x40) >> 3)
            & 7 == (b >> 3) & 7 && (b ^ 0x40) & 0x04 == b & 0x04 && (b ^ 0x40) & 0x02 == b & 0x02,
        pc < 8 ==> (((b & 0xC7) | (pc << 3)) >> 3) & 7 == pc && ((b & 0xC7) | (pc << 3)) & 0x80 == b
            & 0x80 && ((b & 0xC7) | (pc << 3)) & 0x40 == b & 0x40 && ((b & 0xC7) | (pc << 3)) & 0x04
            == b & 0x04 && ((b & 0xC7) | (pc << 3)) & 0x02 == b & 0x02,
        (b | 0x04) & 0x04 != 0 && (b & 0xFB) & 0x04 == 0,
        (b | 0x04) & 0x80 == b & 0x80 && (b & 0xFB) & 0x80 == b & 0x80,
        (b | 0x04) & 0x40 == b & 0x40 && (b & 0xFB) & 0x40 == b & 0x40,
        ((b | 0x04) >> 3) & 7 == (b >> 3) & 7 && ((b & 0xFB) >> 3) & 7 == (b >> 3) & 7,
        (b | 0x04) & 0x02 == b & 0x02 && (b & 0xFB) & 0x02 == b & 0x02,
        (b | 0x02) & 0x02 != 0 && (b & 0xFD) & 0x02 == 0,
        (b | 0x02) & 0x80 == b & 0x80 && (b & 0xFD) & 0x80 == b & 0x80,
        (b | 0x02) & 0x40 == b & 0x40 && (b & 0xFD) & 0x40 == b & 0x40,
        ((b | 0x02) >> 3) & 7 == (b >> 3) & 7 && ((b & 0xFD) >> 3) & 7 == (b >> 3) & 7,
        (b | 0x02) & 0x04 == b & 0x04 && (b & 0xFD) & 0x04 == b & 0x04,
        b == 0 ==> b & 0x80 == 0 && (b >> 3) & 7 == 0 && b & 0x40 == 0 && b & 0x04 == 0 && b & 0x02
            == 0 && b & 0xFD == 0,
{
}

/// One square's packed byte.
#[derive(Debug, Copy, Clone, PartialEq, Eq, Structural)]
pub struct ByteSquare(pub u8);

impl ByteSquare {
    /// Whether a piece stands on the square.
    pub fn occupied(&self) -> (r: bool)
        ensures
            r == occupied_of(self.0),
    {
        (self.0 & 0x80) != 0
    }

    /// The color of the piece; meaningful only while occupied.
    pub fn color(&self) -> (r: ByteColor)
        ensures
            r == color_of(self.0),
    {
        if self.0 & 0x40 == 0 {
            ByteColor::White
        } else {
            ByteColor::Black
        }
    }

    /// The kind of the piece; two of the eight bit codes denote no
    /// piece kind and yield nothing.
    pub fn piece_type(&self) -> (r: Option<PieceType>)
        ensures
            r == piece_type_of(self.0),
    {
        match (self.0 >> 3) & 7 {
            0 => Some(PieceType::King),
            1 => Some(PieceType::Queen),
            2 => Some(PieceType::Rook),
            3 => Some(PieceType::Bishop),
            4 => Some(PieceType::Knight),
            5 => Some(PieceType::Pawn),
            _ => None,
        }
    }

    /// Whether the king or rook that stands here has already moved;
    /// meaningful only for kings and rooks.
    pub fn king_or_rook_moved(&self) -> (r: bool)
        ensures
            r == king_or_rook_moved_of(self.0),
    {
        (self.0 & 0x04) != 0
    }

    /// Whether the pawn that stands here double-stepped this ply;
    /// meaningful only for pawns, and shares its bit with
    /// `king_or_rook_moved` -- the piece kind decides which reading
    /// applies.
    pub fn pawn_en_passant(&self) -> (r: bool)
        ensures
            r == pawn_en_passant_of(self.0),
    {
        (self.0 & 0x04) != 0
    }

    /// Whether this square was the destination of the most recent move.
    pub fn last_move(&self) -> (r: bool)
        ensures
            r == last_move_of(self.0),
    {
        (self.0 & 0x02) != 0
    }

    pub fn set_occupied(&mut self, occupied: bool)
        ensures
            occupied_of(final(self).0) == occupied,
            color_of(final(self).0) == color_of(old(self).0),
            piece_code_of(final(self).0) == piece_code_of(old(self).0),
            king_or_rook_moved_of(final(self).0) == king_or_rook_moved_of(old(self).0),
            last_move_of(final(self).0) == last_move_of(old(self).0),
    {
        proof {
            lemma_byte_update(self.0, 0, 0);
        }
        if occupied {
            self.0 = self.0 | 0x80;
        } else {
            self.0 = self.0 & 0x7F;
        }
    }

    pub fn set_color(&mut self, color: ByteColor)
        ensures
            color_of(final(self).0) == color,
            occupied_of(final(self).0) == occupied_of(old(self).0),
            piece_code_of(final(self).0) == piece_code_of(old(self).0),
            king_or_rook_moved_of(final(self).0) == king_or_rook_moved_of(old(self).0),
            last_move_of(final(self).0) == last_move_of(old(self).0),
    {
        proof {
            lemma_byte_update(self.0, color.mask_spec(), 0);
        }
        self.0 = (self.0 & 0xBF) | color.mask();
    }

    /// Flips the color bit in place.
    pub fn invert_color(&mut self)
        ensures
            final(self).0 == old(self).0 ^ 0x40,
            color_of(final(self).0) != color_of(old(self).0),
            occupied_of(final(self).0) == occupied_of(old(self).0),
            piece_code_of(final(self).0) == piece_code_of(old(self).0),
            king_or_rook_moved_of(final(self).0) == king_or_rook_moved_of(old(self).0),
            last_move_of(final(self).0) == last_move_of(old(self).0),
    {
        proof {
            lemma_byte_update(self.0, 0, 0);
        }
        self.0 = self.0 ^ 0x40;
    }

    pub fn set_piece_type(&mut self, piece_type: PieceType)
        ensures
            piece_type_of(final(self).0) == Some(piece_type),
            occupied_of(final(self).0) == occupied_of(old(self).0),
            color_of(final(self).0) == color_of(old(self).0),
            king_or_rook_moved_of(final(self).0) == king_or_rook_moved_of(old(self).0),
            last_move_of(final(self).0) == last_move_of(old(self).0),
    {
        proof {
            lemma_byte_update(self.0, 0, piece_type.code_spec());
        }
        self.0 = (self.0 & 0xC7) | (piece_type.code() << 3u8);
    }

    pub fn set_king_or_rook_moved(&mut self, moved: bool)
        ensures
            king_or_rook_moved_of(final(self).0) == moved,
            pawn_en_passant_of(final(self).0) == moved,
            occupied_of(final(self).0) == occupied_of(old(self).0),
            color_of(final(self).0) == color_of(old(self).0),
            piece_code_of(final(self).0) == piece_code_of(old(self).0),
            last_move_of(final(self).0) == last_move_of(old(self).0),
    {
        proof {
            lemma_byte_update(self.0, 0, 0);
        }
        if moved {
            self.0 = self.0 | 0x04;
        } else {
            self.0 = self.0 & 0xFB;
        }
    }

    /// Sets the shared flag bit under its pawn reading.
    pub fn set_pawn_en_passant(&mut self, en_passant: bool)
        ensures
            pawn_en_passant_of(final(self).0) == en_passant,
            king_or_rook_moved_of(final(self).0) == en_passant,
            occupied_of(final(self).0) == occupied_of(old(self).0),
            color_of(final(self).0) == color_of(old(self).0),
            piece_code_of(final(self).0) == piece_code_of(old(self).0),
            last_move_of(final(self).0) == last_move_of(old(self).0),
    {
        proof {
            lemma_byte_update(self.0, 0, 0);
        }
        if en_passant {
            self.0 = self.0 | 0x04;
        } else {
            self.0 = self.0 & 0xFB;
        }
    }

    pub fn set_last_move(&mut self, last_move: bool)
        ensures
            final(self).0 == if last_move {
                old(self).0 | 0x02
            } else {
                old(self).0 & 0xFD
            },
            last_move_of(final(self).0) == last_move,
            occupied_of(final(self).0) == occupied_of(old(self).0),
            color_of(final(self).0) == color_of(old(self).0),
            piece_code_of(final(self).0) == piece_code_of(old(self).0),
            king_or_rook_moved_of(final(self).0) == king_or_rook_moved_of(old(self).0),
    {
        proof {
            lemma_byte_update(self.0, 0, 0);
        }
        if last_move {
            self.0 = self.0 | 0x02;
        } else {
            self.0 = self.0 & 0xFD;
        }
    }

    pub fn from_u8(byte: u8) -> (r: ByteSquare)
        ensures
            r.0 == byte,
    {
        ByteSquare(byte)
    }

    pub fn to_u8(&self) -> (r: u8)
        ensures
            r == self.0,
    {
        self.0
    }

    /// A square holding a piece of the given color and kind, with both
    /// flag bits clear.
    pub fn new(occupied: bool, color: ByteColor, piece_type: PieceType) -> (r: ByteSquare)
        ensures
            occupied_of(r.0) == occupied,
            color_of(r.0) == color,
            piece_type_of(r.0) == Some(piece_type),
            !king_or_rook_moved_of(r.0),
            !last_move_of(r.0),
    {
        proof {
            lemma_byte_update(0, 0, 0);
        }
        let mut square = ByteSquare(0);
        square.set_occupied(occupied);
        square.set_color(color);
        square.set_piece_type(piece_type);
        square
    }

    /// The unoccupied square: the all-zero byte.
    pub fn new_empty() -> (r: ByteSquare)
        ensures
            r.0 == 0,
            !occupied_of(r.0),
    {
        proof {
            lemma_byte_update(0, 0, 0);
        }
        ByteSquare(0)
    }

    /// Whether the byte is all zero, the canonical unoccupied square.
    pub fn is_empty(&self) -> (r: bool)
        ensures
            r == (self.0 == 0),
    {
        self.0 == 0
    }
}

} // verus!
