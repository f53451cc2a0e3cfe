//! Piece colors and kinds.
use vstd::prelude::*;

verus! {

/// The side a piece belongs to.
#[derive(PartialEq, Eq, Copy, Clone, Debug, Structural)]
pub enum Color {
    White,
    Black,
}

pub const COLOR_COUNT: usize = 2;

impl Color {
    pub open spec fn as_int(self) -> int {
        match self {
            Color::White => 0,
            Color::Black => 1,
        }
    }

    pub fn index(self) -> (r: usize)
        ensures
            r == self.as_int(),
    {
        match self {
            Color::White => 0,
            Color::Black => 1,
        }
    }

    /// The opposing side.
    pub fn other(self) -> (r: Color)
        ensures
            r != self,
    {
        match self {
            Color::White => Color::Black,
            Color::Black => Color::White,
        }
    }

    /// Parses the side-to-move letter, `w` or `b` in either case.
    pub fn from_char(c: char) -> (r: Option<Color>)
        ensures
            (c == 'w' || c == 'W') ==> r == Some(Color::White),
            (c == 'b' || c == 'B') ==> r == Some(Color::Black),
            !(c == 'w' || c == 'W' || c == 'b' || c == 'B') ==> r is None,
    {
        match c {
            'w' => Some(Color::White),
            'W' => Some(Color::White),
            'b' => Some(Color::Black),
            'B' => Some(Color::Black),
            _ => None,
        }
    }
}

/// The kind of a piece, independent of its color.
#[derive(PartialEq, Eq, Copy, Clone, Debug, Structural)]
pub enum PieceType {
    Pawn,
    Knight,
    Bishop,
    Rook,
    Queen,
    King,
}

pub const PIECE_TYPE_COUNT: usize = 6;

impl PieceType {
    pub open spec fn as_int(self) -> int {
        match self {
            PieceType::Pawn => 0,
            PieceType::Knight => 1,
            PieceType::Bishop => 2,
            PieceType::Rook => 3,
            PieceType::Queen => 4,
            PieceType::King => 5,
        }
    }

    pub fn index(self) -> (r: usize)
        ensures
            r == self.as_int(),
    {
        match self {
            PieceType::Pawn => 0,
            PieceType::Knight => 1,
            PieceType::Bishop => 2,
            PieceType::Rook => 3,
            PieceType::Queen => 4,
            PieceType::King => 5,
        }
    }
}

/// A colored piece.
#[derive(PartialEq, Eq, Copy, Clone, Debug, Structural)]
pub enum Piece {
    WhitePawn,
    BlackPawn,
    WhiteKnight,
    BlackKnight,
    WhiteBishop,
    BlackBishop,
    WhiteRook,
    BlackRook,
    WhiteQueen,
    BlackQueen,
    WhiteKing,
    BlackKing,
}

pub const PIECE_COUNT: usize = 12;

impl Piece {
    pub open spec fn color_spec(self) -> Color {
        match self {
            Piece::WhitePawn => Color::White,
            Piece::BlackPawn => Color::Black,
            Piece::WhiteKnight => Color::White,
            Piece::BlackKnight => Color::Black,
            Piece::WhiteBishop => Color::White,
            Piece::BlackBishop => Color::Black,
            Piece::WhiteRook => Color::White,
            Piece::BlackRook => Color::Black,
            Piece::WhiteQueen => Color::White,
            Piece::BlackQueen => Color::Black,
            Piece::WhiteKing => Color::White,
            Piece::BlackKing => Color::Black,
        }
    }

    pub open spec fn piece_type_spec(self) -> PieceType {
        match self {
            Piece::WhitePawn => PieceType::Pawn,
            Piece::BlackPawn => PieceType::Pawn,
            Piece::WhiteKnight => PieceType::Knight,
            Piece::BlackKnight => PieceType::Knight,
            Piece::WhiteBishop => PieceType::Bishop,
            Piece::BlackBishop => PieceType::Bishop,
            Piece::WhiteRook => PieceType::Rook,
            Piece::BlackRook => PieceType::Rook,
            Piece::WhiteQueen => PieceType::Queen,
            Piece::BlackQueen => PieceType::Queen,
            Piece::WhiteKing => PieceType::King,
            Piece::BlackKing => PieceType::King,
        }
    }

    /// The piece of a given color and kind.
    pub fn new(color: Color, piece_type: PieceType) -> (r: Piece)
        ensures
            r.color_spec() == color,
            r.piece_type_spec() == piece_type,
    {
        match (color, piece_type) {
            (Color::White, PieceType::Pawn) => Piece::WhitePawn,
            (Color::Black, PieceType::Pawn) => Piece::BlackPawn,
            (Color::White, PieceType::Knight) => Piece::WhiteKnight,
            (Color::Black, PieceType::Knight) => Piece::BlackKnight,
            (Color::White, PieceType::Bishop) => Piece::WhiteBishop,
            (Color::Black, PieceType::Bishop) => Piece::BlackBishop,
            (Color::White, PieceType::Rook) => Piece::WhiteRook,
            (Color::Black, PieceType::Rook) => Piece::BlackRook,
            (Color::White, PieceType::Queen) => Piece::WhiteQueen,
            (Color::Black, PieceType::Queen) => Piece::BlackQueen,
            (Color::White, PieceType::King) => Piece::WhiteKing,
            (Color::Black, PieceType::King) => Piece::BlackKing,
        }
    }

    pub fn piece_type(self) -> (r: PieceType)
        ensures
            r == self.piece_type_spec(),
    {
        match self {
            Piece::WhitePawn => PieceType::Pawn,
            Piece::BlackPawn => PieceType::Pawn,
            Piece::WhiteKnight => PieceType::Knight,
            Piece::BlackKnight => PieceType::Knight,
            Piece::WhiteBishop => PieceType::Bishop,
            Piece::BlackBishop => PieceType::Bishop,
            Piece::WhiteRook => PieceType::Rook,
            Piece::BlackRook => PieceType::Rook,
            Piece::WhiteQueen => PieceType::Queen,
            Piece::BlackQueen => PieceType::Queen,
            Piece::WhiteKing => PieceType::King,
            Piece::BlackKing => PieceType::King,
        }
    }

    pub fn color(self) -> (r: Color)
        ensures
            r == self.color_spec(),
    {
        match self {
            Piece::WhitePawn => Color::White,
            Piece::BlackPawn => Color::Black,
            Piece::WhiteKnight => Color::White,
            Piece::BlackKnight => Color::Black,
            Piece::WhiteBishop => Color::White,
            Piece::BlackBishop => Color::Black,
            Piece::WhiteRook => Color::White,
            Piece::BlackRook => Color::Black,
            Piece::WhiteQueen => Color::White,
            Piece::BlackQueen => Color::Black,
            Piece::WhiteKing => Color::White,
            Piece::BlackKing => Color::Black,
        }
    }

    /// The piece's one-letter text form: upper case for white, lower
    /// case for black.
    pub open spec fn char_spec(self) -> char {
        match self {
            Piece::WhitePawn => 'P',
            Piece::BlackPawn => 'p',
            Piece::WhiteKnight => 'N',
            Piece::BlackKnight => 'n',
            Piece::WhiteBishop => 'B',
            Piece::BlackBishop => 'b',
            Piece::WhiteRook => 'R',
            Piece::BlackRook => 'r',
            Piece::WhiteQueen => 'Q',
            Piece::BlackQueen => 'q',
            Piece::WhiteKing => 'K',
            Piece::BlackKing => 'k',
        }
    }

    pub fn as_str(&self) -> (r: &'static str)
        ensures
            r@.len() == 1,
            r@[0] == self.char_spec(),
    {
        let r: &'static str = match *self {
            Piece::WhitePawn => "P",
            Piece::BlackPawn => "p",
            Piece::WhiteKnight => "N",
            Piece::BlackKnight => "n",
            Piece::WhiteBishop => "B",
            Piece::BlackBishop => "b",
            Piece::WhiteRook => "R",
            Piece::BlackRook => "r",
            Piece::WhiteQueen => "Q",
            Piece::BlackQueen => "q",
            Piece::WhiteKing => "K",
            Piece::BlackKing => "k",
        };
        proof {
            reveal_strlit("P");
            reveal_strlit("p");
            reveal_strlit("N");
            reveal_strlit("n");
            reveal_strlit("B");
            reveal_strlit("b");
            reveal_strlit("R");
            reveal_strlit("r");
            reveal_strlit("Q");
            reveal_strlit("q");
            reveal_strlit("K");
            reveal_strlit("k");
        }
        r
    }

    /// The piece a letter denotes, if any.
    pub open spec fn of_char_spec(c: char) -> Option<Piece> {
        if c == 'P' {
            Some(Piece::WhitePawn)
        } else if c == 'p' {
            Some(Piece::BlackPawn)
        } else if c == 'N' {
            Some(Piece::WhiteKnight)
        } else if c == 'n' {
            Some(Piece::BlackKnight)
        } else if c == 'B' {
            Some(Piece::WhiteBishop)
        } else if c == 'b' {
            Some(Piece::BlackBishop)
        } else if c == 'R' {
            Some(Piece::WhiteRook)
        } else if c == 'r' {
            Some(Piece::BlackRook)
        } else if c == 'Q' {
            Some(Piece::WhiteQueen)
        } else if c == 'q' {
            Some(Piece::BlackQueen)
        } else if c == 'K' {
            Some(Piece::WhiteKing)
        } else if c == 'k' {
            Some(Piece::BlackKing)
        } else {
            None
        }
    }

    /// Parses a piece letter; anything else yields no piece.
    pub fn from_char(c: char) -> (r: Option<Piece>)
        ensures
            r == Piece::of_char_spec(c),
            r matches Some(p) ==> p.char_spec() == c,
    {
        match c {
            'P' => Some(Piece::WhitePawn),
            'p' => Some(Piece::BlackPawn),
            'N' => Some(Piece::WhiteKnight),
            'n' => Some(Piece::BlackKnight),
            'B' => Some(Piece::WhiteBishop),
            'b' => Some(Piece::BlackBishop),
            'R' => Some(Piece::WhiteRook),
            'r' => Some(Piece::BlackRook),
            'Q' => Some(Piece::WhiteQueen),
            'q' => Some(Piece::BlackQueen),
            'K' => Some(Piece::WhiteKing),
            'k' => Some(Piece::BlackKing),
            _ => None,
        }
    }
}

} // verus!
