//! The piece-list board with redundant per-color and per-kind
//! bitboards, castling rights, and the full game state around them.
use vstd::prelude::*;

use crate::bitboard::BitBoard;
use crate::bits::bit64;
use crate::errors::ChessError;
use crate::piece::Color;
use crate::piece::Piece;
use crate::piece::PieceType;
use crate::rank::Rank;
use crate::square::Square;

verus! {

broadcast use crate::bits::group_bit64;

pub type Ply = u16;

/// All eight ranks, bottom to top.
pub fn ranks() -> (r: Vec<Rank>)
    ensures
        r.len() == 8,
        forall|k: int| 0 <= k < 8 ==> (#[trigger] r@[k]).as_int() == k,
{
    let mut v: Vec<Rank> = Vec::new();
    let mut i: usize = 0;
    while i < 8
        invariant
            i <= 8,
            v.len() == i,
            forall|k: int| 0 <= k < i ==> (#[trigger] v@[k]).as_int() == k,
        decreases 8 - i,
    {
        let k = Rank::from_index(i);
        v.push(k.unwrap());
        i = i + 1;
    }
    v
}

/// All sixty-four squares, in ascending index order.
pub fn squares() -> (r: Vec<Square>)
    ensures
        r.len() == 64,
        forall|k: int| 0 <= k < 64 ==> (#[trigger] r@[k]).as_int() == k,
{
    let mut v: Vec<Square> = Vec::new();
    let mut i: usize = 0;
    while i < 64
        invariant
            i <= 64,
            v.len() == i,
            forall|k: int| 0 <= k < i ==> (#[trigger] v@[k]).as_int() == k,
        decreases 64 - i,
    {
        let s = Square::from_index(i);
        v.push(s.unwrap());
        i = i + 1;
    }
    v
}

/// Two pieces of one color and one kind are the same piece.
pub proof fn lemma_piece_injective(p1: Piece, p2: Piece)
    requires
        p1.color_spec() == p2.color_spec(),
        p1.piece_type_spec() == p2.piece_type_spec(),
    ensures
        p1 == p2,
{
}

/// The piece placement, kept three ways at once: a piece list, one
/// bitboard per color, and one bitboard per piece kind. The bitboards
/// are derived state; well-formedness says they agree with the list.
pub struct Board {
    pub board: Vec<Option<Piece>>,
    pub color_bb: Vec<BitBoard>,
    pub piece_bb: Vec<BitBoard>,
}

impl Board {
    /// The bitboards agree with the piece list: bit `k` of a color's
    /// board is set exactly when square `k` holds a piece of that
    /// color, and likewise per piece kind.
    pub open spec fn wf(self) -> bool {
        &&& self.board.len() == 64
        &&& self.color_bb.len() == 2
        &&& self.piece_bb.len() == 6
        &&& forall|k: u64, ci: int| k < 64 && 0 <= ci < 2 ==> (#[trigger] bit64(
            self.color_bb@[ci].0,
            k,
        ) == (self.board@[k as int] matches Some(p) && p.color_spec().as_int() == ci))
        &&& forall|k: u64, pi: int| k < 64 && 0 <= pi < 6 ==> (#[trigger] bit64(
            self.piece_bb@[pi].0,
            k,
        ) == (self.board@[k as int] matches Some(p) && p.piece_type_spec().as_int() == pi))
    }

    /// The empty board.
    pub fn new() -> (r: Board)
        ensures
            r.wf(),
            forall|k: int| 0 <= k < 64 ==> (#[trigger] r.board@[k]) is None,
    {
        let mut board: Vec<Option<Piece>> = Vec::new();
        let mut i: usize = 0;
        while i < 64
            invariant
                i <= 64,
                board.len() == i,
                forall|k: int| 0 <= k < i ==> (#[trigger] board@[k]) is None,
            decreases 64 - i,
        {
            board.push(None);
            i = i + 1;
        }
        let mut color_bb: Vec<BitBoard> = Vec::new();
        color_bb.push(BitBoard::new(0));
        color_bb.push(BitBoard::new(0));
        let mut piece_bb: Vec<BitBoard> = Vec::new();
        let mut j: usize = 0;
        while j < 6
            invariant
                j <= 6,
                piece_bb.len() == j,
                forall|k: int| 0 <= k < j ==> (#[trigger] piece_bb@[k]).0 == 0,
            decreases 6 - j,
        {
            piece_bb.push(BitBoard::new(0));
            j = j + 1;
        }
        Board { board, color_bb, piece_bb }
    }

    /// The piece standing on a square, if any.
    pub fn piece(&self, square: Square) -> (r: Option<Piece>)
        requires
            self.wf(),
        ensures
            r == self.board@[square.as_int()],
    {
        proof {
            crate::byteboard::movegen::lemma_square_bounds(square);
        }
        self.board[square.index()]
    }

    /// Places a piece (or empties a square), keeping the color and kind
    /// bitboards in step by flipping the square's bit out of the old
    /// piece's boards and into the new piece's.
    pub fn set_piece(&mut self, square: Square, piece: Option<Piece>)
        requires
            old(self).wf(),
        ensures
            final(self).wf(),
            final(self).board@ == old(self).board@.update(square.as_int(), piece),
    {
        proof {
            crate::byteboard::movegen::lemma_square_bounds(square);
        }
        let idx = square.index();
        let bb = BitBoard::from_square(square);
        let old_piece = self.board[idx];
        match old_piece {
            Some(p) => {
                let ci = p.color().index();
                let pi = p.piece_type().index();
                let cbb = self.color_bb[ci].bitxor(bb);
                self.color_bb.set(ci, cbb);
                let pbb = self.piece_bb[pi].bitxor(bb);
                self.piece_bb.set(pi, pbb);
            },
            None => {},
        }
        self.board.set(idx, piece);
        match piece {
            Some(p) => {
                let ci = p.color().index();
                let pi = p.piece_type().index();
                let cbb = self.color_bb[ci].bitxor(bb);
                self.color_bb.set(ci, cbb);
                let pbb = self.piece_bb[pi].bitxor(bb);
                self.piece_bb.set(pi, pbb);
            },
            None => {},
        }
        proof {
            let sq = square.as_int() as u64;
            assert forall|k: u64, ci: int| k < 64 && 0 <= ci < 2 implies (#[trigger] bit64(
                self.color_bb@[ci].0,
                k,
            ) == (self.board@[k as int] matches Some(p) && p.color_spec().as_int() == ci)) by {
                crate::bits::lemma_bit64_single(sq, k);
            }
            assert forall|k: u64, pi: int| k < 64 && 0 <= pi < 6 implies (#[trigger] bit64(
                self.piece_bb@[pi].0,
                k,
            ) == (self.board@[k as int] matches Some(p) && p.piece_type_spec().as_int() == pi)) by {
                crate::bits::lemma_bit64_single(sq, k);
            }
        }
    }

    /// The squares held by one side.
    pub fn by_color(&self, color: Color) -> (r: BitBoard)
        requires
            self.wf(),
        ensures
            forall|k: u64| k < 64 ==> #[trigger] bit64(r.0, k) == (self.board@[k as int] matches Some(p)
                && p.color_spec() == color),
    {
        let r = self.color_bb[color.index()];
        proof {
            assert forall|k: u64| k < 64 implies #[trigger] bit64(r.0, k) == (self.board@[k as int] matches Some(
                p,
            ) && p.color_spec() == color) by {
                assert(bit64(self.color_bb@[color.as_int()].0, k) == (self.board@[k as int] matches Some(
                    p,
                ) && p.color_spec().as_int() == color.as_int()));
            }
        }
        r
    }

    /// The squares held by one piece kind, either color.
    pub fn by_piece_type(&self, piece_type: PieceType) -> (r: BitBoard)
        requires
            self.wf(),
        ensures
            forall|k: u64| k < 64 ==> #[trigger] bit64(r.0, k) == (self.board@[k as int] matches Some(p)
                && p.piece_type_spec() == piece_type),
    {
        let r = self.piece_bb[piece_type.index()];
        proof {
            assert forall|k: u64| k < 64 implies #[trigger] bit64(r.0, k) == (self.board@[k as int] matches Some(
                p,
            ) && p.piece_type_spec() == piece_type) by {
                assert(bit64(self.piece_bb@[piece_type.as_int()].0, k) == (self.board@[k as int] matches Some(
                    p,
                ) && p.piece_type_spec().as_int() == piece_type.as_int()));
            }
        }
        r
    }

    /// The squares held by one colored piece: the intersection of its
    /// color's and its kind's boards.
    pub fn by_piece(&self, piece: Piece) -> (r: BitBoard)
        requires
            self.wf(),
        ensures
            forall|k: u64| k < 64 ==> #[trigger] bit64(r.0, k) == (self.board@[k as int] == Some(
                piece,
            )),
    {
        let c = self.by_color(piece.color());
        let t = self.by_piece_type(piece.piece_type());
        let r = c.bitand(t);
        proof {
            assert forall|k: u64| k < 64 implies #[trigger] bit64(r.0, k) == (self.board@[k as int]
                == Some(piece)) by {
                if self.board@[k as int] matches Some(p) && p.color_spec() == piece.color_spec()
                    && p.piece_type_spec() == piece.piece_type_spec() {
                    lemma_piece_injective(self.board@[k as int].unwrap(), piece);
                }
            }
        }
        r
    }

    /// Every square with what stands on it, in ascending square order.
    pub fn pieces(&self) -> (r: Vec<(Square, Option<Piece>)>)
        requires
            self.wf(),
        ensures
            r.len() == 64,
            forall|k: int| 0 <= k < 64 ==> (#[trigger] r@[k]).0.as_int() == k && r@[k].1
                == self.board@[k],
    {
        let mut v: Vec<(Square, Option<Piece>)> = Vec::new();
        let mut i: usize = 0;
        while i < 64
            invariant
                self.wf(),
                i <= 64,
                v.len() == i,
                forall|k: int| 0 <= k < i ==> (#[trigger] v@[k]).0.as_int() == k && v@[k].1
                    == self.board@[k],
            decreases 64 - i,
        {
            let s = Square::from_index(i);
            let s = s.unwrap();
            v.push((s, self.board[i]));
            i = i + 1;
        }
        v
    }
}

/// Castling rights: whether each side may still castle on each wing.
#[derive(Debug, Clone, Copy, PartialEq, Eq, Structural)]
pub struct Castling {
    pub white_king: bool,
    pub black_king: bool,
    pub white_queen: bool,
    pub black_queen: bool,
}

impl Castling {
    /// All four rights revoked.
    pub fn none() -> (r: Castling)
        ensures
            !r.white_king && !r.black_king && !r.white_queen && !r.black_queen,
    {
        Castling { white_king: false, black_king: false, white_queen: false, black_queen: false }
    }

    /// Parses a castling-rights token: `-` for no rights, else one
    /// letter per right; any other letter is a parse error.
    pub fn from_str(s: &str) -> (r: Result<Castling, ChessError>)
        ensures
            (s@.len() == 1 && s@[0] == '-') ==> (r matches Ok(c) && c == (Castling {
                white_king: false,
                black_king: false,
                white_queen: false,
                black_queen: false,
            })),
            !(s@.len() == 1 && s@[0] == '-') && (forall|i: int| 0 <= i < s@.len() ==> (#[trigger] s@[i]
                == 'K' || s@[i] == 'Q' || s@[i] == 'k' || s@[i] == 'q')) ==> (r matches Ok(c)
                && c.white_king == s@.contains('K') && c.white_queen == s@.contains('Q')
                && c.black_king == s@.contains('k') && c.black_queen == s@.contains('q')),
            !(s@.len() == 1 && s@[0] == '-') && (exists|i: int| 0 <= i < s@.len() && !(#[trigger] s@[i]
                == 'K' || s@[i] == 'Q' || s@[i] == 'k' || s@[i] == 'q')) ==> (r matches Err(e)
                && e is ParseError),
    {
        let n = s.unicode_len();
        let mut castling = Castling::none();
        if n == 1 && s.get_char(0) == '-' {
            return Ok(castling);
        }
        let mut i: usize = 0;
        while i < n
            invariant
                n == s@.len(),
                i <= n,
                !(s@.len() == 1 && s@[0] == '-'),
                castling.white_king == (exists|j: int| 0 <= j < i && s@[j] == 'K'),
                castling.white_queen == (exists|j: int| 0 <= j < i && s@[j] == 'Q'),
                castling.black_king == (exists|j: int| 0 <= j < i && s@[j] == 'k'),
                castling.black_queen == (exists|j: int| 0 <= j < i && s@[j] == 'q'),
                forall|j: int| 0 <= j < i ==> (#[trigger] s@[j] == 'K' || s@[j] == 'Q' || s@[j]
                    == 'k' || s@[j] == 'q'),
            decreases n - i,
        {
            let c = s.get_char(i);
            if c == 'K' {
                castling.white_king = true;
            } else if c == 'Q' {
                castling.white_queen = true;
            } else if c == 'k' {
                castling.black_king = true;
            } else if c == 'q' {
                castling.black_queen = true;
            } else {
                return Err(ChessError::ParseError(copy_str(s), "Castling"));
            }
            i = i + 1;
        }
        proof {
            if s@.contains('K') {
                let j = choose|j: int| 0 <= j < s@.len() && s@[j] == 'K';
            }
            if s@.contains('Q') {
                let j = choose|j: int| 0 <= j < s@.len() && s@[j] == 'Q';
            }
            if s@.contains('k') {
                let j = choose|j: int| 0 <= j < s@.len() && s@[j] == 'k';
            }
            if s@.contains('q') {
                let j = choose|j: int| 0 <= j < s@.len() && s@[j] == 'q';
            }
        }
        Ok(castling)
    }

    /// The text of the rights: one letter per right in `KQkq` order, or
    /// `-` where no right remains.
    pub fn as_string(&self) -> (r: String)
        ensures
            r@ =~= castling_chars(*self),
    {
        let mut out = String::new();
        if self.white_king {
            out.append("K");
        }
        if self.white_queen {
            out.append("Q");
        }
        if self.black_king {
            out.append("k");
        }
        if self.black_queen {
            out.append("q");
        }
        if !self.white_king && !self.white_queen && !self.black_king && !self.black_queen {
            out.append("-");
        }
        proof {
            reveal_strlit("K");
            reveal_strlit("Q");
            reveal_strlit("k");
            reveal_strlit("q");
            reveal_strlit("-");
        }
        out
    }
}

/// The rights' text form, letter by letter.
pub open spec fn castling_chars(c: Castling) -> Seq<char> {
    if !c.white_king && !c.white_queen && !c.black_king && !c.black_queen {
        seq!['-']
    } else {
        (if c.white_king {
            seq!['K']
        } else {
            Seq::empty()
        }) + (if c.white_queen {
            seq!['Q']
        } else {
            Seq::empty()
        }) + (if c.black_king {
            seq!['k']
        } else {
            Seq::empty()
        }) + (if c.black_queen {
            seq!['q']
        } else {
            Seq::empty()
        })
    }
}

/// An owned copy of a borrowed string.
pub fn copy_str(s: &str) -> (r: String)
    ensures
        r@ == s@,
{
    s.to_owned()
}

/// The whole game state: the placement plus the move counters, the
/// en-passant target, and the castling rights.
pub struct State {
    pub board: Board,
    pub ply: Ply,
    pub halfmove_clock: Ply,
    pub en_passant: Option<Square>,
    pub castling: Castling,
}

impl State {
    /// Whether the state is well formed: its board is.
    pub open spec fn wf(self) -> bool {
        self.board.wf()
    }

    /// An empty board with counters at zero and no rights.
    pub fn new() -> (r: State)
        ensures
            r.wf(),
            forall|k: int| 0 <= k < 64 ==> (#[trigger] r.board.board@[k]) is None,
            r.ply == 0,
            r.halfmove_clock == 0,
            r.en_passant is None,
            !r.castling.white_king && !r.castling.black_king && !r.castling.white_queen
                && !r.castling.black_queen,
    {
        State {
            board: Board::new(),
            ply: 0,
            halfmove_clock: 0,
            en_passant: None,
            castling: Castling::none(),
        }
    }

    /// Whose move it is: white on even plies.
    pub fn side_to_move(&self) -> (r: Color)
        ensures
            r == (if self.ply % 2 == 0 {
                Color::White
            } else {
                Color::Black
            }),
    {
        if self.ply % 2 == 0 {
            Color::White
        } else {
            Color::Black
        }
    }

    pub fn ply(&self) -> (r: Ply)
        ensures
            r == self.ply,
    {
        self.ply
    }

    pub fn set_ply(&mut self, ply: Ply)
        ensures
            *final(self) == (State { ply, ..*old(self) }),
    {
        self.ply = ply;
    }

    pub fn halfmove_clock(&self) -> (r: Ply)
        ensures
            r == self.halfmove_clock,
    {
        self.halfmove_clock
    }

    pub fn set_halfmove_clock(&mut self, halfmove_clock: Ply)
        ensures
            *final(self) == (State { halfmove_clock, ..*old(self) }),
    {
        self.halfmove_clock = halfmove_clock;
    }

    pub fn en_passant(&self) -> (r: Option<Square>)
        ensures
            r == self.en_passant,
    {
        self.en_passant
    }

    pub fn set_en_passant(&mut self, en_passant: Option<Square>)
        ensures
            *final(self) == (State { en_passant, ..*old(self) }),
    {
        self.en_passant = en_passant;
    }

    pub fn castling_rights(&self) -> (r: Castling)
        ensures
            r == self.castling,
    {
        self.castling
    }

    pub fn set_castling_rights(&mut self, castling_rights: Castling)
        ensures
            *final(self) == (State { castling: castling_rights, ..*old(self) }),
    {
        self.castling = castling_rights;
    }
}

} // verus!
