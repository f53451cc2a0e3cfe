//! Pseudolegal move generation over the compact board: for each
//! occupied origin, the matching attack primitive, same-color
//! destinations removed, each destination classified as quiet or
//! capturing, and pawn moves split into pushes, double pushes, captures
//! and promotions.
use vstd::prelude::*;

use crate::bitboard::BitBoard;
use crate::bitboard_moves::bishop_attacked;
use crate::bitboard_moves::king_step;
use crate::bitboard_moves::knight_jump;
use crate::bitboard_moves::rook_attacked;
use crate::bitboard_moves::PextTable;
use crate::bits::bit64;
use crate::bits::sq_bit;
use crate::byteboard::byteboard::ByteBoard;
use crate::byteboard::bytesquare::color_of;
use crate::byteboard::bytesquare::occupied_of;
use crate::byteboard::bytesquare::piece_type_of;
use crate::byteboard::bytesquare::ByteColor;
use crate::byteboard::bytesquare::ByteSquare;
use crate::byteboard::bytesquare::PieceType;
use crate::square::lemma_square_int_injective;
use crate::square::Square;

verus! {

broadcast use crate::bits::group_bit64;

/// One pseudolegal move: origin, destination, the promotion kind where
/// a pawn reaches the last rank, and whether the destination holds an
/// opposing piece.
#[derive(Debug, Copy, Clone, PartialEq, Eq)]
pub struct Move {
    pub from: Square,
    pub to: Square,
    pub promotion: Option<PieceType>,
    pub capture: bool,
}

/// The occupancy mask of the first `n` squares of a board.
pub open spec fn occ_mask_rec(s: Seq<ByteSquare>, n: int) -> u64
    decreases n,
{
    if n <= 0 {
        0
    } else if occupied_of(s[n - 1].0) {
        occ_mask_rec(s, n - 1) | (1u64 << ((n - 1) as u64))
    } else {
        occ_mask_rec(s, n - 1)
    }
}

/// The occupancy mask of a board: bit `k` set exactly when square `k`
/// holds a piece.
pub open spec fn occ_mask(s: Seq<ByteSquare>) -> u64 {
    occ_mask_rec(s, 64)
}

/// Every square index is on the board.
pub proof fn lemma_square_bounds(sq: Square)
    ensures
        0 <= sq.as_int() < 64,
        sq.as_int() == 8 * sq.rank_int() + sq.file_int(),
        0 <= sq.rank_int() < 8,
        0 <= sq.file_int() < 8,
{
}

/// The starting rank of a pawn of the given color.
pub open spec fn pawn_start_rank(c: ByteColor) -> int {
    if c == ByteColor::White {
        1
    } else {
        6
    }
}

/// The promotion rank of a pawn of the given color.
pub open spec fn pawn_last_rank(c: ByteColor) -> int {
    if c == ByteColor::White {
        7
    } else {
        0
    }
}

/// One forward step for a pawn of the given color.
pub open spec fn pawn_dir(c: ByteColor) -> int {
    if c == ByteColor::White {
        1
    } else {
        -1
    }
}

/// Whether a pawn of color `c` standing on `m.from` may go to `m.to` on
/// the board `s`: a single push onto an empty square, a double push
/// from the start rank across an empty square, or a diagonal capture of
/// an opposing piece.
pub open spec fn pawn_reach(s: Seq<ByteSquare>, c: ByteColor, m: Move) -> bool {
    let fr = m.from.rank_int();
    let ff = m.from.file_int();
    let tr = m.to.rank_int();
    let tf = m.to.file_int();
    let d = pawn_dir(c);
    ||| (tr == fr + d && tf == ff && !occupied_of(s[m.to.as_int()].0))
    ||| (fr == pawn_start_rank(c) && tr == fr + 2 * d && tf == ff && !occupied_of(
        s[8 * (fr + d) + ff].0,
    ) && !occupied_of(s[m.to.as_int()].0))
    ||| (tr == fr + d && (tf == ff + 1 || tf == ff - 1) && occupied_of(s[m.to.as_int()].0)
        && color_of(s[m.to.as_int()].0) != c)
}

/// Whether the promotion field of a pawn move is right: exactly the
/// moves onto the last rank carry a promotion kind, one of the four
/// pieces a pawn may become.
pub open spec fn pawn_promotion_ok(c: ByteColor, m: Move) -> bool {
    if m.to.rank_int() == pawn_last_rank(c) {
        m.promotion matches Some(p) && (p == PieceType::Queen || p == PieceType::Rook || p
            == PieceType::Bishop || p == PieceType::Knight)
    } else {
        m.promotion is None
    }
}

/// Where a non-pawn piece of the given kind on `m.from` may reach.
pub open spec fn piece_reach(s: Seq<ByteSquare>, kind: PieceType, m: Move) -> bool {
    if kind == PieceType::Knight {
        knight_jump(m.from.rank_int(), m.from.file_int(), m.to.rank_int(), m.to.file_int())
    } else if kind == PieceType::King {
        king_step(m.from.rank_int(), m.from.file_int(), m.to.rank_int(), m.to.file_int())
    } else if kind == PieceType::Rook {
        rook_attacked(occ_mask(s), m.from, m.to.rank_int(), m.to.file_int())
    } else if kind == PieceType::Bishop {
        bishop_attacked(occ_mask(s), m.from, m.to.rank_int(), m.to.file_int())
    } else {
        rook_attacked(occ_mask(s), m.from, m.to.rank_int(), m.to.file_int()) || bishop_attacked(
            occ_mask(s),
            m.from,
            m.to.rank_int(),
            m.to.file_int(),
        )
    }
}

/// Whether a move is a pseudolegal move of the board `s` under the
/// attack table `t`: the origin holds a piece, the destination is
/// reachable by that piece's attack primitive, no move lands on a
/// same-color piece, the capture flag is the destination's occupancy,
/// and only pawn moves onto the last rank promote.
pub open spec fn move_ok(s: Seq<ByteSquare>, m: Move) -> bool {
    let fb = s[m.from.as_int()].0;
    let tb = s[m.to.as_int()].0;
    &&& occupied_of(fb)
    &&& match piece_type_of(fb) {
        Some(PieceType::Pawn) => pawn_reach(s, color_of(fb), m) && m.capture == occupied_of(tb)
            && pawn_promotion_ok(color_of(fb), m),
        Some(kind) => {
            &&& piece_reach(s, kind, m)
            &&& !(occupied_of(tb) && color_of(tb) == color_of(fb))
            &&& m.capture == occupied_of(tb)
            &&& m.promotion is None
        },
        None => false,
    }
}

/// Appending keeps every element and adds the new one.
proof fn lemma_push_contains(s: Seq<Move>, v: Move)
    ensures
        forall|m: Move| s.contains(m) ==> #[trigger] s.push(v).contains(m),
        s.push(v).contains(v),
{
    assert forall|m: Move| s.contains(m) implies #[trigger] s.push(v).contains(m) by {
        let i = choose|i: int| 0 <= i < s.len() && s[i] == m;
        assert(s.push(v)[i] == m);
    }
    assert(s.push(v)[s.len() as int] == v);
}

/// A longer sequence agreeing on a prefix keeps everything the prefix
/// contains.
proof fn lemma_extend_contains(a: Seq<Move>, b: Seq<Move>)
    requires
        b.len() >= a.len(),
        forall|k: int| 0 <= k < a.len() ==> b[k] == a[k],
    ensures
        forall|m: Move| a.contains(m) ==> #[trigger] b.contains(m),
{
    assert forall|m: Move| a.contains(m) implies #[trigger] b.contains(m) by {
        let i = choose|i: int| 0 <= i < a.len() && a[i] == m;
        assert(b[i] == m);
    }
}

/// A singleton's leaper attack set read at a target square: membership
/// is exactly the king's step relation from the origin.
proof fn lemma_king_equiv(fbb: BitBoard, raw: BitBoard, from_sq: Square, to: Square)
    requires
        forall|rr: int, ff: int| #[trigger] sq_bit(fbb.0, rr, ff) == (rr == from_sq.rank_int() && ff
            == from_sq.file_int()),
        forall|rr: int, ff: int| 0 <= rr < 8 && 0 <= ff < 8 ==> #[trigger] sq_bit(raw.0, rr, ff)
            == exists|r0: int, f0: int| #[trigger] sq_bit(fbb.0, r0, f0) && king_step(
            r0,
            f0,
            rr,
            ff,
        ),
    ensures
        sq_bit(raw.0, to.rank_int(), to.file_int()) == king_step(
            from_sq.rank_int(),
            from_sq.file_int(),
            to.rank_int(),
            to.file_int(),
        ),
{
    lemma_square_bounds(from_sq);
    lemma_square_bounds(to);
    assert(sq_bit(fbb.0, from_sq.rank_int(), from_sq.file_int()));
    if sq_bit(raw.0, to.rank_int(), to.file_int()) {
        let (r0, f0) = choose|r0: int, f0: int| #[trigger] sq_bit(fbb.0, r0, f0) && king_step(
            r0,
            f0,
            to.rank_int(),
            to.file_int(),
        );
        assert(r0 == from_sq.rank_int() && f0 == from_sq.file_int());
    }
}

/// The same reading for the knight's jump relation.
proof fn lemma_knight_equiv(fbb: BitBoard, raw: BitBoard, from_sq: Square, to: Square)
    requires
        forall|rr: int, ff: int| #[trigger] sq_bit(fbb.0, rr, ff) == (rr == from_sq.rank_int() && ff
            == from_sq.file_int()),
        forall|rr: int, ff: int| 0 <= rr < 8 && 0 <= ff < 8 ==> #[trigger] sq_bit(raw.0, rr, ff)
            == exists|r0: int, f0: int| #[trigger] sq_bit(fbb.0, r0, f0) && knight_jump(
            r0,
            f0,
            rr,
            ff,
        ),
    ensures
        sq_bit(raw.0, to.rank_int(), to.file_int()) == knight_jump(
            from_sq.rank_int(),
            from_sq.file_int(),
            to.rank_int(),
            to.file_int(),
        ),
{
    lemma_square_bounds(from_sq);
    lemma_square_bounds(to);
    assert(sq_bit(fbb.0, from_sq.rank_int(), from_sq.file_int()));
    if sq_bit(raw.0, to.rank_int(), to.file_int()) {
        let (r0, f0) = choose|r0: int, f0: int| #[trigger] sq_bit(fbb.0, r0, f0) && knight_jump(
            r0,
            f0,
            to.rank_int(),
            to.file_int(),
        );
        assert(r0 == from_sq.rank_int() && f0 == from_sq.file_int());
    }
}

impl ByteBoard {
    /// The set of occupied squares as a bitboard.
    pub fn occupancy(&self) -> (r: BitBoard)
        requires
            self.wf(),
        ensures
            r.0 == occ_mask(self.squares@),
    {
        let mut occ = BitBoard::new(0);
        let mut i: usize = 0;
        while i < 64
            invariant
                self.wf(),
                i <= 64,
                occ.0 == occ_mask_rec(self.squares@, i as int),
            decreases 64 - i,
        {
            if self.squares[i].occupied() {
                occ = occ.bitor(BitBoard::new(1u64 << (i as u64)));
            }
            i = i + 1;
        }
        occ
    }

    /// Every pseudolegal move of the position: for each occupied origin
    /// square, the matching attack primitive, same-color destinations
    /// excluded, each destination emitted as quiet or capturing; no
    /// legality filtering (checks, pins) is applied.
    #[verifier::rlimit(40)]
    pub fn moves(&self, table: &PextTable) -> (res: Vec<Move>)
        requires
            self.wf(),
            table.wf(),
        ensures
            forall|k: int| 0 <= k < res.len() ==> move_ok(self.squares@, #[trigger] res@[k]),
            forall|m: Move| move_ok(self.squares@, m) ==> #[trigger] res@.contains(m),
            forall|k1: int, k2: int| 0 <= k1 < k2 < res.len() ==> #[trigger] res@[k1]
                != #[trigger] res@[k2],
    {
        let ghost s = self.squares@;
        let occ = self.occupancy();
        let mut res: Vec<Move> = Vec::new();
        let mut i: usize = 0;
        while i < 64
            invariant
                self.wf(),
                table.wf(),
                s == self.squares@,
                occ.0 == occ_mask(s),
                i <= 64,
                forall|k: int| 0 <= k < res.len() ==> move_ok(s, #[trigger] res@[k]),
                forall|m: Move| move_ok(s, m) && m.from.as_int() < i ==> #[trigger] res@.contains(
                    m,
                ),
                forall|k: int| 0 <= k < res.len() ==> (#[trigger] res@[k]).from.as_int() < i,
                forall|k1: int, k2: int| 0 <= k1 < k2 < res.len() ==> #[trigger] res@[k1]
                    != #[trigger] res@[k2],
            decreases 64 - i,
        {
            let ghost entry = res@;
            let fsq = self.squares[i];
            let from_sq = Square::from_index(i);
            let from_sq = from_sq.unwrap();
            let kind_opt = fsq.piece_type();
            if fsq.occupied() && kind_opt.is_some() {
                let kind = kind_opt.unwrap();
                match kind {
                    PieceType::Pawn => {
                        self.pawn_targets(from_sq, fsq, &mut res);
                    },
                    _ => {
                        let fbb = BitBoard::from_square(from_sq);
                        let raw = match kind {
                            PieceType::King => fbb.king_moves(),
                            PieceType::Knight => fbb.knight_moves(),
                            PieceType::Rook => table.rook_moves(occ, from_sq),
                            PieceType::Bishop => table.bishop_moves(occ, from_sq),
                            _ => table.queen_moves(occ, from_sq),
                        };
                        proof {
                            assert forall|to: Square| #[trigger] sq_bit(
                                raw.0,
                                to.rank_int(),
                                to.file_int(),
                            ) == piece_reach(s, kind, Move {
                                from: from_sq,
                                to,
                                promotion: None,
                                capture: false,
                            }) by {
                                lemma_square_bounds(to);
                                if kind == PieceType::King {
                                    lemma_king_equiv(fbb, raw, from_sq, to);
                                } else if kind == PieceType::Knight {
                                    lemma_knight_equiv(fbb, raw, from_sq, to);
                                }
                            }
                        }
                        self.push_targets(from_sq, fsq, raw, &mut res);
                    },
                }
            }
            proof {
                lemma_extend_contains(entry, res@);
                assert forall|m: Move| move_ok(s, m) && m.from.as_int() < i + 1 implies #[trigger] res@.contains(
                    m,
                ) by {
                    if m.from.as_int() == i {
                        lemma_square_int_injective(m.from, from_sq);
                        lemma_square_bounds(m.to);
                    }
                }
            }
            i = i + 1;
        }
        res
    }

    /// Emits every move of a non-pawn piece on `from_sq` whose raw
    /// attack set is `raw`: destinations holding a same-color piece are
    /// skipped, the rest become quiet or capturing moves.
    #[verifier::rlimit(40)]
    fn push_targets(&self, from_sq: Square, fsq: ByteSquare, raw: BitBoard, res: &mut Vec<Move>)
        requires
            self.wf(),
            fsq == self.squares@[from_sq.as_int()],
        ensures
            forall|k: int| 0 <= k < old(res).len() ==> #[trigger] final(res)@[k] == old(res)@[k],
            final(res).len() >= old(res).len(),
            forall|k: int| old(res).len() <= k < final(res).len() ==> (#[trigger] final(res)@[k]).from == from_sq && sq_bit(
                raw.0,
                final(res)@[k].to.rank_int(),
                final(res)@[k].to.file_int(),
            ) && !(occupied_of(self.squares@[final(res)@[k].to.as_int()].0) && color_of(
                self.squares@[final(res)@[k].to.as_int()].0,
            ) == color_of(fsq.0)) && final(res)@[k].capture == occupied_of(
                self.squares@[final(res)@[k].to.as_int()].0,
            ) && final(res)@[k].promotion is None,
            forall|k1: int, k2: int| old(res).len() <= k1 < k2 < final(res).len()
                ==> #[trigger] final(res)@[k1] != #[trigger] final(res)@[k2],
            forall|m: Move| m.from == from_sq && sq_bit(raw.0, m.to.rank_int(), m.to.file_int())
                && !(occupied_of(self.squares@[m.to.as_int()].0) && color_of(
                self.squares@[m.to.as_int()].0,
            ) == color_of(fsq.0)) && m.capture == occupied_of(self.squares@[m.to.as_int()].0)
                && m.promotion is None ==> #[trigger] final(res)@.contains(m),
    {
        let ghost base = res@;
        let mut j: usize = 0;
        while j < 64
            invariant
                self.wf(),
                fsq == self.squares@[from_sq.as_int()],
                j <= 64,
                forall|k: int| 0 <= k < base.len() ==> #[trigger] res@[k] == base[k],
                res.len() >= base.len(),
                forall|k: int| base.len() <= k < res.len() ==> (#[trigger] res@[k]).from == from_sq
                    && sq_bit(raw.0, res@[k].to.rank_int(), res@[k].to.file_int()) && !(occupied_of(
                    self.squares@[res@[k].to.as_int()].0,
                ) && color_of(self.squares@[res@[k].to.as_int()].0) == color_of(fsq.0))
                    && res@[k].capture == occupied_of(self.squares@[res@[k].to.as_int()].0)
                    && res@[k].promotion is None,
                forall|k: int| base.len() <= k < res.len() ==> (#[trigger] res@[k]).to.as_int()
                    < j,
                forall|k1: int, k2: int| base.len() <= k1 < k2 < res.len() ==> #[trigger] res@[k1]
                    != #[trigger] res@[k2],
                forall|m: Move| m.from == from_sq && m.to.as_int() < j && sq_bit(
                    raw.0,
                    m.to.rank_int(),
                    m.to.file_int(),
                ) && !(occupied_of(self.squares@[m.to.as_int()].0) && color_of(
                    self.squares@[m.to.as_int()].0,
                ) == color_of(fsq.0)) && m.capture == occupied_of(self.squares@[m.to.as_int()].0)
                    && m.promotion is None ==> #[trigger] res@.contains(m),
            decreases 64 - j,
        {
            let to_sq = Square::from_index(j);
            let to_sq = to_sq.unwrap();
            if raw.contains(to_sq) {
                proof {
                    lemma_square_bounds(to_sq);
                }
                let tsq = self.squares[j];
                let fc = fsq.color();
                let ghost pre = res@;
                if !tsq.occupied() {
                    res.push(Move { from: from_sq, to: to_sq, promotion: None, capture: false });
                    proof {
                        lemma_push_contains(pre, res@[res.len() - 1]);
                    }
                } else if tsq.color() != fc {
                    res.push(Move { from: from_sq, to: to_sq, promotion: None, capture: true });
                    proof {
                        lemma_push_contains(pre, res@[res.len() - 1]);
                    }
                }
            }
            proof {
                assert forall|m: Move| m.from == from_sq && m.to.as_int() < j + 1 && sq_bit(
                    raw.0,
                    m.to.rank_int(),
                    m.to.file_int(),
                ) && !(occupied_of(self.squares@[m.to.as_int()].0) && color_of(
                    self.squares@[m.to.as_int()].0,
                ) == color_of(fsq.0)) && m.capture == occupied_of(self.squares@[m.to.as_int()].0)
                    && m.promotion is None implies #[trigger] res@.contains(m) by {
                    if m.to.as_int() == j {
                        lemma_square_bounds(m.to);
                        lemma_square_int_injective(m.to, to_sq);
                        assert(bit64(raw.0, j as u64));
                    }
                }
            }
            j = j + 1;
        }
    }

    /// Emits every pawn move from `from_sq`: single pushes, double
    /// pushes from the start rank, diagonal captures, and the four
    /// promotion variants where the destination is the last rank.
    #[verifier::rlimit(40)]
    fn pawn_targets(&self, from_sq: Square, fsq: ByteSquare, res: &mut Vec<Move>)
        requires
            self.wf(),
            fsq == self.squares@[from_sq.as_int()],
        ensures
            forall|k: int| 0 <= k < old(res).len() ==> #[trigger] final(res)@[k] == old(res)@[k],
            final(res).len() >= old(res).len(),
            forall|k: int| old(res).len() <= k < final(res).len() ==> (#[trigger] final(res)@[k]).from == from_sq && pawn_reach(self.squares@, color_of(fsq.0), final(res)@[k])
                && final(res)@[k].capture == occupied_of(
                self.squares@[final(res)@[k].to.as_int()].0,
            ) && pawn_promotion_ok(color_of(fsq.0), final(res)@[k]),
            forall|k1: int, k2: int| old(res).len() <= k1 < k2 < final(res).len()
                ==> #[trigger] final(res)@[k1] != #[trigger] final(res)@[k2],
            forall|m: Move| m.from == from_sq && pawn_reach(self.squares@, color_of(fsq.0), m)
                && m.capture == occupied_of(self.squares@[m.to.as_int()].0) && pawn_promotion_ok(
                color_of(fsq.0),
                m,
            ) ==> #[trigger] final(res)@.contains(m),
    {
        let ghost base = res@;
        let c = fsq.color();
        let fr = from_sq.rank().index();
        let ff = from_sq.file().index();
        proof {
            lemma_square_bounds(from_sq);
        }
        let mut j: usize = 0;
        while j < 64
            invariant
                self.wf(),
                fsq == self.squares@[from_sq.as_int()],
                c == color_of(fsq.0),
                fr == from_sq.rank_int(),
                ff == from_sq.file_int(),
                j <= 64,
                forall|k: int| 0 <= k < base.len() ==> #[trigger] res@[k] == base[k],
                res.len() >= base.len(),
                forall|k: int| base.len() <= k < res.len() ==> (#[trigger] res@[k]).from == from_sq
                    && pawn_reach(self.squares@, c, res@[k]) && res@[k].capture == occupied_of(
                    self.squares@[res@[k].to.as_int()].0,
                ) && pawn_promotion_ok(c, res@[k]),
                forall|k: int| base.len() <= k < res.len() ==> (#[trigger] res@[k]).to.as_int()
                    < j,
                forall|k1: int, k2: int| base.len() <= k1 < k2 < res.len() ==> #[trigger] res@[k1]
                    != #[trigger] res@[k2],
                forall|m: Move| m.from == from_sq && m.to.as_int() < j && pawn_reach(
                    self.squares@,
                    c,
                    m,
                ) && m.capture == occupied_of(self.squares@[m.to.as_int()].0) && pawn_promotion_ok(
                    c,
                    m,
                ) ==> #[trigger] res@.contains(m),
            decreases 64 - j,
        {
            let to_sq = Square::from_index(j);
            let to_sq = to_sq.unwrap();
            let tr = j / 8;
            let tf = j % 8;
            proof {
                lemma_square_bounds(to_sq);
            }
            let tocc = self.squares[j].occupied();
            let up_ok = (c == ByteColor::White && tr == fr + 1) || (c == ByteColor::Black && tr + 1
                == fr);
            let two_ok = (c == ByteColor::White && fr == 1 && tr == 3) || (c == ByteColor::Black
                && fr == 6 && tr == 4);
            let mid_empty = if two_ok {
                let mid = if c == ByteColor::White {
                    from_sq.index() + 8
                } else {
                    from_sq.index() - 8
                };
                !self.squares[mid].occupied()
            } else {
                false
            };
            let push1 = up_ok && tf == ff && !tocc;
            let push2 = two_ok && tf == ff && mid_empty && !tocc;
            let cap = up_ok && (tf == ff + 1 || tf + 1 == ff) && tocc && self.squares[j].color()
                != c;
            if push1 || push2 || cap {
                let ghost pre = res@;
                self.push_pawn(from_sq, to_sq, tocc, c, res);
                proof {
                    lemma_extend_contains(pre, res@);
                    assert forall|k: int| pre.len() <= k < res.len() implies pawn_reach(
                        self.squares@,
                        c,
                        #[trigger] res@[k],
                    ) by {
                        assert(res@[k].to == to_sq && res@[k].from == from_sq);
                    }
                }
            }
            proof {
                assert forall|m: Move| m.from == from_sq && m.to.as_int() < j + 1 && pawn_reach(
                    self.squares@,
                    c,
                    m,
                ) && m.capture == occupied_of(self.squares@[m.to.as_int()].0) && pawn_promotion_ok(
                    c,
                    m,
                ) implies #[trigger] res@.contains(m) by {
                    if m.to.as_int() == j {
                        lemma_square_bounds(m.to);
                        lemma_square_int_injective(m.to, to_sq);
                    }
                }
            }
            j = j + 1;
        }
    }

    /// Emits one pawn move, or its four promotion variants where the
    /// destination is the last rank.
    fn push_pawn(&self, from_sq: Square, to_sq: Square, capture: bool, c: ByteColor, res: &mut Vec<
        Move,
    >)
        requires
            self.wf(),
        ensures
            forall|k: int| 0 <= k < old(res).len() ==> #[trigger] final(res)@[k] == old(res)@[k],
            final(res).len() >= old(res).len(),
            forall|k: int| old(res).len() <= k < final(res).len() ==> (#[trigger] final(res)@[k]).from == from_sq && final(res)@[k].to == to_sq && final(res)@[k].capture
                == capture && pawn_promotion_ok(c, final(res)@[k]),
            forall|k1: int, k2: int| old(res).len() <= k1 < k2 < final(res).len()
                ==> #[trigger] final(res)@[k1] != #[trigger] final(res)@[k2],
            forall|m: Move| m.from == from_sq && m.to == to_sq && m.capture == capture
                && pawn_promotion_ok(c, m) ==> #[trigger] final(res)@.contains(m),
    {
        let last_rank = to_sq.rank().index() == (if c == ByteColor::White {
            7
        } else {
            0
        });
        if last_rank {
            let ghost p0 = res@;
            res.push(
                Move { from: from_sq, to: to_sq, promotion: Some(PieceType::Knight), capture },
            );
            proof {
                lemma_push_contains(p0, res@[res.len() - 1]);
            }
            let ghost p1 = res@;
            res.push(
                Move { from: from_sq, to: to_sq, promotion: Some(PieceType::Bishop), capture },
            );
            proof {
                lemma_push_contains(p1, res@[res.len() - 1]);
                lemma_extend_contains(p0, res@);
            }
            let ghost p2 = res@;
            res.push(Move { from: from_sq, to: to_sq, promotion: Some(PieceType::Rook), capture });
            proof {
                lemma_push_contains(p2, res@[res.len() - 1]);
                lemma_extend_contains(p1, res@);
            }
            let ghost p3 = res@;
            res.push(Move { from: from_sq, to: to_sq, promotion: Some(PieceType::Queen), capture });
            proof {
                lemma_push_contains(p3, res@[res.len() - 1]);
                lemma_extend_contains(p2, res@);
                lemma_extend_contains(p1, res@);
                lemma_extend_contains(p0, res@);
            }
        } else {
            let ghost p0 = res@;
            res.push(Move { from: from_sq, to: to_sq, promotion: None, capture });
            proof {
                lemma_push_contains(p0, res@[res.len() - 1]);
            }
        }
    }
}

} // verus!
