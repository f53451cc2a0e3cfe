//! Attack primitives: leaper masks built from edge-clipped shifts,
//! reference ray-casting for sliders, and the precomputed attack table
//! indexed by a perfect hash of the relevant occupancy.
use vstd::prelude::*;

use crate::bitboard::BitBoard;
use crate::bits::popcnt64;
use crate::bits::sq_bit;
use crate::direction::Direction;
use crate::file::File;
use crate::gather::extract_bits;
use crate::gather::gather_bits;
use crate::gather::lemma_gather_full;
use crate::gather::lemma_gather_injective;
use crate::gather::lemma_gather_next;
use crate::gather::lemma_gather_zero;
use crate::gather::rippler_next;
use crate::piece::Color;
use crate::rank::Rank;
use crate::square::Square;
use vstd::arithmetic::power2::pow2;

verus! {

broadcast use crate::bits::group_bit64;

/// One forward step for a pawn of the given color.
pub open spec fn pawn_step(color: Color) -> int {
    if color == Color::White {
        1
    } else {
        -1
    }
}

/// Whether a knight placed on `(r1, f1)` attacks `(r2, f2)`.
pub open spec fn knight_jump(r1: int, f1: int, r2: int, f2: int) -> bool {
    ||| (r2 == r1 + 1 || r2 == r1 - 1) && (f2 == f1 + 2 || f2 == f1 - 2)
    ||| (r2 == r1 + 2 || r2 == r1 - 2) && (f2 == f1 + 1 || f2 == f1 - 1)
}

/// Whether a king placed on `(r1, f1)` attacks `(r2, f2)`.
pub open spec fn king_step(r1: int, f1: int, r2: int, f2: int) -> bool {
    !(r2 == r1 && f2 == f1) && r1 - 1 <= r2 <= r1 + 1 && f1 - 1 <= f2 <= f1 + 1
}

impl BitBoard {
    /// Every member moved one step forward, white forward being up.
    pub fn pawn_moves(self, color: Color) -> (r: BitBoard)
        ensures
            forall|rr: int, ff: int| 0 <= rr < 8 && 0 <= ff < 8 ==> #[trigger] sq_bit(r.0, rr, ff)
                == sq_bit(self.0, rr - pawn_step(color), ff),
    {
        match color {
            Color::White => self.up(),
            Color::Black => self.down(),
        }
    }

    /// Every member moved two steps forward: the double-step push.
    pub fn pawn_pushes(self, color: Color) -> (r: BitBoard)
        ensures
            forall|rr: int, ff: int| 0 <= rr < 8 && 0 <= ff < 8 ==> #[trigger] sq_bit(r.0, rr, ff)
                == sq_bit(self.0, rr - 2 * pawn_step(color), ff),
    {
        match color {
            Color::White => self.up().up(),
            Color::Black => self.down().down(),
        }
    }

    /// The squares attacked by pawns of the given color standing on the
    /// members: one step forward, then one to either side.
    pub fn pawn_attacks(self, color: Color) -> (r: BitBoard)
        ensures
            forall|rr: int, ff: int| 0 <= rr < 8 && 0 <= ff < 8 ==> #[trigger] sq_bit(r.0, rr, ff)
                == (sq_bit(self.0, rr - pawn_step(color), ff + 1) || sq_bit(
                self.0,
                rr - pawn_step(color),
                ff - 1,
            )),
    {
        let moves = self.pawn_moves(color);
        let ml = moves.left();
        let mr = moves.right();
        ml.bitor(mr)
    }

    /// The squares a knight on any member square attacks; offsets that
    /// leave the board are dropped by the edge-clipping shifts.
    pub fn knight_moves(self) -> (r: BitBoard)
        ensures
            forall|rr: int, ff: int| 0 <= rr < 8 && 0 <= ff < 8 ==> #[trigger] sq_bit(r.0, rr, ff)
                == exists|r0: int, f0: int| #[trigger] sq_bit(self.0, r0, f0) && knight_jump(
                r0,
                f0,
                rr,
                ff,
            ),
    {
        let u1 = self.up();
        let d1 = self.down();
        let u2 = u1.up();
        let d2 = d1.down();
        let v1 = u1.bitor(d1);
        let v2 = u2.bitor(d2);
        let v1l = v1.left();
        let v1ll = v1l.left();
        let v1r = v1.right();
        let v1rr = v1r.right();
        let h1 = v1ll.bitor(v1rr);
        let v2l = v2.left();
        let v2r = v2.right();
        let h2 = v2l.bitor(v2r);
        let r = h1.bitor(h2);
        proof {
            assert forall|rr: int, ff: int| 0 <= rr < 8 && 0 <= ff < 8 implies #[trigger] sq_bit(
                r.0,
                rr,
                ff,
            ) == exists|r0: int, f0: int| #[trigger] sq_bit(self.0, r0, f0) && knight_jump(
                r0,
                f0,
                rr,
                ff,
            ) by {
                let b = self.0;
                if sq_bit(r.0, rr, ff) {
                    assert(sq_bit(b, rr - 1, ff + 2) || sq_bit(b, rr + 1, ff + 2) || sq_bit(
                        b,
                        rr - 1,
                        ff - 2,
                    ) || sq_bit(b, rr + 1, ff - 2) || sq_bit(b, rr - 2, ff + 1) || sq_bit(
                        b,
                        rr + 2,
                        ff + 1,
                    ) || sq_bit(b, rr - 2, ff - 1) || sq_bit(b, rr + 2, ff - 1));
                }
                if exists|r0: int, f0: int| #[trigger] sq_bit(self.0, r0, f0) && knight_jump(
                    r0,
                    f0,
                    rr,
                    ff,
                ) {
                    let (r0, f0) = choose|r0: int, f0: int| #[trigger] sq_bit(self.0, r0, f0)
                        && knight_jump(r0, f0, rr, ff);
                    assert(sq_bit(r.0, rr, ff));
                }
            }
        }
        r
    }

    /// The squares a king on any member square attacks: the eight unit
    /// offsets, edge-clipped.
    pub fn king_moves(self) -> (r: BitBoard)
        ensures
            forall|rr: int, ff: int| 0 <= rr < 8 && 0 <= ff < 8 ==> #[trigger] sq_bit(r.0, rr, ff)
                == exists|r0: int, f0: int| #[trigger] sq_bit(self.0, r0, f0) && king_step(
                r0,
                f0,
                rr,
                ff,
            ),
    {
        let u1 = self.up();
        let d1 = self.down();
        let v = u1.bitor(d1);
        let h = v.bitor(self);
        let hl = h.left();
        let hr = h.right();
        let r = hl.bitor(hr).bitor(v);
        proof {
            assert forall|rr: int, ff: int| 0 <= rr < 8 && 0 <= ff < 8 implies #[trigger] sq_bit(
                r.0,
                rr,
                ff,
            ) == exists|r0: int, f0: int| #[trigger] sq_bit(self.0, r0, f0) && king_step(
                r0,
                f0,
                rr,
                ff,
            ) by {
                let b = self.0;
                if sq_bit(r.0, rr, ff) {
                    assert(sq_bit(b, rr - 1, ff + 1) || sq_bit(b, rr, ff + 1) || sq_bit(
                        b,
                        rr + 1,
                        ff + 1,
                    ) || sq_bit(b, rr - 1, ff - 1) || sq_bit(b, rr, ff - 1) || sq_bit(
                        b,
                        rr + 1,
                        ff - 1,
                    ) || sq_bit(b, rr - 1, ff) || sq_bit(b, rr + 1, ff));
                }
                if exists|r0: int, f0: int| #[trigger] sq_bit(self.0, r0, f0) && king_step(
                    r0,
                    f0,
                    rr,
                    ff,
                ) {
                    let (r0, f0) = choose|r0: int, f0: int| #[trigger] sq_bit(self.0, r0, f0)
                        && king_step(r0, f0, rr, ff);
                    assert(sq_bit(r.0, rr, ff));
                }
            }
        }
        r
    }
}

/// Whether the square `(rt, ft)` is reached by walking from `(r0, f0)`
/// one `(dr, df)` step at a time, within `fuel` steps: the walk stops
/// at the board edge, and stops after entering an occupied square --
/// the occupied square itself is reached (a potential capture), but
/// nothing beyond it.
pub open spec fn ray_reach(
    occ: u64,
    r0: int,
    f0: int,
    dr: int,
    df: int,
    rt: int,
    ft: int,
    fuel: nat,
) -> bool
    decreases fuel,
{
    fuel > 0 && 0 <= r0 + dr < 8 && 0 <= f0 + df < 8 && ((rt == r0 + dr && ft == f0 + df) || (
    !sq_bit(occ, r0 + dr, f0 + df) && ray_reach(
        occ,
        r0 + dr,
        f0 + df,
        dr,
        df,
        rt,
        ft,
        (fuel - 1) as nat,
    )))
}

/// Whether `(rt, ft)` is attacked along one ray from `square` given the
/// blocker configuration `occ`. Seven steps reach across the board.
pub open spec fn ray_attacked(occ: u64, square: Square, d: Direction, rt: int, ft: int) -> bool {
    ray_reach(
        occ,
        square.rank_int(),
        square.file_int(),
        d.rank_delta(),
        d.file_delta(),
        rt,
        ft,
        7,
    )
}

/// Whether `(rt, ft)` is attacked by a rook on `square` given `occ`.
pub open spec fn rook_attacked(occ: u64, square: Square, rt: int, ft: int) -> bool {
    ||| ray_attacked(occ, square, Direction::Up, rt, ft)
    ||| ray_attacked(occ, square, Direction::Down, rt, ft)
    ||| ray_attacked(occ, square, Direction::Left, rt, ft)
    ||| ray_attacked(occ, square, Direction::Right, rt, ft)
}

/// Whether `(rt, ft)` is attacked by a bishop on `square` given `occ`.
pub open spec fn bishop_attacked(occ: u64, square: Square, rt: int, ft: int) -> bool {
    ||| ray_attacked(occ, square, Direction::UpLeft, rt, ft)
    ||| ray_attacked(occ, square, Direction::UpRight, rt, ft)
    ||| ray_attacked(occ, square, Direction::DownLeft, rt, ft)
    ||| ray_attacked(occ, square, Direction::DownRight, rt, ft)
}

/// The walk that realizes `ray_reach`: step from `pos`, collect the
/// entered square, and continue only through empty squares.
fn ray_walk(bb: BitBoard, pos: Square, direction: Direction, fuel: u8) -> (r: BitBoard)
    ensures
        forall|rt: int, ft: int| 0 <= rt < 8 && 0 <= ft < 8 ==> #[trigger] sq_bit(r.0, rt, ft)
            == ray_reach(
            bb.0,
            pos.rank_int(),
            pos.file_int(),
            direction.rank_delta(),
            direction.file_delta(),
            rt,
            ft,
            fuel as nat,
        ),
    decreases fuel,
{
    if fuel == 0 {
        return BitBoard::new(0);
    }
    match pos.absolute(direction) {
        None => BitBoard::new(0),
        Some(nxt) => {
            let one = BitBoard::from_square(nxt);
            proof {
                assert(nxt.as_int() == 8 * nxt.rank_int() + nxt.file_int());
            }
            if bb.contains(nxt) {
                one
            } else {
                one.bitor(ray_walk(bb, nxt, direction, fuel - 1))
            }
        },
    }
}

/// The squares attacked along one ray from `square`, by walking one
/// step at a time until leaving the board or entering a member of `bb`.
pub fn ray_attacks(bb: BitBoard, square: Square, direction: Direction) -> (r: BitBoard)
    ensures
        forall|rt: int, ft: int| 0 <= rt < 8 && 0 <= ft < 8 ==> #[trigger] sq_bit(r.0, rt, ft)
            == ray_attacked(bb.0, square, direction, rt, ft),
{
    ray_walk(bb, square, direction, 7)
}

/// The reference rook attack set: the union of the four orthogonal
/// rays.
pub fn rook_attacks(bb: BitBoard, square: Square) -> (r: BitBoard)
    ensures
        forall|rt: int, ft: int| 0 <= rt < 8 && 0 <= ft < 8 ==> #[trigger] sq_bit(r.0, rt, ft)
            == rook_attacked(bb.0, square, rt, ft),
{
    let mut result = BitBoard::new(0);
    result = result.bitor(ray_attacks(bb, square, Direction::Up));
    result = result.bitor(ray_attacks(bb, square, Direction::Down));
    result = result.bitor(ray_attacks(bb, square, Direction::Left));
    result = result.bitor(ray_attacks(bb, square, Direction::Right));
    result
}

/// The reference bishop attack set: the union of the four diagonal
/// rays.
pub fn bishop_attacks(bb: BitBoard, square: Square) -> (r: BitBoard)
    ensures
        forall|rt: int, ft: int| 0 <= rt < 8 && 0 <= ft < 8 ==> #[trigger] sq_bit(r.0, rt, ft)
            == bishop_attacked(bb.0, square, rt, ft),
{
    let mut result = BitBoard::new(0);
    result = result.bitor(ray_attacks(bb, square, Direction::UpLeft));
    result = result.bitor(ray_attacks(bb, square, Direction::DownLeft));
    result = result.bitor(ray_attacks(bb, square, Direction::UpRight));
    result = result.bitor(ray_attacks(bb, square, Direction::DownRight));
    result
}

/// The two sliding piece kinds the table is built for; a queen is the
/// union of both.
#[derive(Copy, Clone, PartialEq, Eq, Debug, Structural)]
pub enum Slider {
    Rook,
    Bishop,
}

/// Whether `(rt, ft)` is attacked by the given slider on `square`.
pub open spec fn slider_attacked(occ: u64, square: Square, sl: Slider, rt: int, ft: int) -> bool {
    match sl {
        Slider::Rook => rook_attacked(occ, square, rt, ft),
        Slider::Bishop => bishop_attacked(occ, square, rt, ft),
    }
}

/// The relevant-occupancy mask of a slider on `square`: the squares it
/// attacks on an empty board, less the board edge in each movement
/// axis -- a blocker on the last square of a ray changes nothing.
pub open spec fn mask_bit(square: Square, sl: Slider, rr: int, ff: int) -> bool {
    &&& 0 <= rr < 8 && 0 <= ff < 8
    &&& slider_attacked(0u64, square, sl, rr, ff)
    &&& !((ff == 0 || ff == 7) && ff != square.file_int())
    &&& !((rr == 0 || rr == 7) && rr != square.rank_int())
}

/// Whether the table entry `e` is the attack set of the slider on
/// `square` under the blocker configuration `occ`.
pub open spec fn entry_matches(e: u64, occ: u64, square: Square, sl: Slider) -> bool {
    forall|rr: int, ff: int| 0 <= rr < 8 && 0 <= ff < 8 ==> #[trigger] sq_bit(e, rr, ff)
        == slider_attacked(occ, square, sl, rr, ff)
}

/// The reference attack set of a slider, by ray-casting.
pub fn slider_attacks(bb: BitBoard, square: Square, slider: Slider) -> (r: BitBoard)
    ensures
        forall|rt: int, ft: int| 0 <= rt < 8 && 0 <= ft < 8 ==> #[trigger] sq_bit(r.0, rt, ft)
            == slider_attacked(bb.0, square, slider, rt, ft),
{
    match slider {
        Slider::Rook => rook_attacks(bb, square),
        Slider::Bishop => bishop_attacks(bb, square),
    }
}

/// One origin square's region of the attack table: the relevant
/// occupancy mask and the offset at which the region starts.
#[derive(Copy, Clone)]
pub struct PextBitBoard {
    pub mask: BitBoard,
    pub offset: usize,
}

impl PextBitBoard {
    /// The relevant-occupancy mask.
    pub open spec fn mask_spec(self) -> u64 {
        self.mask.0
    }

    /// Where this region starts in the flat table.
    pub open spec fn offset_spec(self) -> int {
        self.offset as int
    }

    /// The table slot assigned to a relevant occupancy `s`.
    pub open spec fn index_spec(self, s: u64) -> int {
        self.offset + gather_bits(s, self.mask.0)
    }

    /// This region is correctly built within `table` for the given
    /// origin square and slider: the mask is the relevant-occupancy
    /// mask, the region fits, and every slot holds the ray-cast attack
    /// set of its occupancy.
    pub open spec fn wf(self, table: Seq<BitBoard>, square: Square, sl: Slider) -> bool {
        &&& forall|rr: int, ff: int| #[trigger] sq_bit(self.mask.0, rr, ff) == mask_bit(
            square,
            sl,
            rr,
            ff,
        )
        &&& self.offset + pow2(popcnt64(self.mask.0)) <= table.len()
        &&& forall|s: u64| s & self.mask.0 == s ==> #[trigger] entry_matches(
            table[self.index_spec(s)].0,
            s,
            square,
            sl,
        )
    }

    /// No two distinct relevant occupancies share a table slot: the
    /// bit-gather index is a perfect hash within the region.
    pub proof fn lemma_index_injective(self, s1: u64, s2: u64)
        requires
            s1 & self.mask_spec() == s1,
            s2 & self.mask_spec() == s2,
            self.index_spec(s1) == self.index_spec(s2),
        ensures
            s1 == s2,
    {
        lemma_gather_injective(s1, s2, self.mask.0);
    }

    /// The slot of the occupancy `bb`, restricted to the relevant mask.
    pub fn index(&self, bb: BitBoard) -> (r: usize)
        requires
            self.offset + pow2(popcnt64(self.mask_spec())) <= usize::MAX,
        ensures
            r == self.index_spec(bb.0 & self.mask_spec()),
            r < self.offset + pow2(popcnt64(self.mask_spec())),
    {
        let g = extract_bits(bb.0, self.mask.0);
        self.offset + (g as usize)
    }

    /// Builds one region: computes the relevant-occupancy mask, then
    /// visits every subset of it with the carry-rippler enumeration,
    /// appending the ray-cast attack set of each; the bit-gather index
    /// of each subset is exactly the slot it lands in.
    #[verifier::rlimit(40)]
    pub fn new(table: &mut Vec<BitBoard>, square: Square, slider: Slider) -> (result:
        PextBitBoard)
        ensures
            result.offset_spec() == old(table).len(),
            final(table).len() == old(table).len() + pow2(popcnt64(result.mask_spec())),
            forall|i: int| 0 <= i < old(table).len() ==> final(table)[i] == old(table)[i],
            result.wf(final(table)@, square, slider),
    {
        let fa = BitBoard::from_file(File::A);
        let fh = BitBoard::from_file(File::H);
        let sf = BitBoard::from_file(square.file());
        let h = fa.bitor(fh).bitand(sf.complement());
        let r1 = BitBoard::from_rank(Rank::Rank1);
        let r8 = BitBoard::from_rank(Rank::Rank8);
        let sr = BitBoard::from_rank(square.rank());
        let v = r1.bitor(r8).bitand(sr.complement());
        let empty_att = slider_attacks(BitBoard::new(0), square, slider);
        let mask = empty_att.bitand(h.bitor(v).complement());
        proof {
            assert forall|rr: int, ff: int| #[trigger] sq_bit(mask.0, rr, ff) == mask_bit(
                square,
                slider,
                rr,
                ff,
            ) by {
                if 0 <= rr < 8 && 0 <= ff < 8 {
                    assert(sq_bit(empty_att.0, rr, ff) == slider_attacked(
                        0u64,
                        square,
                        slider,
                        rr,
                        ff,
                    ));
                }
            }
        }
        let result = PextBitBoard { mask, offset: table.len() };
        let mut s: u64 = 0;
        proof {
            lemma_gather_zero(mask.0);
        }
        loop
            invariant_except_break
                s & mask.0 == s,
                table.len() == result.offset + gather_bits(s, mask.0),
                result.mask == mask,
                forall|i: int| 0 <= i < result.offset ==> table[i] == old(table)[i],
                forall|s2: u64|
                    s2 & mask.0 == s2 && gather_bits(s2, mask.0) < gather_bits(s, mask.0)
                        ==> #[trigger] entry_matches(
                        table[result.offset + gather_bits(s2, mask.0)].0,
                        s2,
                        square,
                        slider,
                    ),
            ensures
                table.len() == result.offset + pow2(popcnt64(mask.0)),
                result.mask == mask,
                forall|i: int| 0 <= i < result.offset ==> table[i] == old(table)[i],
                forall|s2: u64| s2 & mask.0 == s2 ==> #[trigger] entry_matches(
                    table[result.offset + gather_bits(s2, mask.0)].0,
                    s2,
                    square,
                    slider,
                ),
            decreases pow2(popcnt64(mask.0)) - gather_bits(s, mask.0),
        {
            let att = slider_attacks(BitBoard::new(s), square, slider);
            let ghost oldt = table@;
            table.push(att);
            proof {
                crate::gather::lemma_gather_bound(s, mask.0);
                assert(entry_matches(att.0, s, square, slider));
                assert forall|s2: u64|
                    s2 & mask.0 == s2 && gather_bits(s2, mask.0) < gather_bits(s, mask.0)
                        + 1 implies #[trigger] entry_matches(
                    table[result.offset + gather_bits(s2, mask.0)].0,
                    s2,
                    square,
                    slider,
                ) by {
                    if gather_bits(s2, mask.0) == gather_bits(s, mask.0) {
                        lemma_gather_injective(s2, s, mask.0);
                    } else {
                        assert(entry_matches(
                            oldt[result.offset + gather_bits(s2, mask.0)].0,
                            s2,
                            square,
                            slider,
                        ));
                    }
                }
            }
            let nxt = s.wrapping_sub(mask.0) & mask.0;
            proof {
                assert(nxt == rippler_next(s, mask.0));
                if s != mask.0 {
                    lemma_gather_next(s, mask.0);
                    lemma_gather_zero(mask.0);
                } else {
                    crate::gather::lemma_rippler_wraps(mask.0);
                    lemma_gather_full(mask.0);
                }
            }
            if nxt == 0 {
                proof {
                    if s != mask.0 {
                        assert(gather_bits(nxt, mask.0) == 0);
                        assert(false);
                    }
                    assert forall|s2: u64| s2 & mask.0 == s2 implies gather_bits(s2, mask.0)
                        < pow2(popcnt64(mask.0)) by {
                        crate::gather::lemma_gather_bound(s2, mask.0);
                    }
                }
                break ;
            }
            s = nxt;
        }
        proof {
            assert forall|s2: u64| s2 & mask.0 == s2 implies #[trigger] entry_matches(
                table@[result.index_spec(s2)].0,
                s2,
                square,
                slider,
            ) by {
                assert(entry_matches(
                    table@[result.offset + gather_bits(s2, mask.0)].0,
                    s2,
                    square,
                    slider,
                ));
            }
        }
        result
    }
}


/// The flat attack table: one region per origin square and slider type,
/// each a disjoint contiguous run of entries, built once and read-only
/// thereafter.
pub struct PextTable {
    pub table: Vec<BitBoard>,
    pub rooks: Vec<PextBitBoard>,
    pub bishops: Vec<PextBitBoard>,
}

impl PextTable {
    /// The rook region descriptor of a square.
    pub open spec fn rook_region(self, sq: Square) -> PextBitBoard {
        self.rooks@[sq.as_int()]
    }

    /// The bishop region descriptor of a square.
    pub open spec fn bishop_region(self, sq: Square) -> PextBitBoard {
        self.bishops@[sq.as_int()]
    }

    /// The relevant-occupancy mask a rook lookup applies to its query.
    pub open spec fn rook_mask(self, sq: Square) -> u64 {
        self.rook_region(sq).mask_spec()
    }

    /// The relevant-occupancy mask a bishop lookup applies to its query.
    pub open spec fn bishop_mask(self, sq: Square) -> u64 {
        self.bishop_region(sq).mask_spec()
    }

    /// The table is fully and correctly built: for every origin square,
    /// both regions hold the ray-cast attack set of every relevant
    /// blocker configuration at its perfect-hash slot.
    pub open spec fn wf(self) -> bool {
        &&& self.rooks.len() == 64
        &&& self.bishops.len() == 64
        &&& forall|sq: Square| (#[trigger] self.rook_region(sq)).wf(
            self.table@,
            sq,
            Slider::Rook,
        )
        &&& forall|sq: Square| (#[trigger] self.bishop_region(sq)).wf(
            self.table@,
            sq,
            Slider::Bishop,
        )
    }

    /// Builds the whole table: for each origin square in index order,
    /// first the rook region, then the bishop region.
    pub fn new() -> (r: PextTable)
        ensures
            r.wf(),
    {
        let mut table: Vec<BitBoard> = Vec::new();
        let mut rooks: Vec<PextBitBoard> = Vec::new();
        let mut bishops: Vec<PextBitBoard> = Vec::new();
        let mut i: usize = 0;
        while i < 64
            invariant
                i <= 64,
                rooks.len() == i,
                bishops.len() == i,
                forall|sq: Square| sq.as_int() < i ==> (#[trigger] rooks@[sq.as_int()]).wf(
                    table@,
                    sq,
                    Slider::Rook,
                ),
                forall|sq: Square| sq.as_int() < i ==> (#[trigger] bishops@[sq.as_int()]).wf(
                    table@,
                    sq,
                    Slider::Bishop,
                ),
            decreases 64 - i,
        {
            let sq = Square::from_index(i);
            let sq = sq.unwrap();
            let ghost t0 = table@;
            let rpbb = PextBitBoard::new(&mut table, sq, Slider::Rook);
            let ghost t1 = table@;
            rooks.push(rpbb);
            let bpbb = PextBitBoard::new(&mut table, sq, Slider::Bishop);
            bishops.push(bpbb);
            proof {
                lemma_wf_grows(rpbb, t1, table@, sq, Slider::Rook);
                assert forall|sq2: Square| sq2.as_int() < i + 1 implies (#[trigger] rooks@[sq2.as_int()]).wf(
                    table@,
                    sq2,
                    Slider::Rook,
                ) by {
                    if sq2.as_int() < i {
                        lemma_wf_grows(rooks@[sq2.as_int()], t0, t1, sq2, Slider::Rook);
                        lemma_wf_grows(rooks@[sq2.as_int()], t1, table@, sq2, Slider::Rook);
                    } else {
                        crate::square::lemma_square_int_injective(sq, sq2);
                    }
                }
                assert forall|sq2: Square| sq2.as_int() < i + 1 implies (#[trigger] bishops@[sq2.as_int()]).wf(
                    table@,
                    sq2,
                    Slider::Bishop,
                ) by {
                    if sq2.as_int() < i {
                        lemma_wf_grows(bishops@[sq2.as_int()], t0, t1, sq2, Slider::Bishop);
                        lemma_wf_grows(bishops@[sq2.as_int()], t1, table@, sq2, Slider::Bishop);
                    } else {
                        crate::square::lemma_square_int_injective(sq, sq2);
                    }
                }
            }
            i = i + 1;
        }
        PextTable { table, rooks, bishops }
    }

    /// The attacks of a rook on `sq` under the full occupancy `bb`,
    /// looked up by the perfect hash of `bb` restricted to the square's
    /// relevant mask: a total function of all occupancies, equal to the
    /// direct ray-cast because the masked-away squares cannot block.
    pub fn rook_moves(&self, bb: BitBoard, sq: Square) -> (r: BitBoard)
        requires
            self.wf(),
        ensures
            forall|rt: int, ft: int| 0 <= rt < 8 && 0 <= ft < 8 ==> #[trigger] sq_bit(r.0, rt, ft)
                == rook_attacked(bb.0, sq, rt, ft),
    {
        proof {
            lemma_mask_irrelevant(bb.0, self.rook_mask(sq), sq, Slider::Rook);
        }
        let pbb = self.rooks[sq.index()];
        proof {
            assert(self.rook_region(sq).wf(self.table@, sq, Slider::Rook));
            assert(entry_matches(
                self.table@[pbb.index_spec(bb.0 & pbb.mask_spec())].0,
                bb.0 & pbb.mask_spec(),
                sq,
                Slider::Rook,
            )) by {
                crate::bits::lemma_mask_idem(bb.0, pbb.mask_spec());
            }
        }
        let n = self.table.len();
        proof {
            assert(pbb.offset + pow2(popcnt64(pbb.mask_spec())) <= n);
        }
        let idx = pbb.index(bb);
        self.table[idx]
    }

    /// The attacks of a bishop on `sq`, looked up the same way.
    pub fn bishop_moves(&self, bb: BitBoard, sq: Square) -> (r: BitBoard)
        requires
            self.wf(),
        ensures
            forall|rt: int, ft: int| 0 <= rt < 8 && 0 <= ft < 8 ==> #[trigger] sq_bit(r.0, rt, ft)
                == bishop_attacked(bb.0, sq, rt, ft),
    {
        proof {
            lemma_mask_irrelevant(bb.0, self.bishop_mask(sq), sq, Slider::Bishop);
        }
        let pbb = self.bishops[sq.index()];
        proof {
            assert(self.bishop_region(sq).wf(self.table@, sq, Slider::Bishop));
            assert(entry_matches(
                self.table@[pbb.index_spec(bb.0 & pbb.mask_spec())].0,
                bb.0 & pbb.mask_spec(),
                sq,
                Slider::Bishop,
            )) by {
                crate::bits::lemma_mask_idem(bb.0, pbb.mask_spec());
            }
        }
        let n = self.table.len();
        proof {
            assert(pbb.offset + pow2(popcnt64(pbb.mask_spec())) <= n);
        }
        let idx = pbb.index(bb);
        self.table[idx]
    }

    /// The attacks of a queen on `sq`: the union of the rook and bishop
    /// lookups for the same origin.
    pub fn queen_moves(&self, bb: BitBoard, sq: Square) -> (r: BitBoard)
        requires
            self.wf(),
        ensures
            forall|rt: int, ft: int| 0 <= rt < 8 && 0 <= ft < 8 ==> #[trigger] sq_bit(r.0, rt, ft)
                == (rook_attacked(bb.0, sq, rt, ft) || bishop_attacked(bb.0, sq, rt, ft)),
    {
        let rm = self.rook_moves(bb, sq);
        let bm = self.bishop_moves(bb, sq);
        rm.bitor(bm)
    }
}



/// Whether a direction is one of the given slider's four rays.
pub open spec fn slider_has_dir(sl: Slider, d: Direction) -> bool {
    match sl {
        Slider::Rook => d == Direction::Up || d == Direction::Down || d == Direction::Left || d
            == Direction::Right,
        Slider::Bishop => d == Direction::UpLeft || d == Direction::UpRight || d
            == Direction::DownLeft || d == Direction::DownRight,
    }
}

/// Two occupancies that agree on every walk square that still has an
/// on-board successor, along the walk from `(r0, f0)`.
pub open spec fn ray_agree(
    occ1: u64,
    occ2: u64,
    r0: int,
    f0: int,
    dr: int,
    df: int,
    fuel: nat,
) -> bool
    decreases fuel,
{
    fuel > 0 ==> ((0 <= r0 + dr < 8 && 0 <= f0 + df < 8 && 0 <= r0 + 2 * dr < 8 && 0 <= f0 + 2 * df
        < 8 ==> sq_bit(occ1, r0 + dr, f0 + df) == sq_bit(occ2, r0 + dr, f0 + df)) && ray_agree(
        occ1,
        occ2,
        r0 + dr,
        f0 + df,
        dr,
        df,
        (fuel - 1) as nat,
    ))
}

/// A ray walk cannot tell two such occupancies apart: a blocker on the
/// last square of a ray never matters, because nothing lies beyond it.
proof fn lemma_ray_reach_agree(
    occ1: u64,
    occ2: u64,
    r0: int,
    f0: int,
    dr: int,
    df: int,
    rt: int,
    ft: int,
    fuel: nat,
)
    requires
        ray_agree(occ1, occ2, r0, f0, dr, df, fuel),
    ensures
        ray_reach(occ1, r0, f0, dr, df, rt, ft, fuel) == ray_reach(occ2, r0, f0, dr, df, rt, ft, fuel),
    decreases fuel,
{
    if fuel > 0 && 0 <= r0 + dr < 8 && 0 <= f0 + df < 8 {
        lemma_ray_reach_agree(occ1, occ2, r0 + dr, f0 + df, dr, df, rt, ft, (fuel - 1) as nat);
    }
}

/// Along a slider's ray from its origin, masking the occupancy to the
/// relevant mask changes nothing the walk can observe: every walk
/// square with an on-board successor is inside the mask.
proof fn lemma_mask_ray_agree(
    occ: u64,
    m: u64,
    orig: Square,
    sl: Slider,
    d: Direction,
    r0: int,
    f0: int,
    fuel: nat,
)
    requires
        forall|rr: int, ff: int| #[trigger] sq_bit(m, rr, ff) == mask_bit(orig, sl, rr, ff),
        slider_has_dir(sl, d),
        d.rank_delta() == 0 ==> r0 == orig.rank_int(),
        d.file_delta() == 0 ==> f0 == orig.file_int(),
        d.rank_delta() == 1 ==> r0 >= orig.rank_int(),
        d.rank_delta() == -1 ==> r0 <= orig.rank_int(),
        d.file_delta() == 1 ==> f0 >= orig.file_int(),
        d.file_delta() == -1 ==> f0 <= orig.file_int(),
        forall|rt: int, ft: int| ray_reach(
            0u64,
            r0,
            f0,
            d.rank_delta(),
            d.file_delta(),
            rt,
            ft,
            fuel,
        ) ==> #[trigger] slider_attacked(0u64, orig, sl, rt, ft),
    ensures
        ray_agree(occ, occ & m, r0, f0, d.rank_delta(), d.file_delta(), fuel),
    decreases fuel,
{
    broadcast use crate::bits::group_bit64;

    crate::byteboard::movegen::lemma_square_bounds(orig);
    if fuel > 0 {
        let dr = d.rank_delta();
        let df = d.file_delta();
        let r1 = r0 + dr;
        let f1 = f0 + df;
        if 0 <= r1 < 8 && 0 <= f1 < 8 && 0 <= r1 + dr < 8 && 0 <= f1 + df < 8 {
            assert(ray_reach(0u64, r0, f0, dr, df, r1, f1, fuel));
            assert(slider_attacked(0u64, orig, sl, r1, f1));
            assert(mask_bit(orig, sl, r1, f1));
            assert(sq_bit(m, r1, f1));
            assert(sq_bit(occ & m, r1, f1) == sq_bit(occ, r1, f1));
        }
        assert forall|rt: int, ft: int| ray_reach(0u64, r1, f1, dr, df, rt, ft, (fuel - 1) as nat)
            implies #[trigger] slider_attacked(0u64, orig, sl, rt, ft) by {
            if 0 <= r1 < 8 && 0 <= f1 < 8 {
                assert(!sq_bit(0u64, r1, f1));
                assert(ray_reach(0u64, r0, f0, dr, df, rt, ft, fuel));
            } else {
                assert(!(0 <= r1 + dr < 8 && 0 <= f1 + df < 8));
                assert(!ray_reach(0u64, r1, f1, dr, df, rt, ft, (fuel - 1) as nat));
            }
        }
        lemma_mask_ray_agree(occ, m, orig, sl, d, r1, f1, (fuel - 1) as nat);
    }
}

/// Restricting the occupancy to the relevant-occupancy mask of a slider
/// never changes its attack set: the excluded squares are exactly the
/// last squares of its rays, whose blockers nothing lies beyond.
pub proof fn lemma_mask_irrelevant(occ: u64, m: u64, orig: Square, sl: Slider)
    requires
        forall|rr: int, ff: int| #[trigger] sq_bit(m, rr, ff) == mask_bit(orig, sl, rr, ff),
    ensures
        forall|rt: int, ft: int| 0 <= rt < 8 && 0 <= ft < 8 ==> #[trigger] slider_attacked(
            occ & m,
            orig,
            sl,
            rt,
            ft,
        ) == slider_attacked(occ, orig, sl, rt, ft),
{
    assert forall|rt: int, ft: int| 0 <= rt < 8 && 0 <= ft < 8 implies #[trigger] slider_attacked(
        occ & m,
        orig,
        sl,
        rt,
        ft,
    ) == slider_attacked(occ, orig, sl, rt, ft) by {
        let dirs = match sl {
            Slider::Rook => [Direction::Up, Direction::Down, Direction::Left, Direction::Right],
            Slider::Bishop => [
                Direction::UpLeft,
                Direction::UpRight,
                Direction::DownLeft,
                Direction::DownRight,
            ],
        };
        lemma_one_dir(occ, m, orig, sl, dirs[0], rt, ft);
        lemma_one_dir(occ, m, orig, sl, dirs[1], rt, ft);
        lemma_one_dir(occ, m, orig, sl, dirs[2], rt, ft);
        lemma_one_dir(occ, m, orig, sl, dirs[3], rt, ft);
    }
}

/// One ray of the mask-irrelevance argument.
proof fn lemma_one_dir(occ: u64, m: u64, orig: Square, sl: Slider, d: Direction, rt: int, ft: int)
    requires
        forall|rr: int, ff: int| #[trigger] sq_bit(m, rr, ff) == mask_bit(orig, sl, rr, ff),
        slider_has_dir(sl, d),
    ensures
        ray_attacked(occ & m, orig, d, rt, ft) == ray_attacked(occ, orig, d, rt, ft),
{
    lemma_mask_ray_agree(occ, m, orig, sl, d, orig.rank_int(), orig.file_int(), 7);
    lemma_ray_reach_agree(
        occ,
        occ & m,
        orig.rank_int(),
        orig.file_int(),
        d.rank_delta(),
        d.file_delta(),
        rt,
        ft,
        7,
    );
}

/// The region a slider type uses for an origin square.
pub open spec fn slider_region(t: PextTable, sq: Square, sl: Slider) -> PextBitBoard {
    match sl {
        Slider::Rook => t.rook_region(sq),
        Slider::Bishop => t.bishop_region(sq),
    }
}

/// For every origin square and every blocker configuration within the
/// relevant-occupancy mask, the table slot the bit-gather assigns holds
/// exactly the ray-cast attack set of that configuration.
pub proof fn lemma_table_matches_raycast(t: PextTable, sq: Square, sl: Slider, occ: u64)
    requires
        t.wf(),
        occ & slider_region(t, sq, sl).mask_spec() == occ,
    ensures
        entry_matches(t.table@[slider_region(t, sq, sl).index_spec(occ)].0, occ, sq, sl),
{
    match sl {
        Slider::Rook => {
            assert(t.rook_region(sq).wf(t.table@, sq, Slider::Rook));
        },
        Slider::Bishop => {
            assert(t.bishop_region(sq).wf(t.table@, sq, Slider::Bishop));
        },
    }
}

/// A region stays well formed when the table grows beyond it: its
/// entries are never written again.
proof fn lemma_wf_grows(pbb: PextBitBoard, t1: Seq<BitBoard>, t2: Seq<BitBoard>, sq: Square, sl: Slider)
    requires
        pbb.wf(t1, sq, sl),
        t1.len() <= t2.len(),
        forall|i: int| 0 <= i < t1.len() ==> t2[i] == t1[i],
    ensures
        pbb.wf(t2, sq, sl),
{
    assert forall|s: u64| s & pbb.mask_spec() == s implies #[trigger] entry_matches(
        t2[pbb.index_spec(s)].0,
        s,
        sq,
        sl,
    ) by {
        crate::gather::lemma_gather_bound(s, pbb.mask_spec());
        assert(entry_matches(t1[pbb.index_spec(s)].0, s, sq, sl));
    }
}

} // verus!
