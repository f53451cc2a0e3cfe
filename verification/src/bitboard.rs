//! The SquareSet: a 64-bit mask in which bit `i` denotes occupancy of
//! square `i`. Set algebra is bitwise; the four orthogonal unit shifts
//! clip at the board edge by masking rather than per-square checks.
use vstd::prelude::*;

use crate::bits::bit64;
use crate::bits::lemma_clear_lowest;
use crate::bits::lemma_no_low_bits;
use crate::bits::lemma_popcnt_clear_lowest;
use crate::bits::lemma_popcnt_width;
use crate::bits::popcnt_width;
use crate::bits::popcnt64;
use crate::bits::sq_bit;
use crate::direction::Direction;
use crate::file::File;
use crate::rank::Rank;
use crate::square::Square;

verus! {

broadcast use crate::bits::group_bit64;

/// A set of squares, one bit per square.
#[derive(Copy, Clone, Debug, PartialEq, Eq, Structural)]
pub struct BitBoard(pub u64);

impl BitBoard {
    pub fn new(b: u64) -> (r: Self)
        ensures
            r.0 == b,
    {
        BitBoard(b)
    }

    /// The singleton set holding one square.
    pub fn from_square(sq: Square) -> (r: Self)
        ensures
            forall|i: u64| i < 64 ==> (#[trigger] bit64(r.0, i) == (i == sq.as_int())),
            forall|rr: int, ff: int| #[trigger] sq_bit(r.0, rr, ff) == (rr == sq.rank_int() && ff
                == sq.file_int()),
    {
        let r = BitBoard(1u64 << (sq.index() as u64));
        proof {
            let i = sq.as_int() as u64;
            assert forall|rr: int, ff: int| #[trigger] sq_bit(r.0, rr, ff) == (rr == sq.rank_int()
                && ff == sq.file_int()) by {
                if 0 <= rr < 8 && 0 <= ff < 8 {
                    crate::bits::lemma_bit64_single(i, (8 * rr + ff) as u64);
                }
            }
        }
        r
    }

    /// The set of all squares on one file.
    pub fn from_file(file: File) -> (r: Self)
        ensures
            forall|rr: int, ff: int| #[trigger] sq_bit(r.0, rr, ff) == (0 <= rr < 8 && ff
                == file.as_int()),
    {
        let r = BitBoard(0x0101010101010101u64 << (file.index() as u64));
        proof {
            assert forall|rr: int, ff: int| #[trigger] sq_bit(r.0, rr, ff) == (0 <= rr < 8 && ff
                == file.as_int()) by {
                if 0 <= rr < 8 && 0 <= ff < 8 {
                    let i = (8 * rr + ff) as u64;
                    crate::bits::lemma_bit64_file_mask(file.as_int() as u64, i);
                    assert(i % 8 == ff);
                }
            }
        }
        r
    }

    /// The set of all squares on one rank.
    pub fn from_rank(rank: Rank) -> (r: Self)
        ensures
            forall|rr: int, ff: int| #[trigger] sq_bit(r.0, rr, ff) == (rr == rank.as_int() && 0
                <= ff < 8),
    {
        let r = BitBoard(0xFFu64 << (8 * rank.index()) as u64);
        proof {
            assert forall|rr: int, ff: int| #[trigger] sq_bit(r.0, rr, ff) == (rr == rank.as_int()
                && 0 <= ff < 8) by {
                if 0 <= rr < 8 && 0 <= ff < 8 {
                    let i = (8 * rr + ff) as u64;
                    crate::bits::lemma_bit64_rank_mask(rank.as_int() as u64, i);
                    assert(i / 8 == rr);
                }
            }
        }
        r
    }

    /// Whether a given square is a member.
    pub fn contains(self, sq: Square) -> (r: bool)
        ensures
            r == bit64(self.0, sq.as_int() as u64),
    {
        (self.0 >> (sq.index() as u64)) & 1 == 1
    }

    /// The lowest member of the set, if any.
    pub fn to_square(self) -> (r: Option<Square>)
        ensures
            self.0 == 0 ==> r is None,
            self.0 != 0 ==> (r matches Some(s) && bit64(self.0, s.as_int() as u64) && (forall|
                j: u64,
            | j < s.as_int() ==> !bit64(self.0, j))),
    {
        proof {
            broadcast use vstd::std_specs::bits::axiom_u64_trailing_zeros;

        }
        Square::from_index(self.0.trailing_zeros() as usize)
    }

    /// The set reinterpreted from the opponent's perspective: byte
    /// order reversed, so rank `r` becomes rank `7 - r`.
    pub fn swap(self) -> (r: BitBoard)
        ensures
            forall|i: u64| i < 64 ==> #[trigger] bit64(r.0, i) == bit64(self.0, i ^ 56),
            forall|rr: int, ff: int| 0 <= rr < 8 && 0 <= ff < 8 ==> #[trigger] sq_bit(r.0, rr, ff)
                == sq_bit(self.0, 7 - rr, ff),
    {
        let b = self.0;
        let r = BitBoard(
            (b >> 56) | ((b >> 40) & 0x0000_0000_0000_FF00) | ((b >> 24) & 0x0000_0000_00FF_0000)
                | ((b >> 8) & 0x0000_0000_FF00_0000) | ((b << 8) & 0x0000_00FF_0000_0000) | ((b
                << 24) & 0x0000_FF00_0000_0000) | ((b << 40) & 0x00FF_0000_0000_0000) | (b << 56),
        );
        proof {
            let w = r.0;
            assert(forall|i: u64|
                i < 64 ==> #[trigger] bit64(w, i) == bit64(b, i ^ 56) && (i ^ 56) < 64 && i ^ 56
                    == 8 * (7 - i / 8) + i % 8) by (bit_vector)
                requires
                    w == (b >> 56) | ((b >> 40) & 0x0000_0000_0000_FF00) | ((b >> 24)
                        & 0x0000_0000_00FF_0000) | ((b >> 8) & 0x0000_0000_FF00_0000) | ((b << 8)
                        & 0x0000_00FF_0000_0000) | ((b << 24) & 0x0000_FF00_0000_0000) | ((b << 40)
                        & 0x00FF_0000_0000_0000) | (b << 56),
            ;
            assert forall|rr: int, ff: int| 0 <= rr < 8 && 0 <= ff < 8 implies #[trigger] sq_bit(
                r.0,
                rr,
                ff,
            ) == sq_bit(self.0, 7 - rr, ff) by {
                let i = (8 * rr + ff) as u64;
                assert(bit64(r.0, i) == bit64(b, i ^ 56));
                assert(i ^ 56 == 8 * (7 - rr) + ff);
            }
        }
        r
    }

    /// One square toward rank 8; squares on rank 8 drop out.
    pub fn up(self) -> (r: BitBoard)
        ensures
            forall|rr: int, ff: int| 0 <= rr < 8 && 0 <= ff < 8 ==> #[trigger] sq_bit(r.0, rr, ff)
                == sq_bit(self.0, rr - 1, ff),
    {
        let r = BitBoard(self.0 << 8u64);
        proof {
            assert forall|rr: int, ff: int| 0 <= rr < 8 && 0 <= ff < 8 implies #[trigger] sq_bit(
                r.0,
                rr,
                ff,
            ) == sq_bit(self.0, rr - 1, ff) by {
                let i = (8 * rr + ff) as u64;
                crate::bits::lemma_bit64_shl(self.0, 8, i);
            }
        }
        r
    }

    /// One square toward rank 1; squares on rank 1 drop out.
    pub fn down(self) -> (r: BitBoard)
        ensures
            forall|rr: int, ff: int| 0 <= rr < 8 && 0 <= ff < 8 ==> #[trigger] sq_bit(r.0, rr, ff)
                == sq_bit(self.0, rr + 1, ff),
    {
        let r = BitBoard(self.0 >> 8u64);
        proof {
            assert forall|rr: int, ff: int| 0 <= rr < 8 && 0 <= ff < 8 implies #[trigger] sq_bit(
                r.0,
                rr,
                ff,
            ) == sq_bit(self.0, rr + 1, ff) by {
                let i = (8 * rr + ff) as u64;
                crate::bits::lemma_bit64_shr(self.0, 8, i);
            }
        }
        r
    }

    /// One square toward file `a`; squares on file `a` drop out instead
    /// of wrapping to file `h`.
    pub fn left(self) -> (r: BitBoard)
        ensures
            forall|rr: int, ff: int| 0 <= rr < 8 && 0 <= ff < 8 ==> #[trigger] sq_bit(r.0, rr, ff)
                == sq_bit(self.0, rr, ff + 1),
    {
        let r = BitBoard((self.0 >> 1u64) & 0x7F7F7F7F7F7F7F7Fu64);
        proof {
            assert forall|rr: int, ff: int| 0 <= rr < 8 && 0 <= ff < 8 implies #[trigger] sq_bit(
                r.0,
                rr,
                ff,
            ) == sq_bit(self.0, rr, ff + 1) by {
                let i = (8 * rr + ff) as u64;
                crate::bits::lemma_bit64_and(self.0 >> 1u64, 0x7F7F7F7F7F7F7F7Fu64, i);
                crate::bits::lemma_bit64_file_guards(i);
                crate::bits::lemma_bit64_shr(self.0, 1, i);
                assert(i % 8 == ff);
            }
        }
        r
    }

    /// One square toward file `h`; squares on file `h` drop out instead
    /// of wrapping to file `a`.
    pub fn right(self) -> (r: BitBoard)
        ensures
            forall|rr: int, ff: int| 0 <= rr < 8 && 0 <= ff < 8 ==> #[trigger] sq_bit(r.0, rr, ff)
                == sq_bit(self.0, rr, ff - 1),
    {
        let r = BitBoard((self.0 << 1u64) & 0xFEFEFEFEFEFEFEFEu64);
        proof {
            assert forall|rr: int, ff: int| 0 <= rr < 8 && 0 <= ff < 8 implies #[trigger] sq_bit(
                r.0,
                rr,
                ff,
            ) == sq_bit(self.0, rr, ff - 1) by {
                let i = (8 * rr + ff) as u64;
                crate::bits::lemma_bit64_and(self.0 << 1u64, 0xFEFEFEFEFEFEFEFEu64, i);
                crate::bits::lemma_bit64_file_guards(i);
                crate::bits::lemma_bit64_shl(self.0, 1, i);
                assert(i % 8 == ff);
            }
        }
        r
    }

    /// One square in a compass direction, with edge clipping; diagonal
    /// steps are the composition of two orthogonal ones.
    pub fn shift(self, direction: Direction) -> (r: BitBoard)
        ensures
            forall|rr: int, ff: int| 0 <= rr < 8 && 0 <= ff < 8 ==> #[trigger] sq_bit(r.0, rr, ff)
                == sq_bit(self.0, rr - direction.rank_delta(), ff - direction.file_delta()),
    {
        match direction {
            Direction::Up => self.up(),
            Direction::Down => self.down(),
            Direction::Left => self.left(),
            Direction::Right => self.right(),
            Direction::UpLeft => self.up().left(),
            Direction::UpRight => self.up().right(),
            Direction::DownLeft => self.down().left(),
            Direction::DownRight => self.down().right(),
        }
    }

    /// Set union.
    pub fn bitor(self, rhs: BitBoard) -> (r: BitBoard)
        ensures
            r.0 == self.0 | rhs.0,
            forall|i: u64| i < 64 ==> #[trigger] bit64(r.0, i) == (bit64(self.0, i) || bit64(
                rhs.0,
                i,
            )),
            forall|rr: int, ff: int| #[trigger] sq_bit(r.0, rr, ff) == (sq_bit(self.0, rr, ff)
                || sq_bit(rhs.0, rr, ff)),
    {
        BitBoard(self.0 | rhs.0)
    }

    /// Set intersection.
    pub fn bitand(self, rhs: BitBoard) -> (r: BitBoard)
        ensures
            r.0 == self.0 & rhs.0,
            forall|i: u64| i < 64 ==> #[trigger] bit64(r.0, i) == (bit64(self.0, i) && bit64(
                rhs.0,
                i,
            )),
            forall|rr: int, ff: int| #[trigger] sq_bit(r.0, rr, ff) == (sq_bit(self.0, rr, ff)
                && sq_bit(rhs.0, rr, ff)),
    {
        BitBoard(self.0 & rhs.0)
    }

    /// Symmetric difference.
    pub fn bitxor(self, rhs: BitBoard) -> (r: BitBoard)
        ensures
            r.0 == self.0 ^ rhs.0,
            forall|i: u64| i < 64 ==> #[trigger] bit64(r.0, i) == (bit64(self.0, i) != bit64(
                rhs.0,
                i,
            )),
    {
        BitBoard(self.0 ^ rhs.0)
    }

    /// Set complement.
    pub fn complement(self) -> (r: BitBoard)
        ensures
            r.0 == !self.0,
            forall|i: u64| i < 64 ==> #[trigger] bit64(r.0, i) == !bit64(self.0, i),
            forall|rr: int, ff: int| 0 <= rr < 8 && 0 <= ff < 8 ==> #[trigger] sq_bit(r.0, rr, ff)
                == !sq_bit(self.0, rr, ff),
    {
        BitBoard(!self.0)
    }

    /// How many squares are members.
    pub fn popcount(self) -> (r: usize)
        ensures
            r == popcnt64(self.0),
    {
        let mut b = self.0;
        let mut c: usize = 0;
        proof {
            lemma_popcnt_width(self.0);
        }
        while b != 0
            invariant
                c + popcnt64(b) == popcnt64(self.0),
                c + popcnt_width(b) <= 64,
            decreases b,
        {
            proof {
                broadcast use crate::bits::lemma_u64_shr1_lt;

                assert(b & 1 <= 1) by (bit_vector);
            }
            c = c + ((b & 1) as usize);
            b = b >> 1u64;
        }
        c
    }

    /// The members of the set, in strictly ascending index order; an
    /// enumeration yields exactly `popcount` squares.
    pub fn members(self) -> (r: Vec<Square>)
        ensures
            r.len() == popcnt64(self.0),
            forall|k: int| 0 <= k < r.len() ==> bit64(self.0, #[trigger] r@[k].as_int() as u64),
            forall|k1: int, k2: int| 0 <= k1 < k2 < r.len() ==> #[trigger] r@[k1].as_int()
                < #[trigger] r@[k2].as_int(),
            forall|j: u64| j < 64 && #[trigger] bit64(self.0, j) ==> exists|k: int| 0 <= k < r.len()
                && r@[k].as_int() == j,
    {
        let mut b = self.0;
        let mut res: Vec<Square> = Vec::new();
        proof {
            broadcast use vstd::std_specs::bits::axiom_u64_trailing_zeros;

        }
        while b != 0
            invariant
                res.len() + popcnt64(b) == popcnt64(self.0),
                forall|j: u64| j < 64 ==> (#[trigger] bit64(self.0, j) == (bit64(b, j) || exists|
                    k: int,
                | 0 <= k < res.len() && res@[k].as_int() == j)),
                forall|k: int| 0 <= k < res.len() ==> 0 <= #[trigger] res@[k].as_int() < 64,
                forall|k1: int, k2: int| 0 <= k1 < k2 < res.len() ==> #[trigger] res@[k1].as_int()
                    < #[trigger] res@[k2].as_int(),
                forall|j: u64, k: int|
                    #![trigger bit64(b, j), res@[k].as_int()]
                    j < 64 && bit64(b, j) && 0 <= k < res.len() ==> res@[k].as_int() < j,
            decreases b,
        {
            proof {
                broadcast use vstd::std_specs::bits::axiom_u64_trailing_zeros;

            }
            let ghost oldb = b;
            let ghost oldres = res@;
            let tz = b.trailing_zeros() as usize;
            let ghost t = tz as u64;
            let sq = Square::from_index(tz);
            let sq = sq.unwrap();
            res.push(sq);
            b = b & (b - 1);
            proof {
                broadcast use vstd::std_specs::bits::axiom_u64_trailing_zeros;

                lemma_no_low_bits(oldb, t);
                lemma_clear_lowest(oldb, t, 0);
                lemma_popcnt_clear_lowest(oldb);
                assert forall|j: u64| j < 64 implies #[trigger] bit64(b, j) == (bit64(oldb, j) && j
                    != t) by {
                    lemma_clear_lowest(oldb, t, j);
                }
                let last = res.len() - 1;
                assert(res@[last as int].as_int() == t);
                assert(bit64(oldb, t));
                assert forall|j: u64| j < 64 implies (#[trigger] bit64(self.0, j) == (bit64(b, j)
                    || exists|k: int| 0 <= k < res.len() && res@[k].as_int() == j)) by {
                    if j == t {
                        assert(0 <= last < res.len() && res@[last as int].as_int() == j);
                    } else {
                        if exists|k: int| 0 <= k < oldres.len() && oldres[k].as_int() == j {
                            let k = choose|k: int| 0 <= k < oldres.len() && oldres[k].as_int() == j;
                            assert(0 <= k < res.len() && res@[k].as_int() == j);
                        }
                        if exists|k: int| 0 <= k < res.len() && res@[k].as_int() == j {
                            let k = choose|k: int| 0 <= k < res.len() && res@[k].as_int() == j;
                            assert(k < oldres.len() && oldres[k].as_int() == j);
                        }
                    }
                }
                assert forall|j: u64| j < 64 && bit64(b, j) implies t < j by {
                    assert(bit64(oldb, j) && j != t);
                    if j < t {
                        assert((oldb >> j) & 1u64 == 0u64);
                    }
                }
                assert forall|k1: int, k2: int| 0 <= k1 < k2 < res.len() implies res@[k1].as_int()
                    < res@[k2].as_int() by {
                    if k2 == last {
                        assert(bit64(oldb, t) && oldres[k1].as_int() < t);
                    } else {
                        assert(oldres[k1].as_int() < oldres[k2].as_int());
                    }
                }
            }
        }
        proof {
            assert forall|k: int| 0 <= k < res.len() implies bit64(
                self.0,
                #[trigger] res@[k].as_int() as u64,
            ) by {
                let j = res@[k].as_int() as u64;
                assert(bit64(self.0, j) == (bit64(b, j) || exists|k2: int|
                    0 <= k2 < res.len() && res@[k2].as_int() == j));
            }
        }
        res
    }
}

} // verus!
