//! The compact board: one packed byte per square, rank-major, with
//! bulk codecs to and from arrays of 64-bit and 128-bit words and an
//! in-place color-flip inversion.
use vstd::prelude::*;

use crate::byteboard::bytesquare::color_of;
use crate::byteboard::bytesquare::last_move_of;
use crate::byteboard::bytesquare::occupied_of;
use crate::byteboard::bytesquare::ByteColor;
use crate::byteboard::bytesquare::ByteSquare;
use crate::file::File;
use crate::rank::Rank;
use vstd::string::StrSliceExecFns;

verus! {

/// A square's byte after the whole board is flipped: empty squares stay
/// the all-zero byte, occupied squares change color.
pub open spec fn flip_byte(b: u8) -> u8 {
    if b == 0 {
        0
    } else {
        b ^ 0x40
    }
}

/// The index a two-character coordinate such as `d4` denotes.
pub open spec fn coord_index(s: Seq<char>) -> int {
    8 * (s[1] as int - '1' as int) + (s[0] as int - 'a' as int)
}

/// Whether a string starts with a well-formed coordinate.
pub open spec fn valid_coord(s: Seq<char>) -> bool {
    &&& s.len() >= 2
    &&& 'a' as int <= s[0] as int <= 'h' as int
    &&& '1' as int <= s[1] as int <= '8' as int
}

/// Sixty-four packed bytes, square 0 (`a1`) first.
#[derive(Debug, Clone, PartialEq, Eq)]
pub struct ByteBoard {
    pub squares: Vec<ByteSquare>,
}

impl ByteBoard {
    /// A board is well formed when it holds one byte per square.
    pub open spec fn wf(self) -> bool {
        self.squares.len() == 64
    }

    /// The empty board.
    pub fn new() -> (r: Self)
        ensures
            r.wf(),
            forall|k: int| 0 <= k < 64 ==> #[trigger] r.squares@[k].0 == 0,
    {
        let mut squares: Vec<ByteSquare> = Vec::new();
        let mut i: usize = 0;
        while i < 64
            invariant
                i <= 64,
                squares.len() == i,
                forall|k: int| 0 <= k < i ==> #[trigger] squares@[k].0 == 0,
            decreases 64 - i,
        {
            squares.push(ByteSquare::new_empty());
            i = i + 1;
        }
        ByteBoard { squares }
    }

    /// The standard start position, imported from its word encoding.
    pub fn startpos() -> (r: Self)
        ensures
            r.wf(),
            forall|i: int, j: int| 0 <= i < 8 && 0 <= j < 8 ==> #[trigger] r.squares@[8 * i + j].0
                == ((startpos_words()[i] >> ((8 * j) as u64)) & 0xFF) as u8,
    {
        let mut words: Vec<u64> = Vec::new();
        words.push(0x90a098808898a090);
        words.push(0xa8a8a8a8a8a8a8a8);
        words.push(0x0000000000000000);
        words.push(0x0000000000000000);
        words.push(0x0000000000000000);
        words.push(0x0000000000000000);
        words.push(0xe8e8e8e8e8e8e8e8);
        words.push(0xd0e0d8c0c8d8e0d0);
        proof {
            assert(words@ =~= startpos_words());
        }
        ByteBoard::from_u64_octet(&words)
    }

    /// Flips the board: rank `r` swaps with rank `7 - r` and every
    /// piece changes color, so the position is seen from the other
    /// side. Empty squares stay the all-zero byte.
    pub fn invert(&mut self)
        requires
            old(self).wf(),
        ensures
            final(self).wf(),
            forall|rr: int, ff: int| 0 <= rr < 8 && 0 <= ff < 8 ==> #[trigger] final(self).squares@[8
                * rr + ff].0 == flip_byte(old(self).squares@[8 * (7 - rr) + ff].0),
    {
        let mut rr: usize = 0;
        while rr < 4
            invariant
                old(self).wf(),
                self.wf(),
                rr <= 4,
                forall|r2: int, ff: int| rr <= r2 < 8 - rr && 0 <= ff < 8
                    ==> #[trigger] self.squares@[8 * r2 + ff].0 == old(self).squares@[8 * r2
                    + ff].0,
                forall|r2: int, ff: int| (0 <= r2 < rr || 8 - rr <= r2 < 8) && 0 <= ff < 8
                    ==> #[trigger] self.squares@[8 * r2 + ff].0 == flip_byte(
                    old(self).squares@[8 * (7 - r2) + ff].0,
                ),
            decreases 4 - rr,
        {
            let mut ff: usize = 0;
            while ff < 8
                invariant
                    old(self).wf(),
                    self.wf(),
                    rr < 4,
                    ff <= 8,
                    forall|r2: int, f2: int| rr < r2 < 7 - rr && 0 <= f2 < 8
                        ==> #[trigger] self.squares@[8 * r2 + f2].0 == old(self).squares@[8 * r2
                        + f2].0,
                    forall|f2: int| ff <= f2 < 8 ==> #[trigger] self.squares@[8 * rr + f2].0
                        == old(self).squares@[8 * rr + f2].0,
                    forall|f2: int| ff <= f2 < 8 ==> #[trigger] self.squares@[8 * (7 - rr) + f2].0
                        == old(self).squares@[8 * (7 - rr) + f2].0,
                    forall|r2: int, f2: int| (0 <= r2 < rr || 8 - rr <= r2 < 8) && 0 <= f2 < 8
                        ==> #[trigger] self.squares@[8 * r2 + f2].0 == flip_byte(
                        old(self).squares@[8 * (7 - r2) + f2].0,
                    ),
                    forall|f2: int| 0 <= f2 < ff ==> #[trigger] self.squares@[8 * rr + f2].0
                        == flip_byte(old(self).squares@[8 * (7 - rr) + f2].0),
                    forall|f2: int| 0 <= f2 < ff ==> #[trigger] self.squares@[8 * (7 - rr) + f2].0
                        == flip_byte(old(self).squares@[8 * rr + f2].0),
                decreases 8 - ff,
            {
                let lo = 8 * rr + ff;
                let hi = 8 * (7 - rr) + ff;
                let a = ByteBoard::flip_square(self.squares[lo]);
                let b = ByteBoard::flip_square(self.squares[hi]);
                self.squares.set(lo, b);
                self.squares.set(hi, a);
                ff = ff + 1;
            }
            rr = rr + 1;
        }
    }

    /// One square's byte after the color flip.
    fn flip_square(s: ByteSquare) -> (r: ByteSquare)
        ensures
            r.0 == flip_byte(s.0),
    {
        if s.is_empty() {
            s
        } else {
            let mut t = s;
            t.invert_color();
            t
        }
    }

    /// The index a coordinate such as `d4` denotes: the file letter
    /// gives the file, the rank digit the rank.
    pub fn coord_to_index(coord: &str) -> (r: usize)
        requires
            valid_coord(coord@),
        ensures
            r == coord_index(coord@),
            r < 64,
    {
        let c0 = coord.get_char(0);
        let c1 = coord.get_char(1);
        let file = (c0 as u32 - 'a' as u32) as usize;
        let rank = (c1 as u32 - '1' as u32) as usize;
        rank * 8 + file
    }

    /// The coordinate text of a square index: file letter, rank digit.
    pub fn index_to_coord(index: usize) -> (r: String)
        requires
            index < 64,
        ensures
            r@.len() == 2,
            valid_coord(r@),
            coord_index(r@) == index,
    {
        let f = File::from_index(index % 8);
        let f = f.unwrap();
        let k = Rank::from_index(index / 8);
        let k = k.unwrap();
        let mut s = String::new();
        s.append(f.as_str());
        s.append(k.as_str());
        s
    }

    /// Clears the last-move flag of every square.
    fn clear_last_move(&mut self)
        requires
            old(self).wf(),
        ensures
            final(self).wf(),
            forall|k: int| 0 <= k < 64 ==> #[trigger] final(self).squares@[k].0 == old(self).squares@[k].0
                & 0xFD,
    {
        let mut i: usize = 0;
        while i < 64
            invariant
                old(self).wf(),
                self.wf(),
                i <= 64,
                forall|k: int| 0 <= k < i ==> #[trigger] self.squares@[k].0 == old(self).squares@[k].0
                    & 0xFD,
                forall|k: int| i <= k < 64 ==> #[trigger] self.squares@[k].0 == old(self).squares@[k].0,
            decreases 64 - i,
        {
            let mut s = self.squares[i];
            s.set_last_move(false);
            self.squares.set(i, s);
            i = i + 1;
        }
    }

    /// Applies a move given as two coordinates: the piece byte moves
    /// from origin to destination, the origin empties, and the
    /// destination alone carries the last-move flag. A move from a
    /// square onto itself, or from an empty square, changes nothing.
    pub fn make_move(&mut self, from: &str, to: &str)
        requires
            old(self).wf(),
            valid_coord(from@),
            valid_coord(to@),
        ensures
            final(self).wf(),
            ({
                let fi = coord_index(from@);
                let ti = coord_index(to@);
                if fi == ti || old(self).squares@[fi].0 == 0 {
                    final(self).squares@ =~= old(self).squares@
                } else {
                    &&& final(self).squares@[ti].0 == (old(self).squares@[fi].0 & 0xFD) | 0x02
                    &&& final(self).squares@[fi].0 == 0
                    &&& forall|k: int| 0 <= k < 64 && k != fi && k != ti
                        ==> #[trigger] final(self).squares@[k].0 == old(self).squares@[k].0 & 0xFD
                }
            }),
    {
        let from_index = ByteBoard::coord_to_index(from);
        let to_index = ByteBoard::coord_to_index(to);
        if from_index == to_index {
            return ;
        }
        if self.squares[from_index].is_empty() {
            return ;
        }
        let moved = self.squares[from_index];
        self.squares.set(to_index, moved);
        self.squares.set(from_index, ByteSquare::new_empty());
        self.clear_last_move();
        let mut dest = self.squares[to_index];
        dest.set_last_move(true);
        self.squares.set(to_index, dest);
        proof {
            crate::byteboard::bytesquare::lemma_byte_update(0, 0, 0);
        }
    }

    /// Whose turn it is: the opponent of the side that made the most
    /// recent move, read off the last-move flag; white if no move has
    /// been made.
    pub fn get_turn(&self) -> (r: ByteColor)
        requires
            self.wf(),
        ensures
            (forall|i: int| 0 <= i < 64 ==> !(occupied_of(#[trigger] self.squares@[i].0)
                && last_move_of(self.squares@[i].0))) ==> r == ByteColor::White,
            (exists|i: int| 0 <= i < 64 && occupied_of(#[trigger] self.squares@[i].0)
                && last_move_of(self.squares@[i].0)) ==> exists|i: int|
                0 <= i < 64 && occupied_of(#[trigger] self.squares@[i].0) && last_move_of(
                    self.squares@[i].0,
                ) && (forall|j: int| 0 <= j < i ==> !(occupied_of(#[trigger] self.squares@[j].0)
                    && last_move_of(self.squares@[j].0))) && r == (if color_of(self.squares@[i].0)
                    == ByteColor::White {
                    ByteColor::Black
                } else {
                    ByteColor::White
                }),
    {
        let mut i: usize = 0;
        while i < 64
            invariant
                self.wf(),
                i <= 64,
                forall|j: int| 0 <= j < i ==> !(occupied_of(#[trigger] self.squares@[j].0)
                    && last_move_of(self.squares@[j].0)),
            decreases 64 - i,
        {
            let square = self.squares[i];
            if square.occupied() && square.last_move() {
                let c = square.color();
                return c.other();
            }
            i = i + 1;
        }
        ByteColor::White
    }
}

/// The eight 64-bit words of the start position, one per rank, the
/// byte of significance `8 * f` holding file `f`.
pub open spec fn startpos_words() -> Seq<u64> {
    seq![
        0x90a098808898a090u64,
        0xa8a8a8a8a8a8a8a8u64,
        0x0000000000000000u64,
        0x0000000000000000u64,
        0x0000000000000000u64,
        0x0000000000000000u64,
        0xe8e8e8e8e8e8e8e8u64,
        0xd0e0d8c0c8d8e0d0u64,
    ]
}

impl ByteBoard {
    /// Exports the board as eight 64-bit words, one per rank; the byte
    /// of significance `8 * f` within word `r` is square `(r, f)`.
    pub fn to_u64_octet(&self) -> (r: Vec<u64>)
        requires
            self.wf(),
        ensures
            r.len() == 8,
            forall|i: int, j: int| 0 <= i < 8 && 0 <= j < 8 ==> (r@[i] >> ((8 * j) as u64)) & 0xFF
                == #[trigger] self.squares@[8 * i + j].0,
    {
        let mut octet: Vec<u64> = Vec::new();
        let mut i: usize = 0;
        while i < 8
            invariant
                self.wf(),
                i <= 8,
                octet.len() == i,
                forall|i2: int, j: int| 0 <= i2 < i && 0 <= j < 8 ==> (octet@[i2] >> ((8 * j)
                    as u64)) & 0xFF == #[trigger] self.squares@[8 * i2 + j].0,
            decreases 8 - i,
        {
            let base = 8 * i;
            let b0 = self.squares[base].to_u8() as u64;
            let b1 = self.squares[base + 1].to_u8() as u64;
            let b2 = self.squares[base + 2].to_u8() as u64;
            let b3 = self.squares[base + 3].to_u8() as u64;
            let b4 = self.squares[base + 4].to_u8() as u64;
            let b5 = self.squares[base + 5].to_u8() as u64;
            let b6 = self.squares[base + 6].to_u8() as u64;
            let b7 = self.squares[base + 7].to_u8() as u64;
            let w = b0 | (b1 << 8u64) | (b2 << 16u64) | (b3 << 24u64) | (b4 << 32u64) | (b5
                << 40u64) | (b6 << 48u64) | (b7 << 56u64);
            proof {
                lemma_word_bytes(w, b0, b1, b2, b3, b4, b5, b6, b7);
            }
            octet.push(w);
            i = i + 1;
        }
        octet
    }

    /// Imports a board from eight 64-bit words, inverting
    /// `to_u64_octet` exactly.
    pub fn from_u64_octet(octet: &Vec<u64>) -> (r: Self)
        requires
            octet.len() == 8,
        ensures
            r.wf(),
            forall|i: int, j: int| 0 <= i < 8 && 0 <= j < 8 ==> #[trigger] r.squares@[8 * i + j].0
                == ((octet@[i] >> ((8 * j) as u64)) & 0xFF) as u8,
    {
        let mut squares: Vec<ByteSquare> = Vec::new();
        let mut i: usize = 0;
        while i < 8
            invariant
                octet.len() == 8,
                i <= 8,
                squares.len() == 8 * i,
                forall|i2: int, j: int| 0 <= i2 < i && 0 <= j < 8 ==> #[trigger] squares@[8 * i2
                    + j].0 == ((octet@[i2] >> ((8 * j) as u64)) & 0xFF) as u8,
            decreases 8 - i,
        {
            let w = octet[i];
            let mut j: usize = 0;
            while j < 8
                invariant
                    i < 8,
                    j <= 8,
                    w == octet@[i as int],
                    octet.len() == 8,
                    squares.len() == 8 * i + j,
                    forall|i2: int, j2: int| 0 <= i2 < i && 0 <= j2 < 8 ==> #[trigger] squares@[8
                        * i2 + j2].0 == ((octet@[i2] >> ((8 * j2) as u64)) & 0xFF) as u8,
                    forall|j2: int| 0 <= j2 < j ==> #[trigger] squares@[8 * i + j2].0
                        == ((octet@[i as int] >> ((8 * j2) as u64)) & 0xFF) as u8,
                decreases 8 - j,
            {
                let shift = (8 * j) as u64;
                let byte = ((w >> shift) & 0xFF) as u8;
                squares.push(ByteSquare::from_u8(byte));
                j = j + 1;
            }
            i = i + 1;
        }
        ByteBoard { squares }
    }

    /// Exports the board as four 128-bit words of sixteen squares each,
    /// the byte of significance `8 * k` within word `i` being square
    /// `16 * i + k`.
    pub fn to_u128_quad(&self) -> (r: Vec<u128>)
        requires
            self.wf(),
        ensures
            r.len() == 4,
            forall|i: int, j: int| 0 <= i < 4 && 0 <= j < 16 ==> (r@[i] >> ((8 * j) as u128))
                & 0xFF == #[trigger] self.squares@[16 * i + j].0,
    {
        let mut quad: Vec<u128> = Vec::new();
        let mut i: usize = 0;
        while i < 4
            invariant
                self.wf(),
                i <= 4,
                quad.len() == i,
                forall|i2: int, j: int| 0 <= i2 < i && 0 <= j < 16 ==> (quad@[i2] >> ((8 * j)
                    as u128)) & 0xFF == #[trigger] self.squares@[16 * i2 + j].0,
            decreases 4 - i,
        {
            let base = 16 * i;
            let mut w: u128 = 0;
            let mut j: usize = 16;
            while j > 0
                invariant
                    self.wf(),
                    i < 4,
                    base == 16 * i,
                    j <= 16,
                    forall|j2: int| j <= j2 < 16 ==> (w >> ((8 * (j2 - j)) as u128)) & 0xFF
                        == #[trigger] self.squares@[16 * i + j2].0,
                decreases j,
            {
                j = j - 1;
                let b = self.squares[base + j].to_u8() as u128;
                let ghost wold = w;
                w = (w << 8u128) | b;
                proof {
                    lemma_u128_shift_in(wold, b);
                    assert forall|j2: int| j <= j2 < 16 implies (w >> ((8 * (j2 - j)) as u128))
                        & 0xFF == #[trigger] self.squares@[16 * i + j2].0 by {
                        if j2 > j {
                            let sh = (8 * (j2 - j - 1)) as u128;
                            assert((w >> ((sh + 8) as u128)) & 0xFF == (wold >> sh) & 0xFF);
                            assert((8 * (j2 - j)) as u128 == (sh + 8) as u128);
                        }
                    }
                }
            }
            quad.push(w);
            i = i + 1;
        }
        quad
    }

    /// Imports a board from four 128-bit words, inverting
    /// `to_u128_quad` exactly.
    pub fn from_u128_quad(quad: &Vec<u128>) -> (r: Self)
        requires
            quad.len() == 4,
        ensures
            r.wf(),
            forall|i: int, j: int| 0 <= i < 4 && 0 <= j < 16 ==> #[trigger] r.squares@[16 * i
                + j].0 == ((quad@[i] >> ((8 * j) as u128)) & 0xFF) as u8,
    {
        let mut squares: Vec<ByteSquare> = Vec::new();
        let mut i: usize = 0;
        while i < 4
            invariant
                quad.len() == 4,
                i <= 4,
                squares.len() == 16 * i,
                forall|i2: int, j: int| 0 <= i2 < i && 0 <= j < 16 ==> #[trigger] squares@[16 * i2
                    + j].0 == ((quad@[i2] >> ((8 * j) as u128)) & 0xFF) as u8,
            decreases 4 - i,
        {
            let w = quad[i];
            let mut j: usize = 0;
            while j < 16
                invariant
                    i < 4,
                    j <= 16,
                    w == quad@[i as int],
                    quad.len() == 4,
                    squares.len() == 16 * i + j,
                    forall|i2: int, j2: int| 0 <= i2 < i && 0 <= j2 < 16 ==> #[trigger] squares@[16
                        * i2 + j2].0 == ((quad@[i2] >> ((8 * j2) as u128)) & 0xFF) as u8,
                    forall|j2: int| 0 <= j2 < j ==> #[trigger] squares@[16 * i + j2].0
                        == ((quad@[i as int] >> ((8 * j2) as u128)) & 0xFF) as u8,
                decreases 16 - j,
            {
                let shift = (8 * j) as u128;
                let byte = ((w >> shift) & 0xFF) as u8;
                squares.push(ByteSquare::from_u8(byte));
                j = j + 1;
            }
            i = i + 1;
        }
        ByteBoard { squares }
    }
}


/// Flipping a square's byte twice restores it, for any byte a board
/// can legitimately hold: the all-zero empty byte, or an occupied one.
/// Applied square by square, inverting a board twice restores it.
pub proof fn lemma_flip_byte_involutive(b: u8)
    requires
        b == 0 || occupied_of(b),
    ensures
        flip_byte(flip_byte(b)) == b,
{
    crate::byteboard::bytesquare::lemma_byte_update(b, 0, 0);
    crate::byteboard::bytesquare::lemma_byte_update(0, 0, 0);
    if b != 0 {
        assert((b ^ 0x40) & 0x80 == b & 0x80);
        assert(flip_byte(b) == b ^ 0x40 && b ^ 0x40 != 0);
        crate::byteboard::bytesquare::lemma_byte_update((b ^ 0x40) as u8, 0, 0);
        assert((b ^ 0x40) ^ 0x40 == b) by (bit_vector);
    }
}

/// The word codecs are exact inverses: a board exported as eight 64-bit
/// words and imported back is the same board, byte for byte.
pub proof fn lemma_octet_round_trip(b1: ByteBoard, w: Seq<u64>, b2: ByteBoard)
    requires
        b1.wf(),
        b2.wf(),
        w.len() == 8,
        forall|i: int, j: int| 0 <= i < 8 && 0 <= j < 8 ==> (w[i] >> ((8 * j) as u64)) & 0xFF
            == #[trigger] b1.squares@[8 * i + j].0,
        forall|i: int, j: int| 0 <= i < 8 && 0 <= j < 8 ==> #[trigger] b2.squares@[8 * i + j].0 == ((
        w[i] >> ((8 * j) as u64)) & 0xFF) as u8,
    ensures
        b1.squares@ =~= b2.squares@,
{
    assert forall|k: int| 0 <= k < 64 implies b1.squares@[k] == b2.squares@[k] by {
        let i = k / 8;
        let j = k % 8;
        assert(k == 8 * i + j);
        assert((w[i] >> ((8 * j) as u64)) & 0xFF == b1.squares@[8 * i + j].0);
        assert(b2.squares@[8 * i + j].0 == ((w[i] >> ((8 * j) as u64)) & 0xFF) as u8);
    }
}

/// The 128-bit codec round-trips the same way.
pub proof fn lemma_quad_round_trip(b1: ByteBoard, w: Seq<u128>, b2: ByteBoard)
    requires
        b1.wf(),
        b2.wf(),
        w.len() == 4,
        forall|i: int, j: int| 0 <= i < 4 && 0 <= j < 16 ==> (w[i] >> ((8 * j) as u128)) & 0xFF
            == #[trigger] b1.squares@[16 * i + j].0,
        forall|i: int, j: int| 0 <= i < 4 && 0 <= j < 16 ==> #[trigger] b2.squares@[16 * i + j].0
            == ((w[i] >> ((8 * j) as u128)) & 0xFF) as u8,
    ensures
        b1.squares@ =~= b2.squares@,
{
    assert forall|k: int| 0 <= k < 64 implies b1.squares@[k] == b2.squares@[k] by {
        let i = k / 16;
        let j = k % 16;
        assert(k == 16 * i + j);
        assert((w[i] >> ((8 * j) as u128)) & 0xFF == b1.squares@[16 * i + j].0);
        assert(b2.squares@[16 * i + j].0 == ((w[i] >> ((8 * j) as u128)) & 0xFF) as u8);
    }
}

/// Extracting each byte of a word assembled from eight bytes.
proof fn lemma_word_bytes(
    w: u64,
    b0: u64,
    b1: u64,
    b2: u64,
    b3: u64,
    b4: u64,
    b5: u64,
    b6: u64,
    b7: u64,
)
    by (bit_vector)
    requires
        b0 < 256 && b1 < 256 && b2 < 256 && b3 < 256 && b4 < 256 && b5 < 256 && b6 < 256 && b7
            < 256,
        w == b0 | (b1 << 8u64) | (b2 << 16u64) | (b3 << 24u64) | (b4 << 32u64) | (b5 << 40u64) | (
        b6 << 48u64) | (b7 << 56u64),
    ensures
        (w >> 0u64) & 0xFF == b0,
        (w >> 8u64) & 0xFF == b1,
        (w >> 16u64) & 0xFF == b2,
        (w >> 24u64) & 0xFF == b3,
        (w >> 32u64) & 0xFF == b4,
        (w >> 40u64) & 0xFF == b5,
        (w >> 48u64) & 0xFF == b6,
        (w >> 56u64) & 0xFF == b7,
{
}

/// Shifting one more byte into a 128-bit accumulator: the new byte is
/// the lowest, and every byte already present moves up one position.
proof fn lemma_u128_shift_in(w: u128, b: u128)
    by (bit_vector)
    requires
        b < 256,
    ensures
        (((w << 8u128) | b) >> 0u128) & 0xFF == b,
        forall|sh: u128| sh <= 112 ==> ((((w << 8u128) | b) >> ((sh + 8) as u128)) & 0xFF)
            == (#[trigger] (w >> sh)) & 0xFF,
{
}

} // verus!
