//! Squares of the 8-by-8 board, ordered rank-major: `A1` is index 0,
//! `B1` index 1, and `H8` index 63.
use vstd::prelude::*;

use crate::direction::Direction;
use crate::file::File;
use crate::piece::Color;
use crate::rank::Rank;

verus! {

/// A square of the board. The index of a square is
/// `rank index * 8 + file index`.
#[derive(PartialEq, Eq, Copy, Clone, Debug, Structural)]
pub enum Square {
    A1,
    B1,
    C1,
    D1,
    E1,
    F1,
    G1,
    H1,
    A2,
    B2,
    C2,
    D2,
    E2,
    F2,
    G2,
    H2,
    A3,
    B3,
    C3,
    D3,
    E3,
    F3,
    G3,
    H3,
    A4,
    B4,
    C4,
    D4,
    E4,
    F4,
    G4,
    H4,
    A5,
    B5,
    C5,
    D5,
    E5,
    F5,
    G5,
    H5,
    A6,
    B6,
    C6,
    D6,
    E6,
    F6,
    G6,
    H6,
    A7,
    B7,
    C7,
    D7,
    E7,
    F7,
    G7,
    H7,
    A8,
    B8,
    C8,
    D8,
    E8,
    F8,
    G8,
    H8,
}

pub const SQUARE_COUNT: usize = 64;

impl Square {
    /// The square's position in the total order, as a mathematical
    /// integer: rank times eight plus file.
    pub open spec fn as_int(self) -> int {
        match self {
            Square::A1 => 0,
            Square::B1 => 1,
            Square::C1 => 2,
            Square::D1 => 3,
            Square::E1 => 4,
            Square::F1 => 5,
            Square::G1 => 6,
            Square::H1 => 7,
            Square::A2 => 8,
            Square::B2 => 9,
            Square::C2 => 10,
            Square::D2 => 11,
            Square::E2 => 12,
            Square::F2 => 13,
            Square::G2 => 14,
            Square::H2 => 15,
            Square::A3 => 16,
            Square::B3 => 17,
            Square::C3 => 18,
            Square::D3 => 19,
            Square::E3 => 20,
            Square::F3 => 21,
            Square::G3 => 22,
            Square::H3 => 23,
            Square::A4 => 24,
            Square::B4 => 25,
            Square::C4 => 26,
            Square::D4 => 27,
            Square::E4 => 28,
            Square::F4 => 29,
            Square::G4 => 30,
            Square::H4 => 31,
            Square::A5 => 32,
            Square::B5 => 33,
            Square::C5 => 34,
            Square::D5 => 35,
            Square::E5 => 36,
            Square::F5 => 37,
            Square::G5 => 38,
            Square::H5 => 39,
            Square::A6 => 40,
            Square::B6 => 41,
            Square::C6 => 42,
            Square::D6 => 43,
            Square::E6 => 44,
            Square::F6 => 45,
            Square::G6 => 46,
            Square::H6 => 47,
            Square::A7 => 48,
            Square::B7 => 49,
            Square::C7 => 50,
            Square::D7 => 51,
            Square::E7 => 52,
            Square::F7 => 53,
            Square::G7 => 54,
            Square::H7 => 55,
            Square::A8 => 56,
            Square::B8 => 57,
            Square::C8 => 58,
            Square::D8 => 59,
            Square::E8 => 60,
            Square::F8 => 61,
            Square::G8 => 62,
            Square::H8 => 63,
        }
    }

    pub fn index(self) -> (r: usize)
        ensures
            r == self.as_int(),
    {
        match self {
            Square::A1 => 0,
            Square::B1 => 1,
            Square::C1 => 2,
            Square::D1 => 3,
            Square::E1 => 4,
            Square::F1 => 5,
            Square::G1 => 6,
            Square::H1 => 7,
            Square::A2 => 8,
            Square::B2 => 9,
            Square::C2 => 10,
            Square::D2 => 11,
            Square::E2 => 12,
            Square::F2 => 13,
            Square::G2 => 14,
            Square::H2 => 15,
            Square::A3 => 16,
            Square::B3 => 17,
            Square::C3 => 18,
            Square::D3 => 19,
            Square::E3 => 20,
            Square::F3 => 21,
            Square::G3 => 22,
            Square::H3 => 23,
            Square::A4 => 24,
            Square::B4 => 25,
            Square::C4 => 26,
            Square::D4 => 27,
            Square::E4 => 28,
            Square::F4 => 29,
            Square::G4 => 30,
            Square::H4 => 31,
            Square::A5 => 32,
            Square::B5 => 33,
            Square::C5 => 34,
            Square::D5 => 35,
            Square::E5 => 36,
            Square::F5 => 37,
            Square::G5 => 38,
            Square::H5 => 39,
            Square::A6 => 40,
            Square::B6 => 41,
            Square::C6 => 42,
            Square::D6 => 43,
            Square::E6 => 44,
            Square::F6 => 45,
            Square::G6 => 46,
            Square::H6 => 47,
            Square::A7 => 48,
            Square::B7 => 49,
            Square::C7 => 50,
            Square::D7 => 51,
            Square::E7 => 52,
            Square::F7 => 53,
            Square::G7 => 54,
            Square::H7 => 55,
            Square::A8 => 56,
            Square::B8 => 57,
            Square::C8 => 58,
            Square::D8 => 59,
            Square::E8 => 60,
            Square::F8 => 61,
            Square::G8 => 62,
            Square::H8 => 63,
        }
    }

    /// The square at a given index; out-of-range indices yield no
    /// square rather than a wrapped one.
    pub fn from_index(index: usize) -> (r: Option<Square>)
        ensures
            index < 64 ==> (r matches Some(s) && s.as_int() == index),
            index >= 64 ==> r is None,
    {
        match index {
            0 => Some(Square::A1),
            1 => Some(Square::B1),
            2 => Some(Square::C1),
            3 => Some(Square::D1),
            4 => Some(Square::E1),
            5 => Some(Square::F1),
            6 => Some(Square::G1),
            7 => Some(Square::H1),
            8 => Some(Square::A2),
            9 => Some(Square::B2),
            10 => Some(Square::C2),
            11 => Some(Square::D2),
            12 => Some(Square::E2),
            13 => Some(Square::F2),
            14 => Some(Square::G2),
            15 => Some(Square::H2),
            16 => Some(Square::A3),
            17 => Some(Square::B3),
            18 => Some(Square::C3),
            19 => Some(Square::D3),
            20 => Some(Square::E3),
            21 => Some(Square::F3),
            22 => Some(Square::G3),
            23 => Some(Square::H3),
            24 => Some(Square::A4),
            25 => Some(Square::B4),
            26 => Some(Square::C4),
            27 => Some(Square::D4),
            28 => Some(Square::E4),
            29 => Some(Square::F4),
            30 => Some(Square::G4),
            31 => Some(Square::H4),
            32 => Some(Square::A5),
            33 => Some(Square::B5),
            34 => Some(Square::C5),
            35 => Some(Square::D5),
            36 => Some(Square::E5),
            37 => Some(Square::F5),
            38 => Some(Square::G5),
            39 => Some(Square::H5),
            40 => Some(Square::A6),
            41 => Some(Square::B6),
            42 => Some(Square::C6),
            43 => Some(Square::D6),
            44 => Some(Square::E6),
            45 => Some(Square::F6),
            46 => Some(Square::G6),
            47 => Some(Square::H6),
            48 => Some(Square::A7),
            49 => Some(Square::B7),
            50 => Some(Square::C7),
            51 => Some(Square::D7),
            52 => Some(Square::E7),
            53 => Some(Square::F7),
            54 => Some(Square::G7),
            55 => Some(Square::H7),
            56 => Some(Square::A8),
            57 => Some(Square::B8),
            58 => Some(Square::C8),
            59 => Some(Square::D8),
            60 => Some(Square::E8),
            61 => Some(Square::F8),
            62 => Some(Square::G8),
            63 => Some(Square::H8),
            _ => None,
        }
    }

    /// The square's rank index, 0 through 7.
    pub open spec fn rank_int(self) -> int {
        self.as_int() / 8
    }

    /// The square's file index, 0 through 7.
    pub open spec fn file_int(self) -> int {
        self.as_int() % 8
    }

    /// The square on a given rank and file.
    pub fn new(rank: Rank, file: File) -> (r: Square)
        ensures
            r.as_int() == 8 * rank.as_int() + file.as_int(),
            r.rank_int() == rank.as_int(),
            r.file_int() == file.as_int(),
    {
        let s = Square::from_index(rank.index() * 8 + file.index());
        s.unwrap()
    }

    pub fn rank(self) -> (r: Rank)
        ensures
            r.as_int() == self.rank_int(),
    {
        let k = Rank::from_index(self.index() / 8);
        k.unwrap()
    }

    pub fn file(self) -> (r: File)
        ensures
            r.as_int() == self.file_int(),
    {
        let f = File::from_index(self.index() % 8);
        f.unwrap()
    }

    /// One square toward rank 8; none past the top edge.
    pub fn up(self) -> (r: Option<Square>)
        ensures
            self.rank_int() == 7 ==> r is None,
            self.rank_int() < 7 ==> (r matches Some(s) && s.rank_int() == self.rank_int() + 1
                && s.file_int() == self.file_int()),
    {
        match self.rank().up() {
            Some(k) => Some(Square::new(k, self.file())),
            None => None,
        }
    }

    /// One square toward rank 1; none past the bottom edge.
    pub fn down(self) -> (r: Option<Square>)
        ensures
            self.rank_int() == 0 ==> r is None,
            self.rank_int() > 0 ==> (r matches Some(s) && s.rank_int() == self.rank_int() - 1
                && s.file_int() == self.file_int()),
    {
        match self.rank().down() {
            Some(k) => Some(Square::new(k, self.file())),
            None => None,
        }
    }

    /// One square toward file `a`; none past the left edge.
    pub fn left(self) -> (r: Option<Square>)
        ensures
            self.file_int() == 0 ==> r is None,
            self.file_int() > 0 ==> (r matches Some(s) && s.file_int() == self.file_int() - 1
                && s.rank_int() == self.rank_int()),
    {
        match self.file().left() {
            Some(f) => Some(Square::new(self.rank(), f)),
            None => None,
        }
    }

    /// One square toward file `h`; none past the right edge.
    pub fn right(self) -> (r: Option<Square>)
        ensures
            self.file_int() == 7 ==> r is None,
            self.file_int() < 7 ==> (r matches Some(s) && s.file_int() == self.file_int() + 1
                && s.rank_int() == self.rank_int()),
    {
        match self.file().right() {
            Some(f) => Some(Square::new(self.rank(), f)),
            None => None,
        }
    }

    /// One step in a compass direction, from white's point of view;
    /// none where the step crosses a board edge.
    pub fn absolute(self, direction: Direction) -> (r: Option<Square>)
        ensures
            (0 <= self.rank_int() + direction.rank_delta() && self.rank_int()
                + direction.rank_delta() < 8 && 0 <= self.file_int() + direction.file_delta()
                && self.file_int() + direction.file_delta() < 8) ==> (r matches Some(s)
                && s.rank_int() == self.rank_int() + direction.rank_delta() && s.file_int()
                == self.file_int() + direction.file_delta()),
            !(0 <= self.rank_int() + direction.rank_delta() && self.rank_int()
                + direction.rank_delta() < 8 && 0 <= self.file_int() + direction.file_delta()
                && self.file_int() + direction.file_delta() < 8) ==> r is None,
    {
        match direction {
            Direction::Up => self.up(),
            Direction::Down => self.down(),
            Direction::Left => self.left(),
            Direction::Right => self.right(),
            Direction::UpLeft => match self.up() {
                Some(s) => s.left(),
                None => None,
            },
            Direction::UpRight => match self.up() {
                Some(s) => s.right(),
                None => None,
            },
            Direction::DownLeft => match self.down() {
                Some(s) => s.left(),
                None => None,
            },
            Direction::DownRight => match self.down() {
                Some(s) => s.right(),
                None => None,
            },
        }
    }

    /// The rank delta of one step in a direction as seen by a color:
    /// black sees every direction negated.
    pub open spec fn seen_rank_delta(direction: Direction, color: Color) -> int {
        if color == Color::White {
            direction.rank_delta()
        } else {
            -direction.rank_delta()
        }
    }

    /// The file delta of one step in a direction as seen by a color.
    pub open spec fn seen_file_delta(direction: Direction, color: Color) -> int {
        if color == Color::White {
            direction.file_delta()
        } else {
            -direction.file_delta()
        }
    }

    /// One step in a compass direction from the moving side's point of
    /// view: black sees every direction negated.
    pub fn relative(self, direction: Direction, color: Color) -> (r: Option<Square>)
        ensures
            (0 <= self.rank_int() + Square::seen_rank_delta(direction, color) && self.rank_int()
                + Square::seen_rank_delta(direction, color) < 8 && 0 <= self.file_int()
                + Square::seen_file_delta(direction, color) && self.file_int()
                + Square::seen_file_delta(direction, color) < 8) ==> (r matches Some(s)
                && s.rank_int() == self.rank_int() + Square::seen_rank_delta(direction, color)
                && s.file_int() == self.file_int() + Square::seen_file_delta(direction, color)),
            !(0 <= self.rank_int() + Square::seen_rank_delta(direction, color) && self.rank_int()
                + Square::seen_rank_delta(direction, color) < 8 && 0 <= self.file_int()
                + Square::seen_file_delta(direction, color) && self.file_int()
                + Square::seen_file_delta(direction, color) < 8) ==> r is None,
    {
        match color {
            Color::White => self.absolute(direction),
            Color::Black => self.absolute(direction.negate()),
        }
    }

    /// One rank upward, wrapping from rank 8 to rank 1.
    pub fn wrapping_up(self) -> (r: Option<Square>)
        ensures
            r matches Some(s) && s.rank_int() == (self.rank_int() + 1) % 8 && s.file_int()
                == self.file_int(),
    {
        Some(Square::new(self.rank().wrapping_up(), self.file()))
    }

    /// One rank downward, wrapping from rank 1 to rank 8.
    pub fn wrapping_down(self) -> (r: Option<Square>)
        ensures
            r matches Some(s) && s.rank_int() == (self.rank_int() - 1) % 8 && s.file_int()
                == self.file_int(),
    {
        Some(Square::new(self.rank().wrapping_down(), self.file()))
    }

    /// One file toward `a`, wrapping from `a` to `h`.
    pub fn wrapping_left(self) -> (r: Option<Square>)
        ensures
            r matches Some(s) && s.file_int() == (self.file_int() - 1) % 8 && s.rank_int()
                == self.rank_int(),
    {
        Some(Square::new(self.rank(), self.file().wrapping_left()))
    }

    /// One file toward `h`, wrapping from `h` to `a`.
    pub fn wrapping_right(self) -> (r: Option<Square>)
        ensures
            r matches Some(s) && s.file_int() == (self.file_int() + 1) % 8 && s.rank_int()
                == self.rank_int(),
    {
        Some(Square::new(self.rank(), self.file().wrapping_right()))
    }
}

/// Two squares with the same index are the same square.
pub proof fn lemma_square_int_injective(s1: Square, s2: Square)
    requires
        s1.as_int() == s2.as_int(),
    ensures
        s1 == s2,
{
}

} // verus!
