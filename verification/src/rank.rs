//! Board ranks (rows) `1` through `8`.
use vstd::prelude::*;

verus! {

/// A rank (row) of the board, `Rank1` being index 0 and `Rank8` index 7.
#[derive(PartialEq, Eq, Copy, Clone, Debug, Structural)]
pub enum Rank {
    Rank1,
    Rank2,
    Rank3,
    Rank4,
    Rank5,
    Rank6,
    Rank7,
    Rank8,
}

pub const RANK_COUNT: usize = 8;

impl Rank {
    /// The rank's position in the bottom-to-top total order, as a
    /// mathematical integer.
    pub open spec fn as_int(self) -> int {
        match self {
            Rank::Rank1 => 0,
            Rank::Rank2 => 1,
            Rank::Rank3 => 2,
            Rank::Rank4 => 3,
            Rank::Rank5 => 4,
            Rank::Rank6 => 5,
            Rank::Rank7 => 6,
            Rank::Rank8 => 7,
        }
    }

    pub fn index(self) -> (r: usize)
        ensures
            r == self.as_int(),
    {
        match self {
            Rank::Rank1 => 0,
            Rank::Rank2 => 1,
            Rank::Rank3 => 2,
            Rank::Rank4 => 3,
            Rank::Rank5 => 4,
            Rank::Rank6 => 5,
            Rank::Rank7 => 6,
            Rank::Rank8 => 7,
        }
    }

    /// The rank at a given index; out-of-range indices yield no rank
    /// rather than a wrapped one.
    pub fn from_index(index: usize) -> (r: Option<Rank>)
        ensures
            index < 8 ==> (r matches Some(k) && k.as_int() == index),
            index >= 8 ==> r is None,
    {
        match index {
            0 => Some(Rank::Rank1),
            1 => Some(Rank::Rank2),
            2 => Some(Rank::Rank3),
            3 => Some(Rank::Rank4),
            4 => Some(Rank::Rank5),
            5 => Some(Rank::Rank6),
            6 => Some(Rank::Rank7),
            7 => Some(Rank::Rank8),
            _ => None,
        }
    }

    /// The rank's digit, `1` through `8`.
    pub fn to_char(self) -> (r: char)
        ensures
            r as int == '1' as int + self.as_int(),
    {
        match self {
            Rank::Rank1 => '1',
            Rank::Rank2 => '2',
            Rank::Rank3 => '3',
            Rank::Rank4 => '4',
            Rank::Rank5 => '5',
            Rank::Rank6 => '6',
            Rank::Rank7 => '7',
            Rank::Rank8 => '8',
        }
    }

    /// Parses a rank digit; anything outside `1`..`8` yields no rank.
    pub fn from_char(c: char) -> (r: Option<Rank>)
        ensures
            ('1' as int <= c as int && (c as int) < '1' as int + 8) ==> (r matches Some(k)
                && k.as_int() == c as int - '1' as int),
            !('1' as int <= c as int && (c as int) < '1' as int + 8) ==> r is None,
    {
        match c {
            '1' => Some(Rank::Rank1),
            '2' => Some(Rank::Rank2),
            '3' => Some(Rank::Rank3),
            '4' => Some(Rank::Rank4),
            '5' => Some(Rank::Rank5),
            '6' => Some(Rank::Rank6),
            '7' => Some(Rank::Rank7),
            '8' => Some(Rank::Rank8),
            _ => None,
        }
    }

    /// The rank's digit as a one-character string.
    pub fn as_str(self) -> (r: &'static str)
        ensures
            r@.len() == 1,
            r@[0] as int == '1' as int + self.as_int(),
    {
        let r: &'static str = match self {
            Rank::Rank1 => "1",
            Rank::Rank2 => "2",
            Rank::Rank3 => "3",
            Rank::Rank4 => "4",
            Rank::Rank5 => "5",
            Rank::Rank6 => "6",
            Rank::Rank7 => "7",
            Rank::Rank8 => "8",
        };
        proof {
            reveal_strlit("1");
            reveal_strlit("2");
            reveal_strlit("3");
            reveal_strlit("4");
            reveal_strlit("5");
            reveal_strlit("6");
            reveal_strlit("7");
            reveal_strlit("8");
        }
        r
    }

    /// One rank upward; none from rank 8 (no wrapping).
    pub fn up(self) -> (r: Option<Rank>)
        ensures
            self.as_int() == 7 ==> r is None,
            self.as_int() < 7 ==> (r matches Some(k) && k.as_int() == self.as_int() + 1),
    {
        Rank::from_index(self.index() + 1)
    }

    /// One rank downward; none from rank 1 (no wrapping).
    pub fn down(self) -> (r: Option<Rank>)
        ensures
            self.as_int() == 0 ==> r is None,
            self.as_int() > 0 ==> (r matches Some(k) && k.as_int() == self.as_int() - 1),
    {
        if self == Rank::Rank1 {
            None
        } else {
            Rank::from_index(self.index() - 1)
        }
    }

    /// `n` ranks upward; none if that leaves the board.
    pub fn up_n(self, n: usize) -> (r: Option<Rank>)
        ensures
            self.as_int() + n < 8 ==> (r matches Some(k) && k.as_int() == self.as_int() + n),
            self.as_int() + n >= 8 ==> r is None,
    {
        if n >= 8 - self.index() {
            None
        } else {
            Rank::from_index(self.index() + n)
        }
    }

    /// `n` ranks downward; none if that leaves the board.
    pub fn down_n(self, n: usize) -> (r: Option<Rank>)
        ensures
            self.as_int() >= n ==> (r matches Some(k) && k.as_int() == self.as_int() - n),
            self.as_int() < n ==> r is None,
    {
        if n > self.index() {
            None
        } else {
            Rank::from_index(self.index() - n)
        }
    }

    /// One rank upward, wrapping from rank 8 to rank 1: the explicit
    /// modular variant of `up`.
    pub fn wrapping_up(self) -> (r: Rank)
        ensures
            r.as_int() == (self.as_int() + 1) % 8,
    {
        if self == Rank::Rank8 {
            Rank::Rank1
        } else {
            let k = Rank::from_index(self.index() + 1);
            k.unwrap()
        }
    }

    /// One rank downward, wrapping from rank 1 to rank 8.
    pub fn wrapping_down(self) -> (r: Rank)
        ensures
            r.as_int() == (self.as_int() - 1) % 8,
    {
        if self == Rank::Rank1 {
            Rank::Rank8
        } else {
            let k = Rank::from_index(self.index() - 1);
            k.unwrap()
        }
    }
}

} // verus!
