//! Board files (columns) `a` through `h`.
use vstd::prelude::*;

verus! {

/// A file (column) of the board, `A` being index 0 and `H` index 7.
#[derive(PartialEq, Eq, Copy, Clone, Debug, Structural)]
pub enum File {
    A,
    B,
    C,
    D,
    E,
    F,
    G,
    H,
}

pub const FILE_COUNT: usize = 8;

impl File {
    /// The file's position in the left-to-right total order, as a
    /// mathematical integer.
    pub open spec fn as_int(self) -> int {
        match self {
            File::A => 0,
            File::B => 1,
            File::C => 2,
            File::D => 3,
            File::E => 4,
            File::F => 5,
            File::G => 6,
            File::H => 7,
        }
    }

    pub fn index(self) -> (r: usize)
        ensures
            r == self.as_int(),
    {
        match self {
            File::A => 0,
            File::B => 1,
            File::C => 2,
            File::D => 3,
            File::E => 4,
            File::F => 5,
            File::G => 6,
            File::H => 7,
        }
    }

    /// The file at a given index; out-of-range indices yield no file
    /// rather than a wrapped one.
    pub fn from_index(index: usize) -> (r: Option<File>)
        ensures
            index < 8 ==> (r matches Some(f) && f.as_int() == index),
            index >= 8 ==> r is None,
    {
        match index {
            0 => Some(File::A),
            1 => Some(File::B),
            2 => Some(File::C),
            3 => Some(File::D),
            4 => Some(File::E),
            5 => Some(File::F),
            6 => Some(File::G),
            7 => Some(File::H),
            _ => None,
        }
    }

    /// The file's letter, `a` through `h`.
    pub fn to_char(self) -> (r: char)
        ensures
            r as int == 'a' as int + self.as_int(),
    {
        match self {
            File::A => 'a',
            File::B => 'b',
            File::C => 'c',
            File::D => 'd',
            File::E => 'e',
            File::F => 'f',
            File::G => 'g',
            File::H => 'h',
        }
    }

    /// Parses a file letter; anything outside `a`..`h` yields no file.
    pub fn from_char(c: char) -> (r: Option<File>)
        ensures
            ('a' as int <= c as int && (c as int) < 'a' as int + 8) ==> (r matches Some(f)
                && f.as_int() == c as int - 'a' as int),
            !('a' as int <= c as int && (c as int) < 'a' as int + 8) ==> r is None,
    {
        match c {
            'a' => Some(File::A),
            'b' => Some(File::B),
            'c' => Some(File::C),
            'd' => Some(File::D),
            'e' => Some(File::E),
            'f' => Some(File::F),
            'g' => Some(File::G),
            'h' => Some(File::H),
            _ => None,
        }
    }

    /// The file's letter as a one-character string.
    pub fn as_str(self) -> (r: &'static str)
        ensures
            r@.len() == 1,
            r@[0] as int == 'a' as int + self.as_int(),
    {
        let r: &'static str = match self {
            File::A => "a",
            File::B => "b",
            File::C => "c",
            File::D => "d",
            File::E => "e",
            File::F => "f",
            File::G => "g",
            File::H => "h",
        };
        proof {
            reveal_strlit("a");
            reveal_strlit("b");
            reveal_strlit("c");
            reveal_strlit("d");
            reveal_strlit("e");
            reveal_strlit("f");
            reveal_strlit("g");
            reveal_strlit("h");
        }
        r
    }

    /// One file toward `a`; none from file `a` (no wrapping).
    pub fn left(self) -> (r: Option<File>)
        ensures
            self.as_int() == 0 ==> r is None,
            self.as_int() > 0 ==> (r matches Some(f) && f.as_int() == self.as_int() - 1),
    {
        if self == File::A {
            None
        } else {
            File::from_index(self.index() - 1)
        }
    }

    /// One file toward `h`; none from file `h` (no wrapping).
    pub fn right(self) -> (r: Option<File>)
        ensures
            self.as_int() == 7 ==> r is None,
            self.as_int() < 7 ==> (r matches Some(f) && f.as_int() == self.as_int() + 1),
    {
        File::from_index(self.index() + 1)
    }

    /// `n` files toward `a`; none if that leaves the board.
    pub fn left_n(self, n: usize) -> (r: Option<File>)
        ensures
            self.as_int() >= n ==> (r matches Some(f) && f.as_int() == self.as_int() - n),
            self.as_int() < n ==> r is None,
    {
        if n > self.index() {
            None
        } else {
            File::from_index(self.index() - n)
        }
    }

    /// `n` files toward `h`; none if that leaves the board.
    pub fn right_n(self, n: usize) -> (r: Option<File>)
        ensures
            self.as_int() + n < 8 ==> (r matches Some(f) && f.as_int() == self.as_int() + n),
            self.as_int() + n >= 8 ==> r is None,
    {
        if n >= 8 - self.index() {
            None
        } else {
            File::from_index(self.index() + n)
        }
    }

    /// One file toward `a`, wrapping from `a` to `h`: the explicit
    /// modular variant of `left`.
    pub fn wrapping_left(self) -> (r: File)
        ensures
            r.as_int() == (self.as_int() - 1) % 8,
    {
        if self == File::A {
            File::H
        } else {
            let f = File::from_index(self.index() - 1);
            f.unwrap()
        }
    }

    /// One file toward `h`, wrapping from `h` to `a`.
    pub fn wrapping_right(self) -> (r: File)
        ensures
            r.as_int() == (self.as_int() + 1) % 8,
    {
        if self == File::H {
            File::A
        } else {
            let f = File::from_index(self.index() + 1);
            f.unwrap()
        }
    }
}

} // verus!
