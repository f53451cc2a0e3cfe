//! Textual position import and export: the board-import boundary of
//! the core. Parsing surfaces malformed input as a discriminated error
//! and never panics; serialization is specified character by character.
use vstd::prelude::*;

use crate::errors::ChessError;
use crate::file::File;
use crate::piece::Color;
use crate::piece::Piece;
use crate::rank::Rank;
use crate::square::Square;
use crate::state::castling_chars;
use crate::state::Castling;
use crate::state::State;
use vstd::string::StrSliceExecFns;
use vstd::string::StringExecFns;

verus! {

broadcast use vstd::seq::group_seq_axioms;

/// The decimal digit character of a value below ten.
pub open spec fn dec_digit(n: int) -> char {
    if n == 0 {
        '0'
    } else if n == 1 {
        '1'
    } else if n == 2 {
        '2'
    } else if n == 3 {
        '3'
    } else if n == 4 {
        '4'
    } else if n == 5 {
        '5'
    } else if n == 6 {
        '6'
    } else if n == 7 {
        '7'
    } else if n == 8 {
        '8'
    } else {
        '9'
    }
}

/// The decimal text of a nonnegative number.
pub open spec fn dec_chars(n: int) -> Seq<char>
    decreases n,
{
    if n < 10 {
        seq![dec_digit(n)]
    } else {
        dec_chars(n / 10).push(dec_digit(n % 10))
    }
}

/// The numeric value of a digit string, most significant first.
pub open spec fn dec_value(s: Seq<char>) -> int
    decreases s.len(),
{
    if s.len() == 0 {
        0
    } else {
        10 * dec_value(s.drop_last()) + (s.last() as int - '0' as int)
    }
}

/// Whether every character is a decimal digit.
pub open spec fn all_digits(s: Seq<char>) -> bool {
    forall|i: int| 0 <= i < s.len() ==> '0' as int <= (#[trigger] s[i]) as int <= '9' as int
}

/// The decimal text of a number is all digits and reads back as the
/// same number: the counter fields of a position round-trip through
/// their text form.
pub proof fn lemma_dec_chars_value(n: int)
    requires
        n >= 0,
    ensures
        all_digits(dec_chars(n)),
        dec_value(dec_chars(n)) == n,
    decreases n,
{
    if n < 10 {
        assert(dec_chars(n) =~= seq![dec_digit(n)]);
        assert(dec_chars(n).drop_last() =~= Seq::<char>::empty());
        assert(dec_value(dec_chars(n).drop_last()) == 0);
        assert(dec_chars(n).last() == dec_digit(n));
        assert(dec_digit(n) as int - '0' as int == n);
    } else {
        lemma_dec_chars_value(n / 10);
        let w = dec_chars(n / 10);
        assert(dec_chars(n) == w.push(dec_digit(n % 10)));
        assert(w.push(dec_digit(n % 10)).drop_last() =~= w);
        assert(all_digits(w.push(dec_digit(n % 10)))) by {
            assert(forall|i: int| 0 <= i < w.len() ==> w.push(dec_digit(n % 10))[i] == w[i]);
        }
        assert(dec_value(dec_chars(n)) == 10 * dec_value(w) + (dec_digit(n % 10) as int
            - '0' as int));
    }
}

/// One digit as a string.
fn dec_digit_str(n: u16) -> (r: &'static str)
    requires
        n < 10,
    ensures
        r@.len() == 1,
        r@[0] == dec_digit(n as int),
{
    let r: &'static str = match n {
        0 => "0",
        1 => "1",
        2 => "2",
        3 => "3",
        4 => "4",
        5 => "5",
        6 => "6",
        7 => "7",
        8 => "8",
        _ => "9",
    };
    proof {
        reveal_strlit("0");
        reveal_strlit("1");
        reveal_strlit("2");
        reveal_strlit("3");
        reveal_strlit("4");
        reveal_strlit("5");
        reveal_strlit("6");
        reveal_strlit("7");
        reveal_strlit("8");
        reveal_strlit("9");
    }
    r
}

/// A number as decimal text.
fn u16_string(n: u16) -> (r: String)
    ensures
        r@ =~= dec_chars(n as int),
    decreases n,
{
    if n < 10 {
        let mut s = String::new();
        s.append(dec_digit_str(n));
        s
    } else {
        let mut s = u16_string(n / 10);
        s.append(dec_digit_str(n % 10));
        proof {
            assert(dec_chars(n as int) == dec_chars(n as int / 10).push(dec_digit(n as int % 10)));
        }
        s
    }
}

/// Parses a decimal number: the value of a nonempty all-digit string
/// that fits, and nothing otherwise.
fn parse_u16(s: &str, start: usize, end: usize) -> (r: Option<u16>)
    requires
        start <= end <= s@.len(),
    ensures
        (start < end && all_digits(s@.subrange(start as int, end as int)) && dec_value(
            s@.subrange(start as int, end as int),
        ) <= 65535) ==> (r matches Some(v) && v == dec_value(
            s@.subrange(start as int, end as int),
        )),
        !(start < end && all_digits(s@.subrange(start as int, end as int)) && dec_value(
            s@.subrange(start as int, end as int),
        ) <= 65535) ==> r is None,
{
    if start == end {
        return None;
    }
    let mut acc: u32 = 0;
    let mut i: usize = start;
    while i < end
        invariant
            start <= i <= end <= s@.len(),
            all_digits(s@.subrange(start as int, i as int)),
            acc == dec_value(s@.subrange(start as int, i as int)),
            acc <= 65535,
        decreases end - i,
    {
        let c = s.get_char(i);
        let cu = c as u32;
        if cu < '0' as u32 || cu > '9' as u32 {
            proof {
                lemma_not_all_digits(s@, start as int, end as int, i as int);
            }
            return None;
        }
        let d = cu - '0' as u32;
        let next = acc * 10 + d;
        proof {
            assert(s@.subrange(start as int, i + 1).drop_last() =~= s@.subrange(
                start as int,
                i as int,
            ));
        }
        proof {
            assert(s@.subrange(start as int, i + 1).last() == s@[i as int]);
            assert(dec_value(s@.subrange(start as int, i + 1)) == next);
        }
        if next > 65535 {
            proof {
                if all_digits(s@.subrange(start as int, end as int)) {
                    lemma_dec_value_grows(s@, start as int, end as int, i + 1);
                }
            }
            return None;
        }
        acc = next;
        i = i + 1;
    }
    proof {
        assert(s@.subrange(start as int, end as int) =~= s@.subrange(start as int, i as int));
    }
    Some(acc as u16)
}

/// A string with a non-digit somewhere is not all digits.
proof fn lemma_not_all_digits(s: Seq<char>, start: int, end: int, i: int)
    requires
        0 <= start <= i < end <= s.len(),
        !('0' as int <= s[i] as int <= '9' as int),
    ensures
        !all_digits(s.subrange(start, end)),
{
    assert(s.subrange(start, end)[i - start] == s[i]);
}

/// The value of an all-digit string is nonnegative.
proof fn lemma_dec_value_nonneg(s: Seq<char>)
    requires
        all_digits(s),
    ensures
        dec_value(s) >= 0,
    decreases s.len(),
{
    if s.len() > 0 {
        assert(all_digits(s.drop_last())) by {
            assert(forall|i: int| 0 <= i < s.len() - 1 ==> s.drop_last()[i] == s[i]);
        }
        lemma_dec_value_nonneg(s.drop_last());
    }
}

/// A digit string's value only grows as it extends.
proof fn lemma_dec_value_grows(s: Seq<char>, start: int, end: int, i: int)
    requires
        0 <= start <= i <= end <= s.len(),
        all_digits(s.subrange(start, end)),
    ensures
        dec_value(s.subrange(start, i)) <= dec_value(s.subrange(start, end)),
    decreases end - i,
{
    assert forall|a: int, b: int| start <= a <= b <= end implies all_digits(
        #[trigger] s.subrange(a, b),
    ) by {
        assert(forall|j: int| 0 <= j < b - a ==> s.subrange(a, b)[j] == s.subrange(start, end)[j + (
        a - start)]);
    }
    if i < end {
        assert(s.subrange(start, i + 1).drop_last() =~= s.subrange(start, i));
        lemma_dec_value_nonneg(s.subrange(start, i));
        assert(dec_value(s.subrange(start, i + 1)) == 10 * dec_value(s.subrange(start, i)) + (
        s.subrange(start, i + 1).last() as int - '0' as int));
        assert(s.subrange(start, i + 1).last() == s[i]);
        assert('0' as int <= s[i] as int <= '9' as int) by {
            assert(s.subrange(start, end)[i - start] == s[i]);
        }
        lemma_dec_value_grows(s, start, end, i + 1);
    }
}

impl State {
    /// `-` denotes an absent field in position text.
    pub fn map_empty_fen(s: &str) -> (r: Option<&str>)
        ensures
            (s@.len() == 1 && s@[0] == '-') ==> r is None,
            !(s@.len() == 1 && s@[0] == '-') ==> (r matches Some(t) && t@ == s@),
    {
        if s.unicode_len() == 1 && s.get_char(0) == '-' {
            None
        } else {
            Some(s)
        }
    }

    /// Parses a position description: piece placement by rank from the
    /// top, side to move, castling rights, en-passant target, halfmove
    /// clock and fullmove number. Malformed input yields an error and
    /// never a panic or a wrapped coordinate.
    pub fn from_fen(fen: &str) -> (r: Result<State, ChessError>)
        ensures
            r matches Ok(st) ==> st.wf(),
            (forall|j: int| 0 <= j < fen@.len() ==> fen@[j] != ' ') ==> r is Err,
    {
        let n = fen.unicode_len();
        let mut sp: usize = 0;
        while sp < n
            invariant_except_break
                n == fen@.len(),
                sp <= n,
            ensures
                n == fen@.len(),
                sp <= n,
                sp < n ==> fen@[sp as int] == ' ',
            decreases n - sp,
        {
            if fen.get_char(sp) == ' ' {
                break ;
            }
            sp = sp + 1;
        }
        if sp == n {
            return Err(ChessError::InvalidFEN(crate::state::copy_str(fen)));
        }
        let mut state = State::new();
        let mut rank: usize = 7;
        let mut file: usize = 0;
        let mut pos: usize = 0;
        while pos < sp
            invariant
                n == fen@.len(),
                sp < n,
                rank < 8,
                file <= 8,
                pos <= sp,
                state.wf(),
            decreases sp - pos,
        {
            let c = fen.get_char(pos);
            if c == '/' {
                if rank == 0 {
                    return Err(ChessError::InvalidFEN(crate::state::copy_str(fen)));
                }
                rank = rank - 1;
                file = 0;
            } else {
                let cu = c as u32;
                if cu >= '1' as u32 && cu <= '8' as u32 {
                    let d = (cu - '0' as u32) as usize;
                    if file + d > 8 {
                        return Err(ChessError::InvalidFEN(crate::state::copy_str(fen)));
                    }
                    file = file + d;
                } else {
                    match Piece::from_char(c) {
                        Some(p) => {
                            if file >= 8 {
                                return Err(ChessError::InvalidFEN(crate::state::copy_str(fen)));
                            }
                            let k = Rank::from_index(rank);
                            let f = File::from_index(file);
                            let sq = Square::new(k.unwrap(), f.unwrap());
                            state.board.set_piece(sq, Some(p));
                            file = file + 1;
                        },
                        None => {
                            return Err(
                                ChessError::ParseError(crate::state::copy_str(fen), "Piece"),
                            );
                        },
                    }
                }
            }
            pos = pos + 1;
        }
        // side to move
        let (t0, t1) = next_token(fen, sp + 1);
        if t0 == t1 {
            return Err(ChessError::InvalidFEN(crate::state::copy_str(fen)));
        }
        let turn = if t1 - t0 == 1 {
            Color::from_char(fen.get_char(t0))
        } else {
            None
        };
        if turn.is_none() {
            return Err(ChessError::ParseError(crate::state::copy_str(fen), "Color"));
        }
        // castling rights
        let (c0, c1) = next_token(fen, t1);
        if c0 == c1 {
            return Err(ChessError::InvalidFEN(crate::state::copy_str(fen)));
        }
        let castling = match Castling::from_str(fen.substring_char(c0, c1)) {
            Ok(c) => c,
            Err(e) => {
                return Err(e);
            },
        };
        // en-passant target
        let (e0, e1) = next_token(fen, c1);
        if e0 == e1 {
            return Err(ChessError::InvalidFEN(crate::state::copy_str(fen)));
        }
        let en_passant = if e1 - e0 == 1 && fen.get_char(e0) == '-' {
            None
        } else if e1 - e0 == 2 {
            let fc = File::from_char(fen.get_char(e0));
            let kc = Rank::from_char(fen.get_char(e0 + 1));
            match (fc, kc) {
                (Some(f), Some(k)) => Some(Square::new(k, f)),
                _ => {
                    return Err(ChessError::ParseError(crate::state::copy_str(fen), "Square"));
                },
            }
        } else {
            return Err(ChessError::ParseError(crate::state::copy_str(fen), "Square"));
        };
        // halfmove clock and fullmove number
        let (h0, h1) = next_token(fen, e1);
        let halfmove = match parse_u16(fen, h0, h1) {
            Some(v) => v,
            None => {
                return Err(ChessError::InvalidFEN(crate::state::copy_str(fen)));
            },
        };
        let (m0, m1) = next_token(fen, h1);
        let fullmove = match parse_u16(fen, m0, m1) {
            Some(v) => v,
            None => {
                return Err(ChessError::InvalidFEN(crate::state::copy_str(fen)));
            },
        };
        state.castling = castling;
        state.en_passant = en_passant;
        state.halfmove_clock = halfmove;
        state.ply = fullmove;
        Ok(state)
    }

    /// One rank's placement text: piece letters in file order, runs of
    /// empty squares as their length.
    pub fn rank_fen(&self, rank: usize) -> (r: String)
        requires
            self.wf(),
            rank < 8,
        ensures
            r@ =~= rank_chars(self.board.board@, rank as int, 0, 0),
    {
        let mut out = String::new();
        let mut f: usize = 0;
        let mut run: u16 = 0;
        while f < 8
            invariant
                self.wf(),
                rank < 8,
                f <= 8,
                run <= f,
                rank_chars(self.board.board@, rank as int, 0, 0) =~= out@ + rank_chars(
                    self.board.board@,
                    rank as int,
                    f as int,
                    run as int,
                ),
            decreases 8 - f,
        {
            match self.board.board[8 * rank + f] {
                None => {
                    run = run + 1;
                },
                Some(p) => {
                    if run > 0 {
                        out.append(dec_digit_str(run));
                    }
                    out.append(p.as_str());
                    run = 0;
                },
            }
            f = f + 1;
        }
        if run > 0 {
            out.append(dec_digit_str(run));
        }
        out
    }

    /// The position's full text: the eight ranks from the top joined by
    /// `/`, then side to move, castling rights, en-passant target,
    /// halfmove clock and fullmove number, separated by single spaces.
    #[verifier::rlimit(40)]
    pub fn to_fen(&self) -> (r: String)
        requires
            self.wf(),
        ensures
            r@ =~= fen_chars(*self),
    {
        let mut out = String::new();
        let mut rank: usize = 8;
        while rank > 0
            invariant
                self.wf(),
                rank <= 8,
                out@ =~= placement_chars(self.board.board@, rank as int),
            decreases rank,
        {
            rank = rank - 1;
            let seg = self.rank_fen(rank);
            out.append(seg.as_str());
            if rank > 0 {
                out.append("/");
            }
            proof {
                reveal_strlit("/");
                assert(out@ =~= placement_chars(self.board.board@, rank as int));
            }
        }
        out.append(" ");
        if self.ply % 2 == 0 {
            out.append("w");
        } else {
            out.append("b");
        }
        out.append(" ");
        let cs = self.castling.as_string();
        out.append(cs.as_str());
        out.append(" ");
        match self.en_passant {
            Some(sq) => {
                out.append(sq.file().as_str());
                out.append(sq.rank().as_str());
            },
            None => {
                out.append("-");
            },
        }
        out.append(" ");
        let hm = u16_string(self.halfmove_clock);
        out.append(hm.as_str());
        out.append(" ");
        let fm = u16_string(self.ply);
        out.append(fm.as_str());
        proof {
            reveal_strlit(" ");
            reveal_strlit("w");
            reveal_strlit("b");
            reveal_strlit("-");
        }
        out
    }
}

/// The bounds of the next space-separated token at or after `start`:
/// leading spaces skipped, then everything up to the next space.
fn next_token(s: &str, start: usize) -> (r: (usize, usize))
    requires
        start <= s@.len(),
    ensures
        start <= r.0 <= r.1 <= s@.len(),
        forall|j: int| r.0 <= j < r.1 ==> #[trigger] s@[j] != ' ',
{
    let n = s.unicode_len();
    let mut a = start;
    while a < n
        invariant_except_break
            n == s@.len(),
            start <= a <= n,
        ensures
            n == s@.len(),
            start <= a <= n,
            a < n ==> s@[a as int] != ' ',
        decreases n - a,
    {
        if s.get_char(a) != ' ' {
            break ;
        }
        a = a + 1;
    }
    let mut b = a;
    while b < n
        invariant_except_break
            n == s@.len(),
            a <= b <= n,
            forall|j: int| a <= j < b ==> #[trigger] s@[j] != ' ',
        ensures
            n == s@.len(),
            a <= b <= n,
            forall|j: int| a <= j < b ==> #[trigger] s@[j] != ' ',
        decreases n - b,
    {
        if s.get_char(b) == ' ' {
            break ;
        }
        b = b + 1;
    }
    (a, b)
}

/// One rank's placement text, from file `f` with `run` empty squares
/// pending.
pub open spec fn rank_chars(b: Seq<Option<Piece>>, rank: int, f: int, run: int) -> Seq<char>
    decreases 8 - f,
{
    if f >= 8 {
        if run > 0 {
            seq![dec_digit(run)]
        } else {
            Seq::empty()
        }
    } else {
        match b[8 * rank + f] {
            None => rank_chars(b, rank, f + 1, run + 1),
            Some(p) => (if run > 0 {
                seq![dec_digit(run)]
            } else {
                Seq::empty()
            }) + seq![p.char_spec()] + rank_chars(b, rank, f + 1, 0),
        }
    }
}

/// The placement text of all ranks above `rank`, top rank first, each
/// followed by `/` except the lowest emitted so far.
pub open spec fn placement_chars(b: Seq<Option<Piece>>, rank: int) -> Seq<char>
    decreases 8 - rank,
{
    if rank >= 8 {
        Seq::empty()
    } else {
        placement_chars(b, rank + 1) + rank_chars(b, rank, 0, 0) + (if rank > 0 {
            seq!['/']
        } else {
            Seq::empty()
        })
    }
}

/// The full position text of a state.
pub open spec fn fen_chars(st: State) -> Seq<char> {
    placement_chars(st.board.board@, 0) + seq![' '] + seq![
        if st.ply % 2 == 0 {
            'w'
        } else {
            'b'
        },
    ] + seq![' '] + castling_chars(st.castling) + seq![' '] + (match st.en_passant {
        None => seq!['-'],
        Some(sq) => seq![
            (('a' as int + sq.file_int()) as char),
            (('1' as int + sq.rank_int()) as char),
        ],
    }) + seq![' '] + dec_chars(st.halfmove_clock as int) + seq![' '] + dec_chars(st.ply as int)
}

} // verus!
