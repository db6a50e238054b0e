use vstd::prelude::*;
use vstd::string::*;

use crate::error::ParseError;

verus! {

/// A column of the board, `a` to `h`.
#[derive(Clone, Copy, PartialEq, Eq, Structural, Hash, PartialOrd, Ord, Debug)]
pub enum File {
    A,
    B,
    C,
    D,
    E,
    F,
    G,
    H,
}

/// A row of the board, `1` to `8`.
#[derive(Clone, Copy, PartialEq, Eq, Structural, Hash, PartialOrd, Ord, Debug)]
pub enum Rank {
    _1,
    _2,
    _3,
    _4,
    _5,
    _6,
    _7,
    _8,
}

/// A square of the board, ordered `a1, b1, ..., h1, a2, ..., h8`.
#[derive(Clone, Copy, PartialEq, Eq, Structural, Hash, PartialOrd, Ord, Debug)]
pub enum Square {
    A1,
    B1,
    C1,
    D1,
    E1,
    F1,
    G1,
    H1,
    A2,
    B2,
    C2,
    D2,
    E2,
    F2,
    G2,
    H2,
    A3,
    B3,
    C3,
    D3,
    E3,
    F3,
    G3,
    H3,
    A4,
    B4,
    C4,
    D4,
    E4,
    F4,
    G4,
    H4,
    A5,
    B5,
    C5,
    D5,
    E5,
    F5,
    G5,
    H5,
    A6,
    B6,
    C6,
    D6,
    E6,
    F6,
    G6,
    H6,
    A7,
    B7,
    C7,
    D7,
    E7,
    F7,
    G7,
    H7,
    A8,
    B8,
    C8,
    D8,
    E8,
    F8,
    G8,
    H8,
}

/// The colour of a square of the board.
#[derive(Clone, Copy, PartialEq, Eq, Structural, Hash, Debug)]
pub enum SquareColor {
    Black,
    White,
}

/// The index of a square: `a1 = 0, b1 = 1, ..., h8 = 63`.
pub open spec fn square_index(s: Square) -> int {
    match s {
            Square::A1 => 0,
            Square::B1 => 1,
            Square::C1 => 2,
            Square::D1 => 3,
            Square::E1 => 4,
            Square::F1 => 5,
            Square::G1 => 6,
            Square::H1 => 7,
            Square::A2 => 8,
            Square::B2 => 9,
            Square::C2 => 10,
            Square::D2 => 11,
            Square::E2 => 12,
            Square::F2 => 13,
            Square::G2 => 14,
            Square::H2 => 15,
            Square::A3 => 16,
            Square::B3 => 17,
            Square::C3 => 18,
            Square::D3 => 19,
            Square::E3 => 20,
            Square::F3 => 21,
            Square::G3 => 22,
            Square::H3 => 23,
            Square::A4 => 24,
            Square::B4 => 25,
            Square::C4 => 26,
            Square::D4 => 27,
            Square::E4 => 28,
            Square::F4 => 29,
            Square::G4 => 30,
            Square::H4 => 31,
            Square::A5 => 32,
            Square::B5 => 33,
            Square::C5 => 34,
            Square::D5 => 35,
            Square::E5 => 36,
            Square::F5 => 37,
            Square::G5 => 38,
            Square::H5 => 39,
            Square::A6 => 40,
            Square::B6 => 41,
            Square::C6 => 42,
            Square::D6 => 43,
            Square::E6 => 44,
            Square::F6 => 45,
            Square::G6 => 46,
            Square::H6 => 47,
            Square::A7 => 48,
            Square::B7 => 49,
            Square::C7 => 50,
            Square::D7 => 51,
            Square::E7 => 52,
            Square::F7 => 53,
            Square::G7 => 54,
            Square::H7 => 55,
            Square::A8 => 56,
            Square::B8 => 57,
            Square::C8 => 58,
            Square::D8 => 59,
            Square::E8 => 60,
            Square::F8 => 61,
            Square::G8 => 62,
            Square::H8 => 63,
    }
}

/// The square with index `i` (`h8` for any index out of range).
pub open spec fn square_at(i: int) -> Square {
    if i == 0 { Square::A1 } else
        if i == 1 { Square::B1 } else
        if i == 2 { Square::C1 } else
        if i == 3 { Square::D1 } else
        if i == 4 { Square::E1 } else
        if i == 5 { Square::F1 } else
        if i == 6 { Square::G1 } else
        if i == 7 { Square::H1 } else
        if i == 8 { Square::A2 } else
        if i == 9 { Square::B2 } else
        if i == 10 { Square::C2 } else
        if i == 11 { Square::D2 } else
        if i == 12 { Square::E2 } else
        if i == 13 { Square::F2 } else
        if i == 14 { Square::G2 } else
        if i == 15 { Square::H2 } else
        if i == 16 { Square::A3 } else
        if i == 17 { Square::B3 } else
        if i == 18 { Square::C3 } else
        if i == 19 { Square::D3 } else
        if i == 20 { Square::E3 } else
        if i == 21 { Square::F3 } else
        if i == 22 { Square::G3 } else
        if i == 23 { Square::H3 } else
        if i == 24 { Square::A4 } else
        if i == 25 { Square::B4 } else
        if i == 26 { Square::C4 } else
        if i == 27 { Square::D4 } else
        if i == 28 { Square::E4 } else
        if i == 29 { Square::F4 } else
        if i == 30 { Square::G4 } else
        if i == 31 { Square::H4 } else
        if i == 32 { Square::A5 } else
        if i == 33 { Square::B5 } else
        if i == 34 { Square::C5 } else
        if i == 35 { Square::D5 } else
        if i == 36 { Square::E5 } else
        if i == 37 { Square::F5 } else
        if i == 38 { Square::G5 } else
        if i == 39 { Square::H5 } else
        if i == 40 { Square::A6 } else
        if i == 41 { Square::B6 } else
        if i == 42 { Square::C6 } else
        if i == 43 { Square::D6 } else
        if i == 44 { Square::E6 } else
        if i == 45 { Square::F6 } else
        if i == 46 { Square::G6 } else
        if i == 47 { Square::H6 } else
        if i == 48 { Square::A7 } else
        if i == 49 { Square::B7 } else
        if i == 50 { Square::C7 } else
        if i == 51 { Square::D7 } else
        if i == 52 { Square::E7 } else
        if i == 53 { Square::F7 } else
        if i == 54 { Square::G7 } else
        if i == 55 { Square::H7 } else
        if i == 56 { Square::A8 } else
        if i == 57 { Square::B8 } else
        if i == 58 { Square::C8 } else
        if i == 59 { Square::D8 } else
        if i == 60 { Square::E8 } else
        if i == 61 { Square::F8 } else
        if i == 62 { Square::G8 } else { Square::H8 }
}

pub broadcast proof fn lemma_square_index_range(s: Square)
    ensures
        0 <= #[trigger] square_index(s) < 64,
        square_at(square_index(s)) == s,
{
}

pub broadcast proof fn lemma_square_at(i: int)
    requires
        0 <= i < 64,
    ensures
        square_index(#[trigger] square_at(i)) == i,
{
}

pub broadcast group group_square {
    lemma_square_index_range,
    lemma_square_at,
}

/// The character that stands for file `i`.
pub open spec fn file_char(i: int) -> char {
    (('a' as int) + i) as char
}

/// The decimal digits of `n`, most significant first.
pub open spec fn decimal(n: nat) -> Seq<char>
    decreases n,
{
    if n < 10 {
        seq![(('0' as int) + n) as char]
    } else {
        decimal(n / 10).push((('0' as int) + (n % 10) as int) as char)
    }
}

/// The value of a string of decimal digits.
pub open spec fn digits_value(s: Seq<char>) -> int
    decreases s.len(),
{
    if s.len() == 0 {
        0
    } else {
        digits_value(s.drop_last()) * 10 + (s.last() as int - '0' as int)
    }
}

pub open spec fn all_digits(s: Seq<char>) -> bool {
    forall|i: int| 0 <= i < s.len() ==> '0' <= #[trigger] s[i] <= '9'
}

/// What `str::parse::<u8>` accepts: an optional `+` followed by one or more decimal digits
/// whose value is at most 255.
pub open spec fn spec_parse_u8(s: Seq<char>) -> Option<u8> {
    let d = if s.len() > 0 && s[0] == '+' {
        s.drop_first()
    } else {
        s
    };
    if d.len() > 0 && all_digits(d) && digits_value(d) <= 255 {
        Some(digits_value(d) as u8)
    } else {
        None
    }
}

/// What `str::parse::<u64>` accepts: an optional `+` followed by one or more decimal digits
/// whose value is at most `u64::MAX`.
pub open spec fn spec_parse_u64(s: Seq<char>) -> Option<u64> {
    let d = if s.len() > 0 && s[0] == '+' {
        s.drop_first()
    } else {
        s
    };
    if d.len() > 0 && all_digits(d) && digits_value(d) <= 0xffff_ffff_ffff_ffff {
        Some(digits_value(d) as u64)
    } else {
        None
    }
}

/// The digits of `s` after an optional leading `+`.
pub open spec fn unsigned_digits(s: Seq<char>) -> Seq<char> {
    if s.len() > 0 && s[0] == '+' {
        s.drop_first()
    } else {
        s
    }
}

/// The value of digits only grows as digits are added.
proof fn lemma_digits_value_grows(d: Seq<char>, k: int)
    requires
        all_digits(d),
        0 <= k <= d.len(),
    ensures
        digits_value(d.take(k)) <= digits_value(d),
        0 <= digits_value(d.take(k)),
    decreases d.len() - k,
{
    if k < d.len() {
        lemma_digits_value_grows(d, k + 1);
        assert(d.take(k + 1).drop_last() =~= d.take(k));
        assert('0' <= d[k] <= '9');
        lemma_digits_value_nonneg(d.take(k));
    } else {
        assert(d.take(k) =~= d);
        lemma_digits_value_nonneg(d);
    }
}

/// Digits have a value of at least 0.
proof fn lemma_digits_value_nonneg(d: Seq<char>)
    requires
        all_digits(d),
    ensures
        0 <= digits_value(d),
    decreases d.len(),
{
    if d.len() > 0 {
        assert(all_digits(d.drop_last())) by {
            assert forall|i: int| 0 <= i < d.drop_last().len() implies '0' <= #[trigger] d.drop_last()[i] <= '9' by {
                assert(d.drop_last()[i] == d[i]);
            }
        }
        lemma_digits_value_nonneg(d.drop_last());
    }
}

/// Reads the digits of `s` after an optional `+`: their value where there is at least one, all
/// are decimal digits and the value is at most `max`.
fn parse_unsigned(s: &str, max: u64) -> (r: Option<u64>)
    requires
        max >= 9,
    ensures
        r == (if unsigned_digits(s@).len() > 0 && all_digits(unsigned_digits(s@)) && digits_value(unsigned_digits(s@))
            <= max {
            Some(digits_value(unsigned_digits(s@)) as u64)
        } else {
            None::<u64>
        }),
{
    let n = s.unicode_len();
    let ghost d = unsigned_digits(s@);
    let start: usize = if n > 0 && s.get_char(0) == '+' {
        1
    } else {
        0
    };
    assert(d =~= s@.subrange(start as int, n as int));
    if start == n {
        return None;
    }
    let mut v: u64 = 0;
    let mut i: usize = start;
    while i < n
        invariant
            start <= i <= n,
            n == s@.len(),
            d == unsigned_digits(s@),
            d =~= s@.subrange(start as int, n as int),
            all_digits(d.take(i - start)),
            v == digits_value(d.take(i - start)),
            v <= max,
            max >= 9,
        decreases n - i,
    {
        let c = s.get_char(i);
        let ghost k = (i - start) as int;
        assert(d[k] == c);
        assert(d.take(k + 1).drop_last() =~= d.take(k));
        assert(d.take(k + 1).last() == c);
        if c < '0' || c > '9' {
            proof {
                if all_digits(d) {
                    assert('0' <= d[k] <= '9');
                    assert(false);
                }
            }
            return None;
        }
        let digit = (c as u32 - '0' as u32) as u64;
        assert(digit == c as int - '0' as int);
        assert(digits_value(d.take(k + 1)) == v * 10 + digit);
        if v > (max - digit) / 10 {
            proof {
                assert(v * 10 + digit > max) by (nonlinear_arith)
                    requires
                        v > (max - digit) / 10,
                        digit <= 9,
                        max >= 9,
                ;
                if all_digits(d) {
                    lemma_digits_value_grows(d, k + 1);
                }
            }
            return None;
        }
        assert(v * 10 + digit <= max) by (nonlinear_arith)
            requires
                v <= (max - digit) / 10,
                digit <= 9,
                max >= 9,
        ;
        v = v * 10 + digit;
        proof {
            assert forall|j: int| 0 <= j < d.take(k + 1).len() implies '0' <= #[trigger] d.take(k + 1)[j] <= '9' by {
                if j < k {
                    assert(d.take(k + 1)[j] == d.take(k)[j]);
                }
            }
        }
        i = i + 1;
    }
    assert(d.take(d.len() as int) =~= d);
    Some(v)
}

/// Reads an unsigned 64-bit number as `str::parse::<u64>` does.
pub(crate) fn parse_u64(s: &str) -> (r: Option<u64>)
    ensures
        r == spec_parse_u64(s@),
{
    parse_unsigned(s, 0xffff_ffff_ffff_ffff)
}

/// The file that a string names: exactly one letter `a` to `h`.
pub open spec fn spec_parse_file(s: Seq<char>) -> Option<File> {
    if s.len() == 1 && 'a' <= s[0] <= 'h' {
        Some(File::at(s[0] as int - 'a' as int))
    } else {
        None
    }
}

/// The rank that a string names: a number from 1 to 8 as `str::parse::<u8>` reads it.
pub open spec fn spec_parse_rank(s: Seq<char>) -> Option<Rank> {
    match spec_parse_u8(s) {
        Some(n) => if 1 <= n <= 8 {
            Some(Rank::at(n - 1))
        } else {
            None
        },
        None => None,
    }
}

/// The square that a string names: a file letter followed by a rank.
pub open spec fn spec_parse_square(s: Seq<char>) -> Option<Square> {
    if s.len() >= 1 {
        match (spec_parse_file(s.subrange(0, 1)), spec_parse_rank(s.subrange(1, s.len() as int))) {
            (Some(f), Some(r)) => Some(Square::at(f.index() + r.index() * 8)),
            _ => None,
        }
    } else {
        None
    }
}

/// Reads an unsigned byte as `str::parse::<u8>` does.
fn parse_u8(s: &str) -> (r: Option<u8>)
    ensures
        r == spec_parse_u8(s@),
{
    let r = parse_unsigned(s, 255);
    proof {
        if all_digits(unsigned_digits(s@)) {
            lemma_digits_value_nonneg(unsigned_digits(s@));
        }
    }
    assert(unsigned_digits(s@) == (if s@.len() > 0 && s@[0] == '+' {
        s@.drop_first()
    } else {
        s@
    }));
    match r {
        Some(v) => {
            assert(v <= 255);
            Some(v as u8)
        },
        None => None,
    }
}

/// The decimal representation of `n`.
pub fn decimal_string(n: u16) -> (r: String)
    ensures
        r@ == decimal(n as nat),
    decreases n,
{
    let digit = n % 10;
    let mut s = if n < 10 {
        String::new()
    } else {
        decimal_string(n / 10)
    };
    proof {
        reveal_strlit("0");
        reveal_strlit("1");
        reveal_strlit("2");
        reveal_strlit("3");
        reveal_strlit("4");
        reveal_strlit("5");
        reveal_strlit("6");
        reveal_strlit("7");
        reveal_strlit("8");
        reveal_strlit("9");
    }
    let d = match digit {
        0 => "0",
        1 => "1",
        2 => "2",
        3 => "3",
        4 => "4",
        5 => "5",
        6 => "6",
        7 => "7",
        8 => "8",
        _ => "9",
    };
    s.append(d);
    assert(s@ =~= decimal(n as nat));
    s
}

impl File {
    /// The file a king moves to when castling kingside.
    pub const KINGSIDE: File = File::G;
    /// The file a king moves to when castling queenside.
    pub const QUEENSIDE: File = File::C;

    /// The column number of the file, from 0 (`a`) to 7 (`h`).
    pub open spec fn index(self) -> int {
        match self {
            File::A => 0,
            File::B => 1,
            File::C => 2,
            File::D => 3,
            File::E => 4,
            File::F => 5,
            File::G => 6,
            File::H => 7,
        }
    }

    /// The file with column number `i` (`h` for any number out of range).
    pub open spec fn at(i: int) -> File {
        if i == 0 {
            File::A
        } else if i == 1 {
            File::B
        } else if i == 2 {
            File::C
        } else if i == 3 {
            File::D
        } else if i == 4 {
            File::E
        } else if i == 5 {
            File::F
        } else if i == 6 {
            File::G
        } else {
            File::H
        }
    }

    /// The eight files in order.
    pub fn values() -> (r: [File; 8])
        ensures
            forall|i: int| 0 <= i < 8 ==> (#[trigger] r@[i]).index() == i,
    {
        [File::A, File::B, File::C, File::D, File::E, File::F, File::G, File::H]
    }

    pub fn from_index(index: u8) -> (r: File)
        requires
            index < 8,
        ensures
            r.index() == index,
            r == File::at(index as int),
    {
        match index {
            0 => File::A,
            1 => File::B,
            2 => File::C,
            3 => File::D,
            4 => File::E,
            5 => File::F,
            6 => File::G,
            _ => File::H,
        }
    }

    pub fn to_index(self) -> (r: u8)
        ensures
            r == self.index(),
    {
        match self {
            File::A => 0,
            File::B => 1,
            File::C => 2,
            File::D => 3,
            File::E => 4,
            File::F => 5,
            File::G => 6,
            File::H => 7,
        }
    }

    /// The file `offset` columns to the right of this one.
    pub fn add(self, offset: i8) -> (r: File)
        requires
            0 <= self.index() + offset < 8,
        ensures
            r.index() == self.index() + offset,
    {
        File::from_index((self.to_index() as i8 + offset) as u8)
    }

    /// The number of columns from `rhs` to this file.
    pub fn sub(self, rhs: File) -> (r: i8)
        ensures
            r == self.index() - rhs.index(),
    {
        self.to_index() as i8 - rhs.to_index() as i8
    }

    /// Parses a file letter, `a` to `h`.
    pub fn parse(s: &str) -> (r: Result<File, ParseError>)
        ensures
            r matches Ok(f) ==> spec_parse_file(s@) == Some(f),
            r is Err <==> spec_parse_file(s@) is None,
            r matches Err(e) ==> e == ParseError::File,
    {
        if s.unicode_len() != 1 {
            return Err(ParseError::File);
        }
        let c = s.get_char(0);
        if 'a' <= c && c <= 'h' {
            Ok(File::from_index((c as u32 - 'a' as u32) as u8))
        } else {
            Err(ParseError::File)
        }
    }

    /// The letter of the file.
    pub fn to_string(&self) -> (r: String)
        ensures
            r@ == seq![file_char(self.index())],
    {
        proof {
            reveal_strlit("a");
            reveal_strlit("b");
            reveal_strlit("c");
            reveal_strlit("d");
            reveal_strlit("e");
            reveal_strlit("f");
            reveal_strlit("g");
            reveal_strlit("h");
        }
        let s = match self {
            File::A => "a",
            File::B => "b",
            File::C => "c",
            File::D => "d",
            File::E => "e",
            File::F => "f",
            File::G => "g",
            File::H => "h",
        };
        let mut r = String::new();
        r.append(s);
        assert(r@ =~= seq![file_char(self.index())]);
        r
    }
}

impl Rank {
    /// The row number of the rank, from 0 (`1`) to 7 (`8`).
    pub open spec fn index(self) -> int {
        match self {
            Rank::_1 => 0,
            Rank::_2 => 1,
            Rank::_3 => 2,
            Rank::_4 => 3,
            Rank::_5 => 4,
            Rank::_6 => 5,
            Rank::_7 => 6,
            Rank::_8 => 7,
        }
    }

    /// The rank with row number `i` (`8` for any number out of range).
    pub open spec fn at(i: int) -> Rank {
        if i == 0 {
            Rank::_1
        } else if i == 1 {
            Rank::_2
        } else if i == 2 {
            Rank::_3
        } else if i == 3 {
            Rank::_4
        } else if i == 4 {
            Rank::_5
        } else if i == 5 {
            Rank::_6
        } else if i == 6 {
            Rank::_7
        } else {
            Rank::_8
        }
    }

    /// The eight ranks in order.
    pub fn values() -> (r: [Rank; 8])
        ensures
            forall|i: int| 0 <= i < 8 ==> (#[trigger] r@[i]).index() == i,
    {
        [Rank::_1, Rank::_2, Rank::_3, Rank::_4, Rank::_5, Rank::_6, Rank::_7, Rank::_8]
    }

    pub fn from_index(index: u8) -> (r: Rank)
        requires
            index < 8,
        ensures
            r.index() == index,
            r == Rank::at(index as int),
    {
        match index {
            0 => Rank::_1,
            1 => Rank::_2,
            2 => Rank::_3,
            3 => Rank::_4,
            4 => Rank::_5,
            5 => Rank::_6,
            6 => Rank::_7,
            _ => Rank::_8,
        }
    }

    pub fn to_index(self) -> (r: u8)
        ensures
            r == self.index(),
    {
        match self {
            Rank::_1 => 0,
            Rank::_2 => 1,
            Rank::_3 => 2,
            Rank::_4 => 3,
            Rank::_5 => 4,
            Rank::_6 => 5,
            Rank::_7 => 6,
            Rank::_8 => 7,
        }
    }

    /// The rank `offset` rows above this one.
    pub fn add(self, offset: i8) -> (r: Rank)
        requires
            0 <= self.index() + offset < 8,
        ensures
            r.index() == self.index() + offset,
    {
        Rank::from_index((self.to_index() as i8 + offset) as u8)
    }

    /// The rank `offset` rows below this one.
    pub fn sub(self, offset: i8) -> (r: Rank)
        requires
            0 <= self.index() - offset < 8,
        ensures
            r.index() == self.index() - offset,
    {
        Rank::from_index((self.to_index() as i8 - offset) as u8)
    }

    /// The number of rows from `rhs` to this rank.
    pub fn diff(self, rhs: Rank) -> (r: i8)
        ensures
            r == self.index() - rhs.index(),
    {
        self.to_index() as i8 - rhs.to_index() as i8
    }

    /// Parses a rank number, 1 to 8, as `str::parse::<u8>` reads numbers.
    pub fn parse(s: &str) -> (r: Result<Rank, ParseError>)
        ensures
            r matches Ok(x) ==> spec_parse_rank(s@) == Some(x),
            r is Err <==> spec_parse_rank(s@) is None,
            r matches Err(e) ==> e == ParseError::Rank,
    {
        match parse_u8(s) {
            Some(n) => if 1 <= n && n <= 8 {
                Ok(Rank::from_index(n - 1))
            } else {
                Err(ParseError::Rank)
            },
            None => Err(ParseError::Rank),
        }
    }

    /// The number of the rank, counting from 1.
    pub fn to_string(&self) -> (r: String)
        ensures
            r@ == decimal(self.index() as nat + 1),
    {
        decimal_string(self.to_index() as u16 + 1)
    }
}

impl Square {
    /// The index of the square: `a1 = 0, b1 = 1, ..., h8 = 63`.
    pub open spec fn index(self) -> int {
        square_index(self)
    }

    /// The square with index `i`.
    pub open spec fn at(i: int) -> Square {
        square_at(i)
    }

    pub open spec fn file_index(self) -> int {
        self.index() % 8
    }

    pub open spec fn rank_index(self) -> int {
        self.index() / 8
    }

    /// All 64 squares, from a1 to h8.
    pub fn all() -> (r: Vec<Square>)
        ensures
            r@.len() == 64,
            forall|i: int| 0 <= i < 64 ==> (#[trigger] r@[i]).index() == i,
    {
        let mut r: Vec<Square> = Vec::new();
        let mut i: u8 = 0;
        while i < 64
            invariant
                i <= 64,
                r@.len() == i,
                forall|j: int| 0 <= j < i ==> (#[trigger] r@[j]).index() == j,
            decreases 64 - i,
        {
            r.push(Square::from_index(i));
            i = i + 1;
        }
        r
    }

    /// The square at the given file and rank.
    pub fn new(file: File, rank: Rank) -> (r: Square)
        ensures
            r.index() == file.index() + rank.index() * 8,
    {
        Square::from_index(file.to_index() + rank.to_index() * 8)
    }

    pub fn from_index(index: u8) -> (r: Square)
        requires
            index < 64,
        ensures
            r.index() == index,
            r == Square::at(index as int),
    {
        proof {
            broadcast use group_square;
        }
        match index {
            0 => Square::A1,
            1 => Square::B1,
            2 => Square::C1,
            3 => Square::D1,
            4 => Square::E1,
            5 => Square::F1,
            6 => Square::G1,
            7 => Square::H1,
            8 => Square::A2,
            9 => Square::B2,
            10 => Square::C2,
            11 => Square::D2,
            12 => Square::E2,
            13 => Square::F2,
            14 => Square::G2,
            15 => Square::H2,
            16 => Square::A3,
            17 => Square::B3,
            18 => Square::C3,
            19 => Square::D3,
            20 => Square::E3,
            21 => Square::F3,
            22 => Square::G3,
            23 => Square::H3,
            24 => Square::A4,
            25 => Square::B4,
            26 => Square::C4,
            27 => Square::D4,
            28 => Square::E4,
            29 => Square::F4,
            30 => Square::G4,
            31 => Square::H4,
            32 => Square::A5,
            33 => Square::B5,
            34 => Square::C5,
            35 => Square::D5,
            36 => Square::E5,
            37 => Square::F5,
            38 => Square::G5,
            39 => Square::H5,
            40 => Square::A6,
            41 => Square::B6,
            42 => Square::C6,
            43 => Square::D6,
            44 => Square::E6,
            45 => Square::F6,
            46 => Square::G6,
            47 => Square::H6,
            48 => Square::A7,
            49 => Square::B7,
            50 => Square::C7,
            51 => Square::D7,
            52 => Square::E7,
            53 => Square::F7,
            54 => Square::G7,
            55 => Square::H7,
            56 => Square::A8,
            57 => Square::B8,
            58 => Square::C8,
            59 => Square::D8,
            60 => Square::E8,
            61 => Square::F8,
            62 => Square::G8,
            _ => Square::H8,
        }
    }

    pub fn to_index(self) -> (r: u8)
        ensures
            r == self.index(),
    {
        match self {
            Square::A1 => 0,
            Square::B1 => 1,
            Square::C1 => 2,
            Square::D1 => 3,
            Square::E1 => 4,
            Square::F1 => 5,
            Square::G1 => 6,
            Square::H1 => 7,
            Square::A2 => 8,
            Square::B2 => 9,
            Square::C2 => 10,
            Square::D2 => 11,
            Square::E2 => 12,
            Square::F2 => 13,
            Square::G2 => 14,
            Square::H2 => 15,
            Square::A3 => 16,
            Square::B3 => 17,
            Square::C3 => 18,
            Square::D3 => 19,
            Square::E3 => 20,
            Square::F3 => 21,
            Square::G3 => 22,
            Square::H3 => 23,
            Square::A4 => 24,
            Square::B4 => 25,
            Square::C4 => 26,
            Square::D4 => 27,
            Square::E4 => 28,
            Square::F4 => 29,
            Square::G4 => 30,
            Square::H4 => 31,
            Square::A5 => 32,
            Square::B5 => 33,
            Square::C5 => 34,
            Square::D5 => 35,
            Square::E5 => 36,
            Square::F5 => 37,
            Square::G5 => 38,
            Square::H5 => 39,
            Square::A6 => 40,
            Square::B6 => 41,
            Square::C6 => 42,
            Square::D6 => 43,
            Square::E6 => 44,
            Square::F6 => 45,
            Square::G6 => 46,
            Square::H6 => 47,
            Square::A7 => 48,
            Square::B7 => 49,
            Square::C7 => 50,
            Square::D7 => 51,
            Square::E7 => 52,
            Square::F7 => 53,
            Square::G7 => 54,
            Square::H7 => 55,
            Square::A8 => 56,
            Square::B8 => 57,
            Square::C8 => 58,
            Square::D8 => 59,
            Square::E8 => 60,
            Square::F8 => 61,
            Square::G8 => 62,
            Square::H8 => 63,
        }
    }

    pub fn file(self) -> (r: File)
        ensures
            r.index() == self.file_index(),
    {
        proof {
            broadcast use group_square;
        }
        File::from_index(self.to_index() % 8)
    }

    pub fn rank(self) -> (r: Rank)
        ensures
            r.index() == self.rank_index(),
    {
        proof {
            broadcast use group_square;
        }
        Rank::from_index(self.to_index() / 8)
    }

    /// The square `offset` rows above this one.
    pub fn shift_rank(self, offset: i8) -> (r: Square)
        requires
            0 <= self.index() + offset * 8 < 64,
        ensures
            r.index() == self.index() + offset * 8,
    {
        proof {
            broadcast use group_square;
        }
        Square::from_index((self.to_index() as i8 + offset * 8) as u8)
    }

    /// The square `offset` columns to the right of this one.
    pub fn shift_file(self, offset: i8) -> (r: Square)
        requires
            0 <= self.index() + offset < 64,
        ensures
            r.index() == self.index() + offset,
    {
        proof {
            broadcast use group_square;
        }
        Square::from_index((self.to_index() as i8 + offset) as u8)
    }

    /// Dark squares are those whose file and rank add up to an even number.
    pub fn color(self) -> (r: SquareColor)
        ensures
            r == (if (self.file_index() + self.rank_index()) % 2 == 0 {
                SquareColor::Black
            } else {
                SquareColor::White
            }),
    {
        let y: u8 = self.to_index();
        let x: u32 = y as u32;
        let b = (9 * x) & 8;
        proof {
            broadcast use group_square;
            assert(y < 64 ==> ((((9 * (y as u32)) as u32) & 8u32) == 0 <==> ((y >> 3) & 1) == (y & 1))) by (bit_vector);
            assert(y < 64 ==> (((y >> 3) & 1) == (y & 1) <==> ((y / 8) + (y % 8)) % 2 == 0)) by (bit_vector);
        }
        if b == 0 {
            SquareColor::Black
        } else {
            SquareColor::White
        }
    }

    /// Parses a square such as `g5`.
    pub fn parse(s: &str) -> (r: Result<Square, ParseError>)
        ensures
            r matches Ok(x) ==> spec_parse_square(s@) == Some(x),
            r is Err <==> spec_parse_square(s@) is None,
            r matches Err(e) ==> e == ParseError::Square,
    {
        let n = s.unicode_len();
        if n < 1 {
            return Err(ParseError::Square);
        }
        let f = File::parse(s.substring_char(0, 1));
        let r = Rank::parse(s.substring_char(1, n));
        match (f, r) {
            (Ok(f), Ok(r)) => Ok(Square::new(f, r)),
            _ => Err(ParseError::Square),
        }
    }

    /// The name of the square, such as `g5`.
    pub fn to_string(&self) -> (r: String)
        ensures
            r@ == seq![file_char(self.file_index())] + decimal(self.rank_index() as nat + 1),
    {
        let mut s = self.file().to_string();
        let r = self.rank().to_string();
        s.append(r.as_str());
        s
    }
}

/// A value for every square of the board.
#[derive(Clone, Copy, PartialEq, Eq, Hash, Debug)]
pub struct SquareMap<T>(pub(crate) [T; 64]);

impl<T> View for SquareMap<T> {
    type V = Seq<T>;

    closed spec fn view(&self) -> Seq<T> {
        self.0@
    }
}

impl<T> View for FileMap<T> {
    type V = Seq<T>;

    closed spec fn view(&self) -> Seq<T> {
        self.0@
    }
}

impl<T> View for RankMap<T> {
    type V = Seq<T>;

    closed spec fn view(&self) -> Seq<T> {
        self.0@
    }
}

impl<T> SquareMap<T> {
    /// A map has a value for each of the 64 squares.
    pub proof fn lemma_len(&self)
        ensures
            self@.len() == 64,
    {
    }

    /// Two maps with the same values are the same map.
    pub proof fn lemma_ext(a: Self, b: Self)
        requires
            a@ == b@,
        ensures
            a == b,
    {
        broadcast use vstd::array::group_array_axioms;

        assert(a.0 =~= b.0);
    }
}

impl<T: Copy> SquareMap<T> {
    pub fn new(values: [T; 64]) -> (r: SquareMap<T>)
        ensures
            r@ == values@,
    {
        SquareMap(values)
    }

    /// The value at a square.
    pub fn get(&self, square: Square) -> (r: T)
        ensures
            r == self@[square.index()],
    {
        proof {
            broadcast use group_square;
        }
        self.0[square.to_index() as usize]
    }

    /// Replaces the value at a square.
    pub fn set(&mut self, square: Square, value: T)
        ensures
            final(self)@ == old(self)@.update(square.index(), value),
    {
        proof {
            broadcast use group_square;
        }
        self.0[square.to_index() as usize] = value;
    }

    /// The squares with their values, from a1 to h8.
    pub fn iter(&self) -> (r: Vec<(Square, T)>)
        ensures
            r@.len() == 64,
            forall|i: int|
                0 <= i < 64 ==> (#[trigger] r@[i]) == (Square::at(i), self@[i]),
    {
        proof {
            broadcast use group_square;
        }
        let mut r: Vec<(Square, T)> = Vec::new();
        let mut i: u8 = 0;
        while i < 64
            invariant
                i <= 64,
                r@.len() == i,
                forall|j: int| 0 <= j < i ==> (#[trigger] r@[j]) == (Square::at(j), self@[j]),
            decreases 64 - i,
        {
            r.push((Square::from_index(i), self.0[i as usize]));
            i = i + 1;
        }
        r
    }
}

/// A value for every file of the board.
pub struct FileMap<T>(pub(crate) [T; 8]);

impl<T: Copy> FileMap<T> {
    pub fn new(values: [T; 8]) -> (r: FileMap<T>)
        ensures
            r@ == values@,
    {
        FileMap(values)
    }

    pub fn get(&self, file: File) -> (r: T)
        ensures
            r == self@[file.index()],
    {
        self.0[file.to_index() as usize]
    }
}

/// A value for every rank of the board.
pub struct RankMap<T>(pub(crate) [T; 8]);

impl<T: Copy> RankMap<T> {
    pub fn new(values: [T; 8]) -> (r: RankMap<T>)
        ensures
            r@ == values@,
    {
        RankMap(values)
    }

    pub fn get(&self, rank: Rank) -> (r: T)
        ensures
            r == self@[rank.index()],
    {
        self.0[rank.to_index() as usize]
    }
}

/// A square's name reads back as the square: the file letter, then the rank number.
pub proof fn law_square_name_parses_back(s: Square)
    ensures
        spec_parse_square(seq![file_char(s.file_index())] + decimal(s.rank_index() as nat + 1)) == Some(s),
{
    let f = s.file_index();
    let r = s.rank_index();
    let d = (('0' as int) + r + 1) as char;
    let name = seq![file_char(f)] + decimal(r as nat + 1);
    assert(decimal(r as nat + 1) == seq![d]);
    assert(name =~= seq![file_char(f), d]);
    assert(name.subrange(0, 1) =~= seq![file_char(f)]);
    assert(name.subrange(1, name.len() as int) =~= seq![d]);
    assert(seq![d].drop_last() =~= Seq::<char>::empty());
    assert(d as int == ('0' as int) + r + 1);
    assert(seq![d].last() == d);
    assert(digits_value(Seq::<char>::empty()) == 0);
    assert(digits_value(seq![d]) == r + 1);
    assert(spec_parse_u8(seq![d]) == Some((r + 1) as u8));
    assert(File::at(f).index() == f);
    assert(Rank::at(r).index() == r);
    assert(spec_parse_square(name) == Some(Square::at(f + r * 8)));
}

} // verus!
