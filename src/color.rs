//! Colours written as `#rrggbb`: three channels, two hex digits each.
use vstd::prelude::*;

verus! {

/// The lowercase hexadecimal digits, in order of value.
pub open spec fn hex_digits() -> Seq<char> {
    seq!['0', '1', '2', '3', '4', '5', '6', '7', '8', '9', 'a', 'b', 'c', 'd', 'e', 'f']
}

/// The value of a hexadecimal digit of either case, or `None` for any other
/// character.
pub open spec fn hex_value(c: char) -> Option<u8> {
    let n = c as u32;
    if '0' as u32 <= n && n <= '9' as u32 {
        Some((n - '0' as u32) as u8)
    } else if 'a' as u32 <= n && n <= 'f' as u32 {
        Some((n - 'a' as u32 + 10) as u8)
    } else if 'A' as u32 <= n && n <= 'F' as u32 {
        Some((n - 'A' as u32 + 10) as u8)
    } else {
        None
    }
}

/// A hexadecimal digit of either case.
pub open spec fn is_hex(c: char) -> bool {
    hex_value(c) is Some
}

/// The position of the first character at or after `from` that is not a
/// hexadecimal digit, or the length of `s` if there is none.
pub open spec fn first_non_hex(s: Seq<char>, from: int) -> int
    decreases s.len() - from,
{
    if from >= s.len() {
        s.len() as int
    } else if !is_hex(s[from]) {
        from
    } else {
        first_non_hex(s, from + 1)
    }
}

/// The byte written by the two hex digits at `i` and `i + 1`, high digit first.
pub open spec fn byte_at(s: Seq<char>, i: int) -> u8 {
    (hex_value(s[i])->0 * 16 + hex_value(s[i + 1])->0) as u8
}

/// A byte as two lowercase hex digits, zero-padded.
pub open spec fn two_digits(v: u8) -> Seq<char> {
    seq![hex_digits()[v as int / 16], hex_digits()[v as int % 16]]
}

/// The canonical text of a colour: `#` and the red, green and blue channels.
pub open spec fn format_rgb(c: (u8, u8, u8)) -> Seq<char> {
    seq!['#'] + two_digits(c.0) + two_digits(c.1) + two_digits(c.2)
}

/// What parsing `s` yields: the channels, or the first reason to refuse it.
pub open spec fn parse_rgb(s: Seq<char>) -> Result<(u8, u8, u8), RgbError> {
    if s.len() != 7 {
        Err(RgbError::InputLengthError)
    } else if s[0] != '#' {
        Err(RgbError::MissingHashPrefix)
    } else if first_non_hex(s, 1) < 7 {
        let i = first_non_hex(s, 1);
        Err(RgbError::HexParseError(InvalidDigit { index: i as usize, found: s[i] }))
    } else {
        Ok((byte_at(s, 1), byte_at(s, 3), byte_at(s, 5)))
    }
}

/// A character that is not a hexadecimal digit, and where it stands in the
/// text.
#[derive(Debug, Clone, Copy, PartialEq, Eq, Structural)]
pub struct InvalidDigit {
    pub index: usize,
    pub found: char,
}

/// Why a text is not a colour.
#[derive(Debug, Clone, Copy, PartialEq, Eq, Structural)]
pub enum RgbError {
    /// The text is not seven characters long.
    InputLengthError,
    /// The text does not start with `#`.
    MissingHashPrefix,
    /// One of the six characters after `#` is not a hex digit.
    HexParseError(InvalidDigit),
}

/// A colour: red, green and blue channels of one byte each.
#[derive(Debug, Clone, Copy, PartialEq, Eq, Structural)]
pub struct Rgb {
    red: u8,
    green: u8,
    blue: u8,
}

impl View for Rgb {
    type V = (u8, u8, u8);

    closed spec fn view(&self) -> (u8, u8, u8) {
        (self.red, self.green, self.blue)
    }
}

fn hex_digit(c: char) -> (r: Option<u8>)
    ensures
        r == hex_value(c),
{
    let n = c as u32;
    if '0' as u32 <= n && n <= '9' as u32 {
        Some((n - '0' as u32) as u8)
    } else if 'a' as u32 <= n && n <= 'f' as u32 {
        Some((n - 'a' as u32 + 10) as u8)
    } else if 'A' as u32 <= n && n <= 'F' as u32 {
        Some((n - 'A' as u32 + 10) as u8)
    } else {
        None
    }
}

/// Appends `v` as two lowercase hex digits.
fn push_two_digits(out: &mut String, v: u8)
    ensures
        final(out)@ == old(out)@ + two_digits(v),
{
    let table = "0123456789abcdef";
    proof {
        reveal_strlit("0123456789abcdef");
        assert(table@ =~= hex_digits());
    }
    let hi: usize = (v / 16) as usize;
    let lo: usize = (v % 16) as usize;
    out.append(table.substring_char(hi, hi + 1));
    out.append(table.substring_char(lo, lo + 1));
    proof {
        assert(table@.subrange(hi as int, hi + 1) =~= seq![hex_digits()[hi as int]]);
        assert(table@.subrange(lo as int, lo + 1) =~= seq![hex_digits()[lo as int]]);
        assert(final(out)@ =~= old(out)@ + two_digits(v));
    }
}

impl Rgb {
    pub fn new(red: u8, green: u8, blue: u8) -> (c: Rgb)
        ensures
            c@ == (red, green, blue),
    {
        Rgb { red, green, blue }
    }

    pub fn r(&self) -> (v: u8)
        ensures
            v == self@.0,
    {
        self.red
    }

    pub fn g(&self) -> (v: u8)
        ensures
            v == self@.1,
    {
        self.green
    }

    pub fn b(&self) -> (v: u8)
        ensures
            v == self@.2,
    {
        self.blue
    }

    /// Parses `#rrggbb`, hex digits of either case. The length is checked
    /// first, then the `#`, then the digits from left to right.
    pub fn from_str(s: &str) -> (r: Result<Rgb, RgbError>)
        ensures
            match r {
                Ok(c) => parse_rgb(s@) == Ok::<(u8, u8, u8), RgbError>(c@),
                Err(e) => parse_rgb(s@) == Err::<(u8, u8, u8), RgbError>(e),
            },
    {
        if s.unicode_len() != 7 {
            return Err(RgbError::InputLengthError);
        }
        if s.get_char(0) != '#' {
            return Err(RgbError::MissingHashPrefix);
        }
        let mut vals: Vec<u8> = Vec::new();
        let mut i: usize = 1;
        while i < 7
            invariant
                1 <= i <= 7,
                s@.len() == 7,
                s@[0] == '#',
                vals@.len() == i - 1,
                forall|j: int|
                    1 <= j < i ==> is_hex(#[trigger] s@[j]) && vals@[j - 1] == hex_value(
                        s@[j],
                    )->0,
                first_non_hex(s@, 1) == first_non_hex(s@, i as int),
            decreases 7 - i,
        {
            let c = s.get_char(i);
            match hex_digit(c) {
                None => {
                    return Err(RgbError::HexParseError(InvalidDigit { index: i, found: c }));
                },
                Some(v) => {
                    vals.push(v);
                },
            }
            i = i + 1;
        }
        assert(first_non_hex(s@, 7) == 7);
        assert(is_hex(s@[1]) && is_hex(s@[2]) && is_hex(s@[3]));
        assert(is_hex(s@[4]) && is_hex(s@[5]) && is_hex(s@[6]));
        Ok(
            Rgb {
                red: vals[0] * 16 + vals[1],
                green: vals[2] * 16 + vals[3],
                blue: vals[4] * 16 + vals[5],
            },
        )
    }

    /// The canonical text: `#` and two lowercase hex digits per channel.
    pub fn to_string(&self) -> (r: String)
        ensures
            r@ == format_rgb(self@),
    {
        let mut out = String::from_str("#");
        proof {
            reveal_strlit("#");
        }
        push_two_digits(&mut out, self.red);
        push_two_digits(&mut out, self.green);
        push_two_digits(&mut out, self.blue);
        out
    }
}

} // verus!

verus! {

proof fn lemma_hex_digit_value(k: int)
    requires
        0 <= k < 16,
    ensures
        hex_value(hex_digits()[k]) == Some(k as u8),
{
}

proof fn lemma_two_digits_read_back(v: u8)
    ensures
        is_hex(two_digits(v)[0]),
        is_hex(two_digits(v)[1]),
        hex_value(two_digits(v)[0])->0 * 16 + hex_value(two_digits(v)[1])->0 == v,
{
    lemma_hex_digit_value(v as int / 16);
    lemma_hex_digit_value(v as int % 16);
}

/// Formatting loses nothing: the canonical text of any colour parses back to
/// that very colour.
pub proof fn lemma_parse_format_round_trip(c: (u8, u8, u8))
    ensures
        parse_rgb(format_rgb(c)) == Ok::<(u8, u8, u8), RgbError>(c),
{
    let s = format_rgb(c);
    lemma_two_digits_read_back(c.0);
    lemma_two_digits_read_back(c.1);
    lemma_two_digits_read_back(c.2);
    assert(s[1] == two_digits(c.0)[0] && s[2] == two_digits(c.0)[1]);
    assert(s[3] == two_digits(c.1)[0] && s[4] == two_digits(c.1)[1]);
    assert(s[5] == two_digits(c.2)[0] && s[6] == two_digits(c.2)[1]);
    assert(first_non_hex(s, 7) == 7);
    assert(first_non_hex(s, 6) == 7);
    assert(first_non_hex(s, 5) == 7);
    assert(first_non_hex(s, 4) == 7);
    assert(first_non_hex(s, 3) == 7);
    assert(first_non_hex(s, 2) == 7);
    assert(first_non_hex(s, 1) == 7);
}

/// Text in canonical form: `#` followed by six lowercase hex digits.
pub open spec fn is_canonical(s: Seq<char>) -> bool {
    &&& s.len() == 7
    &&& s[0] == '#'
    &&& forall|i: int| 1 <= i < 7 ==> hex_digits().contains(#[trigger] s[i])
}

proof fn lemma_lowercase_digit(c: char)
    requires
        hex_digits().contains(c),
    ensures
        is_hex(c),
        hex_value(c)->0 < 16,
        hex_digits()[hex_value(c)->0 as int] == c,
{
    let k = choose|k: int| 0 <= k < hex_digits().len() && hex_digits()[k] == c;
    lemma_hex_digit_value(k);
}

proof fn lemma_byte_writes_back(s: Seq<char>, i: int)
    requires
        0 <= i,
        i + 1 < s.len(),
        hex_digits().contains(s[i]),
        hex_digits().contains(s[i + 1]),
    ensures
        is_hex(s[i]),
        is_hex(s[i + 1]),
        two_digits(byte_at(s, i)) == seq![s[i], s[i + 1]],
{
    lemma_lowercase_digit(s[i]);
    lemma_lowercase_digit(s[i + 1]);
    let h = hex_value(s[i])->0 as int;
    let l = hex_value(s[i + 1])->0 as int;
    assert((h * 16 + l) / 16 == h && (h * 16 + l) % 16 == l) by (nonlinear_arith)
        requires
            0 <= h < 16,
            0 <= l < 16,
    ;
    assert(two_digits(byte_at(s, i)) =~= seq![s[i], s[i + 1]]);
}

/// Canonical text survives a parse and a format unchanged.
pub proof fn lemma_format_parse_canonical(s: Seq<char>)
    requires
        is_canonical(s),
    ensures
        parse_rgb(s) is Ok,
        format_rgb(parse_rgb(s)->Ok_0) == s,
{
    lemma_byte_writes_back(s, 1);
    lemma_byte_writes_back(s, 3);
    lemma_byte_writes_back(s, 5);
    assert(first_non_hex(s, 7) == 7);
    assert(first_non_hex(s, 6) == 7);
    assert(first_non_hex(s, 5) == 7);
    assert(first_non_hex(s, 4) == 7);
    assert(first_non_hex(s, 3) == 7);
    assert(first_non_hex(s, 2) == 7);
    assert(first_non_hex(s, 1) == 7);
    assert(format_rgb(parse_rgb(s)->Ok_0) =~= s);
}

} // verus!
