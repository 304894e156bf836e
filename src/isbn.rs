//! ISBN-13 book numbers: thirteen decimal digits, the last of them a check
//! digit over the first twelve. Any other characters are separators.
use vstd::prelude::*;
use vstd::slice::slice_subrange;
use vstd::utf8::char_u32_cast;
use crate::checksum::{all_decimal, check_digit, check_digit_of};

verus! {

/// An ASCII decimal digit.
pub open spec fn is_decimal(c: char) -> bool {
    '0' as u32 <= c as u32 && c as u32 <= '9' as u32
}

/// The values of the decimal digits of `s`, in order; everything else is
/// skipped.
pub open spec fn decimal_digits(s: Seq<char>) -> Seq<u8>
    decreases s.len(),
{
    if s.len() == 0 {
        Seq::empty()
    } else if is_decimal(s.last()) {
        decimal_digits(s.drop_last()).push((s.last() as u32 - '0' as u32) as u8)
    } else {
        decimal_digits(s.drop_last())
    }
}

/// Thirteen decimal digits whose last one is the check digit of the others.
pub open spec fn is_valid_isbn(d: Seq<u8>) -> bool {
    &&& d.len() == 13
    &&& all_decimal(d)
    &&& d[12] as int == check_digit_of(d.take(12))
}

/// What parsing `s` yields: its digits, or the first reason to refuse them.
pub open spec fn parse_isbn(s: Seq<char>) -> Result<Seq<u8>, IsbnError> {
    let d = decimal_digits(s);
    if d.len() < 13 {
        Err(IsbnError::TooShort)
    } else if d.len() > 13 {
        Err(IsbnError::TooLong)
    } else if d[12] as int != check_digit_of(d.take(12)) {
        Err(IsbnError::InvalidCheckDigit)
    } else {
        Ok(d)
    }
}

/// Why a text is not an ISBN-13.
#[derive(Debug, Clone, Copy, PartialEq, Eq, Structural)]
pub enum IsbnError {
    /// Fewer than thirteen decimal digits.
    TooShort,
    /// More than thirteen decimal digits.
    TooLong,
    /// The last digit is not the check digit of the first twelve.
    InvalidCheckDigit,
}

/// A valid ISBN-13, with the text it was read from kept verbatim.
#[derive(Debug, PartialEq, Eq)]
pub struct Isbn {
    raw: String,
    digits: Vec<u8>,
}

impl Isbn {
    #[verifier::type_invariant]
    spec fn inv(&self) -> bool {
        is_valid_isbn(self.digits@)
    }

    /// The text the number was read from.
    pub closed spec fn spec_raw(&self) -> Seq<char> {
        self.raw@
    }

    /// The thirteen digits.
    pub closed spec fn spec_digits(&self) -> Seq<u8> {
        self.digits@
    }

    /// Reads the decimal digits of `s`, skipping all other characters, and
    /// accepts exactly thirteen whose last one is the right check digit.
    pub fn from_str(s: &str) -> (r: Result<Isbn, IsbnError>)
        ensures
            match r {
                Ok(b) => {
                    &&& parse_isbn(s@) == Ok::<Seq<u8>, IsbnError>(b.spec_digits())
                    &&& b.spec_raw() == s@
                },
                Err(e) => parse_isbn(s@) == Err::<Seq<u8>, IsbnError>(e),
            },
    {
        let mut digits: Vec<u8> = Vec::new();
        for c in it: s.chars()
            invariant
                it.seq() == s@,
                digits@ == decimal_digits(s@.take(it.index() as int)),
                all_decimal(digits@),
        {
            let n = c as u32;
            if '0' as u32 <= n && n <= '9' as u32 {
                digits.push((n - '0' as u32) as u8);
            }
            proof {
                let i = it.index() as int;
                let next = s@.take(i + 1);
                assert(next.drop_last() =~= s@.take(i));
                assert(next.last() == c);
                assert(decimal_digits(next) == if is_decimal(c) {
                    decimal_digits(s@.take(i)).push((c as u32 - '0' as u32) as u8)
                } else {
                    decimal_digits(s@.take(i))
                });
            }
        }
        assert(s@.take(s@.len() as int) =~= s@);
        if digits.len() < 13 {
            return Err(IsbnError::TooShort);
        }
        if digits.len() > 13 {
            return Err(IsbnError::TooLong);
        }
        let first = slice_subrange(digits.as_slice(), 0, 12);
        assert(first@ =~= digits@.take(12));
        if digits[12] != check_digit(first) {
            return Err(IsbnError::InvalidCheckDigit);
        }
        Ok(Isbn { raw: s.to_owned(), digits })
    }

    /// The text the number was read from, unchanged.
    pub fn raw(&self) -> (r: &str)
        ensures
            r@ == self.spec_raw(),
    {
        self.raw.as_str()
    }

    /// The thirteen digits, check digit last.
    pub fn digits(&self) -> (r: &[u8])
        ensures
            r@ == self.spec_digits(),
            is_valid_isbn(r@),
    {
        proof {
            use_type_invariant(self);
        }
        self.digits.as_slice()
    }

    /// The display form: the text the number was read from, unchanged.
    pub fn to_string(&self) -> (r: String)
        ensures
            r@ == self.spec_raw(),
    {
        self.raw.clone()
    }
}

} // verus!

verus! {

/// Text made of decimal digits only, with no separators.
pub open spec fn is_numeric(s: Seq<char>) -> bool {
    forall|i: int| 0 <= i < s.len() ==> is_decimal(#[trigger] s[i])
}

proof fn lemma_numeric_digits(s: Seq<char>)
    requires
        is_numeric(s),
    ensures
        decimal_digits(s).len() == s.len(),
        forall|i: int|
            0 <= i < s.len() ==> #[trigger] decimal_digits(s)[i] == (s[i] as u32 - '0' as u32) as u8,
    decreases s.len(),
{
    if s.len() > 0 {
        let rest = s.drop_last();
        assert(is_decimal(s[s.len() - 1]));
        assert forall|i: int| 0 <= i < rest.len() implies is_decimal(#[trigger] rest[i]) by {
            assert(rest[i] == s[i]);
        }
        lemma_numeric_digits(rest);
    }
}

/// A numeric text is refused for its length alone when it does not hold
/// exactly thirteen digits: too short below, too long above.
pub proof fn lemma_numeric_length_checked(s: Seq<char>)
    requires
        is_numeric(s),
    ensures
        s.len() < 13 ==> parse_isbn(s) == Err::<Seq<u8>, IsbnError>(IsbnError::TooShort),
        s.len() > 13 ==> parse_isbn(s) == Err::<Seq<u8>, IsbnError>(IsbnError::TooLong),
{
    lemma_numeric_digits(s);
}

/// Replacing the last digit of a valid thirteen-digit number by any other
/// digit makes it fail the check digit test.
pub proof fn lemma_altered_check_digit_rejected(s: Seq<char>, c: char)
    requires
        s.len() == 13,
        is_numeric(s),
        parse_isbn(s) is Ok,
        is_decimal(c),
        c != s[12],
    ensures
        parse_isbn(s.update(12, c)) == Err::<Seq<u8>, IsbnError>(IsbnError::InvalidCheckDigit),
{
    let t = s.update(12, c);
    lemma_numeric_digits(s);
    assert forall|i: int| 0 <= i < t.len() implies is_decimal(#[trigger] t[i]) by {
        if i != 12 {
            assert(t[i] == s[i]);
        }
    }
    lemma_numeric_digits(t);
    assert(decimal_digits(t).take(12) =~= decimal_digits(s).take(12));
    assert(t[12] == c);
    char_u32_cast(c, c as u32);
    char_u32_cast(s[12], s[12] as u32);
    assert(decimal_digits(t)[12] != decimal_digits(s)[12]);
}

} // verus!
