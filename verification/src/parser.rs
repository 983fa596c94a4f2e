//! The cursor-threaded recursive-descent parser: primitive scanners, field
//! parsers, and the message assembler. Each parser consumes a prefix of the
//! remaining input and returns the parsed value together with the rest, or
//! the first error encountered.

use vstd::prelude::*;

use crate::clock::epoch_of;
use crate::clock::epoch_secs;
use crate::facility::SyslogFacility;
use crate::facility::fac_from_code;
use crate::message::ProcIdType;
use crate::message::SyslogMessage;
use crate::severity::SyslogSeverity;
use crate::severity::sev_from_code;

verus! {

/// Why a line failed to decode. The decode aborts at the first error; no
/// partial record is ever returned.
#[derive(Clone, Debug, PartialEq, Eq)]
pub enum ParseErr {
    /// Reserved: the line does not match the expected overall shape.
    RegexDoesNotMatchErr,
    /// The PRI value holds a severity code outside 0..=7.
    BadSeverityInPri,
    /// The PRI value holds a facility code outside 0..=23.
    BadFacilityInPri,
    /// The input ended where more characters were required.
    UnexpectedEndOfInput,
    /// A captured month token is not one of the twelve abbreviations; it is
    /// carried verbatim.
    MonthConversionErr(String),
    /// A digit run was shorter than the field's minimum.
    TooFewDigits,
    /// A digit run was longer than the field's maximum: digits continued
    /// past the cap.
    TooManyDigits,
    /// Reserved: a timestamp carried an invalid UTC offset.
    InvalidUTCOffset,
    /// Reserved: a captured byte run was not valid text.
    BaseUnicodeError,
    /// Reserved: a captured string was not valid text.
    UnicodeError,
    /// A specific character was required but another was found.
    ExpectedTokenErr(char),
    /// Captured digits do not fit the target integer width.
    IntConversionErr,
    /// Reserved: a required field was missing.
    MissingField,
}

/// The model's view of a decode error: the same cases as [`ParseErr`], with
/// the offending month token carried as a character sequence.
pub enum SpecErr {
    RegexDoesNotMatchErr,
    BadSeverityInPri,
    BadFacilityInPri,
    UnexpectedEndOfInput,
    MonthConversionErr(Seq<char>),
    TooFewDigits,
    TooManyDigits,
    InvalidUTCOffset,
    BaseUnicodeError,
    UnicodeError,
    ExpectedTokenErr(char),
    IntConversionErr,
    MissingField,
}

/// How an executable error reads as a model error.
pub open spec fn err_view(e: ParseErr) -> SpecErr {
    match e {
        ParseErr::RegexDoesNotMatchErr => SpecErr::RegexDoesNotMatchErr,
        ParseErr::BadSeverityInPri => SpecErr::BadSeverityInPri,
        ParseErr::BadFacilityInPri => SpecErr::BadFacilityInPri,
        ParseErr::UnexpectedEndOfInput => SpecErr::UnexpectedEndOfInput,
        ParseErr::MonthConversionErr(t) => SpecErr::MonthConversionErr(t@),
        ParseErr::TooFewDigits => SpecErr::TooFewDigits,
        ParseErr::TooManyDigits => SpecErr::TooManyDigits,
        ParseErr::InvalidUTCOffset => SpecErr::InvalidUTCOffset,
        ParseErr::BaseUnicodeError => SpecErr::BaseUnicodeError,
        ParseErr::UnicodeError => SpecErr::UnicodeError,
        ParseErr::ExpectedTokenErr(c) => SpecErr::ExpectedTokenErr(c),
        ParseErr::IntConversionErr => SpecErr::IntConversionErr,
        ParseErr::MissingField => SpecErr::MissingField,
    }
}

// ----------------------------------------------------------------------------
// Character classes.

/// A decimal digit.
pub open spec fn is_digit_char(c: char) -> bool {
    48 <= (c as u32) && (c as u32) <= 57
}

/// The deliberately wide month-letter class: every ASCII character from 'A'
/// through 'z', punctuation in between included.
pub open spec fn is_month_letter(c: char) -> bool {
    65 <= (c as u32) && (c as u32) <= 122
}

/// Printable ASCII, decimal 33 through 126 inclusive.
pub open spec fn is_printable_char(c: char) -> bool {
    33 <= (c as u32) && (c as u32) <= 126
}

/// A character that may stand inside a hostname or process-identifier token:
/// printable ASCII, but not the brackets that delimit a process id.
pub open spec fn is_hostname_char(c: char) -> bool {
    is_printable_char(c) && c != '[' && c != ']'
}

pub open spec fn digit_pred() -> spec_fn(char) -> bool {
    |c: char| is_digit_char(c)
}

pub open spec fn month_letter_pred() -> spec_fn(char) -> bool {
    |c: char| is_month_letter(c)
}

pub open spec fn printable_pred() -> spec_fn(char) -> bool {
    |c: char| is_printable_char(c)
}

pub open spec fn hostname_pred() -> spec_fn(char) -> bool {
    |c: char| is_hostname_char(c)
}

// ----------------------------------------------------------------------------
// The bounded-scan model shared by every primitive scanner.

/// Where a bounded left-to-right scan of `s` stops: the first position whose
/// character fails `pred`, or position `max` if `pred` held at every earlier
/// position; `None` when the scan runs off the end of `s` without stopping.
pub open spec fn scan_stop(s: Seq<char>, pred: spec_fn(char) -> bool, max: int) -> Option<int>
    decreases s.len(),
{
    if s.len() == 0 {
        None
    } else if !pred(s[0]) || max <= 0 {
        Some(0)
    } else {
        match scan_stop(s.skip(1), pred, max - 1) {
            Some(i) => Some(i + 1),
            None => None,
        }
    }
}

/// What a stop position means: every character before it matches, and it is
/// either the bound or a mismatching character inside the input.
pub proof fn lemma_scan_stop_some(s: Seq<char>, pred: spec_fn(char) -> bool, max: int, n: int)
    requires
        0 <= max,
        scan_stop(s, pred, max) == Some(n),
    ensures
        0 <= n <= max,
        n < s.len(),
        forall|i: int| 0 <= i < n ==> pred(s[i]),
        !pred(s[n]) || n == max,
    decreases s.len(),
{
    if s.len() == 0 {
    } else if !pred(s[0]) || max <= 0 {
    } else {
        match scan_stop(s.skip(1), pred, max - 1) {
            Some(i) => {
                lemma_scan_stop_some(s.skip(1), pred, max - 1, i);
                assert forall|j: int| 0 <= j < n implies pred(s[j]) by {
                    if j > 0 {
                        assert(pred(s.skip(1)[j - 1]));
                    }
                }
                assert(s.skip(1)[i] == s[n]);
            },
            None => {},
        }
    }
}

/// A scan that never stops ran off the end: the input is no longer than the
/// bound and every character matches.
pub proof fn lemma_scan_stop_none(s: Seq<char>, pred: spec_fn(char) -> bool, max: int)
    requires
        0 <= max,
        scan_stop(s, pred, max) is None,
    ensures
        s.len() <= max,
        forall|i: int| 0 <= i < s.len() ==> pred(s[i]),
    decreases s.len(),
{
    if s.len() == 0 {
    } else if !pred(s[0]) || max <= 0 {
    } else {
        lemma_scan_stop_none(s.skip(1), pred, max - 1);
        assert forall|j: int| 0 <= j < s.len() implies pred(s[j]) by {
            if j > 0 {
                assert(pred(s.skip(1)[j - 1]));
            }
        }
    }
}

/// The converse: a position with the stop properties is the stop position.
pub proof fn lemma_scan_stop_from_props(s: Seq<char>, pred: spec_fn(char) -> bool, max: int, n: int)
    requires
        0 <= n <= max,
        n < s.len(),
        forall|i: int| 0 <= i < n ==> pred(s[i]),
        !pred(s[n]) || n == max,
    ensures
        scan_stop(s, pred, max) == Some(n),
    decreases n,
{
    if n == 0 {
    } else {
        assert(pred(s[0]));
        assert forall|i: int| 0 <= i < n - 1 implies pred(s.skip(1)[i]) by {
            assert(s.skip(1)[i] == s[i + 1]);
        }
        assert(s.skip(1)[n - 1] == s[n]);
        lemma_scan_stop_from_props(s.skip(1), pred, max - 1, n - 1);
    }
}

/// The converse for a scan that runs off the end.
pub proof fn lemma_scan_none_from_props(s: Seq<char>, pred: spec_fn(char) -> bool, max: int)
    requires
        s.len() <= max,
        forall|i: int| 0 <= i < s.len() ==> pred(s[i]),
    ensures
        scan_stop(s, pred, max) is None,
    decreases s.len(),
{
    if s.len() == 0 {
    } else {
        assert(pred(s[0]));
        assert forall|i: int| 0 <= i < s.skip(1).len() implies pred(s.skip(1)[i]) by {
            assert(s.skip(1)[i] == s[i + 1]);
        }
        lemma_scan_none_from_props(s.skip(1), pred, max - 1);
    }
}

// ----------------------------------------------------------------------------
// The primitive scanner.

/// Consumes the longest prefix of `input` whose characters satisfy `f`, up to
/// `max_chars` characters. Returns the consumed prefix and `Some` remainder
/// beginning at the stop position; when the whole input matches without the
/// bound being reached, returns an empty prefix and `None`, signalling that
/// the scan ran off the end.
pub fn take_while<'a, F: Fn(char) -> bool>(input: &'a str, f: F, max_chars: usize) -> (r: (
    &'a str,
    Option<&'a str>,
))
    requires
        forall|c: char| #[trigger] call_requires(f, (c,)),
    ensures
        match r.1 {
            Some(rest) => {
                let n = r.0@.len() as int;
                &&& n <= max_chars
                &&& n < input@.len()
                &&& r.0@ == input@.subrange(0, n)
                &&& rest@ == input@.subrange(n, input@.len() as int)
                &&& forall|i: int| 0 <= i < n ==> call_ensures(f, (input@[i],), true)
                &&& call_ensures(f, (input@[n],), false) || n == max_chars
            },
            None => {
                &&& r.0@ == Seq::<char>::empty()
                &&& input@.len() <= max_chars
                &&& forall|i: int| 0 <= i < input@.len() ==> call_ensures(f, (input@[i],), true)
            },
        },
{
    let len = input.unicode_len();
    let mut i: usize = 0;
    while i < len
        invariant
            i <= len,
            len == input@.len(),
            i <= max_chars,
            forall|j: int| 0 <= j < i ==> call_ensures(f, (input@[j],), true),
            forall|c: char| #[trigger] call_requires(f, (c,)),
        decreases len - i,
    {
        let c = input.get_char(i);
        if !f(c) {
            return (input.substring_char(0, i), Some(input.substring_char(i, len)));
        }
        if i == max_chars {
            return (input.substring_char(0, i), Some(input.substring_char(i, len)));
        }
        i = i + 1;
    }
    proof {
        reveal_strlit("");
        assert(""@ =~= Seq::<char>::empty());
    }
    ("", None)
}

// ----------------------------------------------------------------------------
// Digit runs and their numeric value.

pub open spec fn digit_value(c: char) -> int {
    (c as u32) - 48
}

/// The decimal value of a run of digit characters, most significant first.
pub open spec fn digits_val(s: Seq<char>) -> int
    decreases s.len(),
{
    if s.len() == 0 {
        0
    } else {
        digits_val(s.drop_last()) * 10 + digit_value(s.last())
    }
}

pub proof fn lemma_digits_val_nonneg(s: Seq<char>)
    requires
        forall|i: int| 0 <= i < s.len() ==> is_digit_char(s[i]),
    ensures
        digits_val(s) >= 0,
    decreases s.len(),
{
    if s.len() > 0 {
        lemma_digits_val_nonneg(s.drop_last());
    }
}

/// Extending a digit run to the right never decreases its value.
pub proof fn lemma_digits_prefix_le(s: Seq<char>, j: int)
    requires
        0 <= j <= s.len(),
        forall|i: int| 0 <= i < s.len() ==> is_digit_char(s[i]),
    ensures
        digits_val(s.subrange(0, j)) <= digits_val(s),
    decreases s.len() - j,
{
    if j == s.len() {
        assert(s.subrange(0, j) =~= s);
    } else {
        let a = s.subrange(0, j);
        let b = s.subrange(0, j + 1);
        assert(b.drop_last() =~= a);
        assert(b.last() == s[j]);
        lemma_digits_val_nonneg(a);
        lemma_digits_prefix_le(s, j + 1);
    }
}

/// The model of the numeric field parser: a digit run of at least
/// `min_digits` digits, converted to a 32-bit integer. Digits that continue
/// past the `max_digits` cap mean a longer numeric token exists than
/// allowed, and the run is rejected as too many digits.
pub open spec fn sp_parse_num(s: Seq<char>, min_digits: int, max_digits: int) -> Result<
    (int, Seq<char>),
    SpecErr,
> {
    match scan_stop(s, digit_pred(), max_digits) {
        None => Err(SpecErr::UnexpectedEndOfInput),
        Some(n) => {
            if n < min_digits {
                Err(SpecErr::TooFewDigits)
            } else if n == max_digits && is_digit_char(s[n]) {
                Err(SpecErr::TooManyDigits)
            } else if n == 0 || digits_val(s.subrange(0, n)) > i32::MAX {
                Err(SpecErr::IntConversionErr)
            } else {
                Ok((digits_val(s.subrange(0, n)), s.subrange(n, s.len() as int)))
            }
        },
    }
}

/// Parses a decimal number of at least `min_digits` and at most `max_digits`
/// digits from the front of `s`, yielding the value and the remaining input;
/// a digit run that continues past `max_digits` is rejected outright.
#[verifier::rlimit(50)]
pub fn parse_num<'a>(s: &'a str, min_digits: usize, max_digits: usize) -> (r: Result<
    (i32, &'a str),
    ParseErr,
>)
    ensures
        match (r, sp_parse_num(s@, min_digits as int, max_digits as int)) {
            (Ok((v, rest)), Ok((mv, mrest))) => v as int == mv && rest@ == mrest,
            (Err(e), Err(me)) => err_view(e) == me,
            _ => false,
        },
        r matches Ok(p) ==> 0 <= p.0,
{
    let digit_test = |c: char| -> (b: bool)
        ensures
            b == is_digit_char(c),
        {
            let u = c as u32;
            48 <= u && u <= 57
        };
    let (res, rest_opt) = take_while(s, digit_test, max_digits);
    let rest = match rest_opt {
        None => {
            proof {
                assert forall|i: int| 0 <= i < s@.len() implies digit_pred()(s@[i]) by {
                    assert(call_ensures(digit_test, (s@[i],), true));
                }
                lemma_scan_none_from_props(s@, digit_pred(), max_digits as int);
            }
            return Err(ParseErr::UnexpectedEndOfInput);
        },
        Some(rest) => rest,
    };
    let n = res.unicode_len();
    proof {
        assert forall|i: int| 0 <= i < n implies digit_pred()(s@[i]) by {
            assert(call_ensures(digit_test, (s@[i],), true));
        }
        if n < max_digits {
            assert(call_ensures(digit_test, (s@[n as int],), false));
            assert(!digit_pred()(s@[n as int]));
            assert(!is_digit_char(s@[n as int]));
        }
        lemma_scan_stop_from_props(s@, digit_pred(), max_digits as int, n as int);
        assert(res@ =~= s@.subrange(0, n as int));
    }
    if n < min_digits {
        return Err(ParseErr::TooFewDigits);
    }
    if n == max_digits {
        let c = rest.get_char(0);
        proof {
            assert(rest@[0] == s@[n as int]);
        }
        let u = c as u32;
        if 48 <= u && u <= 57 {
            return Err(ParseErr::TooManyDigits);
        }
    }
    if n == 0 {
        return Err(ParseErr::IntConversionErr);
    }
    let mut v: i64 = 0;
    let mut i: usize = 0;
    while i < n
        invariant
            0 < n <= res@.len(),
            res@ == s@.subrange(0, n as int),
            n < s@.len(),
            min_digits <= n <= max_digits,
            !(n == max_digits && is_digit_char(s@[n as int])),
            scan_stop(s@, digit_pred(), max_digits as int) == Some(n as int),
            rest@ == s@.subrange(n as int, s@.len() as int),
            forall|k: int| 0 <= k < n ==> is_digit_char(s@[k]),
            i <= n,
            0 <= v <= i32::MAX,
            v as int == digits_val(res@.subrange(0, i as int)),
        decreases n - i,
    {
        let c = res.get_char(i);
        proof {
            assert(res@[i as int] == s@[i as int]);
        }
        let d = (c as u32 - 48) as i64;
        let v2 = v * 10 + d;
        proof {
            let a = res@.subrange(0, i as int);
            let b = res@.subrange(0, i + 1 as int);
            assert(b.drop_last() =~= a);
            assert(b.last() == res@[i as int]);
        }
        if v2 > 2147483647i64 {
            proof {
                let a = res@.subrange(0, i as int);
                let b = res@.subrange(0, i + 1);
                assert(digits_val(b) == digits_val(a) * 10 + digit_value(res@[i as int]));
                assert(v2 as int == digits_val(b));
                assert forall|k: int| 0 <= k < res@.len() implies is_digit_char(res@[k]) by {
                    assert(res@[k] == s@[k]);
                }
                lemma_digits_prefix_le(res@, i + 1);
                assert(res@.subrange(0, res@.len() as int) =~= res@);
                assert(digits_val(s@.subrange(0, n as int)) > i32::MAX);
                assert(sp_parse_num(s@, min_digits as int, max_digits as int) == Err::<
                    (int, Seq<char>),
                    SpecErr,
                >(SpecErr::IntConversionErr));
            }
            return Err(ParseErr::IntConversionErr);
        }
        v = v2;
        i = i + 1;
    }
    proof {
        assert(res@.subrange(0, n as int) =~= res@);
    }
    Ok((v as i32, rest))
}

// ----------------------------------------------------------------------------
// Single-character steps.

/// The model of consuming one required character.
pub open spec fn sp_take_char(s: Seq<char>, c: char) -> Result<Seq<char>, SpecErr> {
    if s.len() == 0 {
        Err(SpecErr::UnexpectedEndOfInput)
    } else if s[0] == c {
        Ok(s.skip(1))
    } else {
        Err(SpecErr::ExpectedTokenErr(c))
    }
}

/// The model of consuming one optional character.
pub open spec fn sp_maybe_char(s: Seq<char>, c: char) -> Seq<char> {
    if s.len() > 0 && s[0] == c {
        s.skip(1)
    } else {
        s
    }
}

/// Consumes the required character `c` from the front of `s`.
fn expect_char<'a>(s: &'a str, c: char) -> (r: Result<&'a str, ParseErr>)
    ensures
        match (r, sp_take_char(s@, c)) {
            (Ok(rest), Ok(mrest)) => rest@ == mrest,
            (Err(e), Err(me)) => err_view(e) == me,
            _ => false,
        },
{
    let len = s.unicode_len();
    if len == 0 {
        Err(ParseErr::UnexpectedEndOfInput)
    } else if s.get_char(0) == c {
        let rest = s.substring_char(1, len);
        proof {
            assert(rest@ =~= s@.skip(1));
        }
        Ok(rest)
    } else {
        Err(ParseErr::ExpectedTokenErr(c))
    }
}

/// Consumes the character `c` from the front of `s` if it is there.
fn skip_char<'a>(s: &'a str, c: char) -> (r: &'a str)
    ensures
        r@ == sp_maybe_char(s@, c),
{
    let len = s.unicode_len();
    if len > 0 && s.get_char(0) == c {
        let rest = s.substring_char(1, len);
        proof {
            assert(rest@ =~= s@.skip(1));
        }
        rest
    } else {
        s
    }
}

// ----------------------------------------------------------------------------
// Month names.

/// The month number, 1 through 12, of a three-letter month abbreviation;
/// matching is case-sensitive and any other token has none.
pub open spec fn month_num(tok: Seq<char>) -> Option<int> {
    if tok == seq!['J', 'a', 'n'] {
        Some(1int)
    } else if tok == seq!['F', 'e', 'b'] {
        Some(2int)
    } else if tok == seq!['M', 'a', 'r'] {
        Some(3int)
    } else if tok == seq!['A', 'p', 'r'] {
        Some(4int)
    } else if tok == seq!['M', 'a', 'y'] {
        Some(5int)
    } else if tok == seq!['J', 'u', 'n'] {
        Some(6int)
    } else if tok == seq!['J', 'u', 'l'] {
        Some(7int)
    } else if tok == seq!['A', 'u', 'g'] {
        Some(8int)
    } else if tok == seq!['S', 'e', 'p'] {
        Some(9int)
    } else if tok == seq!['O', 'c', 't'] {
        Some(10int)
    } else if tok == seq!['N', 'o', 'v'] {
        Some(11int)
    } else if tok == seq!['D', 'e', 'c'] {
        Some(12int)
    } else {
        None
    }
}

/// The model of the month-name field parser: up to three characters of the
/// wide month-letter class, matched against the twelve abbreviations. An
/// unrecognized token is carried verbatim in the error.
pub open spec fn sp_parse_month(s: Seq<char>) -> Result<(int, Seq<char>), SpecErr> {
    match scan_stop(s, month_letter_pred(), 3) {
        None => Err(SpecErr::UnexpectedEndOfInput),
        Some(n) => {
            match month_num(s.subrange(0, n)) {
                Some(m) => Ok((m, s.subrange(n, s.len() as int))),
                None => Err(SpecErr::MonthConversionErr(s.subrange(0, n))),
            }
        },
    }
}

/// Whether `s` is exactly the three characters `a`, `b`, `c`.
fn str_eq3(s: &str, a: char, b: char, c: char) -> (r: bool)
    ensures
        r == (s@ == seq![a, b, c]),
{
    let len = s.unicode_len();
    if len != 3 {
        proof {
            assert(s@ != seq![a, b, c]);
        }
        return false;
    }
    let r = s.get_char(0) == a && s.get_char(1) == b && s.get_char(2) == c;
    proof {
        if r {
            assert(s@ =~= seq![a, b, c]);
        }
    }
    r
}

/// Parses a three-letter month abbreviation from the front of `s`, yielding
/// the month number 1 through 12 and the remaining input.
pub fn parse_month<'a>(s: &'a str) -> (r: Result<(i32, &'a str), ParseErr>)
    ensures
        match (r, sp_parse_month(s@)) {
            (Ok((v, rest)), Ok((mv, mrest))) => v as int == mv && rest@ == mrest,
            (Err(e), Err(me)) => err_view(e) == me,
            _ => false,
        },
        r matches Ok(p) ==> 1 <= p.0 <= 12,
{
    let month_test = |c: char| -> (b: bool)
        ensures
            b == is_month_letter(c),
        {
            let u = c as u32;
            65 <= u && u <= 122
        };
    let (res, rest_opt) = take_while(s, month_test, 3);
    let rest = match rest_opt {
        None => {
            proof {
                assert forall|i: int| 0 <= i < s@.len() implies month_letter_pred()(s@[i]) by {
                    assert(call_ensures(month_test, (s@[i],), true));
                }
                lemma_scan_none_from_props(s@, month_letter_pred(), 3);
            }
            return Err(ParseErr::UnexpectedEndOfInput);
        },
        Some(rest) => rest,
    };
    proof {
        let n = res@.len() as int;
        assert forall|i: int| 0 <= i < n implies month_letter_pred()(s@[i]) by {
            assert(call_ensures(month_test, (s@[i],), true));
        }
        if n < 3 {
            assert(call_ensures(month_test, (s@[n],), false));
            assert(!month_letter_pred()(s@[n]));
        }
        lemma_scan_stop_from_props(s@, month_letter_pred(), 3, n);
        assert(res@ =~= s@.subrange(0, n));
    }
    if str_eq3(res, 'J', 'a', 'n') {
        Ok((1, rest))
    } else if str_eq3(res, 'F', 'e', 'b') {
        Ok((2, rest))
    } else if str_eq3(res, 'M', 'a', 'r') {
        Ok((3, rest))
    } else if str_eq3(res, 'A', 'p', 'r') {
        Ok((4, rest))
    } else if str_eq3(res, 'M', 'a', 'y') {
        Ok((5, rest))
    } else if str_eq3(res, 'J', 'u', 'n') {
        Ok((6, rest))
    } else if str_eq3(res, 'J', 'u', 'l') {
        Ok((7, rest))
    } else if str_eq3(res, 'A', 'u', 'g') {
        Ok((8, rest))
    } else if str_eq3(res, 'S', 'e', 'p') {
        Ok((9, rest))
    } else if str_eq3(res, 'O', 'c', 't') {
        Ok((10, rest))
    } else if str_eq3(res, 'N', 'o', 'v') {
        Ok((11, rest))
    } else if str_eq3(res, 'D', 'e', 'c') {
        Ok((12, rest))
    } else {
        Err(ParseErr::MonthConversionErr(res.to_owned()))
    }
}

// ----------------------------------------------------------------------------
// The PRI value.

/// The model of splitting a PRI value: the low three bits select the
/// severity, the remaining bits the facility.
pub open spec fn sp_parse_pri(pri: int) -> Result<(SyslogSeverity, SyslogFacility), SpecErr> {
    if pri < 0 {
        Err(SpecErr::BadFacilityInPri)
    } else {
        match sev_from_code(pri % 8) {
            None => Err(SpecErr::BadSeverityInPri),
            Some(sev) => {
                match fac_from_code(pri / 8) {
                    None => Err(SpecErr::BadFacilityInPri),
                    Some(fac) => Ok((sev, fac)),
                }
            },
        }
    }
}

/// Splits a PRI value into its severity and facility; fails with the
/// corresponding range error when either code is out of its domain.
pub fn parse_pri_val(pri: i32) -> (r: Result<(SyslogSeverity, SyslogFacility), ParseErr>)
    ensures
        match (r, sp_parse_pri(pri as int)) {
            (Ok(p), Ok(mp)) => p == mp,
            (Err(e), Err(me)) => err_view(e) == me,
            _ => false,
        },
{
    if pri < 0 {
        return Err(ParseErr::BadFacilityInPri);
    }
    let sev = match SyslogSeverity::from_int(pri % 8) {
        Some(s) => s,
        None => return Err(ParseErr::BadSeverityInPri),
    };
    let fac = match SyslogFacility::from_int(pri / 8) {
        Some(f) => f,
        None => return Err(ParseErr::BadFacilityInPri),
    };
    Ok((sev, fac))
}

/// For every priority value 0 through 191, the PRI split yields the pair
/// whose codes recombine to the value: facility code times eight plus
/// severity code equals the value. 192 and above fail with the
/// facility-range error.
pub proof fn lemma_pri_value_split(pri: int)
    ensures
        0 <= pri < 192 ==> (sp_parse_pri(pri) matches Ok(p) && p.1.code() * 8 + p.0.code()
            == pri),
        pri >= 192 ==> sp_parse_pri(pri) == Err::<(SyslogSeverity, SyslogFacility), SpecErr>(
            SpecErr::BadFacilityInPri,
        ),
{
    if pri >= 0 {
        assert(pri % 8 + (pri / 8) * 8 == pri) by (nonlinear_arith)
            requires
                pri >= 0,
        ;
        assert(0 <= pri % 8 < 8) by (nonlinear_arith)
            requires
                pri >= 0,
        ;
        if pri < 192 {
            assert(0 <= pri / 8 < 24) by (nonlinear_arith)
                requires
                    0 <= pri < 192,
            ;
        } else {
            assert(pri / 8 >= 24) by (nonlinear_arith)
                requires
                    pri >= 192,
            ;
        }
    }
}

// ----------------------------------------------------------------------------
// Bounded printable tokens: hostname, process identifier, tag.

/// The model of the hostname (and process-identifier) token parser: a `-`
/// yields an absent field; otherwise a run of printable characters, bounded
/// at 255 and terminated early by a bracket, is captured. A run to the very
/// end of the input is an error here, and a capture of no characters is
/// rejected as too short.
pub open spec fn sp_parse_hostname(s: Seq<char>) -> Result<
    (Option<Seq<char>>, Seq<char>),
    SpecErr,
> {
    if s.len() > 0 && s[0] == '-' {
        Ok((None, s.skip(1)))
    } else {
        match scan_stop(s, hostname_pred(), 255) {
            None => Err(SpecErr::UnexpectedEndOfInput),
            Some(n) => {
                if n < 1 {
                    Err(SpecErr::TooFewDigits)
                } else {
                    Ok((Some(s.subrange(0, n)), s.subrange(n, s.len() as int)))
                }
            },
        }
    }
}

/// The model of the tag token parser: like the hostname parser but with no
/// bracket termination, and a run to the very end of the input is accepted —
/// a nonempty run becomes the token with nothing left over, and an empty
/// input yields an absent field.
pub open spec fn sp_parse_term(s: Seq<char>, min_length: int, max_length: int) -> Result<
    (Option<Seq<char>>, Seq<char>),
    SpecErr,
> {
    if s.len() > 0 && s[0] == '-' {
        Ok((None, s.skip(1)))
    } else {
        match scan_stop(s, printable_pred(), max_length) {
            None => {
                if s.len() == 0 {
                    Ok((None, s))
                } else {
                    Ok((Some(s), Seq::empty()))
                }
            },
            Some(n) => {
                if n < min_length {
                    Err(SpecErr::TooFewDigits)
                } else {
                    Ok((Some(s.subrange(0, n)), s.subrange(n, s.len() as int)))
                }
            },
        }
    }
}

/// Finds where the bounded scan for a token stops: at the first character
/// that is not printable (or, for hostnames, is a bracket), or at the bound;
/// `None` when the scan runs off the end of the input.
fn find_stop(m: &str, brackets: bool, max: usize) -> (r: Option<usize>)
    ensures
        ({
            let pred = if brackets {
                hostname_pred()
            } else {
                printable_pred()
            };
            match r {
                Some(n) => scan_stop(m@, pred, max as int) == Some(n as int),
                None => scan_stop(m@, pred, max as int) is None,
            }
        }),
{
    let ghost pred = if brackets {
        hostname_pred()
    } else {
        printable_pred()
    };
    let len = m.unicode_len();
    let mut i: usize = 0;
    while i < len
        invariant
            i <= len,
            len == m@.len(),
            i <= max,
            pred == (if brackets {
                hostname_pred()
            } else {
                printable_pred()
            }),
            forall|j: int| 0 <= j < i ==> #[trigger] pred(m@[j]),
        decreases len - i,
    {
        let c = m.get_char(i);
        let u = c as u32;
        let matches_class = if brackets {
            33 <= u && u <= 126 && c != '[' && c != ']'
        } else {
            33 <= u && u <= 126
        };
        if !matches_class {
            proof {
                lemma_scan_stop_from_props(m@, pred, max as int, i as int);
            }
            return Some(i);
        }
        if i == max {
            proof {
                lemma_scan_stop_from_props(m@, pred, max as int, i as int);
            }
            return Some(i);
        }
        i = i + 1;
    }
    proof {
        lemma_scan_none_from_props(m@, pred, max as int);
    }
    None
}

/// Parses a hostname (or process-identifier) token from the front of `m`: a
/// `-` yields an absent field; otherwise a printable run bounded at 255 and
/// stopped early by `[` or `]`, which must not be swallowed into the token.
pub fn parse_hostname<'a>(m: &'a str) -> (r: Result<(Option<String>, &'a str), ParseErr>)
    ensures
        match (r, sp_parse_hostname(m@)) {
            (Ok((cap, rest)), Ok((mcap, mrest))) => {
                &&& match (cap, mcap) {
                    (Some(t), Some(mt)) => t@ == mt,
                    (None, None) => true,
                    _ => false,
                }
                &&& rest@ == mrest
            },
            (Err(e), Err(me)) => err_view(e) == me,
            _ => false,
        },
{
    let len = m.unicode_len();
    if len > 0 && m.get_char(0) == '-' {
        let rest = m.substring_char(1, len);
        proof {
            assert(rest@ =~= m@.skip(1));
        }
        return Ok((None, rest));
    }
    match find_stop(m, true, 255) {
        None => Err(ParseErr::UnexpectedEndOfInput),
        Some(n) => {
            proof {
                lemma_scan_stop_some(m@, hostname_pred(), 255, n as int);
            }
            if n < 1 {
                Err(ParseErr::TooFewDigits)
            } else {
                let cap = m.substring_char(0, n);
                let rest = m.substring_char(n, len);
                Ok((Some(cap.to_owned()), rest))
            }
        },
    }
}

/// Parses a tag token from the front of `m`: a `-` yields an absent field;
/// otherwise a printable run bounded at `max_length`, with brackets treated
/// as ordinary characters. A nonempty run to the very end of the input is
/// accepted as the token; an empty input yields an absent field.
pub fn parse_term<'a>(m: &'a str, min_length: usize, max_length: usize) -> (r: Result<
    (Option<String>, &'a str),
    ParseErr,
>)
    ensures
        match (r, sp_parse_term(m@, min_length as int, max_length as int)) {
            (Ok((cap, rest)), Ok((mcap, mrest))) => {
                &&& match (cap, mcap) {
                    (Some(t), Some(mt)) => t@ == mt,
                    (None, None) => true,
                    _ => false,
                }
                &&& rest@ == mrest
            },
            (Err(e), Err(me)) => err_view(e) == me,
            _ => false,
        },
{
    let len = m.unicode_len();
    if len > 0 && m.get_char(0) == '-' {
        let rest = m.substring_char(1, len);
        proof {
            assert(rest@ =~= m@.skip(1));
        }
        return Ok((None, rest));
    }
    match find_stop(m, false, max_length) {
        None => {
            if len == 0 {
                Ok((None, m))
            } else {
                let rest = m.substring_char(len, len);
                proof {
                    assert(rest@ =~= Seq::<char>::empty());
                }
                Ok((Some(m.to_owned()), rest))
            }
        },
        Some(n) => {
            proof {
                lemma_scan_stop_some(m@, printable_pred(), max_length as int, n as int);
            }
            if n < min_length {
                Err(ParseErr::TooFewDigits)
            } else {
                let cap = m.substring_char(0, n);
                let rest = m.substring_char(n, len);
                Ok((Some(cap.to_owned()), rest))
            }
        },
    }
}

// ----------------------------------------------------------------------------
// Signed 32-bit integer tokens, for process identifiers.

/// The numeric value a signed decimal token denotes: an optional `+` or `-`
/// sign followed by digits.
pub open spec fn i32_token_val(tok: Seq<char>) -> int {
    if tok.len() > 0 && tok[0] == '-' {
        -digits_val(tok.skip(1))
    } else if tok.len() > 0 && tok[0] == '+' {
        digits_val(tok.skip(1))
    } else {
        digits_val(tok)
    }
}

/// A nonempty run of decimal digits and nothing else.
pub open spec fn all_digits(s: Seq<char>) -> bool {
    forall|i: int| 0 <= i < s.len() ==> is_digit_char(s[i])
}

/// Whether a token is a valid signed 32-bit decimal integer: an optional
/// sign, at least one digit, nothing else, and a value in range.
pub open spec fn is_i32_token(tok: Seq<char>) -> bool {
    if tok.len() > 0 && (tok[0] == '-' || tok[0] == '+') {
        tok.len() > 1 && all_digits(tok.skip(1)) && i32::MIN <= i32_token_val(tok) <= i32::MAX
    } else {
        tok.len() > 0 && all_digits(tok) && i32::MIN <= i32_token_val(tok) <= i32::MAX
    }
}

/// Parses a whole token as a signed 32-bit integer, as the process-identifier
/// field does: `Some` exactly when the token is a valid in-range decimal.
fn parse_i32_token(s: &str) -> (r: Option<i32>)
    ensures
        match r {
            Some(v) => is_i32_token(s@) && v as int == i32_token_val(s@),
            None => !is_i32_token(s@),
        },
{
    let len = s.unicode_len();
    let mut start: usize = 0;
    let mut negative: bool = false;
    if len > 0 {
        let c0 = s.get_char(0);
        if c0 == '-' {
            negative = true;
            start = 1;
        } else if c0 == '+' {
            start = 1;
        }
    }
    let ghost digits = s@.subrange(start as int, len as int);
    proof {
        if start == 1 {
            assert(digits =~= s@.skip(1));
        } else {
            assert(digits =~= s@);
        }
    }
    if start >= len {
        return None;
    }
    let mut mag: i64 = 0;
    let mut i: usize = start;
    while i < len
        invariant
            start <= i <= len,
            start <= 1,
            len == s@.len(),
            start < len,
            digits == s@.subrange(start as int, len as int),
            (start == 1) == (s@[0] == '-' || s@[0] == '+'),
            negative == (start == 1 && s@[0] == '-'),
            forall|k: int| 0 <= k < i - start ==> is_digit_char(digits[k]),
            0 <= mag <= 2147483648i64,
            mag as int == digits_val(digits.subrange(0, i - start)),
        decreases len - i,
    {
        let c = s.get_char(i);
        let u = c as u32;
        if u < 48 || u > 57 {
            proof {
                if start == 1 {
                    assert(s@.skip(1)[i - 1] == s@[i as int]);
                    assert(!is_digit_char(s@.skip(1)[i - 1]));
                    assert(!all_digits(s@.skip(1)));
                } else {
                    assert(!is_digit_char(s@[i as int]));
                    assert(!all_digits(s@));
                }
            }
            return None;
        }
        let d = (u - 48) as i64;
        let m2 = mag * 10 + d;
        proof {
            let a = digits.subrange(0, i - start);
            let b = digits.subrange(0, i + 1 - start);
            assert(b.drop_last() =~= a);
            assert(b.last() == digits[i - start]);
            assert(m2 as int == digits_val(b));
        }
        if m2 > 2147483648i64 {
            proof {
                if start == 1 {
                    assert(s@.skip(1) =~= digits);
                } else {
                    assert(digits =~= s@);
                }
                if is_i32_token(s@) {
                    assert forall|k: int| 0 <= k < digits.len() implies is_digit_char(
                        digits[k],
                    ) by {
                        if start == 1 {
                            assert(is_digit_char(s@.skip(1)[k]));
                        } else {
                            assert(is_digit_char(s@[k]));
                        }
                    }
                    lemma_digits_prefix_le(digits, i + 1 - start);
                    assert(digits.subrange(0, digits.len() as int) =~= digits);
                    assert(digits_val(digits) > 2147483648);
                    if negative {
                        assert(i32_token_val(s@) == -digits_val(digits));
                    } else {
                        assert(i32_token_val(s@) == digits_val(digits));
                    }
                    assert(false);
                }
            }
            return None;
        }
        mag = m2;
        i = i + 1;
    }
    proof {
        if start == 1 {
            assert(s@.skip(1) =~= digits);
        } else {
            assert(digits =~= s@);
        }
        assert(digits.subrange(0, digits.len() as int) =~= digits);
        lemma_digits_val_nonneg(digits);
        assert(all_digits(digits));
        assert(mag as int == digits_val(digits));
    }
    if negative {
        let v64: i64 = -mag;
        proof {
            assert(i32_token_val(s@) == -digits_val(s@.skip(1)));
            assert(is_i32_token(s@));
        }
        Some(v64 as i32)
    } else {
        if mag > 2147483647i64 {
            proof {
                assert(i32_token_val(s@) == digits_val(digits));
            }
            None
        } else {
            proof {
                assert(i32_token_val(s@) == digits_val(digits));
                assert(is_i32_token(s@));
            }
            Some(mag as i32)
        }
    }
}

// ----------------------------------------------------------------------------
// The timestamp field.

/// The model of the timestamp field parser. A `-` yields an absent
/// timestamp. Otherwise: month name, one space, an optional second space
/// (the BSD single-digit-day padding convention), day of month of one or two
/// digits, a space, two-digit hour, `:`, two-digit minute, `:`, two-digit
/// second, and optionally one space followed by a four-digit year. When the
/// year is absent, `now_tm_year` — the current year minus 1900 — stands in
/// for it. The fields are combined into UTC epoch seconds with no timezone
/// offset applied.
pub open spec fn sp_parse_timestamp(s: Seq<char>, now_tm_year: int) -> Result<
    (Option<int>, Seq<char>),
    SpecErr,
> {
    if s.len() > 0 && s[0] == '-' {
        Ok((None, s.skip(1)))
    } else {
        match sp_parse_month(s) {
            Err(e) => Err(e),
            Ok((mon, r1)) => match sp_take_char(r1, ' ') {
                Err(e) => Err(e),
                Ok(r2) => {
                    let r3 = sp_maybe_char(r2, ' ');
                    match sp_parse_num(r3, 1, 2) {
                        Err(e) => Err(e),
                        Ok((mday, r4)) => match sp_take_char(r4, ' ') {
                            Err(e) => Err(e),
                            Ok(r5) => match sp_parse_num(r5, 2, 2) {
                                Err(e) => Err(e),
                                Ok((hour, r6)) => match sp_take_char(r6, ':') {
                                    Err(e) => Err(e),
                                    Ok(r7) => match sp_parse_num(r7, 2, 2) {
                                        Err(e) => Err(e),
                                        Ok((minute, r8)) => match sp_take_char(r8, ':') {
                                            Err(e) => Err(e),
                                            Ok(r9) => match sp_parse_num(r9, 2, 2) {
                                                Err(e) => Err(e),
                                                Ok((second, r10)) => {
                                                    let with_year = sp_parse_num(
                                                        sp_maybe_char(r10, ' '),
                                                        4,
                                                        4,
                                                    );
                                                    let (tm_year, rest) = match with_year {
                                                        Ok((year, r11)) => (year - 1900, r11),
                                                        Err(_) => (now_tm_year, r10),
                                                    };
                                                    Ok(
                                                        (
                                                            Some(
                                                                epoch_of(
                                                                    tm_year,
                                                                    mon - 1,
                                                                    mday,
                                                                    hour,
                                                                    minute,
                                                                    second,
                                                                ),
                                                            ),
                                                            rest,
                                                        ),
                                                    )
                                                },
                                            },
                                        },
                                    },
                                },
                            },
                        },
                    }
                },
            },
        }
    }
}

/// Parses the timestamp field from the front of `m`, combining the calendar
/// fields into UTC epoch seconds. `now_tm_year` — the current year minus
/// 1900, as a broken-down time carries it — stands in when the input has no
/// year of its own.
pub fn parse_timestamp<'a>(m: &'a str, now_tm_year: i32) -> (r: Result<
    (Option<i64>, &'a str),
    ParseErr,
>)
    ensures
        match (r, sp_parse_timestamp(m@, now_tm_year as int)) {
            (Ok((ts, rest)), Ok((mts, mrest))) => {
                &&& match (ts, mts) {
                    (Some(t), Some(mt)) => t as int == mt,
                    (None, None) => true,
                    _ => false,
                }
                &&& rest@ == mrest
            },
            (Err(e), Err(me)) => err_view(e) == me,
            _ => false,
        },
{
    let len = m.unicode_len();
    if len > 0 && m.get_char(0) == '-' {
        let rest = m.substring_char(1, len);
        proof {
            assert(rest@ =~= m@.skip(1));
        }
        return Ok((None, rest));
    }
    let (mon, rest) = match parse_month(m) {
        Ok(p) => p,
        Err(e) => return Err(e),
    };
    let rest = match expect_char(rest, ' ') {
        Ok(r) => r,
        Err(e) => return Err(e),
    };
    let rest = skip_char(rest, ' ');
    let (mday, rest) = match parse_num(rest, 1, 2) {
        Ok(p) => p,
        Err(e) => return Err(e),
    };
    let rest = match expect_char(rest, ' ') {
        Ok(r) => r,
        Err(e) => return Err(e),
    };
    let (hour, rest) = match parse_num(rest, 2, 2) {
        Ok(p) => p,
        Err(e) => return Err(e),
    };
    let rest = match expect_char(rest, ':') {
        Ok(r) => r,
        Err(e) => return Err(e),
    };
    let (minute, rest) = match parse_num(rest, 2, 2) {
        Ok(p) => p,
        Err(e) => return Err(e),
    };
    let rest = match expect_char(rest, ':') {
        Ok(r) => r,
        Err(e) => return Err(e),
    };
    let (second, rest) = match parse_num(rest, 2, 2) {
        Ok(p) => p,
        Err(e) => return Err(e),
    };
    let maybe_rest = skip_char(rest, ' ');
    let (tm_year, rest) = match parse_num(maybe_rest, 4, 4) {
        Ok((year, r11)) => (year - 1900, r11),
        Err(_) => (now_tm_year, rest),
    };
    let epoch = epoch_secs(tm_year, mon - 1, mday, hour, minute, second);
    Ok((Some(epoch), rest))
}

// ----------------------------------------------------------------------------
// The message assembler.

/// The decoded fields of a line, as the model sees them: severity, facility,
/// optional timestamp, optional hostname, optional process-identifier token
/// (still uninterpreted text), optional tag, and the message body.
pub open spec fn sp_parse_message(s: Seq<char>, now_tm_year: int) -> Result<
    (
        SyslogSeverity,
        SyslogFacility,
        Option<int>,
        Option<Seq<char>>,
        Option<Seq<char>>,
        Option<Seq<char>>,
        Seq<char>,
    ),
    SpecErr,
> {
    match sp_take_char(s, '<') {
        Err(e) => Err(e),
        Ok(r1) => match sp_parse_num(r1, 1, 3) {
            Err(e) => Err(e),
            Ok((pri, r2)) => match sp_take_char(r2, '>') {
                Err(e) => Err(e),
                Ok(r3) => match sp_parse_pri(pri) {
                    Err(e) => Err(e),
                    Ok((sev, fac)) => match sp_parse_timestamp(r3, now_tm_year) {
                        Err(e) => Err(e),
                        Ok((ts, r4)) => match sp_take_char(r4, ' ') {
                            Err(e) => Err(e),
                            Ok(r5) => match sp_parse_hostname(r5) {
                                Err(e) => Err(e),
                                Ok((host, r6)) => {
                                    let r7 = sp_maybe_char(r6, '[');
                                    let r8 = sp_maybe_char(r7, ' ');
                                    let (pid_tok, r9) = match sp_parse_hostname(r8) {
                                        Ok((Some(tok), rp)) => (
                                            Some(tok),
                                            sp_maybe_char(rp, ' '),
                                        ),
                                        Ok((None, _)) => (None, r8),
                                        Err(_) => (None, r8),
                                    };
                                    match sp_parse_term(r9, 1, 255) {
                                        Err(e) => Err(e),
                                        Ok((tag, r10)) => {
                                            let body = sp_maybe_char(r10, ' ');
                                            Ok((sev, fac, ts, host, pid_tok, tag, body))
                                        },
                                    }
                                },
                            },
                        },
                    },
                },
            },
        },
    }
}

/// How a captured process-identifier token becomes the field: the numeric
/// variant when the token is a valid signed 32-bit decimal, the name variant
/// holding the token verbatim otherwise.
pub open spec fn proc_id_matches(p: ProcIdType, tok: Seq<char>) -> bool {
    if is_i32_token(tok) {
        p matches ProcIdType::PID(n) && n as int == i32_token_val(tok)
    } else {
        p matches ProcIdType::Name(nm) && nm@ == tok
    }
}

/// Whether a decode result agrees with the model of the line: same error, or
/// a record whose fields carry exactly the model's values, with version 0 and
/// the process-identifier token interpreted by `proc_id_matches`.
pub open spec fn msg_matches_model(
    r: Result<SyslogMessage, ParseErr>,
    m: Result<
        (
            SyslogSeverity,
            SyslogFacility,
            Option<int>,
            Option<Seq<char>>,
            Option<Seq<char>>,
            Option<Seq<char>>,
            Seq<char>,
        ),
        SpecErr,
    >,
) -> bool {
    match (r, m) {
        (Ok(rec), Ok(mm)) => {
            &&& rec.severity == mm.0
            &&& rec.facility == mm.1
            &&& rec.version == 0
            &&& match (rec.timestamp, mm.2) {
                (Some(t), Some(mt)) => t as int == mt,
                (None, None) => true,
                _ => false,
            }
            &&& match (rec.hostname, mm.3) {
                (Some(h), Some(mh)) => h@ == mh,
                (None, None) => true,
                _ => false,
            }
            &&& match (rec.proc_id, mm.4) {
                (Some(p), Some(tok)) => proc_id_matches(p, tok),
                (None, None) => true,
                _ => false,
            }
            &&& match (rec.tag, mm.5) {
                (Some(t), Some(mt)) => t@ == mt,
                (None, None) => true,
                _ => false,
            }
            &&& rec.msg@ == mm.6
        },
        (Err(e), Err(me)) => err_view(e) == me,
        _ => false,
    }
}

/// Decodes one line against the model, with `now_tm_year` standing in for
/// the current year (minus 1900) wherever a timestamp has no year of its own.
fn parse_message_core(s: &str, now_tm_year: i32) -> (r: Result<SyslogMessage, ParseErr>)
    ensures
        msg_matches_model(r, sp_parse_message(s@, now_tm_year as int)),
{
    let rest = match expect_char(s, '<') {
        Ok(r) => r,
        Err(e) => return Err(e),
    };
    let (prival, rest) = match parse_num(rest, 1, 3) {
        Ok(p) => p,
        Err(e) => return Err(e),
    };
    let rest = match expect_char(rest, '>') {
        Ok(r) => r,
        Err(e) => return Err(e),
    };
    let (sev, fac) = match parse_pri_val(prival) {
        Ok(p) => p,
        Err(e) => return Err(e),
    };
    let (timestamp, rest) = match parse_timestamp(rest, now_tm_year) {
        Ok(p) => p,
        Err(e) => return Err(e),
    };
    let rest = match expect_char(rest, ' ') {
        Ok(r) => r,
        Err(e) => return Err(e),
    };
    let (hostname, rest) = match parse_hostname(rest) {
        Ok(p) => p,
        Err(e) => return Err(e),
    };
    let rest = skip_char(rest, '[');
    let rest = skip_char(rest, ' ');
    let (proc_id, rest) = match parse_hostname(rest) {
        Ok((Some(tok), r2)) => {
            let p = match parse_i32_token(tok.as_str()) {
                Some(n) => ProcIdType::PID(n),
                None => ProcIdType::Name(tok),
            };
            (Some(p), skip_char(r2, ' '))
        },
        Ok((None, _)) => (None, rest),
        Err(_) => (None, rest),
    };
    let (tag, rest) = match parse_term(rest, 1, 255) {
        Ok(p) => p,
        Err(e) => return Err(e),
    };
    let rest = skip_char(rest, ' ');
    let msg = rest.to_owned();
    Ok(
        SyslogMessage {
            severity: sev,
            facility: fac,
            version: 0,
            timestamp,
            hostname,
            proc_id,
            tag,
            msg,
        },
    )
}

/// Decodes one syslog line into a record, with `year` supplied by the caller
/// in place of the system clock: any timestamp without a year of its own is
/// completed with `year`. This keeps the decode a pure function of its
/// arguments.
pub fn parse_message_with_year(s: &str, year: i32) -> (r: Result<SyslogMessage, ParseErr>)
    requires
        year >= i32::MIN + 1900,
    ensures
        msg_matches_model(r, sp_parse_message(s@, year - 1900)),
{
    parse_message_core(s, year - 1900)
}

/// Decodes one syslog line into a record. A timestamp without a year of its
/// own is completed with the current system year, so the result of this
/// entry point near a year boundary depends on when it runs; every other
/// input decodes identically for every `y` below.
pub fn parse_message(s: &str) -> (r: Result<SyslogMessage, ParseErr>)
    ensures
        exists|y: int| msg_matches_model(r, sp_parse_message(s@, y)),
{
    let now_year = crate::clock::current_tm_year();
    let r = parse_message_core(s, now_year);
    proof {
        assert(msg_matches_model(r, sp_parse_message(s@, now_year as int)));
    }
    r
}

// ----------------------------------------------------------------------------
// Decoder-wide laws.

/// A `-` in place of the timestamp, hostname or tag always decodes as an
/// absent field and consumes exactly the placeholder character, whatever
/// follows it. (The process-identifier field shares the hostname grammar, so
/// a `-` at its position likewise yields an absent field.)
pub proof fn lemma_dash_is_absent(s: Seq<char>, now_tm_year: int, min_length: int, max_length: int)
    requires
        s.len() > 0,
        s[0] == '-',
    ensures
        sp_parse_timestamp(s, now_tm_year) == Ok::<_, SpecErr>((None::<int>, s.skip(1))),
        sp_parse_hostname(s) == Ok::<_, SpecErr>((None::<Seq<char>>, s.skip(1))),
        sp_parse_term(s, min_length, max_length) == Ok::<_, SpecErr>(
            (None::<Seq<char>>, s.skip(1)),
        ),
{
}

/// Captured hostname and tag tokens never exceed 255 characters, and a token
/// whose first character is already a terminator is rejected as too short.
pub proof fn lemma_token_bounds(s: Seq<char>)
    ensures
        sp_parse_hostname(s) matches Ok((Some(tok), _)) ==> 1 <= tok.len() <= 255,
        sp_parse_term(s, 1, 255) matches Ok((Some(tok), _)) ==> 1 <= tok.len() <= 255,
        s.len() > 0 && s[0] != '-' && !is_hostname_char(s[0]) ==> sp_parse_hostname(s) == Err::<
            (Option<Seq<char>>, Seq<char>),
            SpecErr,
        >(SpecErr::TooFewDigits),
        s.len() > 0 && s[0] != '-' && !is_printable_char(s[0]) ==> sp_parse_term(s, 1, 255)
            == Err::<(Option<Seq<char>>, Seq<char>), SpecErr>(SpecErr::TooFewDigits),
{
    if s.len() > 0 && s[0] == '-' {
    } else {
        match scan_stop(s, hostname_pred(), 255) {
            Some(n) => {
                lemma_scan_stop_some(s, hostname_pred(), 255, n);
            },
            None => {},
        }
        match scan_stop(s, printable_pred(), 255) {
            Some(n) => {
                lemma_scan_stop_some(s, printable_pred(), 255, n);
            },
            None => {
                lemma_scan_stop_none(s, printable_pred(), 255);
            },
        }
        if s.len() > 0 && !is_hostname_char(s[0]) {
            lemma_scan_stop_from_props(s, hostname_pred(), 255, 0);
        }
        if s.len() > 0 && !is_printable_char(s[0]) {
            lemma_scan_stop_from_props(s, printable_pred(), 255, 0);
        }
    }
}

} // verus!

