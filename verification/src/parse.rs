//! Field decoders: pure functions that convert one textual cell into a
//! typed value, or fail with a classified field-level error.
//!
//! The accepted grammars are stated as spec functions over the cell's
//! characters and each decoder is proved to accept exactly its grammar:
//! unsigned integers are one or more decimal digits whose value fits the
//! target type; decimal numbers are an optional sign, an integer part and
//! an optional fractional part; times of day are `H:MM:SS` or `HH:MM:SS`
//! with hours unbounded above 23 (service days may run past midnight) and
//! minutes and seconds below 60; the small closed enumerations accept only
//! their single-digit codes.

use vstd::prelude::*;
use vstd::std_specs::iter::IteratorSpec;

use crate::error::{dec_str, digit_char, ParseError, ParseErrorV};
use crate::transit::{
    DropoffType, LocationType, PickupType, TimeOffset, WheelchairBoarding,
};

verus! {

broadcast use vstd::string::axiom_spec_iter, vstd::string::next_postcondition;

/// Whether `c` is a decimal digit.
pub open spec fn is_digit(c: char) -> bool {
    48 <= c as u32 && c as u32 <= 57
}

/// The value of the decimal digit `c`.
pub open spec fn digit_val(c: char) -> nat {
    (c as u32 - 48) as nat
}

/// The value of the digit string `s`, most significant digit first.
pub open spec fn uint_val(s: Seq<char>) -> nat
    decreases s.len(),
{
    if s.len() == 0 {
        0
    } else {
        uint_val(s.drop_last()) * 10 + digit_val(s.last())
    }
}

/// Whether `s` consists of one or more decimal digits.
pub open spec fn is_uint_string(s: Seq<char>) -> bool {
    s.len() >= 1 && forall|i: int| 0 <= i < s.len() ==> is_digit(s[i])
}

/// The characters of `s`, as a vector.
pub fn chars_of(s: &str) -> (r: Vec<char>)
    ensures
        r@ == s@,
{
    let mut it = s.chars();
    let mut out: Vec<char> = Vec::new();
    loop
        invariant
            out@ + it.remaining() == s@,
            it.decrease() is Some,
        decreases it.decrease()->Some_0,
    {
        match it.next() {
            Some(c) => {
                out.push(c);
            },
            None => {
                proof {
                    assert(out@ =~= s@);
                }
                return out;
            },
        }
    }
}

/// Whether the strings `a` and `b` hold the same characters.
pub fn str_eq(a: &str, b: &str) -> (r: bool)
    ensures
        r == (a@ == b@),
{
    let av = chars_of(a);
    let bv = chars_of(b);
    if av.len() != bv.len() {
        return false;
    }
    let mut i: usize = 0;
    while i < av.len()
        invariant
            av@ == a@,
            bv@ == b@,
            av@.len() == bv@.len(),
            0 <= i <= av@.len(),
            forall|k: int| 0 <= k < i ==> av@[k] == bv@[k],
        decreases av@.len() - i,
    {
        if av[i] != bv[i] {
            return false;
        }
        i += 1;
    }
    proof {
        assert(a@ =~= b@);
    }
    true
}

/// A longer digit string with the same digits never has a smaller value.
proof fn lemma_uint_val_grows(s: Seq<char>, i: int, j: int)
    requires
        0 <= i <= j <= s.len(),
    ensures
        uint_val(s.take(i)) <= uint_val(s.take(j)),
    decreases j - i,
{
    if i < j {
        lemma_uint_val_grows(s, i, j - 1);
        assert(s.take(j).drop_last() =~= s.take(j - 1));
        assert(uint_val(s.take(j)) == uint_val(s.take(j - 1)) * 10 + digit_val(s.take(j).last()));
    }
}

/// Decode an unsigned integer cell: one or more decimal digits whose value
/// fits in `u64`.
pub fn parse_int(cell: &str) -> (r: Result<u64, ParseError>)
    ensures
        match r {
            Ok(v) => is_uint_string(cell@) && v as nat == uint_val(cell@),
            Err(e) => !(is_uint_string(cell@) && uint_val(cell@) <= u64::MAX) && e@
                == ParseErrorV::ParseInt(cell@),
        },
{
    let cv = chars_of(cell);
    if cv.len() == 0 {
        return Err(ParseError::ParseInt(cell.to_owned()));
    }
    let mut v: u64 = 0;
    let mut i: usize = 0;
    while i < cv.len()
        invariant
            cv@ == cell@,
            0 <= i <= cv@.len(),
            forall|k: int| 0 <= k < i ==> is_digit(cv@[k]),
            v as nat == uint_val(cell@.take(i as int)),
        decreases cv@.len() - i,
    {
        let cu: u32 = cv[i] as u32;
        if cu < 48 || cu > 57 {
            return Err(ParseError::ParseInt(cell.to_owned()));
        }
        let d: u64 = (cu - 48) as u64;
        proof {
            assert(cell@.take(i + 1).drop_last() =~= cell@.take(i as int));
            assert(uint_val(cell@.take(i + 1)) == v as nat * 10 + d as nat);
        }
        let step: Option<u64> = v.checked_mul(10);
        match step {
            Some(x) => {
                match x.checked_add(d) {
                    Some(nv) => {
                        v = nv;
                    },
                    None => {
                        proof {
                            lemma_uint_val_grows(cell@, i + 1, cell@.len() as int);
                            assert(cell@.take(cell@.len() as int) =~= cell@);
                        }
                        return Err(ParseError::ParseInt(cell.to_owned()));
                    },
                }
            },
            None => {
                proof {
                    lemma_uint_val_grows(cell@, i + 1, cell@.len() as int);
                    assert(cell@.take(cell@.len() as int) =~= cell@);
                }
                return Err(ParseError::ParseInt(cell.to_owned()));
            },
        }
        i += 1;
    }
    proof {
        assert(cell@.take(i as int) =~= cell@);
    }
    Ok(v)
}

/// Whether `s` is an unsigned decimal number: all digits, or digits on
/// both sides of one point.
pub open spec fn is_unsigned_decimal(s: Seq<char>) -> bool {
    is_uint_string(s) || (exists|i: int|
        0 <= i < s.len() && #[trigger] s[i] == '.' && is_uint_string(s.take(i)) && is_uint_string(
            s.skip(i + 1),
        ))
}

/// Where the number proper starts: after a leading sign, if there is one.
pub open spec fn sign_start(s: Seq<char>) -> int {
    if s.len() >= 1 && (s[0] == '+' || s[0] == '-') {
        1
    } else {
        0
    }
}

/// Whether `s` is a decimal number: an optional sign, then an unsigned
/// decimal number.
pub open spec fn is_decimal_string(s: Seq<char>) -> bool {
    is_unsigned_decimal(s.skip(sign_start(s)))
}

/// Check the digits of `cv@[from..to]`; `true` exactly when that range is
/// one or more digits.
fn digits_range(cv: &Vec<char>, from: usize, to: usize) -> (r: bool)
    requires
        0 <= from <= to <= cv@.len(),
    ensures
        r == is_uint_string(cv@.subrange(from as int, to as int)),
{
    if from == to {
        return false;
    }
    let mut i: usize = from;
    while i < to
        invariant
            0 <= from <= i <= to <= cv@.len(),
            forall|k: int| from <= k < i ==> is_digit(cv@[k]),
        decreases to - i,
    {
        let cu: u32 = cv[i] as u32;
        if cu < 48 || cu > 57 {
            assert(!is_digit(cv@.subrange(from as int, to as int)[i - from]));
            return false;
        }
        i += 1;
    }
    assert forall|k: int| 0 <= k < to - from implies is_digit(
        cv@.subrange(from as int, to as int)[k],
    ) by {
        assert(is_digit(cv@[from + k]));
    }
    true
}

/// With two points after the sign, `s` is not a decimal number.
proof fn lemma_two_dots_not_decimal(s: Seq<char>, d1: int, d2: int)
    requires
        sign_start(s) <= d1 < d2 < s.len(),
        s[d1] == '.',
        s[d2] == '.',
    ensures
        !is_decimal_string(s),
{
    let st = sign_start(s);
    let body = s.skip(st);
    assert(body[d1 - st] == '.');
    assert(!is_digit('.'));
    assert(!is_uint_string(body));
    assert forall|i: int|
        0 <= i < body.len() && #[trigger] body[i] == '.' implies !(is_uint_string(body.take(i))
        && is_uint_string(body.skip(i + 1))) by {
        if i >= d2 - st {
            assert(body.take(i)[d1 - st] == '.');
        } else {
            assert(body.skip(i + 1)[d2 - st - i - 1] == '.');
        }
    }
}

/// Relates the executable shape checks to `is_decimal_string`, given that
/// the point at `dot` (when there is one) is the only point after the
/// sign.
proof fn lemma_decimal_shape(s: Seq<char>, dot: Option<int>)
    requires
        match dot {
            Some(d) => sign_start(s) <= d < s.len() && s[d] == '.' && forall|k: int|
                sign_start(s) <= k < s.len() && k != d ==> s[k] != '.',
            None => forall|k: int| sign_start(s) <= k < s.len() ==> s[k] != '.',
        },
    ensures
        match dot {
            Some(d) => is_decimal_string(s) == (is_uint_string(s.subrange(sign_start(s), d))
                && is_uint_string(s.subrange(d + 1, s.len() as int))),
            None => is_decimal_string(s) == is_uint_string(
                s.subrange(sign_start(s), s.len() as int),
            ),
        },
{
    let st = sign_start(s);
    let body = s.skip(st);
    assert(!is_digit('.'));
    match dot {
        Some(d) => {
            assert(body[d - st] == '.');
            assert(!is_uint_string(body));
            assert(body.take(d - st) =~= s.subrange(st, d));
            assert(body.skip(d - st + 1) =~= s.subrange(d + 1, s.len() as int));
            if is_uint_string(s.subrange(st, d)) && is_uint_string(
                s.subrange(d + 1, s.len() as int),
            ) {
                assert(is_unsigned_decimal(body));
            }
            if is_unsigned_decimal(body) {
                let i = choose|i: int|
                    0 <= i < body.len() && #[trigger] body[i] == '.' && is_uint_string(
                        body.take(i),
                    ) && is_uint_string(body.skip(i + 1));
                assert(s[i + st] == '.');
                assert(i == d - st);
            }
        },
        None => {
            assert(body =~= s.subrange(st, s.len() as int));
            if is_unsigned_decimal(body) && !is_uint_string(body) {
                let i = choose|i: int|
                    0 <= i < body.len() && #[trigger] body[i] == '.' && is_uint_string(
                        body.take(i),
                    ) && is_uint_string(body.skip(i + 1));
                assert(s[i + st] == '.');
            }
        },
    }
}

/// Decode a decimal-number cell, keeping its validated text: an optional
/// sign, an integer part, and an optional fractional part.
pub fn parse_float(cell: &str) -> (r: Result<String, ParseError>)
    ensures
        match r {
            Ok(v) => is_decimal_string(cell@) && v@ == cell@,
            Err(e) => !is_decimal_string(cell@) && e@ == ParseErrorV::ParseFloat(cell@),
        },
{
    let cv = chars_of(cell);
    let start: usize = if cv.len() >= 1 && (cv[0] == '+' || cv[0] == '-') {
        1
    } else {
        0
    };
    assert(start as int == sign_start(cell@));
    // find the point, if any, and refuse a second one
    let mut dot: Option<usize> = None;
    let mut i: usize = start;
    while i < cv.len()
        invariant
            cv@ == cell@,
            start as int == sign_start(cell@),
            start <= i <= cv@.len(),
            match dot {
                Some(d) => start <= d < i && cv@[d as int] == '.' && forall|k: int|
                    start <= k < i && k != d ==> cv@[k] != '.',
                None => forall|k: int| start <= k < i ==> cv@[k] != '.',
            },
        decreases cv@.len() - i,
    {
        if cv[i] == '.' {
            match dot {
                Some(d) => {
                    proof {
                        lemma_two_dots_not_decimal(cell@, d as int, i as int);
                    }
                    return Err(ParseError::ParseFloat(cell.to_owned()));
                },
                None => {
                    dot = Some(i);
                },
            }
        }
        i += 1;
    }
    let ok: bool = match dot {
        Some(d) => {
            proof {
                lemma_decimal_shape(cell@, Some(d as int));
            }
            let intpart = digits_range(&cv, start, d);
            let fracpart = digits_range(&cv, d + 1, cv.len());
            intpart && fracpart
        },
        None => {
            proof {
                lemma_decimal_shape(cell@, None);
            }
            digits_range(&cv, start, cv.len())
        },
    };
    if ok {
        Ok(cell.to_owned())
    } else {
        Err(ParseError::ParseFloat(cell.to_owned()))
    }
}

/// Whether `s` is a time of day `H:MM:SS` or `HH:MM:SS`: hours of one or
/// two digits (unbounded above 23), minutes and seconds of two digits each
/// and below 60.
pub open spec fn is_time_string(s: Seq<char>) -> bool {
    &&& (s.len() == 7 || s.len() == 8)
    &&& (forall|i: int| 0 <= i < s.len() - 6 ==> is_digit(s[i]))
    &&& s[s.len() - 6] == ':'
    &&& is_digit(s[s.len() - 5])
    &&& is_digit(s[s.len() - 4])
    &&& s[s.len() - 3] == ':'
    &&& is_digit(s[s.len() - 2])
    &&& is_digit(s[s.len() - 1])
    &&& digit_val(s[s.len() - 5]) * 10 + digit_val(s[s.len() - 4]) < 60
    &&& digit_val(s[s.len() - 2]) * 10 + digit_val(s[s.len() - 1]) < 60
}

/// The hour count written in the time string `s`.
pub open spec fn time_hours(s: Seq<char>) -> nat {
    uint_val(s.take(s.len() - 6))
}

/// The minute count written in the time string `s`.
pub open spec fn time_minutes(s: Seq<char>) -> nat {
    digit_val(s[s.len() - 5]) * 10 + digit_val(s[s.len() - 4])
}

/// The second count written in the time string `s`.
pub open spec fn time_seconds(s: Seq<char>) -> nat {
    digit_val(s[s.len() - 2]) * 10 + digit_val(s[s.len() - 1])
}

/// Decode a time-of-day cell. Hour values of 24 and above are accepted
/// and preserved: they mean a time past midnight of the same service day.
pub fn parse_timeoffset(cell: &str) -> (r: Result<TimeOffset, ParseError>)
    ensures
        match r {
            Ok(t) => is_time_string(cell@) && t.hours as nat == time_hours(cell@) && t.minutes
                as nat == time_minutes(cell@) && t.seconds as nat == time_seconds(cell@),
            Err(e) => !is_time_string(cell@) && e@ == ParseErrorV::ParseTime(cell@),
        },
{
    let cv = chars_of(cell);
    if !(cv.len() == 7 || cv.len() == 8) {
        return Err(ParseError::ParseTime(cell.to_owned()));
    }
    let hl: usize = cv.len() - 6;
    let c0: u32 = cv[0] as u32;
    if c0 < 48 || c0 > 57 {
        return Err(ParseError::ParseTime(cell.to_owned()));
    }
    let hours: u32;
    if hl == 2 {
        let c1: u32 = cv[1] as u32;
        if c1 < 48 || c1 > 57 {
            return Err(ParseError::ParseTime(cell.to_owned()));
        }
        hours = (c0 - 48) * 10 + (c1 - 48);
        proof {
            let hd = cell@.take(2);
            assert(hd.drop_last() =~= cell@.take(1));
            assert(hd.last() == cell@[1]);
            assert(cell@.take(1).drop_last() =~= Seq::<char>::empty());
            assert(cell@.take(1).last() == cell@[0]);
            assert(uint_val(Seq::<char>::empty()) == 0);
            assert(uint_val(cell@.take(1)) == digit_val(cell@[0]));
        }
    } else {
        hours = c0 - 48;
        proof {
            assert(cell@.take(1).drop_last() =~= Seq::<char>::empty());
            assert(cell@.take(1).last() == cell@[0]);
            assert(uint_val(Seq::<char>::empty()) == 0);
            assert(uint_val(cell@.take(1)) == digit_val(cell@[0]));
        }
    }
    if cv[hl] != ':' || cv[hl + 3] != ':' {
        return Err(ParseError::ParseTime(cell.to_owned()));
    }
    let m0: u32 = cv[hl + 1] as u32;
    let m1: u32 = cv[hl + 2] as u32;
    if m0 < 48 || m0 > 57 || m1 < 48 || m1 > 57 {
        return Err(ParseError::ParseTime(cell.to_owned()));
    }
    let minutes: u32 = (m0 - 48) * 10 + (m1 - 48);
    if minutes >= 60 {
        return Err(ParseError::ParseTime(cell.to_owned()));
    }
    let s0: u32 = cv[hl + 4] as u32;
    let s1: u32 = cv[hl + 5] as u32;
    if s0 < 48 || s0 > 57 || s1 < 48 || s1 > 57 {
        return Err(ParseError::ParseTime(cell.to_owned()));
    }
    let seconds: u32 = (s0 - 48) * 10 + (s1 - 48);
    if seconds >= 60 {
        return Err(ParseError::ParseTime(cell.to_owned()));
    }
    Ok(TimeOffset { hours, minutes, seconds })
}

/// The pickup policy that the single-digit code `s` names.
pub open spec fn spec_pickup(s: Seq<char>) -> Option<PickupType> {
    if s.len() != 1 {
        None
    } else if s[0] == '0' {
        Some(PickupType::RegularlyScheduled)
    } else if s[0] == '1' {
        Some(PickupType::NoPickupAvailable)
    } else if s[0] == '2' {
        Some(PickupType::MustPhoneAgency)
    } else if s[0] == '3' {
        Some(PickupType::MustCoordinateWithDriver)
    } else {
        None
    }
}

/// Decode a pickup-policy cell: the codes `0` to `3` and nothing else.
pub fn parse_pickup_type(cell: &str) -> (r: Result<PickupType, ParseError>)
    ensures
        match r {
            Ok(v) => spec_pickup(cell@) == Some(v),
            Err(e) => spec_pickup(cell@) is None && e@ == ParseErrorV::ParseEnum(cell@),
        },
{
    let cv = chars_of(cell);
    if cv.len() == 1 {
        let c = cv[0];
        if c == '0' {
            return Ok(PickupType::RegularlyScheduled);
        }
        if c == '1' {
            return Ok(PickupType::NoPickupAvailable);
        }
        if c == '2' {
            return Ok(PickupType::MustPhoneAgency);
        }
        if c == '3' {
            return Ok(PickupType::MustCoordinateWithDriver);
        }
    }
    Err(ParseError::ParseEnum(cell.to_owned()))
}

/// The dropoff policy that the single-digit code `s` names.
pub open spec fn spec_dropoff(s: Seq<char>) -> Option<DropoffType> {
    if s.len() != 1 {
        None
    } else if s[0] == '0' {
        Some(DropoffType::RegularlyScheduled)
    } else if s[0] == '1' {
        Some(DropoffType::NoDropoffAvailable)
    } else if s[0] == '2' {
        Some(DropoffType::MustPhoneAgency)
    } else if s[0] == '3' {
        Some(DropoffType::MustCoordinateWithDriver)
    } else {
        None
    }
}

/// Decode a dropoff-policy cell: the codes `0` to `3` and nothing else.
pub fn parse_dropoff_type(cell: &str) -> (r: Result<DropoffType, ParseError>)
    ensures
        match r {
            Ok(v) => spec_dropoff(cell@) == Some(v),
            Err(e) => spec_dropoff(cell@) is None && e@ == ParseErrorV::ParseEnum(cell@),
        },
{
    let cv = chars_of(cell);
    if cv.len() == 1 {
        let c = cv[0];
        if c == '0' {
            return Ok(DropoffType::RegularlyScheduled);
        }
        if c == '1' {
            return Ok(DropoffType::NoDropoffAvailable);
        }
        if c == '2' {
            return Ok(DropoffType::MustPhoneAgency);
        }
        if c == '3' {
            return Ok(DropoffType::MustCoordinateWithDriver);
        }
    }
    Err(ParseError::ParseEnum(cell.to_owned()))
}

/// The location type that the single-digit code `s` names.
pub open spec fn spec_location_type(s: Seq<char>) -> Option<LocationType> {
    if s.len() != 1 {
        None
    } else if s[0] == '0' {
        Some(LocationType::Stop)
    } else if s[0] == '1' {
        Some(LocationType::Station)
    } else {
        None
    }
}

/// Decode a location-type cell: the codes `0` and `1` and nothing else.
pub fn parse_location_type(cell: &str) -> (r: Result<LocationType, ParseError>)
    ensures
        match r {
            Ok(v) => spec_location_type(cell@) == Some(v),
            Err(e) => spec_location_type(cell@) is None && e@ == ParseErrorV::ParseEnum(cell@),
        },
{
    let cv = chars_of(cell);
    if cv.len() == 1 {
        let c = cv[0];
        if c == '0' {
            return Ok(LocationType::Stop);
        }
        if c == '1' {
            return Ok(LocationType::Station);
        }
    }
    Err(ParseError::ParseEnum(cell.to_owned()))
}

/// The wheelchair-boarding level that the single-digit code `s` names.
pub open spec fn spec_wheelchair_boarding(s: Seq<char>) -> Option<WheelchairBoarding> {
    if s.len() != 1 {
        None
    } else if s[0] == '0' {
        Some(WheelchairBoarding::NoInformation)
    } else if s[0] == '1' {
        Some(WheelchairBoarding::SomeAccessibility)
    } else if s[0] == '2' {
        Some(WheelchairBoarding::NoAccessibility)
    } else {
        None
    }
}

/// Decode a wheelchair-boarding cell: the codes `0` to `2` and nothing
/// else.
pub fn parse_wheelchair_boarding(cell: &str) -> (r: Result<WheelchairBoarding, ParseError>)
    ensures
        match r {
            Ok(v) => spec_wheelchair_boarding(cell@) == Some(v),
            Err(e) => spec_wheelchair_boarding(cell@) is None && e@ == ParseErrorV::ParseEnum(
                cell@,
            ),
        },
{
    let cv = chars_of(cell);
    if cv.len() == 1 {
        let c = cv[0];
        if c == '0' {
            return Ok(WheelchairBoarding::NoInformation);
        }
        if c == '1' {
            return Ok(WheelchairBoarding::SomeAccessibility);
        }
        if c == '2' {
            return Ok(WheelchairBoarding::NoAccessibility);
        }
    }
    Err(ParseError::ParseEnum(cell.to_owned()))
}

/// The truth value that the calendar-day code `s` names.
pub open spec fn spec_bool(s: Seq<char>) -> Option<bool> {
    if s.len() != 1 {
        None
    } else if s[0] == '1' {
        Some(true)
    } else if s[0] == '0' {
        Some(false)
    } else {
        None
    }
}

/// Decode a calendar-day cell: `1` and `0` and nothing else.
pub fn parse_bool(cell: &str) -> (r: Result<bool, ParseError>)
    ensures
        match r {
            Ok(v) => spec_bool(cell@) == Some(v),
            Err(e) => spec_bool(cell@) is None && e@ == ParseErrorV::ParseEnum(cell@),
        },
{
    let cv = chars_of(cell);
    if cv.len() == 1 {
        let c = cv[0];
        if c == '1' {
            return Ok(true);
        }
        if c == '0' {
            return Ok(false);
        }
    }
    Err(ParseError::ParseEnum(cell.to_owned()))
}

/// The digit characters stand for their values.
proof fn lemma_digit_char_val(d: nat)
    requires
        d < 10,
    ensures
        is_digit(digit_char(d)),
        digit_val(digit_char(d)) == d,
{
}

/// Writing a number in decimal and reading it back returns the number; a
/// number below ten takes one digit, below a hundred at most two.
pub proof fn lemma_dec_str_uint(n: nat)
    ensures
        is_uint_string(dec_str(n)),
        uint_val(dec_str(n)) == n,
        dec_str(n).len() >= 1,
        n < 10 ==> dec_str(n).len() == 1,
        n < 100 ==> dec_str(n).len() <= 2,
    decreases n,
{
    if n < 10 {
        lemma_digit_char_val(n);
        let s = dec_str(n);
        assert(s == seq![digit_char(n)]);
        assert(s.drop_last() =~= Seq::<char>::empty());
        assert(s.last() == digit_char(n));
        assert(uint_val(s) == uint_val(Seq::<char>::empty()) * 10 + digit_val(digit_char(n)));
    } else {
        lemma_dec_str_uint(n / 10);
        lemma_digit_char_val(n % 10);
        let hd = dec_str(n / 10);
        let s = dec_str(n);
        assert(s == hd.push(digit_char(n % 10)));
        assert(s.drop_last() =~= hd);
        assert(s.last() == digit_char(n % 10));
        assert(uint_val(s) == uint_val(hd) * 10 + digit_val(digit_char(n % 10)));
        assert(n == (n / 10) * 10 + n % 10);
        assert forall|i: int| 0 <= i < s.len() implies is_digit(s[i]) by {
            if i < hd.len() {
                assert(s[i] == hd[i]);
            }
        }
    }
}

/// A two-digit writing of a number below a hundred.
pub open spec fn two_digits(n: nat) -> Seq<char> {
    seq![digit_char(n / 10), digit_char(n % 10)]
}

/// The canonical text of a time offset whose hours fit in two digits.
pub open spec fn time_text(t: TimeOffset) -> Seq<char> {
    dec_str(t.hours as nat) + seq![':'] + two_digits(t.minutes as nat) + seq![':'] + two_digits(
        t.seconds as nat,
    )
}

/// Writing a time offset in its canonical text and decoding it returns the
/// same hours, minutes and seconds, for every offset that has such a text:
/// hours of at most two digits, minutes and seconds below sixty.
pub proof fn lemma_time_text_round_trip(t: TimeOffset)
    requires
        t.hours < 100,
        t.minutes < 60,
        t.seconds < 60,
    ensures
        is_time_string(time_text(t)),
        time_hours(time_text(t)) == t.hours as nat,
        time_minutes(time_text(t)) == t.minutes as nat,
        time_seconds(time_text(t)) == t.seconds as nat,
{
    let s = time_text(t);
    let hd = dec_str(t.hours as nat);
    lemma_dec_str_uint(t.hours as nat);
    let hl = hd.len() as int;
    lemma_digit_char_val((t.minutes as nat) / 10);
    lemma_digit_char_val((t.minutes as nat) % 10);
    lemma_digit_char_val((t.seconds as nat) / 10);
    lemma_digit_char_val((t.seconds as nat) % 10);
    assert(s.len() == hl + 6);
    assert forall|i: int| 0 <= i < hl implies s[i] == hd[i] by {}
    assert(s[hl] == ':');
    assert(s[hl + 1] == digit_char((t.minutes as nat) / 10));
    assert(s[hl + 2] == digit_char((t.minutes as nat) % 10));
    assert(s[hl + 3] == ':');
    assert(s[hl + 4] == digit_char((t.seconds as nat) / 10));
    assert(s[hl + 5] == digit_char((t.seconds as nat) % 10));
    assert(s.take(hl) =~= hd);
    assert(t.minutes as nat == ((t.minutes as nat) / 10) * 10 + (t.minutes as nat) % 10);
    assert(t.seconds as nat == ((t.seconds as nat) / 10) * 10 + (t.seconds as nat) % 10);
    assert(time_minutes(s) == t.minutes as nat);
    assert(time_seconds(s) == t.seconds as nat);
}

} // verus!
