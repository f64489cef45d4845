//! The wall-clock instant attached to a booking, at minute precision.
//!
//! The booking system prints one date line per page (`YY-MM-DD`) and one
//! time-of-day per row (`HH:MM`); both are combined here into a validated
//! calendar value, treated as UTC without any timezone conversion.

use vstd::prelude::*;
use vstd::string::StrSliceExecFns;
use vstd::string::StringExecFns;

verus! {

/// One booked slot's wall-clock time, minute precision.
#[derive(Clone, Copy, PartialEq, Eq, Structural, Debug)]
pub struct SlotTime {
    pub year: u16,
    pub month: u8,
    pub day: u8,
    pub hour: u8,
    pub minute: u8,
}

pub open spec fn is_leap(y: int) -> bool {
    y % 4 == 0 && (y % 100 != 0 || y % 400 == 0)
}

pub open spec fn days_in_month(y: int, m: int) -> int {
    if m == 2 {
        if is_leap(y) {
            29
        } else {
            28
        }
    } else if m == 4 || m == 6 || m == 9 || m == 11 {
        30
    } else {
        31
    }
}

impl SlotTime {
    /// A well-formed calendar value in the range a two-digit year can denote.
    pub open spec fn wf(self) -> bool {
        &&& 1969 <= self.year <= 2068
        &&& 1 <= self.month <= 12
        &&& 1 <= self.day <= days_in_month(self.year as int, self.month as int)
        &&& self.hour <= 23
        &&& self.minute <= 59
    }
}

pub open spec fn is_digit(c: char) -> bool {
    48 <= c as u32 <= 57
}

pub open spec fn dval(c: char) -> int {
    c as u32 - 48
}

pub open spec fn two_digits(s: Seq<char>, i: int) -> bool {
    is_digit(s[i]) && is_digit(s[i + 1])
}

pub open spec fn val2(s: Seq<char>, i: int) -> int {
    dval(s[i]) * 10 + dval(s[i + 1])
}

/// The century a two-digit year denotes: 00..=68 map to 2000..=2068,
/// 69..=99 map to 1969..=1999.
pub open spec fn full_year(yy: int) -> int {
    if yy <= 68 {
        2000 + yy
    } else {
        1900 + yy
    }
}

pub open spec fn date_shape(s: Seq<char>) -> bool {
    &&& s.len() == 8
    &&& two_digits(s, 0)
    &&& s[2] == '-'
    &&& two_digits(s, 3)
    &&& s[5] == '-'
    &&& two_digits(s, 6)
}

pub open spec fn time_shape(s: Seq<char>) -> bool {
    &&& s.len() == 5
    &&& two_digits(s, 0)
    &&& s[2] == ':'
    &&& two_digits(s, 3)
}

/// What parsing a `YY-MM-DD` date line together with an `HH:MM` time cell
/// yields: a well-formed slot, or nothing when the shape or the calendar
/// ranges are violated.
pub open spec fn slot_of(date: Seq<char>, time: Seq<char>) -> Option<SlotTime> {
    if date_shape(date) && time_shape(time) {
        let st = SlotTime {
            year: full_year(val2(date, 0)) as u16,
            month: val2(date, 3) as u8,
            day: val2(date, 6) as u8,
            hour: val2(time, 0) as u8,
            minute: val2(time, 3) as u8,
        };
        if st.wf() {
            Some(st)
        } else {
            None
        }
    } else {
        None
    }
}

fn digit_val(c: char) -> (r: Option<u8>)
    ensures
        r is Some <==> is_digit(c),
        r is Some ==> r->0 == dval(c) && r->0 <= 9,
{
    let u = c as u32;
    if 48 <= u && u <= 57 {
        Some((u - 48) as u8)
    } else {
        None
    }
}

fn field2(s: &str, i: usize) -> (r: Option<u8>)
    requires
        i <= 6,
        i + 1 < s@.len(),
    ensures
        r is Some <==> two_digits(s@, i as int),
        r is Some ==> r->0 == val2(s@, i as int) && r->0 <= 99,
{
    let a = digit_val(s.get_char(i));
    let b = digit_val(s.get_char(i + 1));
    match (a, b) {
        (Some(x), Some(y)) => Some(10 * x + y),
        _ => None,
    }
}

/// Parses the page's date line and a row's time cell into a slot,
/// mirroring a strict `YY-MM-DD HH:MM` two-digit format with full
/// calendar validation.
pub fn parse_slot(date: &str, time: &str) -> (r: Option<SlotTime>)
    ensures
        r == slot_of(date@, time@),
{
    if date.unicode_len() != 8 || time.unicode_len() != 5 {
        return None;
    }
    if date.get_char(2) != '-' || date.get_char(5) != '-' || time.get_char(2) != ':' {
        return None;
    }
    let yy = match field2(date, 0) {
        Some(v) => v,
        None => {
            return None;
        },
    };
    let mm = match field2(date, 3) {
        Some(v) => v,
        None => {
            return None;
        },
    };
    let dd = match field2(date, 6) {
        Some(v) => v,
        None => {
            return None;
        },
    };
    let hh = match field2(time, 0) {
        Some(v) => v,
        None => {
            return None;
        },
    };
    let mi = match field2(time, 3) {
        Some(v) => v,
        None => {
            return None;
        },
    };
    let year: u16 = if yy <= 68 {
        2000 + yy as u16
    } else {
        1900 + yy as u16
    };
    let st = SlotTime { year, month: mm, day: dd, hour: hh, minute: mi };
    let leap: bool = year % 4 == 0 && (year % 100 != 0 || year % 400 == 0);
    let dim: u8 = if mm == 2 {
        if leap {
            29
        } else {
            28
        }
    } else if mm == 4 || mm == 6 || mm == 9 || mm == 11 {
        30
    } else {
        31
    };
    if 1 <= mm && mm <= 12 && 1 <= dd && dd <= dim && hh <= 23 && mi <= 59 {
        Some(st)
    } else {
        None
    }
}

pub open spec fn digit_char(d: int) -> char {
    if d == 0 {
        '0'
    } else if d == 1 {
        '1'
    } else if d == 2 {
        '2'
    } else if d == 3 {
        '3'
    } else if d == 4 {
        '4'
    } else if d == 5 {
        '5'
    } else if d == 6 {
        '6'
    } else if d == 7 {
        '7'
    } else if d == 8 {
        '8'
    } else {
        '9'
    }
}

/// The twelve-digit `YYYYMMDDHHMM` rendering used to prefix file names.
pub open spec fn compact_spec(st: SlotTime) -> Seq<char> {
    seq![
        digit_char(st.year as int / 1000 % 10),
        digit_char(st.year as int / 100 % 10),
        digit_char(st.year as int / 10 % 10),
        digit_char(st.year as int % 10),
        digit_char(st.month as int / 10),
        digit_char(st.month as int % 10),
        digit_char(st.day as int / 10),
        digit_char(st.day as int % 10),
        digit_char(st.hour as int / 10),
        digit_char(st.hour as int % 10),
        digit_char(st.minute as int / 10),
        digit_char(st.minute as int % 10),
    ]
}

fn push_digit(s: &mut String, d: u8)
    requires
        d <= 9,
    ensures
        final(s)@ == old(s)@ + seq![digit_char(d as int)],
{
    proof {
        reveal_strlit("0");
        reveal_strlit("1");
        reveal_strlit("2");
        reveal_strlit("3");
        reveal_strlit("4");
        reveal_strlit("5");
        reveal_strlit("6");
        reveal_strlit("7");
        reveal_strlit("8");
        reveal_strlit("9");
    }
    if d == 0 {
        s.append("0");
        assert(final(s)@ =~= old(s)@ + seq![digit_char(d as int)]);
    } else if d == 1 {
        s.append("1");
        assert(final(s)@ =~= old(s)@ + seq![digit_char(d as int)]);
    } else if d == 2 {
        s.append("2");
        assert(final(s)@ =~= old(s)@ + seq![digit_char(d as int)]);
    } else if d == 3 {
        s.append("3");
        assert(final(s)@ =~= old(s)@ + seq![digit_char(d as int)]);
    } else if d == 4 {
        s.append("4");
        assert(final(s)@ =~= old(s)@ + seq![digit_char(d as int)]);
    } else if d == 5 {
        s.append("5");
        assert(final(s)@ =~= old(s)@ + seq![digit_char(d as int)]);
    } else if d == 6 {
        s.append("6");
        assert(final(s)@ =~= old(s)@ + seq![digit_char(d as int)]);
    } else if d == 7 {
        s.append("7");
        assert(final(s)@ =~= old(s)@ + seq![digit_char(d as int)]);
    } else if d == 8 {
        s.append("8");
        assert(final(s)@ =~= old(s)@ + seq![digit_char(d as int)]);
    } else {
        s.append("9");
        assert(final(s)@ =~= old(s)@ + seq![digit_char(d as int)]);
    }
}

impl SlotTime {
    /// Renders the slot as `YYYYMMDDHHMM`.
    pub fn compact(&self) -> (r: String)
        requires
            self.wf(),
        ensures
            r@ == compact_spec(*self),
    {
        let mut s = String::new();
        push_digit(&mut s, ((self.year / 1000) % 10) as u8);
        push_digit(&mut s, ((self.year / 100) % 10) as u8);
        push_digit(&mut s, ((self.year / 10) % 10) as u8);
        push_digit(&mut s, (self.year % 10) as u8);
        push_digit(&mut s, self.month / 10);
        push_digit(&mut s, self.month % 10);
        push_digit(&mut s, self.day / 10);
        push_digit(&mut s, self.day % 10);
        push_digit(&mut s, self.hour / 10);
        push_digit(&mut s, self.hour % 10);
        push_digit(&mut s, self.minute / 10);
        push_digit(&mut s, self.minute % 10);
        proof {
            assert(s@ =~= compact_spec(*self));
        }
        s
    }
}

} // verus!
