use vstd::prelude::*;
use std::cmp::Ordering;
use chrono::{Datelike, NaiveDateTime, Timelike};
use crate::source::{chars_of, string_of_chars};

verus! {

/// A date and time as the values that order it: days since the first day of
/// the common era, seconds since midnight, and nanoseconds within the second
/// (at least a billion during a leap second).
#[derive(Debug, Clone, Copy, PartialEq, Eq)]
pub struct DateTimeKey {
    pub day: i32,
    pub second: u32,
    pub nano: u32,
}

impl DateTimeKey {
    pub open spec fn view_tuple(self) -> (i32, u32, u32) {
        (self.day, self.second, self.nano)
    }
}

/// What parsing `text` against the format `format` gives: the key of the date
/// and time read, or the parser's message.
pub uninterp spec fn parsed_datetime(text: Seq<char>, format: Seq<char>) -> Result<
    (i32, u32, u32),
    Seq<char>,
>;

/// Relies on chrono's `NaiveDateTime::parse_from_str`, which parses `date`
/// against `date_format` and fails with a `ParseError` whose text it returns.
/// The key is read from the parsed value with `num_days_from_ce`,
/// `num_seconds_from_midnight` and `nanosecond`.
#[verifier::external_body]
fn parse_date(date: &str, date_format: &str) -> (r: Result<DateTimeKey, String>)
    ensures
        match r {
            Ok(k) => parsed_datetime(date@, date_format@) == Ok::<(i32, u32, u32), Seq<char>>(
                k.view_tuple(),
            ),
            Err(e) => parsed_datetime(date@, date_format@) == Err::<(i32, u32, u32), Seq<char>>(
                e@,
            ),
        },
{
    match NaiveDateTime::parse_from_str(date, date_format) {
        Ok(dt) => Ok(
            DateTimeKey {
                day: dt.date().num_days_from_ce(),
                second: dt.time().num_seconds_from_midnight(),
                nano: dt.time().nanosecond(),
            },
        ),
        Err(e) => Err(e.to_string()),
    }
}

/// Orders two keys as the dates and times they stand for: by day, then
/// second, then nanosecond.
pub open spec fn key_order(a: (i32, u32, u32), b: (i32, u32, u32)) -> Ordering {
    if a.0 < b.0 {
        Ordering::Less
    } else if a.0 > b.0 {
        Ordering::Greater
    } else if a.1 < b.1 {
        Ordering::Less
    } else if a.1 > b.1 {
        Ordering::Greater
    } else if a.2 < b.2 {
        Ordering::Less
    } else if a.2 > b.2 {
        Ordering::Greater
    } else {
        Ordering::Equal
    }
}

/// Compares the date and time of `a` with that of `b`.
pub fn compare_keys(a: DateTimeKey, b: DateTimeKey) -> (r: Ordering)
    ensures
        r == key_order(a.view_tuple(), b.view_tuple()),
{
    if a.day != b.day {
        if a.day < b.day {
            Ordering::Less
        } else {
            Ordering::Greater
        }
    } else if a.second != b.second {
        if a.second < b.second {
            Ordering::Less
        } else {
            Ordering::Greater
        }
    } else if a.nano < b.nano {
        Ordering::Less
    } else if a.nano > b.nano {
        Ordering::Greater
    } else {
        Ordering::Equal
    }
}

/// `d` occurs in `s` at position `i`.
pub open spec fn occurs_at(s: Seq<char>, d: Seq<char>, i: int) -> bool {
    0 <= i && i + d.len() <= s.len() && s.subrange(i, i + d.len()) == d
}

/// The first position at or after `i` where `d` occurs in `s`.
pub open spec fn first_occurrence_from(s: Seq<char>, d: Seq<char>, i: int) -> Option<int>
    decreases s.len() + 1 - i,
{
    if i < 0 || i + d.len() > s.len() {
        None
    } else if occurs_at(s, d, i) {
        Some(i)
    } else {
        first_occurrence_from(s, d, i + 1)
    }
}

/// What stands in `s` before the first occurrence of `d`, if `d` occurs.
pub open spec fn prefix_before(s: Seq<char>, d: Seq<char>) -> Option<Seq<char>> {
    match first_occurrence_from(s, d, 0) {
        Some(i) => Some(s.subrange(0, i)),
        None => None,
    }
}

/// The part of `line` before the first occurrence of `delimiter`; `None`
/// where the delimiter does not occur.
pub fn date_prefix(line: &str, delimiter: &str) -> (r: Option<String>)
    ensures
        match r {
            Some(p) => prefix_before(line@, delimiter@) == Some(p@),
            None => prefix_before(line@, delimiter@) is None,
        },
{
    let s = chars_of(line);
    let d = chars_of(delimiter);
    let mut i: usize = 0;
    while d.len() <= s.len() - i
        invariant
            s@ == line@,
            d@ == delimiter@,
            i <= s@.len(),
            first_occurrence_from(s@, d@, 0) == first_occurrence_from(s@, d@, i as int),
        decreases s@.len() - i,
    {
        let mut k: usize = 0;
        while k < d.len() && s[i + k] == d[k]
            invariant
                i + d@.len() <= s@.len(),
                s@.len() <= usize::MAX,
                k <= d@.len(),
                forall|m: int| 0 <= m < k ==> s@[i + m] == d@[m],
            decreases d@.len() - k,
        {
            k = k + 1;
        }
        if k == d.len() {
            assert(s@.subrange(i as int, i + d@.len()) =~= d@);
            let mut head: Vec<char> = Vec::new();
            let mut m: usize = 0;
            while m < i
                invariant
                    m <= i <= s@.len(),
                    head@ == s@.subrange(0, m as int),
                decreases i - m,
            {
                head.push(s[m]);
                m = m + 1;
                assert(head@ =~= s@.subrange(0, m as int));
            }
            return Some(string_of_chars(&head));
        }
        assert(s@.subrange(i as int, i + d@.len())[k as int] != d@[k as int]);
        i = i + 1;
    }
    None
}

/// The message for a line in which the delimiter does not occur.
pub open spec fn malformed_line_message(line: Seq<char>) -> Seq<char> {
    "Found badly formatted line: "@ + line
}

/// How a line whose date stands before `delimiter` compares with the target
/// date, both read with the format `date_format`.
pub open spec fn datetime_verdict(
    line: Seq<char>,
    delimiter: Seq<char>,
    target: Seq<char>,
    date_format: Seq<char>,
) -> Result<Ordering, Seq<char>> {
    match prefix_before(line, delimiter) {
        None => Err(malformed_line_message(line)),
        Some(date) => match parsed_datetime(date, date_format) {
            Err(e) => Err(e),
            Ok(a) => match parsed_datetime(target, date_format) {
                Err(e) => Err(e),
                Ok(b) => Ok(key_order(a, b)),
            },
        },
    }
}

/// A comparison result, with its message seen as characters.
pub open spec fn verdict_view(r: Result<Ordering, String>) -> Result<Ordering, Seq<char>> {
    match r {
        Ok(o) => Ok(o),
        Err(e) => Err(e@),
    }
}

/// Compares the date and time that stands before `delimiter` in `line` with
/// `target_date_str`, both read with the format `date_format`.
pub fn compare_by_datetime(line: &str, delimiter: &str, target_date_str: &str, date_format: &str) -> (r: Result<Ordering, String>)
    ensures
        verdict_view(r) == datetime_verdict(line@, delimiter@, target_date_str@, date_format@),
{
    let date = match date_prefix(line, delimiter) {
        Some(d) => d,
        None => {
            let mut message = "Found badly formatted line: ".to_owned();
            message.append(line);
            return Err(message);
        },
    };
    let parsed = match parse_date(date.as_str(), date_format) {
        Ok(k) => k,
        Err(e) => {
            return Err(e);
        },
    };
    let target = match parse_date(target_date_str, date_format) {
        Ok(k) => k,
        Err(e) => {
            return Err(e);
        },
    };
    Ok(compare_keys(parsed, target))
}

} // verus!
