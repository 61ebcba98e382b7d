//! Calendar dates and date-times, and their encoding as property values.

use vstd::prelude::*;

use crate::properties::{chars_of, string_of, Parameter, Property, PropertyModel};

verus! {

/// Whether `y` is a leap year of the proleptic Gregorian calendar.
pub open spec fn is_leap_year(y: int) -> bool {
    (y % 4 == 0 && y % 100 != 0) || y % 400 == 0
}

/// The number of days of month `m` of year `y`.
pub open spec fn days_in_month(y: int, m: int) -> int {
    if m == 2 {
        if is_leap_year(y) { 29 } else { 28 }
    } else if m == 4 || m == 6 || m == 9 || m == 11 {
        30
    } else {
        31
    }
}

/// Whether year, month and day name a day of the calendar.
pub open spec fn valid_ymd(y: int, m: int, d: int) -> bool {
    1 <= m <= 12 && 1 <= d <= days_in_month(y, m)
}

/// Relies on chrono's `NaiveDate::from_ymd_opt`, which returns `None` exactly for a
/// month or day that does not exist (years here lie well inside chrono's range).
#[verifier::external_body]
fn chrono_date_exists(year: i32, month: u32, day: u32) -> (r: bool)
    requires
        0 <= year <= 9999,
    ensures
        r == valid_ymd(year as int, month as int, day as int),
{
    chrono::NaiveDate::from_ymd_opt(year, month, day).is_some()
}

/// A calendar date with a four-digit year.
#[derive(Debug, Clone, Copy, PartialEq, Eq)]
pub struct NaiveDate {
    pub year: i32,
    pub month: u32,
    pub day: u32,
}

/// A date and a time of day to the second, with no time zone.
#[derive(Debug, Clone, Copy, PartialEq, Eq)]
pub struct NaiveDateTime {
    pub date: NaiveDate,
    pub hour: u32,
    pub minute: u32,
    pub second: u32,
}

impl NaiveDate {
    /// The date exists and its year has four digits.
    pub open spec fn wf(&self) -> bool {
        0 <= self.year <= 9999 && valid_ymd(self.year as int, self.month as int, self.day as int)
    }

    /// The date of the given year, month and day, if it exists and the year has four digits.
    pub fn from_ymd_opt(year: i32, month: u32, day: u32) -> (r: Option<NaiveDate>)
        ensures
            r is Some <==> (NaiveDate { year, month, day }).wf(),
            r is Some ==> r->0 == (NaiveDate { year, month, day }),
    {
        if 0 <= year && year <= 9999 && chrono_date_exists(year, month, day) {
            Some(NaiveDate { year, month, day })
        } else {
            None
        }
    }

    /// The date of the given year, month and day.
    pub fn from_ymd(year: i32, month: u32, day: u32) -> (r: NaiveDate)
        requires
            (NaiveDate { year, month, day }).wf(),
        ensures
            r == (NaiveDate { year, month, day }),
    {
        NaiveDate { year, month, day }
    }

    /// This date at the given time of day.
    pub fn and_hms(self, hour: u32, minute: u32, second: u32) -> (r: NaiveDateTime)
        ensures
            r == (NaiveDateTime { date: self, hour, minute, second }),
    {
        NaiveDateTime { date: self, hour, minute, second }
    }
}

impl NaiveDateTime {
    /// The date is valid and the time of day lies within one day.
    pub open spec fn wf(&self) -> bool {
        self.date.wf() && self.hour < 24 && self.minute < 60 && self.second < 60
    }
}

/// A date-time as a property carries it.
#[derive(Debug, Clone, PartialEq, Eq)]
pub enum CalendarDateTime {
    /// Local time with no zone.
    Floating(NaiveDateTime),
    /// Time in UTC.
    Utc(NaiveDateTime),
    /// Local time in a named zone, the name carried as text.
    WithTimezone { date_time: NaiveDateTime, tzid: String },
}

/// A date, or a date-time.
#[derive(Debug, Clone, PartialEq, Eq)]
pub enum DatePerhapsTime {
    DateTime(CalendarDateTime),
    Date(NaiveDate),
}

/// What a `DatePerhapsTime` is.
pub enum DateValue {
    Date(NaiveDate),
    Floating(NaiveDateTime),
    Utc(NaiveDateTime),
    Zoned(NaiveDateTime, Seq<char>),
}

impl View for DatePerhapsTime {
    type V = DateValue;

    open spec fn view(&self) -> DateValue {
        match self {
            DatePerhapsTime::Date(d) => DateValue::Date(*d),
            DatePerhapsTime::DateTime(CalendarDateTime::Floating(dt)) => DateValue::Floating(*dt),
            DatePerhapsTime::DateTime(CalendarDateTime::Utc(dt)) => DateValue::Utc(*dt),
            DatePerhapsTime::DateTime(CalendarDateTime::WithTimezone { date_time, tzid }) => {
                DateValue::Zoned(*date_time, tzid@)
            },
        }
    }
}

impl DateValue {
    /// Every date and date-time in it is valid.
    pub open spec fn wf(&self) -> bool {
        match self {
            DateValue::Date(d) => d.wf(),
            DateValue::Floating(dt) => dt.wf(),
            DateValue::Utc(dt) => dt.wf(),
            DateValue::Zoned(dt, _) => dt.wf(),
        }
    }
}

/// The digit character of `n`, for `n` below ten.
pub open spec fn digit_char(n: int) -> char {
    ((n + 48) as u8) as char
}

/// The value of a digit character.
pub open spec fn digit_value(c: char) -> int {
    (c as int) - 48
}

/// Whether `c` is one of `0` to `9`.
pub open spec fn is_digit(c: char) -> bool {
    '0' <= c <= '9'
}

/// `n` in two digits.
pub open spec fn two_digits(n: int) -> Seq<char> {
    seq![digit_char(n / 10), digit_char(n % 10)]
}

/// `n` in four digits.
pub open spec fn four_digits(n: int) -> Seq<char> {
    two_digits(n / 100) + two_digits(n % 100)
}

/// A date as `YYYYMMDD`.
pub open spec fn date_text(d: NaiveDate) -> Seq<char> {
    four_digits(d.year as int) + two_digits(d.month as int) + two_digits(d.day as int)
}

/// A date-time as `YYYYMMDDTHHMMSS`.
pub open spec fn date_time_text(dt: NaiveDateTime) -> Seq<char> {
    date_text(dt.date) + seq!['T'] + two_digits(dt.hour as int) + two_digits(dt.minute as int)
        + two_digits(dt.second as int)
}

/// A UTC date-time as `YYYYMMDDTHHMMSSZ`.
pub open spec fn utc_text(dt: NaiveDateTime) -> Seq<char> {
    date_time_text(dt) + seq!['Z']
}

/// The value of the digits `s[i]`, `s[i + 1]`.
pub open spec fn read2(s: Seq<char>, i: int) -> int {
    digit_value(s[i]) * 10 + digit_value(s[i + 1])
}

/// Whether `s[i .. i + n]` are all digits.
pub open spec fn digits_at(s: Seq<char>, i: int, n: int) -> bool {
    forall|j: int| i <= j < i + n ==> is_digit(#[trigger] s[j])
}

/// The date that `YYYYMMDD` starting at `s[i]` names, if it is one.
pub open spec fn read_date(s: Seq<char>, i: int) -> Option<NaiveDate> {
    if digits_at(s, i, 8) {
        let d = NaiveDate {
            year: (read2(s, i) * 100 + read2(s, i + 2)) as i32,
            month: read2(s, i + 4) as u32,
            day: read2(s, i + 6) as u32,
        };
        if d.wf() { Some(d) } else { None }
    } else {
        None
    }
}

/// The date-time that `s`, exactly `YYYYMMDDTHHMMSS`, names, if it is one.
pub open spec fn read_date_time(s: Seq<char>) -> Option<NaiveDateTime> {
    if s.len() == 15 && s[8] == 'T' && digits_at(s, 9, 6) {
        match read_date(s, 0) {
            Some(d) => {
                let dt = NaiveDateTime {
                    date: d,
                    hour: read2(s, 9) as u32,
                    minute: read2(s, 11) as u32,
                    second: read2(s, 13) as u32,
                };
                if dt.wf() { Some(dt) } else { None }
            },
            None => None,
        }
    } else {
        None
    }
}

/// The value of the first parameter named `name`, if there is one.
pub open spec fn first_param(ps: Seq<(Seq<char>, Seq<char>)>, name: Seq<char>) -> Option<Seq<char>>
    decreases ps.len(),
{
    if ps.len() == 0 {
        None
    } else if ps[0].0 == name {
        Some(ps[0].1)
    } else {
        first_param(ps.drop_first(), name)
    }
}

/// The property that carries `v` under `key`.
pub open spec fn encode(v: DateValue, key: Seq<char>) -> PropertyModel {
    match v {
        DateValue::Date(d) => PropertyModel {
            key,
            value: date_text(d),
            params: seq![("VALUE"@, "DATE"@)],
        },
        DateValue::Floating(dt) => PropertyModel { key, value: date_time_text(dt), params: seq![] },
        DateValue::Utc(dt) => PropertyModel { key, value: utc_text(dt), params: seq![] },
        DateValue::Zoned(dt, tzid) => PropertyModel {
            key,
            value: date_time_text(dt),
            params: seq![("TZID"@, tzid)],
        },
    }
}

/// What a property's value and parameters say of a date or date-time, if anything:
/// `VALUE=DATE` selects a date; else a trailing `Z` selects UTC; else a `TZID`
/// parameter selects zoned time; else the time is floating.
#[verifier::opaque]
pub open spec fn decode(p: PropertyModel) -> Option<DateValue> {
    let s = p.value;
    if first_param(p.params, "VALUE"@) == Some("DATE"@) {
        if s.len() == 8 {
            match read_date(s, 0) {
                Some(d) => Some(DateValue::Date(d)),
                None => None,
            }
        } else {
            None
        }
    } else if s.len() == 16 && s[15] == 'Z' {
        match read_date_time(s.subrange(0, 15)) {
            Some(dt) => Some(DateValue::Utc(dt)),
            None => None,
        }
    } else {
        match read_date_time(s) {
            Some(dt) => match first_param(p.params, "TZID"@) {
                Some(tz) => Some(DateValue::Zoned(dt, tz)),
                None => Some(DateValue::Floating(dt)),
            },
            None => None,
        }
    }
}


/// The digit character of `n`.
fn digit(n: u32) -> (c: char)
    requires
        n < 10,
    ensures
        c == digit_char(n as int),
        is_digit(c),
        digit_value(c) == n,
{
    ((n as u8) + 48) as char
}

/// Appends `n` in two digits.
fn push_two(out: &mut Vec<char>, n: u32)
    requires
        n < 100,
    ensures
        final(out)@ == old(out)@ + two_digits(n as int),
{
    out.push(digit(n / 10));
    out.push(digit(n % 10));
    assert(final(out)@ =~= old(out)@ + two_digits(n as int));
}

/// Appends a date as `YYYYMMDD`.
fn push_date(out: &mut Vec<char>, d: &NaiveDate)
    requires
        d.wf(),
    ensures
        final(out)@ == old(out)@ + date_text(*d),
{
    let y = d.year as u32;
    push_two(out, y / 100);
    push_two(out, y % 100);
    push_two(out, d.month);
    push_two(out, d.day);
    assert(final(out)@ =~= old(out)@ + date_text(*d));
}

/// Appends a date-time as `YYYYMMDDTHHMMSS`.
fn push_date_time(out: &mut Vec<char>, dt: &NaiveDateTime)
    requires
        dt.wf(),
    ensures
        final(out)@ == old(out)@ + date_time_text(*dt),
{
    push_date(out, &dt.date);
    out.push('T');
    push_two(out, dt.hour);
    push_two(out, dt.minute);
    push_two(out, dt.second);
    assert(final(out)@ =~= old(out)@ + date_time_text(*dt));
}

/// A UTC date-time as text, `YYYYMMDDTHHMMSSZ`.
pub fn format_utc_date_time(dt: &NaiveDateTime) -> (r: String)
    requires
        dt.wf(),
    ensures
        r@ == utc_text(*dt),
{
    let mut out: Vec<char> = Vec::new();
    push_date_time(&mut out, dt);
    out.push('Z');
    assert(out@ =~= utc_text(*dt));
    string_of(&out)
}

/// The value of two digits that stand at `s[i]`.
fn read_two(s: &Vec<char>, i: usize) -> (r: u32)
    requires
        i < 16,
        i + 2 <= s@.len(),
        digits_at(s@, i as int, 2),
    ensures
        r == read2(s@, i as int),
        r < 100,
{
    let c0 = s[i];
    let c1 = s[i + 1];
    assert(is_digit(c0) && is_digit(c1));
    let a = (c0 as u32) - 48;
    let b = (c1 as u32) - 48;
    a * 10 + b
}

/// Whether `s[i .. i + n]` are all digits.
fn all_digits(s: &Vec<char>, i: usize, n: usize) -> (r: bool)
    requires
        i + n <= 16,
        i + n <= s@.len(),
    ensures
        r == digits_at(s@, i as int, n as int),
{
    let end = i + n;
    let mut k: usize = i;
    while k < end
        invariant
            end == i + n,
            i <= k <= end,
            end <= s@.len(),
            forall|j: int| i <= j < k ==> is_digit(#[trigger] s@[j]),
        decreases end - k,
    {
        if !('0' <= s[k] && s[k] <= '9') {
            return false;
        }
        k = k + 1;
    }
    true
}

/// The date that `YYYYMMDD` at `s[i]` names, if it is one.
fn parse_date_at(s: &Vec<char>) -> (r: Option<NaiveDate>)
    requires
        8 <= s@.len(),
    ensures
        r == read_date(s@, 0),
{
    if !all_digits(s, 0, 8) {
        return None;
    }
    let y = read_two(s, 0) * 100 + read_two(s, 2);
    let m = read_two(s, 4);
    let d = read_two(s, 6);
    NaiveDate::from_ymd_opt(y as i32, m, d)
}

/// The date-time that `s`, exactly `YYYYMMDDTHHMMSS`, names, if it is one.
fn parse_date_time(s: &Vec<char>) -> (r: Option<NaiveDateTime>)
    ensures
        r == read_date_time(s@),
{
    if s.len() != 15 || s[8] != 'T' || !all_digits(s, 9, 6) {
        return None;
    }
    match parse_date_at(s) {
        Some(d) => {
            let h = read_two(s, 9);
            let mi = read_two(s, 11);
            let sec = read_two(s, 13);
            if h < 24 && mi < 60 && sec < 60 {
                Some(NaiveDateTime { date: d, hour: h, minute: mi, second: sec })
            } else {
                None
            }
        },
        None => None,
    }
}

/// A UTC date-time read from `YYYYMMDDTHHMMSSZ`, if the text is one.
pub fn parse_utc_date_time(s: &str) -> (r: Option<NaiveDateTime>)
    ensures
        r == (if s@.len() == 16 && s@[15] == 'Z' {
            read_date_time(s@.subrange(0, 15))
        } else {
            None
        }),
{
    let v = chars_of(s);
    if v.len() != 16 || v[15] != 'Z' {
        return None;
    }
    let mut head: Vec<char> = Vec::new();
    let mut i: usize = 0;
    while i < 15
        invariant
            i <= 15,
            v@.len() == 16,
            head@ == v@.subrange(0, i as int),
        decreases 15 - i,
    {
        head.push(v[i]);
        i = i + 1;
        assert(head@ =~= v@.subrange(0, i as int));
    }
    parse_date_time(&head)
}

/// The value of the first parameter of `p` named `name`, if there is one.
fn find_param<'a>(p: &'a Property, name: &str) -> (r: Option<&'a String>)
    ensures
        match r {
            Some(v) => first_param(p@.params, name@) == Some(v@),
            None => first_param(p@.params, name@) is None,
        },
{
    let ghost ps = p@.params;
    assert(ps.subrange(0, ps.len() as int) =~= ps);
    let mut i: usize = 0;
    while i < p.params.len()
        invariant
            i <= ps.len(),
            ps == p@.params,
            first_param(ps, name@) == first_param(ps.subrange(i as int, ps.len() as int), name@),
        decreases p.params.len() - i,
    {
        assert(ps.subrange(i as int, ps.len() as int)[0] == p.params@[i as int]@);
        assert(ps.subrange(i as int, ps.len() as int).drop_first() =~= ps.subrange(
            i + 1 as int,
            ps.len() as int,
        ));
        if crate::properties::str_is(p.params[i].key.as_str(), name) {
            return Some(&p.params[i].val);
        }
        i = i + 1;
    }
    None
}

/// What `r` says, as the model of a date or date-time.
pub open spec fn option_view(r: Option<DatePerhapsTime>) -> Option<DateValue> {
    match r {
        Some(v) => Some(v@),
        None => None,
    }
}

impl DatePerhapsTime {
    /// The property that carries this value under `key`.
    pub fn to_property(&self, key: &str) -> (r: Property)
        requires
            self@.wf(),
        ensures
            r@ == encode(self@, key@),
    {
        let mut out: Vec<char> = Vec::new();
        let r = match self {
            DatePerhapsTime::Date(d) => {
                push_date(&mut out, d);
                Property::new(key, string_of(&out).as_str()).append_parameter(
                    Parameter::new("VALUE", "DATE"),
                )
            },
            DatePerhapsTime::DateTime(CalendarDateTime::Floating(dt)) => {
                push_date_time(&mut out, dt);
                Property::new(key, string_of(&out).as_str())
            },
            DatePerhapsTime::DateTime(CalendarDateTime::Utc(dt)) => {
                push_date_time(&mut out, dt);
                out.push('Z');
                Property::new(key, string_of(&out).as_str())
            },
            DatePerhapsTime::DateTime(CalendarDateTime::WithTimezone { date_time, tzid }) => {
                push_date_time(&mut out, date_time);
                Property::new(key, string_of(&out).as_str()).append_parameter(
                    Parameter::new("TZID", tzid.as_str()),
                )
            },
        };
        assert(r@.params =~= encode(self@, key@).params);
        assert(r@.value =~= encode(self@, key@).value);
        r
    }

    /// The date or date-time that `p` carries, if it carries one.
    pub fn from_property(p: &Property) -> (r: Option<DatePerhapsTime>)
        ensures
            option_view(r) == decode(p@),
    {
        reveal(decode);
        let s = chars_of(p.val.as_str());
        let is_date = match find_param(p, "VALUE") {
            Some(v) => crate::properties::str_is(v.as_str(), "DATE"),
            None => false,
        };
        if is_date {
            if s.len() == 8 {
                match parse_date_at(&s) {
                    Some(d) => Some(DatePerhapsTime::Date(d)),
                    None => None,
                }
            } else {
                None
            }
        } else if s.len() == 16 && s[15] == 'Z' {
            match parse_utc_date_time(p.val.as_str()) {
                Some(dt) => Some(DatePerhapsTime::DateTime(CalendarDateTime::Utc(dt))),
                None => None,
            }
        } else {
            match parse_date_time(&s) {
                Some(dt) => match find_param(p, "TZID") {
                    Some(tz) => Some(
                        DatePerhapsTime::DateTime(
                            CalendarDateTime::WithTimezone { date_time: dt, tzid: tz.clone() },
                        ),
                    ),
                    None => Some(DatePerhapsTime::DateTime(CalendarDateTime::Floating(dt))),
                },
                None => None,
            }
        }
    }
}

/// Reading back what was written gives the value that was written, for every valid
/// date or date-time and every key.
pub proof fn lemma_decode_encode(v: DateValue, key: Seq<char>)
    requires
        v.wf(),
    ensures
        decode(encode(v, key)) == Some(v),
{
    reveal(decode);
    reveal_strlit("VALUE");
    reveal_strlit("DATE");
    reveal_strlit("TZID");
    let dt = match v {
        DateValue::Date(d) => NaiveDateTime { date: d, hour: 0, minute: 0, second: 0 },
        DateValue::Floating(t) => t,
        DateValue::Utc(t) => t,
        DateValue::Zoned(t, _) => t,
    };
    lemma_read_date_time(dt);
    let p = encode(v, key);
    match v {
        DateValue::Date(d) => {
            assert(first_param(p.params, "VALUE"@) == Some("DATE"@));
        },
        DateValue::Utc(t) => {
            assert(p.value.subrange(0, 15) =~= date_time_text(t));
            assert(first_param(p.params, "VALUE"@) is None);
        },
        DateValue::Floating(t) => {
            assert(first_param(p.params, "VALUE"@) is None);
            assert(first_param(p.params, "TZID"@) is None);
        },
        DateValue::Zoned(t, tz) => {
            assert("TZID"@ != "VALUE"@) by {
                assert("TZID"@[0] != "VALUE"@[0]);
            }
            assert(p.params.drop_first() =~= Seq::<(Seq<char>, Seq<char>)>::empty());
            assert(first_param(p.params.drop_first(), "VALUE"@) is None);
            assert(first_param(p.params, "VALUE"@) is None);
            assert(first_param(p.params, "TZID"@) == Some(tz));
        },
    }
}

proof fn lemma_two_digits(n: int)
    requires
        0 <= n < 100,
    ensures
        is_digit(two_digits(n)[0]) && is_digit(two_digits(n)[1]),
        digit_value(two_digits(n)[0]) * 10 + digit_value(two_digits(n)[1]) == n,
{
    assert(0 <= n / 10 < 10);
    assert(0 <= n % 10 < 10);
    assert((((n / 10 + 48) as u8) as char) as int == n / 10 + 48);
    assert((((n % 10 + 48) as u8) as char) as int == n % 10 + 48);
}

proof fn lemma_read_date_time(dt: NaiveDateTime)
    requires
        dt.wf(),
    ensures
        read_date(date_text(dt.date), 0) == Some(dt.date),
        read_date_time(date_time_text(dt)) == Some(dt),
{
    let d = dt.date;
    let y = d.year as int;
    lemma_two_digits(y / 100);
    lemma_two_digits(y % 100);
    lemma_two_digits(d.month as int);
    lemma_two_digits(d.day as int);
    lemma_two_digits(dt.hour as int);
    lemma_two_digits(dt.minute as int);
    lemma_two_digits(dt.second as int);
    let s = date_text(d);
    assert(s[0] == two_digits(y / 100)[0] && s[1] == two_digits(y / 100)[1]);
    assert(s[2] == two_digits(y % 100)[0] && s[3] == two_digits(y % 100)[1]);
    assert(s[4] == two_digits(d.month as int)[0] && s[5] == two_digits(d.month as int)[1]);
    assert(s[6] == two_digits(d.day as int)[0] && s[7] == two_digits(d.day as int)[1]);
    assert(digits_at(s, 0, 8));
    assert(read2(s, 0) * 100 + read2(s, 2) == y);
    let t = date_time_text(dt);
    assert(t.subrange(0, 8) =~= s);
    assert(forall|j: int| 0 <= j < 8 ==> t[j] == s[j]);
    assert(t[9] == two_digits(dt.hour as int)[0] && t[10] == two_digits(dt.hour as int)[1]);
    assert(t[11] == two_digits(dt.minute as int)[0] && t[12] == two_digits(dt.minute as int)[1]);
    assert(t[13] == two_digits(dt.second as int)[0] && t[14] == two_digits(dt.second as int)[1]);
    assert(digits_at(t, 0, 8));
    assert(digits_at(t, 9, 6));
    assert(read_date(t, 0) == read_date(s, 0));
}

} // verus!
