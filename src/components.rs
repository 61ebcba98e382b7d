//! Calendar components: the builder and reader surface shared by every kind, and
//! the text form of a component.

use chrono::{Datelike, Timelike};
use vstd::prelude::*;

use crate::date_time::{
    digit_char, digit_value, format_utc_date_time, is_digit, lemma_decode_encode,
    parse_utc_date_time, read_date_time, two_digits, utc_text, DatePerhapsTime, DateValue,
    valid_ymd, NaiveDate, NaiveDateTime, decode, encode, option_view,
};
use crate::properties::{
    chars_of, crlf, plain_property, property_line, push_str, string_of, Parameter, Property,
    PropertyModel,
};
use crate::storage::{
    has_key, key_lt, lemma_lookup_stored, lemma_sorted_same_contents, lookup, lookup_value,
    models, sorted_keys, stored,
    InnerComponent,
};

verus! {

/// The label of a kind of component, used in its `BEGIN` and `END` lines.
pub trait ComponentKind {
    /// The label, in capitals.
    spec fn label() -> Seq<char>;

    /// The label, in capitals.
    fn component_kind() -> (r: String)
        ensures
            r@ == Self::label(),
    ;
}

/// The kind of an event.
#[derive(Debug, PartialEq, Eq)]
pub struct EventKind;

/// The kind of a to-do.
#[derive(Debug, PartialEq, Eq)]
pub struct TodoKind;

/// The kind of a venue.
#[derive(Debug, PartialEq, Eq)]
pub struct VenueKind;

impl ComponentKind for EventKind {
    open spec fn label() -> Seq<char> {
        "VEVENT"@
    }

    fn component_kind() -> (r: String) {
        "VEVENT".to_owned()
    }
}

impl ComponentKind for TodoKind {
    open spec fn label() -> Seq<char> {
        "VTODO"@
    }

    fn component_kind() -> (r: String) {
        "VTODO".to_owned()
    }
}

impl ComponentKind for VenueKind {
    open spec fn label() -> Seq<char> {
        "VVENUE"@
    }

    fn component_kind() -> (r: String) {
        "VVENUE".to_owned()
    }
}

/// A visibility class.
#[derive(Debug, Clone, Copy, PartialEq, Eq)]
pub enum Class {
    Public,
    Private,
    Confidential,
}

/// The text of a visibility class.
pub open spec fn class_text(c: Class) -> Seq<char> {
    match c {
        Class::Public => "PUBLIC"@,
        Class::Private => "PRIVATE"@,
        Class::Confidential => "CONFIDENTIAL"@,
    }
}

/// The visibility class that a text names, if it names one.
pub open spec fn class_of(s: Seq<char>) -> Option<Class> {
    if s == "PUBLIC"@ {
        Some(Class::Public)
    } else if s == "PRIVATE"@ {
        Some(Class::Private)
    } else if s == "CONFIDENTIAL"@ {
        Some(Class::Confidential)
    } else {
        None
    }
}

/// Every visibility class is read back from its own text.
pub proof fn lemma_class_round_trip(c: Class)
    ensures
        class_of(class_text(c)) == Some(c),
{
    reveal_strlit("PUBLIC");
    reveal_strlit("PRIVATE");
    reveal_strlit("CONFIDENTIAL");
    assert("PRIVATE"@ != "PUBLIC"@ && "CONFIDENTIAL"@ != "PUBLIC"@ && "CONFIDENTIAL"@
        != "PRIVATE"@) by {
        assert("PRIVATE"@[1] != "PUBLIC"@[1]);
        assert("CONFIDENTIAL"@[0] != "PUBLIC"@[0]);
        assert("CONFIDENTIAL"@[0] != "PRIVATE"@[0]);
    }
}

/// Reading the class after setting it gives the class that was set.
pub proof fn lemma_class_set_get(before: Seq<PropertyModel>, after: Seq<PropertyModel>, c: Class)
    requires
        stored(before, after, plain_property("CLASS"@, class_text(c))),
    ensures
        lookup_value(after, "CLASS"@) == Some(class_text(c)),
        class_of(class_text(c)) == Some(c),
{
    lemma_lookup_stored(before, after, plain_property("CLASS"@, class_text(c)));
    lemma_class_round_trip(c);
}

impl Class {
    /// The text of this class.
    pub fn as_str(&self) -> (r: &'static str)
        ensures
            r@ == class_text(*self),
    {
        match self {
            Class::Public => "PUBLIC",
            Class::Private => "PRIVATE",
            Class::Confidential => "CONFIDENTIAL",
        }
    }

    /// The class that `s` names, if it names one.
    pub fn from_str(s: &str) -> (r: Option<Class>)
        ensures
            r == class_of(s@),
    {
        if crate::properties::str_is(s, "PUBLIC") {
            Some(Class::Public)
        } else if crate::properties::str_is(s, "PRIVATE") {
            Some(Class::Private)
        } else if crate::properties::str_is(s, "CONFIDENTIAL") {
            Some(Class::Confidential)
        } else {
            None
        }
    }
}

/// A priority in decimal.
pub open spec fn decimal(n: int) -> Seq<char> {
    if n < 10 {
        seq![digit_char(n)]
    } else {
        two_digits(n)
    }
}

/// The value of a string of digits.
pub open spec fn digits_value(s: Seq<char>) -> int
    decreases s.len(),
{
    if s.len() == 0 {
        0
    } else {
        digits_value(s.drop_last()) * 10 + digit_value(s.last())
    }
}

/// The digits of a stored priority: the text after an optional leading `+`.
pub open spec fn priority_digits(s: Seq<char>) -> Seq<char> {
    if s.len() > 0 && s[0] == '+' {
        s.drop_first()
    } else {
        s
    }
}

/// The priority that a stored text gives: an optional `+`, then one or more digits whose
/// value is at most ten.
pub open spec fn priority_of(s: Seq<char>) -> Option<u32> {
    let t = priority_digits(s);
    if t.len() > 0 && (forall|i: int| 0 <= i < t.len() ==> is_digit(#[trigger] t[i]))
        && digits_value(t) <= 10 {
        Some(digits_value(t) as u32)
    } else {
        None
    }
}

/// The text of `r`, if there is one.
pub open spec fn str_view(r: Option<&str>) -> Option<Seq<char>> {
    match r {
        Some(s) => Some(s@),
        None => None,
    }
}

/// What a date field reads as, from the property that holds it.
pub open spec fn date_field(p: Option<PropertyModel>) -> Option<DateValue> {
    match p {
        Some(q) => decode(q),
        None => None,
    }
}

/// The exception dates among `ms`, in order: each `EXDATE` property that carries one.
pub open spec fn exdates(ms: Seq<PropertyModel>) -> Seq<DateValue>
    decreases ms.len(),
{
    if ms.len() == 0 {
        seq![]
    } else {
        let rest = exdates(ms.drop_last());
        if ms.last().key == "EXDATE"@ {
            match decode(ms.last()) {
                Some(v) => rest.push(v),
                None => rest,
            }
        } else {
            rest
        }
    }
}

proof fn lemma_exdates_push(ms: Seq<PropertyModel>, p: PropertyModel, v: DateValue)
    requires
        p.key == "EXDATE"@,
        decode(p) == Some(v),
    ensures
        exdates(ms.push(p)) == exdates(ms).push(v),
{
    assert(ms.push(p).drop_last() =~= ms);
    assert(ms.push(p).last() == p);
}

/// Adding two exception dates appends both, in order, to what `get_exdates` reads.
pub proof fn lemma_two_exdates(ms: Seq<PropertyModel>, a: DateValue, b: DateValue)
    requires
        a.wf(),
        b.wf(),
    ensures
        exdates(ms.push(encode(a, "EXDATE"@)).push(encode(b, "EXDATE"@))) == exdates(ms).push(
            a,
        ).push(b),
{
    lemma_decode_encode(a, "EXDATE"@);
    lemma_decode_encode(b, "EXDATE"@);
    lemma_exdates_push(ms, encode(a, "EXDATE"@), a);
    lemma_exdates_push(ms.push(encode(a, "EXDATE"@)), encode(b, "EXDATE"@), b);
}

/// The lines of the given properties, in order.
pub open spec fn lines(s: Seq<PropertyModel>) -> Seq<char>
    decreases s.len(),
{
    if s.len() == 0 {
        seq![]
    } else {
        lines(s.drop_last()) + property_line(s.last())
    }
}

proof fn lemma_lines_concat(a: Seq<PropertyModel>, b: Seq<PropertyModel>)
    ensures
        lines(a + b) == lines(a) + lines(b),
    decreases b.len(),
{
    if b.len() == 0 {
        assert(a + b =~= a);
        assert(lines(b) =~= Seq::<char>::empty());
        assert(lines(a) + lines(b) =~= lines(a));
    } else {
        lemma_lines_concat(a, b.drop_last());
        assert((a + b).drop_last() =~= a + b.drop_last());
        assert(lines(a + b) =~= lines(a) + lines(b));
    }
}

/// The properties in the order they are written: a `DTSTAMP` of `now` unless one is
/// stored, the stored single-valued properties by key, a `UID` of `uid` unless one is
/// stored, then the repeatable properties in order of insertion.
pub open spec fn records(
    props: Seq<PropertyModel>,
    multis: Seq<PropertyModel>,
    now: NaiveDateTime,
    uid: Seq<char>,
) -> Seq<PropertyModel> {
    stamp_record(props, now) + props + uid_record(props, uid) + multis
}

/// The `DTSTAMP` written before the stored properties: none where one is stored.
pub open spec fn stamp_record(props: Seq<PropertyModel>, now: NaiveDateTime) -> Seq<PropertyModel> {
    if has_key(props, "DTSTAMP"@) {
        seq![]
    } else {
        seq![plain_property("DTSTAMP"@, utc_text(now))]
    }
}

/// The `UID` written after the stored properties: none where one is stored.
pub open spec fn uid_record(props: Seq<PropertyModel>, uid: Seq<char>) -> Seq<PropertyModel> {
    if has_key(props, "UID"@) {
        seq![]
    } else {
        seq![plain_property("UID"@, uid)]
    }
}

/// The text of a component of kind `kind`.
pub open spec fn component_text(
    kind: Seq<char>,
    props: Seq<PropertyModel>,
    multis: Seq<PropertyModel>,
    now: NaiveDateTime,
    uid: Seq<char>,
) -> Seq<char> {
    "BEGIN:"@ + kind + crlf() + lines(records(props, multis, now, uid)) + "END:"@ + kind + crlf()
}

/// Where no `UID` and no `DTSTAMP` is stored, the written properties hold exactly one
/// `DTSTAMP`, first, and exactly one `UID`, right after the single-valued properties.
pub proof fn lemma_one_stamp_one_uid(
    props: Seq<PropertyModel>,
    multis: Seq<PropertyModel>,
    now: NaiveDateTime,
    uid: Seq<char>,
)
    requires
        !has_key(props, "DTSTAMP"@),
        !has_key(props, "UID"@),
        !has_key(multis, "DTSTAMP"@),
        !has_key(multis, "UID"@),
    ensures
        ({
            let r = records(props, multis, now, uid);
            &&& r[0] == plain_property("DTSTAMP"@, utc_text(now))
            &&& r[props.len() + 1int] == plain_property("UID"@, uid)
            &&& forall|i: int| 0 <= i < r.len() && (#[trigger] r[i]).key == "DTSTAMP"@ ==> i == 0
            &&& forall|i: int|
                0 <= i < r.len() && (#[trigger] r[i]).key == "UID"@ ==> i == props.len() + 1int
        }),
{
    reveal_strlit("DTSTAMP");
    reveal_strlit("UID");
    assert("DTSTAMP"@ != "UID"@) by {
        assert("DTSTAMP"@[0] != "UID"@[0]);
    }
    let r = records(props, multis, now, uid);
    let n = props.len();
    assert forall|i: int| 0 <= i < r.len() && (#[trigger] r[i]).key == "DTSTAMP"@ implies i
        == 0 by {
        if 1 <= i < n + 1 {
            assert(props[i - 1] == r[i]);
        } else if i > n + 1 {
            assert(multis[i - n - 2] == r[i]);
        }
    }
    assert forall|i: int| 0 <= i < r.len() && (#[trigger] r[i]).key == "UID"@ implies i == n
        + 1 by {
        if 1 <= i < n + 1 {
            assert(props[i - 1] == r[i]);
        } else if i > n + 1 {
            assert(multis[i - n - 2] == r[i]);
        }
    }
}

/// A clock reading: year, month, day, hour, minute and second in UTC.
pub type ClockReading = (i32, u32, u32, u32, u32, u32);

/// What every reading of chrono's UTC clock satisfies: the day exists in its month of
/// the proleptic Gregorian calendar, and the time of day lies within one day.
pub open spec fn is_clock_reading(p: ClockReading) -> bool {
    &&& valid_ymd(p.0 as int, p.1 as int, p.2 as int)
    &&& p.3 < 24
    &&& p.4 < 60
    &&& p.5 < 60
}

/// The date-time that a clock reading names, where it is valid and its year has four
/// digits.
pub open spec fn date_time_from_parts(p: ClockReading) -> Option<NaiveDateTime> {
    let dt = NaiveDateTime {
        date: NaiveDate { year: p.0, month: p.1, day: p.2 },
        hour: p.3,
        minute: p.4,
        second: p.5,
    };
    if dt.wf() {
        Some(dt)
    } else {
        None
    }
}

/// Whether `s` has the shape of a hyphenated lower-case UUID's characters: 36 of them,
/// each a hex digit or a hyphen.
pub open spec fn is_uid_text(s: Seq<char>) -> bool {
    &&& s.len() == 36
    &&& forall|i: int|
        0 <= i < s.len() ==> ('0' <= #[trigger] s[i] <= '9' || 'a' <= s[i] <= 'f' || s[i] == '-')
}

/// The date-time that a clock reading names, if it is valid and its year has four digits.
pub fn date_time_of_parts(p: ClockReading) -> (r: Option<NaiveDateTime>)
    ensures
        r == date_time_from_parts(p),
{
    let (y, mo, d, h, mi, s) = p;
    match NaiveDate::from_ymd_opt(y, mo, d) {
        Some(date) => {
            if h < 24 && mi < 60 && s < 60 {
                Some(date.and_hms(h, mi, s))
            } else {
                None
            }
        },
        None => None,
    }
}

proof fn lemma_date_field_keys()
    ensures
        key_lt("DTEND"@, "DTSTART"@),
        key_lt("DTSTART"@, "SUMMARY"@),
        key_lt("DTEND"@, "SUMMARY"@),
        "DTSTAMP"@ != "DTEND"@ && "DTSTAMP"@ != "DTSTART"@ && "DTSTAMP"@ != "SUMMARY"@,
        "UID"@ != "DTEND"@ && "UID"@ != "DTSTART"@ && "UID"@ != "SUMMARY"@,
        "DTEND"@ != "DTSTART"@ && "DTEND"@ != "SUMMARY"@ && "DTSTART"@ != "SUMMARY"@,
{
    reveal_strlit("DTEND");
    reveal_strlit("DTSTART");
    reveal_strlit("SUMMARY");
    reveal_strlit("DTSTAMP");
    reveal_strlit("UID");
    reveal_with_fuel(key_lt, 4);
    let e = "DTEND"@;
    let s = "DTSTART"@;
    assert(e.drop_first() =~= seq!['T', 'E', 'N', 'D']);
    assert(s.drop_first() =~= seq!['T', 'S', 'T', 'A', 'R', 'T']);
    assert(e.drop_first().drop_first() =~= seq!['E', 'N', 'D']);
    assert(s.drop_first().drop_first() =~= seq!['S', 'T', 'A', 'R', 'T']);
    assert("DTSTAMP"@[5] != "DTSTART"@[5]);
    assert("DTSTAMP"@[0] != "SUMMARY"@[0]);
    assert("DTSTART"@[0] != "SUMMARY"@[0]);
}

/// Setting the summary, the start and the end of an empty component, in that order,
/// stores exactly `DTEND`, `DTSTART`, `SUMMARY`, in key order; its text then holds, between
/// the `BEGIN` and `END` lines, a made-up `DTSTAMP`, those three, and a made-up `UID`.
pub proof fn lemma_summary_start_end(
    s0: Seq<PropertyModel>,
    s1: Seq<PropertyModel>,
    s2: Seq<PropertyModel>,
    s3: Seq<PropertyModel>,
    summary: PropertyModel,
    start: PropertyModel,
    end: PropertyModel,
    now: NaiveDateTime,
    uid: Seq<char>,
)
    requires
        s0.len() == 0,
        stored(s0, s1, summary),
        stored(s1, s2, start),
        stored(s2, s3, end),
        summary.key == "SUMMARY"@,
        start.key == "DTSTART"@,
        end.key == "DTEND"@,
    ensures
        s3 == seq![end, start, summary],
        records(s3, seq![], now, uid) == seq![
            plain_property("DTSTAMP"@, utc_text(now)),
            end,
            start,
            summary,
            plain_property("UID"@, uid),
        ],
{
    lemma_date_field_keys();
    let t = seq![end, start, summary];
    assert(sorted_keys(t));
    assert forall|q: PropertyModel| s3.contains(q) <==> t.contains(q) by {
        assert(!s0.contains(q));
        assert(s1.contains(q) <==> q == summary);
        assert(s2.contains(q) <==> (q == start || q == summary));
        assert(s3.contains(q) <==> (q == end || q == start || q == summary));
        if q == end {
            assert(t[0] == q);
        }
        if q == start {
            assert(t[1] == q);
        }
        if q == summary {
            assert(t[2] == q);
        }
        if t.contains(q) {
            let k = choose|k: int| 0 <= k < t.len() && t[k] == q;
            assert(k == 0 || k == 1 || k == 2);
        }
    }
    lemma_sorted_same_contents(s3, t);
    assert(!has_key(s3, "DTSTAMP"@));
    assert(!has_key(s3, "UID"@));
    assert(records(s3, seq![], now, uid) =~= seq![
        plain_property("DTSTAMP"@, utc_text(now)),
        end,
        start,
        summary,
        plain_property("UID"@, uid),
    ]);
}

/// Relies on std's `SystemTime::now` and `duration_since(UNIX_EPOCH)`: the whole seconds
/// since 1970-01-01T00:00:00 UTC, or `None` where the system clock reads earlier.
#[verifier::external_body]
fn seconds_since_epoch() -> (r: Option<u64>) {
    std::time::SystemTime::now().duration_since(std::time::UNIX_EPOCH).ok().map(|d| d.as_secs())
}

/// Relies on chrono's `DateTime::from_timestamp` and the `Datelike` / `Timelike` getters:
/// the UTC date and time `secs` seconds after 1970-01-01T00:00:00, or `None` where that
/// is out of chrono's range. Its month is 1 to 12, its day exists in that month, and its
/// hour, minute and second lie within one day.
#[verifier::external_body]
fn utc_parts_of(secs: i64) -> (r: Option<ClockReading>)
    ensures
        r is Some ==> is_clock_reading(r->0),
{
    chrono::DateTime::from_timestamp(secs, 0).map(
        |t| (t.year(), t.month(), t.day(), t.hour(), t.minute(), t.second()),
    )
}

/// Relies on getrandom's `fill`: sixteen bytes from the system's random source, or
/// `None` where that source fails.
#[verifier::external_body]
fn random_bytes() -> (r: Option<[u8; 16]>) {
    let mut bytes = [0u8; 16];
    match getrandom::fill(&mut bytes) {
        Ok(()) => Some(bytes),
        Err(_) => None,
    }
}

/// Relies on uuid's `Builder::from_random_bytes` and `hyphenated`: a version 4 identifier
/// made from `bytes`, written as 36 characters of lower-case hex digits and hyphens.
#[verifier::external_body]
fn uid_of_bytes(bytes: [u8; 16]) -> (r: String)
    ensures
        is_uid_text(r@),
{
    uuid::Builder::from_random_bytes(bytes).into_uuid().hyphenated().to_string()
}

/// The current UTC clock reading, if the system clock gives one that chrono can hold.
fn clock_reading() -> (r: Option<ClockReading>)
    ensures
        r is Some ==> is_clock_reading(r->0),
{
    match seconds_since_epoch() {
        Some(secs) => {
            if secs <= 9223372036854775807u64 {
                utc_parts_of(secs as i64)
            } else {
                None
            }
        },
        None => None,
    }
}

/// A fresh random identifier, if the system's random source gives one.
fn fresh_uid() -> (r: Option<String>)
    ensures
        r is Some ==> is_uid_text(r->0@),
{
    match random_bytes() {
        Some(bytes) => Some(uid_of_bytes(bytes)),
        None => None,
    }
}

/// The date-time used where a `DTSTAMP` is stored and the clock is not read; the text
/// does not depend on it.
pub open spec fn unix_epoch() -> NaiveDateTime {
    NaiveDateTime { date: NaiveDate { year: 1970, month: 1, day: 1 }, hour: 0, minute: 0, second: 0 }
}

/// Where `DTSTAMP` is stored the text does not depend on the clock, and where `UID` is
/// stored it does not depend on the identifier.
pub proof fn lemma_text_ignores_unused(
    kind: Seq<char>,
    props: Seq<PropertyModel>,
    multis: Seq<PropertyModel>,
    n1: NaiveDateTime,
    n2: NaiveDateTime,
    u1: Seq<char>,
    u2: Seq<char>,
)
    ensures
        has_key(props, "DTSTAMP"@) ==> component_text(kind, props, multis, n1, u1)
            == component_text(kind, props, multis, n2, u1),
        has_key(props, "UID"@) ==> component_text(kind, props, multis, n1, u1) == component_text(
            kind,
            props,
            multis,
            n1,
            u2,
        ),
{
}

/// Why a component could not be written.
#[derive(Debug, Clone, Copy, PartialEq, Eq)]
pub enum FormatError {
    /// No `DTSTAMP` is stored and the system clock gave no reading.
    ClockUnavailable,
    /// No `DTSTAMP` is stored and the clock's year cannot be written in four digits.
    ClockOutOfRange,
    /// No `UID` is stored and the system's random source failed.
    RandomUnavailable,
}

/// Appends the lines of `v`, in order.
fn write_lines(out: &mut Vec<char>, v: &Vec<Property>)
    ensures
        final(out)@ == old(out)@ + lines(models(v@)),
{
    let mut i: usize = 0;
    while i < v.len()
        invariant
            i <= v@.len(),
            out@ == old(out)@ + lines(models(v@).subrange(0, i as int)),
        decreases v.len() - i,
    {
        let ghost before = out@;
        v[i].write_line(out);
        i = i + 1;
        assert(models(v@).subrange(0, i as int).drop_last() =~= models(v@).subrange(
            0,
            i - 1 as int,
        ));
        assert(out@ =~= old(out)@ + lines(models(v@).subrange(0, i as int)));
    }
    assert(models(v@).subrange(0, v@.len() as int) =~= models(v@));
}

/// Whether some property of `v` has key `key`.
fn has_property(v: &Vec<Property>, key: &str) -> (r: bool)
    ensures
        r == has_key(models(v@), key@),
{
    let mut i: usize = 0;
    while i < v.len()
        invariant
            i <= v@.len(),
            forall|j: int| 0 <= j < i ==> (#[trigger] models(v@)[j]).key != key@,
        decreases v.len() - i,
    {
        if crate::properties::str_is(v[i].key.as_str(), key) {
            assert(models(v@)[i as int].key == key@);
            return true;
        }
        i = i + 1;
    }
    false
}

/// A calendar component of kind `K`.
#[derive(Debug, PartialEq, Eq)]
pub struct Component<K> {
    inner: InnerComponent,
    kind: std::marker::PhantomData<K>,
}

/// An event.
pub type Event = Component<EventKind>;

/// A to-do.
pub type Todo = Component<TodoKind>;

/// A venue.
pub type Venue = Component<VenueKind>;

impl<K: ComponentKind> Component<K> {
    /// The single-valued properties, ordered by key.
    pub closed spec fn props(&self) -> Seq<PropertyModel> {
        self.inner.props()
    }

    /// The repeatable properties, in order of insertion.
    pub closed spec fn multis(&self) -> Seq<PropertyModel> {
        self.inner.multis()
    }

    /// The stored value under `key`, if there is one.
    pub open spec fn value_of(&self, key: Seq<char>) -> Option<Seq<char>> {
        lookup_value(self.props(), key)
    }

    /// Keys of the single-valued properties are ordered and unique.
    pub open spec fn wf(&self) -> bool {
        sorted_keys(self.props())
    }

    /// The text of this component with `now` as the default `DTSTAMP` and `uid` as
    /// the default `UID`.
    pub open spec fn text(&self, now: NaiveDateTime, uid: Seq<char>) -> Seq<char> {
        component_text(K::label(), self.props(), self.multis(), now, uid)
    }

    /// A component with no properties.
    pub fn new() -> (r: Self)
        ensures
            r.wf(),
            r.props().len() == 0,
            r.multis().len() == 0,
    {
        Component { inner: InnerComponent::new(), kind: std::marker::PhantomData }
    }

    /// Ends a chain of builder calls: moves the properties out into the result and
    /// leaves this component empty.
    pub fn done(&mut self) -> (r: Self)
        ensures
            r.props() == old(self).props(),
            r.multis() == old(self).multis(),
            final(self).props().len() == 0,
            final(self).multis().len() == 0,
    {
        Component { inner: self.inner.done(), kind: std::marker::PhantomData }
    }

    /// The label of this component's kind.
    pub fn component_kind(&self) -> (r: String)
        ensures
            r@ == K::label(),
    {
        K::component_kind()
    }

    /// The single-valued properties, ordered by key.
    pub fn properties(&self) -> (r: &Vec<Property>)
        ensures
            models(r@) == self.props(),
    {
        self.inner.properties()
    }

    /// The repeatable properties, in order of insertion.
    pub fn multi_properties(&self) -> (r: &Vec<Property>)
        ensures
            models(r@) == self.multis(),
    {
        self.inner.multi_properties()
    }

    /// The property stored under `key`, if there is one.
    pub fn property(&self, key: &str) -> (r: Option<&Property>)
        requires
            self.wf(),
        ensures
            match r {
                Some(p) => lookup(self.props(), key@) == Some(p@),
                None => lookup(self.props(), key@) is None,
            },
    {
        match self.inner.find(key) {
            Some(i) => Some(&self.inner.properties()[i]),
            None => None,
        }
    }

    /// The value stored under `key`, if there is one.
    pub fn property_value(&self, key: &str) -> (r: Option<&str>)
        requires
            self.wf(),
        ensures
            str_view(r) == self.value_of(key@),
    {
        match self.property(key) {
            Some(p) => Some(p.val.as_str()),
            None => None,
        }
    }

    /// Stores `property` under its key, replacing a property of the same key.
    pub fn append_property(self, property: Property) -> (r: Self)
        requires
            self.wf(),
        ensures
            r.wf(),
            stored(self.props(), r.props(), property@),
            r.multis() == self.multis(),
    {
        let mut r = self;
        r.inner.insert(property);
        r
    }

    /// Appends `property` to the repeatable properties.
    pub fn append_multi_property(self, property: Property) -> (r: Self)
        ensures
            r.props() == self.props(),
            r.multis() == self.multis().push(property@),
    {
        let mut r = self;
        r.inner.push_multi(property);
        r
    }

    /// Stores a property of the given key and value, replacing one of the same key.
    pub fn add_property(self, key: &str, val: &str) -> (r: Self)
        requires
            self.wf(),
        ensures
            r.wf(),
            stored(self.props(), r.props(), plain_property(key@, val@)),
            r.multis() == self.multis(),
    {
        self.append_property(Property::new(key, val))
    }

    /// Appends a repeatable property of the given key and value.
    pub fn add_multi_property(self, key: &str, val: &str) -> (r: Self)
        ensures
            r.props() == self.props(),
            r.multis() == self.multis().push(plain_property(key@, val@)),
    {
        self.append_multi_property(Property::new(key, val))
    }

    /// Sets `DTSTAMP` to a UTC date-time.
    pub fn timestamp(self, dt: NaiveDateTime) -> (r: Self)
        requires
            self.wf(),
            dt.wf(),
        ensures
            r.wf(),
            stored(self.props(), r.props(), plain_property("DTSTAMP"@, utc_text(dt))),
            r.multis() == self.multis(),
    {
        let text = format_utc_date_time(&dt);
        self.add_property("DTSTAMP", text.as_str())
    }

    /// The UTC date-time of `DTSTAMP`, if it is set and reads as one.
    pub fn get_timestamp(&self) -> (r: Option<NaiveDateTime>)
        requires
            self.wf(),
        ensures
            r == (match self.value_of("DTSTAMP"@) {
                Some(s) => if s.len() == 16 && s[15] == 'Z' {
                    read_date_time(s.subrange(0, 15))
                } else {
                    None
                },
                None => None,
            }),
    {
        match self.property_value("DTSTAMP") {
            Some(s) => parse_utc_date_time(s),
            None => None,
        }
    }

    /// What the property under `key` reads as, as a date or date-time.
    fn date_property(&self, key: &str) -> (r: Option<DatePerhapsTime>)
        requires
            self.wf(),
        ensures
            option_view(r) == date_field(lookup(self.props(), key@)),
    {
        match self.property(key) {
            Some(p) => DatePerhapsTime::from_property(p),
            None => None,
        }
    }

    /// `DTSTART`, if it is set and reads as a date or date-time.
    pub fn get_start(&self) -> (r: Option<DatePerhapsTime>)
        requires
            self.wf(),
        ensures
            option_view(r) == date_field(lookup(self.props(), "DTSTART"@)),
    {
        self.date_property("DTSTART")
    }

    /// `DTEND`, if it is set and reads as a date or date-time.
    pub fn get_end(&self) -> (r: Option<DatePerhapsTime>)
        requires
            self.wf(),
        ensures
            option_view(r) == date_field(lookup(self.props(), "DTEND"@)),
    {
        self.date_property("DTEND")
    }

    /// `RECURRENCE-ID`, if it is set and reads as a date or date-time.
    pub fn get_recurrence_id(&self) -> (r: Option<DatePerhapsTime>)
        requires
            self.wf(),
        ensures
            option_view(r) == date_field(lookup(self.props(), "RECURRENCE-ID"@)),
    {
        self.date_property("RECURRENCE-ID")
    }

    /// The exception dates, in order of insertion.
    pub fn get_exdates(&self) -> (r: Vec<DatePerhapsTime>)
        ensures
            r@.map_values(|d: DatePerhapsTime| d@) == exdates(self.multis()),
    {
        let ms = self.inner.multi_properties();
        let ghost all = self.multis();
        let mut r: Vec<DatePerhapsTime> = Vec::new();
        let mut i: usize = 0;
        while i < ms.len()
            invariant
                all == models(ms@),
                i <= ms@.len(),
                r@.map_values(|d: DatePerhapsTime| d@) == exdates(all.subrange(0, i as int)),
            decreases ms.len() - i,
        {
            let ghost pre = all.subrange(0, i as int);
            assert(all.subrange(0, i + 1 as int).drop_last() =~= pre);
            assert(all.subrange(0, i + 1 as int).last() == ms@[i as int]@);
            if crate::properties::str_is(ms[i].key.as_str(), "EXDATE") {
                match DatePerhapsTime::from_property(&ms[i]) {
                    Some(d) => {
                        let ghost rv = r@;
                        r.push(d);
                        assert(r@.map_values(|d: DatePerhapsTime| d@) =~= rv.map_values(
                            |d: DatePerhapsTime| d@,
                        ).push(d@));
                    },
                    None => {},
                }
            }
            i = i + 1;
        }
        assert(all.subrange(0, ms@.len() as int) =~= all);
        r
    }

    /// Sets `DTSTART`.
    pub fn starts(self, dt: DatePerhapsTime) -> (r: Self)
        requires
            self.wf(),
            dt@.wf(),
        ensures
            r.wf(),
            stored(self.props(), r.props(), encode(dt@, "DTSTART"@)),
            r.multis() == self.multis(),
    {
        let p = dt.to_property("DTSTART");
        self.append_property(p)
    }

    /// Sets `DTEND`.
    pub fn ends(self, dt: DatePerhapsTime) -> (r: Self)
        requires
            self.wf(),
            dt@.wf(),
        ensures
            r.wf(),
            stored(self.props(), r.props(), encode(dt@, "DTEND"@)),
            r.multis() == self.multis(),
    {
        let p = dt.to_property("DTEND");
        self.append_property(p)
    }

    /// Sets `RECURRENCE-ID`.
    pub fn recurrence_id(self, dt: DatePerhapsTime) -> (r: Self)
        requires
            self.wf(),
            dt@.wf(),
        ensures
            r.wf(),
            stored(self.props(), r.props(), encode(dt@, "RECURRENCE-ID"@)),
            r.multis() == self.multis(),
    {
        let p = dt.to_property("RECURRENCE-ID");
        self.append_property(p)
    }

    /// Adds an exception date; every call adds one more `EXDATE`.
    pub fn exdate(self, dt: DatePerhapsTime) -> (r: Self)
        requires
            dt@.wf(),
        ensures
            r.props() == self.props(),
            r.multis() == self.multis().push(encode(dt@, "EXDATE"@)),
    {
        let p = dt.to_property("EXDATE");
        self.append_multi_property(p)
    }

    /// Sets `DTSTART` and `DTEND` to the same date, with no time of day.
    pub fn all_day(self, date: NaiveDate) -> (r: Self)
        requires
            self.wf(),
            date.wf(),
        ensures
            r.wf(),
            exists|mid: Seq<PropertyModel>|
                stored(self.props(), mid, encode(DateValue::Date(date), "DTSTART"@)) && stored(
                    mid,
                    r.props(),
                    encode(DateValue::Date(date), "DTEND"@),
                ),
            r.multis() == self.multis(),
    {
        let d = DatePerhapsTime::Date(date);
        let c = self.append_property(d.to_property("DTSTART"));
        let ghost mid = c.props();
        c.append_property(d.to_property("DTEND"))
    }

    /// Sets the priority; values above ten are stored as ten.
    pub fn priority(self, priority: u32) -> (r: Self)
        requires
            self.wf(),
        ensures
            r.wf(),
            stored(
                self.props(),
                r.props(),
                plain_property(
                    "PRIORITY"@,
                    decimal(if priority > 10 { 10 } else { priority as int }),
                ),
            ),
            r.multis() == self.multis(),
    {
        let p: u32 = if priority > 10 { 10 } else { priority };
        let mut text: Vec<char> = Vec::new();
        if p >= 10 {
            text.push('1');
            text.push('0');
        } else {
            text.push(((p as u8) + 48) as char);
        }
        proof {
            if p < 10 {
                assert((((p + 48) as u8) as char) as int == p + 48);
            }
        }
        assert(text@ =~= decimal(p as int));
        let s = string_of(&text);
        self.add_property("PRIORITY", s.as_str())
    }

    /// The priority, if one is stored and reads as a number up to ten.
    pub fn get_priority(&self) -> (r: Option<u32>)
        requires
            self.wf(),
        ensures
            r == (match self.value_of("PRIORITY"@) {
                Some(s) => priority_of(s),
                None => None,
            }),
    {
        match self.property_value("PRIORITY") {
            Some(s) => parse_priority(s),
            None => None,
        }
    }

    /// Sets the summary.
    pub fn summary(self, desc: &str) -> (r: Self)
        requires
            self.wf(),
        ensures
            r.wf(),
            stored(self.props(), r.props(), plain_property("SUMMARY"@, desc@)),
            r.multis() == self.multis(),
    {
        self.add_property("SUMMARY", desc)
    }

    /// The summary.
    pub fn get_summary(&self) -> (r: Option<&str>)
        requires
            self.wf(),
        ensures
            str_view(r) == self.value_of("SUMMARY"@),
    {
        self.property_value("SUMMARY")
    }

    /// Sets the description.
    pub fn description(self, desc: &str) -> (r: Self)
        requires
            self.wf(),
        ensures
            r.wf(),
            stored(self.props(), r.props(), plain_property("DESCRIPTION"@, desc@)),
            r.multis() == self.multis(),
    {
        self.add_property("DESCRIPTION", desc)
    }

    /// The description.
    pub fn get_description(&self) -> (r: Option<&str>)
        requires
            self.wf(),
        ensures
            str_view(r) == self.value_of("DESCRIPTION"@),
    {
        self.property_value("DESCRIPTION")
    }

    /// Sets the location.
    pub fn location(self, location: &str) -> (r: Self)
        requires
            self.wf(),
        ensures
            r.wf(),
            stored(self.props(), r.props(), plain_property("LOCATION"@, location@)),
            r.multis() == self.multis(),
    {
        self.add_property("LOCATION", location)
    }

    /// The location.
    pub fn get_location(&self) -> (r: Option<&str>)
        requires
            self.wf(),
        ensures
            str_view(r) == self.value_of("LOCATION"@),
    {
        self.property_value("LOCATION")
    }

    /// Sets the location together with a reference to a venue's UID.
    pub fn venue(self, location: &str, venue_uid: &str) -> (r: Self)
        requires
            self.wf(),
        ensures
            r.wf(),
            stored(
                self.props(),
                r.props(),
                PropertyModel {
                    key: "LOCATION"@,
                    value: location@,
                    params: seq![("VVENUE"@, venue_uid@)],
                },
            ),
            r.multis() == self.multis(),
    {
        let p = Property::new("LOCATION", location).append_parameter(
            Parameter::new("VVENUE", venue_uid),
        );
        assert(p@.params =~= seq![("VVENUE"@, venue_uid@)]);
        self.append_property(p)
    }

    /// Sets the UID.
    pub fn uid(self, uid: &str) -> (r: Self)
        requires
            self.wf(),
        ensures
            r.wf(),
            stored(self.props(), r.props(), plain_property("UID"@, uid@)),
            r.multis() == self.multis(),
    {
        self.add_property("UID", uid)
    }

    /// The UID.
    pub fn get_uid(&self) -> (r: Option<&str>)
        requires
            self.wf(),
        ensures
            str_view(r) == self.value_of("UID"@),
    {
        self.property_value("UID")
    }

    /// Sets the visibility class.
    pub fn class(self, class: Class) -> (r: Self)
        requires
            self.wf(),
        ensures
            r.wf(),
            stored(self.props(), r.props(), plain_property("CLASS"@, class_text(class))),
            r.multis() == self.multis(),
    {
        self.add_property("CLASS", class.as_str())
    }

    /// The visibility class, if one is stored and names a class.
    pub fn get_class(&self) -> (r: Option<Class>)
        requires
            self.wf(),
        ensures
            r == (match self.value_of("CLASS"@) {
                Some(s) => class_of(s),
                None => None,
            }),
    {
        match self.property_value("CLASS") {
            Some(s) => Class::from_str(s),
            None => None,
        }
    }

    /// Sets the URL.
    pub fn url(self, url: &str) -> (r: Self)
        requires
            self.wf(),
        ensures
            r.wf(),
            stored(self.props(), r.props(), plain_property("URL"@, url@)),
            r.multis() == self.multis(),
    {
        self.add_property("URL", url)
    }

    /// The URL.
    pub fn get_url(&self) -> (r: Option<&str>)
        requires
            self.wf(),
        ensures
            str_view(r) == self.value_of("URL"@),
    {
        self.property_value("URL")
    }

    /// The text of this component, with `now` as the `DTSTAMP` and `uid` as the `UID`
    /// where none is stored.
    #[verifier::rlimit(50)]
    pub fn render(&self, now: &NaiveDateTime, uid: &str) -> (r: String)
        requires
            now.wf(),
        ensures
            r@ == self.text(*now, uid@),
    {
        let props = self.inner.properties();
        let multis = self.inner.multi_properties();
        let mut out: Vec<char> = Vec::new();
        push_str(&mut out, "BEGIN:");
        let kind = K::component_kind();
        push_str(&mut out, kind.as_str());
        out.push('\r');
        out.push('\n');
        let ghost head = out@;
        let ghost sa = stamp_record(self.props(), *now);
        let ghost sb = uid_record(self.props(), uid@);
        let mut extra: Vec<Property> = Vec::new();
        if !has_property(props, "DTSTAMP") {
            let stamp = format_utc_date_time(now);
            extra.push(Property::new("DTSTAMP", stamp.as_str()));
        }
        assert(models(extra@) =~= sa);
        write_lines(&mut out, &extra);
        write_lines(&mut out, props);
        let mut tail: Vec<Property> = Vec::new();
        if !has_property(props, "UID") {
            tail.push(Property::new("UID", uid));
        }
        assert(models(tail@) =~= sb);
        write_lines(&mut out, &tail);
        write_lines(&mut out, multis);
        proof {
            lemma_lines_concat(sa, self.props());
            lemma_lines_concat(sa + self.props(), sb);
            lemma_lines_concat(sa + self.props() + sb, self.multis());
            assert(out@ == head + lines(records(self.props(), self.multis(), *now, uid@)));
        }
        push_str(&mut out, "END:");
        push_str(&mut out, kind.as_str());
        out.push('\r');
        out.push('\n');
        assert(out@ =~= self.text(*now, uid@));
        string_of(&out)
    }

    /// What writing this component gives for the clock reading `p` and the identifier
    /// `uid`: its text; the reading is used only where no `DTSTAMP` is stored, and gives
    /// `ClockOutOfRange` there where it names no date-time with a four-digit year.
    pub open spec fn written(&self, p: ClockReading, uid: Seq<char>, r: Result<String, FormatError>) -> bool {
        if has_key(self.props(), "DTSTAMP"@) {
            r is Ok && r->Ok_0@ == self.text(unix_epoch(), uid)
        } else {
            match date_time_from_parts(p) {
                Some(now) => r is Ok && r->Ok_0@ == self.text(now, uid),
                None => r == Err::<String, FormatError>(FormatError::ClockOutOfRange),
            }
        }
    }

    /// The text of this component for the clock reading `p`, with `uid` as the `UID`
    /// where none is stored. The reading is used only where no `DTSTAMP` is stored; there
    /// it gives `ClockOutOfRange` where it names no date-time with a four-digit year.
    pub fn write_at(&self, p: ClockReading, uid: &str) -> (r: Result<String, FormatError>)
        ensures
            self.written(p, uid@, r),
    {
        if has_property(self.inner.properties(), "DTSTAMP") {
            let epoch = NaiveDate { year: 1970, month: 1, day: 1 }.and_hms(0, 0, 0);
            return Ok(self.render(&epoch, uid));
        }
        match date_time_of_parts(p) {
            Some(now) => Ok(self.render(&now, uid)),
            None => Err(FormatError::ClockOutOfRange),
        }
    }

    /// The text of this component. Where no `DTSTAMP` is stored the current time is read
    /// for it, and where no `UID` is stored a fresh random identifier is made; a failure
    /// of either is the only error. With both stored, the result is always `Ok`.
    pub fn try_into_string(&self) -> (r: Result<String, FormatError>)
        ensures
            (r is Ok || r == Err::<String, FormatError>(FormatError::ClockOutOfRange)) ==> exists|
                p: ClockReading,
                uid: Seq<char>,
            |
                (has_key(self.props(), "DTSTAMP"@) || is_clock_reading(p)) && (has_key(
                    self.props(),
                    "UID"@,
                ) || is_uid_text(uid)) && self.written(p, uid, r),
            r == Err::<String, FormatError>(FormatError::ClockUnavailable) ==> !has_key(
                self.props(),
                "DTSTAMP"@,
            ),
            r == Err::<String, FormatError>(FormatError::ClockOutOfRange) ==> !has_key(
                self.props(),
                "DTSTAMP"@,
            ),
            r == Err::<String, FormatError>(FormatError::RandomUnavailable) ==> !has_key(
                self.props(),
                "UID"@,
            ),
            has_key(self.props(), "DTSTAMP"@) && has_key(self.props(), "UID"@) ==> r is Ok,
    {
        let has_stamp = has_property(self.inner.properties(), "DTSTAMP");
        let has_uid = has_property(self.inner.properties(), "UID");
        let p: ClockReading = if has_stamp {
            (1970, 1, 1, 0, 0, 0)
        } else {
            match clock_reading() {
                Some(p) => p,
                None => return Err(FormatError::ClockUnavailable),
            }
        };
        let uid: String = if has_uid {
            String::new()
        } else {
            match fresh_uid() {
                Some(u) => u,
                None => return Err(FormatError::RandomUnavailable),
            }
        };
        let r = self.write_at(p, uid.as_str());
        assert((has_stamp || is_clock_reading(p)) && (has_uid || is_uid_text(uid@)) && self.written(
            p,
            uid@,
            r,
        ));
        r
    }
}

/// The priority that `s` gives: one or more digits whose value is at most ten.
pub fn parse_priority(s: &str) -> (r: Option<u32>)
    ensures
        r == priority_of(s@),
{
    let v = chars_of(s);
    let start: usize = if v.len() > 0 && v[0] == '+' { 1 } else { 0 };
    let ghost t = priority_digits(s@);
    assert(t =~= v@.subrange(start as int, v@.len() as int));
    if start == v.len() {
        return None;
    }
    let mut acc: u32 = 0;
    let mut i: usize = start;
    while i < v.len()
        invariant
            v@ == s@,
            t == v@.subrange(start as int, v@.len() as int),
            t == priority_digits(s@),
            start <= i <= v@.len(),
            forall|j: int| start <= j < i ==> is_digit(#[trigger] v@[j]),
            acc == (if digits_value(v@.subrange(start as int, i as int)) > 10 {
                11
            } else {
                digits_value(v@.subrange(start as int, i as int))
            }),
            digits_value(v@.subrange(start as int, i as int)) >= 0,
        decreases v.len() - i,
    {
        let c = v[i];
        if !('0' <= c && c <= '9') {
            assert(t[i - start] == c);
            assert(!is_digit(t[i - start]));
            return None;
        }
        let ghost pre = v@.subrange(start as int, i as int);
        assert(v@.subrange(start as int, i + 1 as int).drop_last() =~= pre);
        let d = (c as u32) - 48;
        if acc > 10 {
            acc = 11;
        } else {
            acc = acc * 10 + d;
            if acc > 10 {
                acc = 11;
            }
        }
        i = i + 1;
    }
    assert(forall|j: int| 0 <= j < t.len() ==> t[j] == v@[j + start]);
    if acc <= 10 {
        Some(acc)
    } else {
        None
    }
}

/// Setting a priority stores `min(p, 10)`, and reading it back gives that number.
pub proof fn lemma_priority_round_trip(p: u32)
    ensures
        priority_of(decimal(if p > 10 { 10 } else { p as int })) == Some(
            if p > 10 { 10u32 } else { p },
        ),
{
    let n: int = if p > 10 { 10 } else { p as int };
    let s = decimal(n);
    assert(priority_digits(s) == s);
    if n < 10 {
        assert((((n + 48) as u8) as char) as int == n + 48);
        assert(s.drop_last() =~= Seq::<char>::empty());
        assert(digits_value(s.drop_last()) == 0);
        assert(digits_value(s) == n);
        assert(is_digit(s[0]));
    } else {
        assert((((1 + 48) as u8) as char) as int == 49);
        assert((((0 + 48) as u8) as char) as int == 48);
        assert(s.drop_last().drop_last() =~= Seq::<char>::empty());
        assert(digits_value(s.drop_last().drop_last()) == 0);
        assert(digits_value(s.drop_last()) == 1);
        assert(digits_value(s) == 10);
        assert(is_digit(s[0]) && is_digit(s[1]));
    }
    assert(forall|i: int| 0 <= i < s.len() ==> is_digit(#[trigger] s[i]));
}


/// Reading the priority after setting `p` gives `min(p, 10)`: what `priority` stores is
/// what `get_priority` reads back.
pub proof fn lemma_priority_set_get(before: Seq<PropertyModel>, after: Seq<PropertyModel>, p: u32)
    requires
        stored(
            before,
            after,
            plain_property("PRIORITY"@, decimal(if p > 10 { 10 } else { p as int })),
        ),
    ensures
        lookup_value(after, "PRIORITY"@) == Some(decimal(if p > 10 { 10 } else { p as int })),
        priority_of(decimal(if p > 10 { 10 } else { p as int })) == Some(
            if p > 10 { 10u32 } else { p },
        ),
{
    lemma_lookup_stored(
        before,
        after,
        plain_property("PRIORITY"@, decimal(if p > 10 { 10 } else { p as int })),
    );
    lemma_priority_round_trip(p);
}

} // verus!
