use vstd::prelude::*;
use chrono::{DateTime, Utc};

verus! {

/// The earliest second that a UTC date-time can hold (January 1, 262144 BCE).
pub const MIN_SECONDS: i64 = -8334601315200;

/// The last second that a UTC date-time can hold (December 31, 262142 CE,
/// 23:59:59).
pub const MAX_SECONDS: i64 = 8210266876799;

/// Seconds and nanoseconds that stand for a UTC date-time: the seconds in
/// range, and the nanoseconds below one second, or below two in the last
/// second of a minute (a leap second).
pub open spec fn valid_timestamp(secs: i64, nanos: u32) -> bool {
    &&& MIN_SECONDS <= secs <= MAX_SECONDS
    &&& (nanos < 1_000_000_000 || (nanos < 2_000_000_000 && secs % 60 == 59))
}

/// What the `Debug` text of the UTC date-time at `secs` and `nanos` is.
pub uninterp spec fn timestamp_debug(secs: i64, nanos: u32) -> Seq<char>;

/// What parsing text as a `DateTime<Utc>` gives, as seconds and
/// nanoseconds since the Unix epoch.
pub uninterp spec fn timestamp_parse(text: Seq<char>) -> Option<(i64, u32)>;

/// A character of a date-time's `Debug` text: a digit, a sign, `T`, `:`,
/// `.` or `Z`.
pub open spec fn date_char(c: char) -> bool {
    ('0' <= c && c <= '9') || c == '+' || c == '-' || c == 'T' || c == ':' || c == '.' || c == 'Z'
}

/// The shape of a date-time's `Debug` text: not empty, beginning with a
/// digit or a sign (the year), and made of date characters only.
pub open spec fn date_text_shape(d: Seq<char>) -> bool {
    &&& d.len() > 0
    &&& (d[0] == '+' || d[0] == '-' || ('0' <= d[0] && d[0] <= '9'))
    &&& forall|i: int| 0 <= i < d.len() ==> date_char(#[trigger] d[i])
}

/// A point in time: whole seconds since the Unix epoch, and nanoseconds
/// into that second. Later points compare greater, as `DateTime<Utc>` does.
#[derive(Debug, Clone, Copy, PartialEq, Eq, Structural)]
pub struct Timestamp {
    secs: i64,
    nanos: u32,
}

impl View for Timestamp {
    type V = (i64, u32);

    closed spec fn view(&self) -> (i64, u32) {
        (self.secs, self.nanos)
    }
}

/// `a` comes before `b`.
pub open spec fn before(a: (i64, u32), b: (i64, u32)) -> bool {
    a.0 < b.0 || (a.0 == b.0 && a.1 < b.1)
}

impl Timestamp {
    #[verifier::type_invariant]
    spec fn inv(self) -> bool {
        valid_timestamp(self.secs, self.nanos)
    }

    /// The timestamp at `secs` and `nanos`, if they stand for a date-time.
    pub fn new(secs: i64, nanos: u32) -> (r: Option<Timestamp>)
        ensures
            r is Some <==> valid_timestamp(secs, nanos),
            r matches Some(t) ==> t@ == (secs, nanos),
    {
        if MIN_SECONDS <= secs && secs <= MAX_SECONDS && (nanos < 1_000_000_000 || (nanos
            < 2_000_000_000 && (secs % 60 + 60) % 60 == 59)) {
            Some(Timestamp { secs, nanos })
        } else {
            None
        }
    }

    /// Whole seconds since the Unix epoch.
    pub fn seconds(&self) -> (r: i64)
        ensures
            r == self@.0,
    {
        self.secs
    }

    /// Nanoseconds into the second.
    pub fn nanoseconds(&self) -> (r: u32)
        ensures
            r == self@.1,
    {
        self.nanos
    }

    /// Whether this point comes before `other`.
    pub fn is_before(&self, other: &Timestamp) -> (r: bool)
        ensures
            r == before(self@, other@),
    {
        self.secs < other.secs || (self.secs == other.secs && self.nanos < other.nanos)
    }

    /// Calls `Utc::now`. Claimed: the result is a valid date-time (it came
    /// from one); which time it is depends on the clock and is left unsaid.
    #[verifier::external_body]
    pub(crate) fn now() -> (r: Timestamp)
        ensures
            valid_timestamp(r@.0, r@.1),
    {
        let dt = Utc::now();
        Timestamp { secs: dt.timestamp(), nanos: dt.timestamp_subsec_nanos() }
    }

    /// Calls `DateTime::from_timestamp` and formats the date-time with
    /// `{:?}`. Claimed: the text is `timestamp_debug` of the seconds and
    /// nanoseconds (`from_timestamp` succeeds on every valid timestamp); it
    /// begins with the year, a digit or a sign, and holds no line break (the
    /// `Debug` impls of `NaiveDate`, `NaiveTime` and `Utc` write only digits,
    /// signs, `T`, `:`, `.` and `Z`); and
    /// parsing it as a `DateTime<Utc>` gives the same point back (the
    /// relaxed RFC 3339 parser reads signed years, a `60` second as a leap
    /// second, up to nine fraction digits and `Z`).
    #[verifier::external_body]
    pub(crate) fn debug_string(&self) -> (r: String)
        ensures
            r@ == timestamp_debug(self@.0, self@.1),
            date_text_shape(r@),
            timestamp_parse(r@) == Some(self@),
    {
        format!("{:?}", DateTime::from_timestamp(self.secs, self.nanos).unwrap())
    }

    /// Calls `str::parse::<DateTime<Utc>>`. Claimed: it succeeds exactly
    /// when `timestamp_parse` gives a value, and then gives that point, which
    /// is a valid date-time.
    #[verifier::external_body]
    pub(crate) fn parse(text: &str) -> (r: Option<Timestamp>)
        ensures
            match r {
                Some(t) => timestamp_parse(text@) == Some(t@) && valid_timestamp(t@.0, t@.1),
                None => timestamp_parse(text@) is None,
            },
    {
        text.parse::<DateTime<Utc>>().ok().map(
            |dt| Timestamp { secs: dt.timestamp(), nanos: dt.timestamp_subsec_nanos() },
        )
    }
}

} // verus!

verus! {

/// `before` orders points in time strictly and totally: no point comes
/// before itself, the order is transitive, and of two different points one
/// comes first.
pub proof fn law_before_strict_order(a: (i64, u32), b: (i64, u32), c: (i64, u32))
    ensures
        !before(a, a),
        before(a, b) ==> !before(b, a),
        before(a, b) && before(b, c) ==> before(a, c),
        a != b ==> before(a, b) || before(b, a),
{
}

} // verus!
