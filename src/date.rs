use vstd::prelude::*;

use crate::text::{chars_of, strip_at, string_of, trim, unquote};

verus! {

/// The earliest instant that chrono's `DateTime<Utc>` holds, -262143-01-01T00:00:00Z,
/// in seconds since the Unix epoch.
pub const MIN_TIMESTAMP: i64 = -8334601315200;

/// The latest whole second that chrono's `DateTime<Utc>` holds, +262142-12-31T23:59:59Z.
pub const MAX_TIMESTAMP: i64 = 8210266876799;

/// IMF-fixdate: `Sun, 06 Nov 1994 08:49:37 GMT`.
pub const IMF_FIXDATE: &'static str = "%a, %d %b %Y %H:%M:%S GMT";

/// The obsolete RFC 850 form: `Sunday, 06-Nov-94 08:49:37 GMT`.
pub const RFC850_DATE: &'static str = "%A, %d-%b-%y %H:%M:%S GMT";

/// ANSI C's `asctime` form: `Sun Nov  6 08:49:37 1994`.
pub const ASCTIME_DATE: &'static str = "%a %b %e %H:%M:%S %Y";

/// An instant that a `DateTime<Utc>` can hold: whole seconds since the epoch
/// within its range, and nanoseconds that pass one second only on a leap
/// second, the last second of a minute.
pub open spec fn valid_instant(secs: i64, nanos: u32) -> bool {
    &&& MIN_TIMESTAMP <= secs <= MAX_TIMESTAMP
    &&& nanos < 2_000_000_000
    &&& nanos >= 1_000_000_000 ==> (secs as int) % 60 == 59
}

/// Whether instant `a` is at or before instant `b`; a leap second sorts
/// within the second that it extends.
pub open spec fn at_or_before(a: (i64, u32), b: (i64, u32)) -> bool {
    a.0 < b.0 || (a.0 == b.0 && a.1 <= b.1)
}

/// What `NaiveDateTime::parse_from_str(s, fmt)` reads, taken as UTC, as
/// seconds and nanoseconds since the epoch.
pub uninterp spec fn naive_utc_parse(s: Seq<char>, fmt: Seq<char>) -> Option<(i64, u32)>;

/// What `DateTime::parse_from_rfc3339(s)` reads, as seconds and nanoseconds
/// since the epoch.
pub uninterp spec fn rfc3339_parse(s: Seq<char>) -> Option<(i64, u32)>;

/// The text that `DateTime::<Utc>::format(fmt)` writes for an instant.
pub uninterp spec fn utc_format_text(secs: i64, nanos: u32, fmt: Seq<char>) -> Seq<char>;

/// Relies on chrono's `NaiveDateTime::parse_from_str`, read as a UTC instant by
/// `and_utc`; a `DateTime<Utc>` always lies in chrono's range.
#[verifier::external_body]
fn parse_naive_utc(s: &str, fmt: &str) -> (r: Option<(i64, u32)>)
    ensures
        r == naive_utc_parse(s@, fmt@),
        r matches Some(p) ==> valid_instant(p.0, p.1),
{
    match chrono::NaiveDateTime::parse_from_str(s, fmt) {
        Ok(d) => Some((d.and_utc().timestamp(), d.and_utc().timestamp_subsec_nanos())),
        Err(_) => None,
    }
}

/// Relies on chrono's `DateTime::parse_from_rfc3339`; the instant it gives lies
/// in chrono's range.
#[verifier::external_body]
fn parse_rfc3339(s: &str) -> (r: Option<(i64, u32)>)
    ensures
        r == rfc3339_parse(s@),
        r matches Some(p) ==> valid_instant(p.0, p.1),
{
    match chrono::DateTime::parse_from_rfc3339(s) {
        Ok(d) => Some((d.timestamp(), d.timestamp_subsec_nanos())),
        Err(_) => None,
    }
}

/// Relies on chrono's `DateTime::from_timestamp`, which gives `Some` for every
/// valid instant, and on `DateTime::format`, here with the IMF-fixdate
/// pattern, which chrono writes without error.
#[verifier::external_body]
fn format_utc(secs: i64, nanos: u32, fmt: &str) -> (r: String)
    requires
        valid_instant(secs, nanos),
        fmt@ == IMF_FIXDATE@,
    ensures
        r@ == utc_format_text(secs, nanos, fmt@),
{
    match chrono::DateTime::from_timestamp(secs, nanos) {
        Some(d) => d.format(fmt).to_string(),
        None => String::new(),
    }
}

/// An instant in UTC, as HTTP dates carry it.
#[derive(Debug, Clone, Copy, PartialEq, Eq)]
pub struct HttpDate {
    secs: i64,
    nanos: u32,
}

impl View for HttpDate {
    type V = (i64, u32);

    closed spec fn view(&self) -> (i64, u32) {
        (self.secs, self.nanos)
    }
}

impl HttpDate {
    #[verifier::type_invariant]
    closed spec fn inv(self) -> bool {
        valid_instant(self.secs, self.nanos)
    }

    /// The instant `secs` seconds and `nanos` nanoseconds after the epoch,
    /// where chrono can hold it.
    pub fn from_timestamp(secs: i64, nanos: u32) -> (r: Option<HttpDate>)
        ensures
            r is Some <==> valid_instant(secs, nanos),
            r matches Some(d) ==> d@ == (secs, nanos),
    {
        if MIN_TIMESTAMP <= secs && secs <= MAX_TIMESTAMP && nanos < 2_000_000_000 && (
        nanos < 1_000_000_000 || secs % 60 == 59 || secs % 60 == -1) {
            Some(HttpDate { secs, nanos })
        } else {
            None
        }
    }

    /// Seconds since the epoch.
    pub fn timestamp(&self) -> (r: i64)
        ensures
            r == self@.0,
    {
        self.secs
    }

    /// Nanoseconds past the whole second.
    pub fn subsec_nanos(&self) -> (r: u32)
        ensures
            r == self@.1,
    {
        self.nanos
    }

    /// Whether this instant is at or before `other`.
    pub fn is_at_or_before(&self, other: &HttpDate) -> (r: bool)
        ensures
            r == at_or_before(self@, other@),
    {
        self.secs < other.secs || (self.secs == other.secs && self.nanos <= other.nanos)
    }
}

/// The instant that an HTTP date names: the trimmed text read as IMF-fixdate,
/// else as an RFC 850 date, else as an `asctime` date.
pub open spec fn http_date_of(s: Seq<char>) -> Option<(i64, u32)> {
    let t = trim(s);
    if naive_utc_parse(t, IMF_FIXDATE@) is Some {
        naive_utc_parse(t, IMF_FIXDATE@)
    } else if naive_utc_parse(t, RFC850_DATE@) is Some {
        naive_utc_parse(t, RFC850_DATE@)
    } else {
        naive_utc_parse(t, ASCTIME_DATE@)
    }
}

/// Parses an HTTP date in any of its three forms, as a UTC instant.
pub fn parse_http_date(date_str: &str) -> (r: Option<HttpDate>)
    ensures
        match r {
            Some(d) => http_date_of(date_str@) == Some(d@),
            None => http_date_of(date_str@) is None,
        },
{
    let v = chars_of(date_str);
    assert(v@.subrange(0, v@.len() as int) =~= v@);
    let (a, b) = strip_at(&v, 0, v.len(), false);
    let t = string_of(&v, a, b);
    let mut found = parse_naive_utc(t.as_str(), IMF_FIXDATE);
    if found.is_none() {
        found = parse_naive_utc(t.as_str(), RFC850_DATE);
    }
    if found.is_none() {
        found = parse_naive_utc(t.as_str(), ASCTIME_DATE);
    }
    match found {
        Some((secs, nanos)) => Some(HttpDate { secs, nanos }),
        None => None,
    }
}

/// The IMF-fixdate text of an instant, in GMT.
pub fn format_http_date(dt: &HttpDate) -> (r: String)
    ensures
        r@ == utc_format_text(dt@.0, dt@.1, IMF_FIXDATE@),
{
    proof {
        use_type_invariant(dt);
    }
    format_utc(dt.secs, dt.nanos, IMF_FIXDATE)
}

/// The validator that an `If-Range` header carries.
#[derive(Debug, Clone, PartialEq)]
pub enum IfRangeHeader {
    ETag(String),
    Date(HttpDate),
}

/// An `If-Range` value is a date where it reads as RFC 3339, and otherwise an
/// entity tag without its surrounding quotes.
pub open spec fn if_range_is(h: IfRangeHeader, s: Seq<char>) -> bool {
    match rfc3339_parse(s) {
        Some(p) => h matches IfRangeHeader::Date(d) && d@ == p,
        None => h matches IfRangeHeader::ETag(e) && e@ == unquote(s),
    }
}

/// Reads an `If-Range` value: a date, else an entity tag.
pub fn parse_if_range(value: &str) -> (r: IfRangeHeader)
    ensures
        if_range_is(r, value@),
{
    match parse_rfc3339(value) {
        Some((secs, nanos)) => IfRangeHeader::Date(HttpDate { secs, nanos }),
        None => {
            let v = chars_of(value);
            assert(v@.subrange(0, v@.len() as int) =~= v@);
            let (a, b) = strip_at(&v, 0, v.len(), true);
            IfRangeHeader::ETag(string_of(&v, a, b))
        },
    }
}

} // verus!
