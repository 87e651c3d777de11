//! UTC instants as plain values, and their RFC 3339 text through chrono.

use vstd::prelude::*;

verus! {

/// Seconds of 0000-01-01T00:00:00Z relative to the Unix epoch.
pub const MIN_SECS: i64 = -62167219200;

/// Seconds of 9999-12-31T23:59:59Z relative to the Unix epoch.
pub const MAX_SECS: i64 = 253402300799;

pub const NANOS_PER_SEC: u32 = 1000000000;

/// A UTC instant between the years 0 and 9999, to the nanosecond.
#[derive(Clone, Copy, Debug, PartialEq, Eq, Structural)]
pub struct Timestamp {
    secs: i64,
    nanos: u32,
}

pub open spec fn in_range(secs: int, nanos: int) -> bool {
    MIN_SECS <= secs <= MAX_SECS && 0 <= nanos < NANOS_PER_SEC
}

impl Timestamp {
    #[verifier::type_invariant]
    spec fn inv(self) -> bool {
        in_range(self.secs as int, self.nanos as int)
    }

    pub closed spec fn spec_secs(self) -> i64 {
        self.secs
    }

    pub closed spec fn spec_nanos(self) -> u32 {
        self.nanos
    }

    /// The instant `secs` seconds and `nanos` nanoseconds after the Unix epoch,
    /// or `None` outside the years 0 to 9999 or for `nanos` of a second or more.
    pub fn from_parts(secs: i64, nanos: u32) -> (r: Option<Timestamp>)
        ensures
            r is Some <==> in_range(secs as int, nanos as int),
            r matches Some(t) ==> t.spec_secs() == secs && t.spec_nanos() == nanos,
    {
        if MIN_SECS <= secs && secs <= MAX_SECS && nanos < NANOS_PER_SEC {
            Some(Timestamp { secs, nanos })
        } else {
            None
        }
    }

    pub fn secs(&self) -> (r: i64)
        ensures
            r == self.spec_secs(),
    {
        self.secs
    }

    pub fn nanos(&self) -> (r: u32)
        ensures
            r == self.spec_nanos(),
    {
        self.nanos
    }

    /// RFC 3339 text of the instant, with a `+00:00` offset.
    pub fn to_rfc3339(&self) -> (r: String)
        ensures
            r@ == rfc3339_text(self.spec_secs(), self.spec_nanos()),
            in_range(self.spec_secs() as int, self.spec_nanos() as int),
            date_shaped(r@),
            rfc3339_parsed(r@) == Some((self.spec_secs(), self.spec_nanos())),
    {
        proof {
            use_type_invariant(&self);
        }
        format_rfc3339(self.secs, self.nanos)
    }

    /// Reads RFC 3339 text; `None` where chrono rejects it or the instant lies
    /// outside the years 0 to 9999.
    pub fn parse_rfc3339(s: &str) -> (r: Option<Timestamp>)
        ensures
            r == timestamp_of(rfc3339_parsed(s@)),
    {
        match parse_rfc3339_parts(s) {
            Some((secs, nanos)) => Timestamp::from_parts(secs, nanos),
            None => None,
        }
    }
}

/// An instant read back from its own parts is that instant.
pub proof fn lemma_timestamp_of_parts(t: Timestamp)
    requires
        in_range(t.spec_secs() as int, t.spec_nanos() as int),
    ensures
        timestamp_of(Some((t.spec_secs(), t.spec_nanos()))) == Some(t),
{
    let c = choose|u: Timestamp| u.spec_secs() == t.spec_secs() && u.spec_nanos() == t.spec_nanos();
    assert(c.secs == t.secs && c.nanos == t.nanos);
}

/// The instant that parsed parts stand for, where they are in range.
pub open spec fn timestamp_of(parts: Option<(i64, u32)>) -> Option<Timestamp> {
    match parts {
        Some((s, n)) => if in_range(s as int, n as int) {
            Some(choose|t: Timestamp| t.spec_secs() == s && t.spec_nanos() == n)
        } else {
            None
        },
        None => None,
    }
}

/// A character that RFC 3339 text of a year between 0 and 9999 is made of.
pub open spec fn is_date_char(c: char) -> bool {
    ('0' <= c && c <= '9') || c == '-' || c == ':' || c == '.' || c == '+' || c == 'T'
}

/// Non-empty, made of date characters, never two dashes in a row.
pub open spec fn date_shaped(s: Seq<char>) -> bool {
    &&& s.len() > 0
    &&& forall|i: int| 0 <= i < s.len() ==> is_date_char(#[trigger] s[i])
    &&& forall|i: int| 0 <= i < s.len() - 1 ==> !(#[trigger] s[i] == '-' && s[i + 1] == '-')
}

/// What chrono's `to_rfc3339` writes for a UTC instant.
pub uninterp spec fn rfc3339_text(secs: i64, nanos: u32) -> Seq<char>;

/// What chrono's `DateTime::parse_from_rfc3339` reads from a text, as seconds
/// and nanoseconds after the Unix epoch.
pub uninterp spec fn rfc3339_parsed(s: Seq<char>) -> Option<(i64, u32)>;

/// Relies on chrono's `DateTime::<Utc>::from_timestamp` (always `Some` in this
/// range) and `DateTime::to_rfc3339`, which writes a four-digit year, `-`,
/// month, `-`, day, `T`, hours, minutes and seconds split by `:`, an optional
/// fraction after `.`, and `+00:00`; `parse_from_rfc3339` reads it back.
#[verifier::external_body]
fn format_rfc3339(secs: i64, nanos: u32) -> (r: String)
    requires
        in_range(secs as int, nanos as int),
    ensures
        r@ == rfc3339_text(secs, nanos),
        date_shaped(r@),
        rfc3339_parsed(r@) == Some((secs, nanos)),
{
    match chrono::DateTime::from_timestamp(secs, nanos) {
        Some(d) => d.to_rfc3339(),
        None => String::new(),
    }
}

/// Relies on chrono's `DateTime::parse_from_rfc3339`, with the instant read
/// back through `timestamp` and `timestamp_subsec_nanos`.
#[verifier::external_body]
fn parse_rfc3339_parts(s: &str) -> (r: Option<(i64, u32)>)
    ensures
        r == rfc3339_parsed(s@),
{
    chrono::DateTime::parse_from_rfc3339(s).ok().map(|d| (d.timestamp(), d.timestamp_subsec_nanos()))
}

} // verus!
