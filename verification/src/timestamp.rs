//! Points in time, as whole seconds and nanoseconds since the Unix epoch in
//! UTC, and their RFC 3339 text.
use vstd::prelude::*;

verus! {

/// A point in time: seconds since 1970-01-01T00:00:00Z and the nanoseconds
/// within that second.
#[derive(Clone, Copy, Debug, PartialEq, Eq, Structural)]
pub struct Timestamp {
    pub secs: i64,
    pub nanos: u32,
}

/// The RFC 3339 text that `chrono` writes for the instant `secs`.`nanos`
/// in UTC (the form its `serde` support writes), if `chrono` can represent
/// the instant.
pub uninterp spec fn rfc3339_text(secs: i64, nanos: u32) -> Option<Seq<char>>;

/// The instant that `chrono` reads from `text` when it parses a
/// `DateTime<FixedOffset>` (the form its `serde` support reads), as seconds
/// and nanoseconds in UTC.
pub uninterp spec fn rfc3339_instant(text: Seq<char>) -> Option<(i64, u32)>;

/// The view of an optional string.
pub open spec fn opt_string_view(o: Option<String>) -> Option<Seq<char>> {
    match o {
        Some(s) => Some(s@),
        None => None,
    }
}

/// `chrono::DateTime::<Utc>::from_timestamp(secs, nanos)`, written with
/// `to_rfc3339_opts(SecondsFormat::AutoSi, true)`.  The contract only names
/// the result.
#[verifier::external_body]
fn chrono_rfc3339(secs: i64, nanos: u32) -> (r: Option<String>)
    ensures
        opt_string_view(r) == rfc3339_text(secs, nanos),
{
    chrono::DateTime::<chrono::Utc>::from_timestamp(secs, nanos).map(
        |d| d.to_rfc3339_opts(chrono::SecondsFormat::AutoSi, true),
    )
}

/// `text.parse::<chrono::DateTime<chrono::FixedOffset>>()`, taken to UTC and
/// split into `timestamp()` and `timestamp_subsec_nanos()`.  The contract
/// only names the result.
#[verifier::external_body]
fn chrono_parse_rfc3339(text: &str) -> (r: Option<(i64, u32)>)
    ensures
        r == rfc3339_instant(text@),
{
    text.parse::<chrono::DateTime<chrono::FixedOffset>>().ok().map(|d| {
        let u = d.with_timezone(&chrono::Utc);
        (u.timestamp(), u.timestamp_subsec_nanos())
    })
}

/// `chrono::Utc::now()` as seconds and nanoseconds.  The value depends on
/// the time of the call; what is claimed is what its source shows of every
/// value: it is built with `DateTime::from_timestamp` from the system time's
/// `Duration` since the Unix epoch (whose whole seconds, a signed 64-bit
/// count on the platforms std supports, stay at or under `i64::MAX`), so the
/// seconds are not negative and the nanoseconds are fewer than a billion.
#[verifier::external_body]
fn chrono_now() -> (r: (i64, u32))
    ensures
        r.0 >= 0,
        r.1 < 1_000_000_000,
{
    let now = chrono::Utc::now();
    (now.timestamp(), now.timestamp_subsec_nanos())
}

impl Timestamp {
    /// The instant `secs` seconds and `nanos` nanoseconds after the epoch.
    pub fn new(secs: i64, nanos: u32) -> (t: Timestamp)
        ensures
            t == (Timestamp { secs, nanos }),
    {
        Timestamp { secs, nanos }
    }

    /// The current time of the system clock: an instant at or after the
    /// epoch, with fewer than a billion nanoseconds.
    pub fn now() -> (t: Timestamp)
        ensures
            t.secs >= 0,
            t.nanos < 1_000_000_000,
    {
        let (secs, nanos) = chrono_now();
        Timestamp { secs, nanos }
    }

    /// The RFC 3339 text of this instant, if it can be represented.
    pub fn to_rfc3339(&self) -> (r: Option<String>)
        ensures
            opt_string_view(r) == rfc3339_text(self.secs, self.nanos),
    {
        chrono_rfc3339(self.secs, self.nanos)
    }

    /// Reads an instant from its RFC 3339 text.
    pub fn parse_rfc3339(text: &str) -> (r: Option<Timestamp>)
        ensures
            r == (match rfc3339_instant(text@) {
                Some(p) => Some(Timestamp { secs: p.0, nanos: p.1 }),
                None => None,
            }),
    {
        match chrono_parse_rfc3339(text) {
            Some((secs, nanos)) => Some(Timestamp { secs, nanos }),
            None => None,
        }
    }
}

} // verus!
