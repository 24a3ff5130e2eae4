//! Instants of time, and their RFC 3339 text as `chrono` reads and writes it.

use crate::text::is_token;
use vstd::prelude::*;

verus! {

/// The Unix time of the first instant that a timestamp can hold: the start of the
/// year 262144 BCE.
pub const MIN_SECS: i64 = -8_334_601_228_800;

/// The Unix time of the last second that a timestamp can hold: the end of the
/// year 262142 CE.
pub const MAX_SECS: i64 = 8_210_266_876_799;

/// The Unix time of 2020-01-01T00:00:00Z.
pub const EPOCH_SECS: i64 = 1_577_836_800;

/// The Unix time of 0000-01-01T00:00:00Z.
pub const YEAR_0_SECS: i64 = -62_167_219_200;

/// The Unix time of 9999-12-31T23:59:59Z.
pub const YEAR_9999_SECS: i64 = 253_402_300_799;

/// An instant of UTC: whole seconds since 1970-01-01T00:00:00Z, leap seconds not
/// counted, and the nanoseconds since that second began.
pub struct Instant {
    pub secs: i64,
    pub nanos: u32,
}

/// The instants that a timestamp can hold. A leap second is the 60th second of a
/// minute, written as the 59th with a thousand million nanoseconds more.
pub open spec fn is_instant(secs: i64, nanos: u32) -> bool {
    &&& MIN_SECS <= secs <= MAX_SECS
    &&& nanos < 2_000_000_000
    &&& nanos >= 1_000_000_000 ==> secs as int % 60 == 59
}

/// Whether the second falls in a year of four digits, 0000 to 9999. These are the
/// years that RFC 3339 has a text for.
pub open spec fn has_four_digit_year(secs: i64) -> bool {
    YEAR_0_SECS <= secs <= YEAR_9999_SECS
}

/// The instant that `chrono::DateTime::parse_from_rfc3339` reads from a text, as
/// the seconds and nanoseconds of its UTC time; `None` where it reads none.
pub uninterp spec fn rfc3339_instant(text: Seq<char>) -> Option<(i64, u32)>;

/// The text that `chrono::DateTime::to_rfc3339` writes for the UTC time with
/// these seconds and nanoseconds; `None` where there is no such time.
pub uninterp spec fn rfc3339_text(secs: i64, nanos: u32) -> Option<Seq<char>>;

/// `chrono::format::ParseError`, of which nothing is known but that a text was
/// not read.
#[verifier::external_type_specification]
#[verifier::external_body]
pub struct ExParseError(chrono::format::ParseError);

/// `chrono::DateTime::parse_from_rfc3339`, with the time it found handed back as
/// `timestamp()` and `timestamp_subsec_nanos()`. The contract only names what
/// was read.
#[verifier::external_body]
fn read_rfc3339(text: &str) -> (r: Result<(i64, u32), chrono::format::ParseError>)
    ensures
        match r {
            Ok(at) => rfc3339_instant(text@) == Some(at),
            Err(_) => rfc3339_instant(text@) is None,
        },
{
    match chrono::DateTime::parse_from_rfc3339(text) {
        Ok(at) => Ok((at.timestamp(), at.timestamp_subsec_nanos())),
        Err(e) => Err(e),
    }
}

/// `chrono::DateTime::to_rfc3339` on the time that `chrono::DateTime::from_timestamp`
/// makes of the seconds and nanoseconds. The contract names the text, and claims
/// two things more.
///
/// There is a text for every instant: `from_timestamp` refuses a number of
/// seconds only outside the years that `MIN_SECS` and `MAX_SECS` bound, and a
/// number of nanoseconds only as `is_instant` does.
///
/// For an instant in a year of four digits the text holds digits, `-`, `T`, `:`,
/// `.` and `+` and nothing else, and `chrono::DateTime::parse_from_rfc3339` reads
/// the instant from it again: it is written as `YYYY-MM-DDTHH:MM:SS`, then a dot
/// and three, six or nine digits unless the nanoseconds are zero, then `+00:00`,
/// with the second 60 for a leap second, and that is what is read. For a later
/// or an earlier year a sign is written that is not read.
#[verifier::external_body]
fn write_rfc3339(secs: i64, nanos: u32) -> (r: Option<String>)
    ensures
        match r {
            Some(text) => {
                &&& rfc3339_text(secs, nanos) == Some(text@)
                &&& has_four_digit_year(secs) ==> is_token(text@) && rfc3339_instant(text@)
                    == Some((secs, nanos))
            },
            None => rfc3339_text(secs, nanos) is None,
        },
        is_instant(secs, nanos) ==> r is Some,
{
    match chrono::DateTime::from_timestamp(secs, nanos) {
        Some(at) => Some(at.to_rfc3339()),
        None => None,
    }
}

/// `chrono::Utc::now`, handed back as `timestamp()` and `timestamp_subsec_nanos()`.
/// Whatever the clock says, it is an instant.
#[verifier::external_body]
fn read_clock() -> (r: (i64, u32))
    ensures
        is_instant(r.0, r.1),
{
    let at = chrono::Utc::now();
    (at.timestamp(), at.timestamp_subsec_nanos())
}

/// The instant that a text in RFC 3339 stands for, if it stands for one.
pub open spec fn instant_of(text: Seq<char>) -> Option<Instant> {
    match rfc3339_instant(text) {
        Some((secs, nanos)) => if is_instant(secs, nanos) {
            Some(Instant { secs, nanos })
        } else {
            None
        },
        None => None,
    }
}

/// The RFC 3339 text of an instant.
pub open spec fn text_of(at: Instant) -> Seq<char> {
    rfc3339_text(at.secs, at.nanos)->0
}

/// A point in time. Every value is an instant in the sense of `is_instant`.
#[derive(Debug, Clone, Copy, PartialEq, Eq)]
pub struct Timestamp {
    secs: i64,
    nanos: u32,
}

impl View for Timestamp {
    type V = Instant;

    closed spec fn view(&self) -> Instant {
        Instant { secs: self.secs, nanos: self.nanos }
    }
}

impl DeepView for Timestamp {
    type V = Instant;

    open spec fn deep_view(&self) -> Instant {
        self@
    }
}

impl Timestamp {
    #[verifier::type_invariant]
    spec fn is_well_formed(self) -> bool {
        is_instant(self.secs, self.nanos)
    }

    /// The timestamp of an instant; `None` for seconds and nanoseconds that are none.
    pub fn from_unix(secs: i64, nanos: u32) -> (r: Option<Timestamp>)
        ensures
            r is Some <==> is_instant(secs, nanos),
            r matches Some(t) ==> t@ == (Instant { secs, nanos }),
    {
        if secs < MIN_SECS || secs > MAX_SECS || nanos >= 2_000_000_000 {
            return None;
        }
        if nanos >= 1_000_000_000 && (secs - MIN_SECS) % 60 != 59 {
            return None;
        }
        Some(Timestamp { secs, nanos })
    }

    /// Whole seconds since 1970-01-01T00:00:00Z.
    pub fn secs(&self) -> (r: i64)
        ensures
            r == self@.secs,
            is_instant(self@.secs, self@.nanos),
    {
        proof {
            use_type_invariant(self);
        }
        self.secs
    }

    /// Nanoseconds since the second began.
    pub fn nanos(&self) -> (r: u32)
        ensures
            r == self@.nanos,
            is_instant(self@.secs, self@.nanos),
    {
        proof {
            use_type_invariant(self);
        }
        self.nanos
    }

    /// The time that the clock shows.
    pub fn now() -> (r: Timestamp)
        ensures
            is_instant(r@.secs, r@.nanos),
    {
        let (secs, nanos) = read_clock();
        Timestamp { secs, nanos }
    }

    /// The timestamp that a text in RFC 3339 stands for; `None` where it stands
    /// for none.
    pub fn parse_rfc3339(text: &str) -> (r: Option<Timestamp>)
        ensures
            r.deep_view() == instant_of(text@),
    {
        match read_rfc3339(text) {
            Ok((secs, nanos)) => Timestamp::from_unix(secs, nanos),
            Err(_) => None,
        }
    }

    /// The timestamp as text in RFC 3339. The text of a timestamp in a year of
    /// four digits holds no white space, and the timestamp is read from it again.
    pub fn to_rfc3339(&self) -> (text: String)
        ensures
            text@ == text_of(self@),
            has_four_digit_year(self@.secs) ==> is_token(text@) && instant_of(text@) == Some(
                self@,
            ),
    {
        proof {
            use_type_invariant(self);
        }
        write_rfc3339(self.secs, self.nanos).unwrap()
    }
}

} // verus!
