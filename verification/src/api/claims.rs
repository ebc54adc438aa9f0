//! What a session token says of its holder.
use vstd::prelude::*;

verus! {

/// The latest timestamp that `chrono`'s `DateTime::timestamp` can give: its
/// day count is an `i32`, less the days before 1970, times the seconds of a
/// day, plus the seconds of the last day.
pub open spec fn max_timestamp() -> int {
    (2147483647 - 719163) * 86400 + 86399
}

/// How long a session lasts, in hours.
pub open spec fn session_hours() -> int {
    24
}

/// The expiration, as a `usize` timestamp, of a session opened at `now` that
/// lasts `seconds`.
pub open spec fn expiration_after(now: int, seconds: int) -> usize {
    (now + seconds) as usize
}

/// The latest timestamp below which `chrono` surely gives back a date: the
/// start of the year 10000, well inside its range of years.
pub open spec fn surely_representable() -> int {
    253402300800
}

/// How long it is since 1970 began, as whole seconds and nanoseconds, or how
/// long before it the clock reads: `SystemTime::now().duration_since(UNIX_EPOCH)`.
/// It reads the clock, so nothing is promised but that the nanoseconds are
/// those of a part second, as `Duration::subsec_nanos` documents.
#[verifier::external_body]
pub(crate) fn since_unix_epoch() -> (r: Result<(u64, u32), (u64, u32)>)
    ensures
        match r {
            Ok((_secs, nanos)) => nanos < 1_000_000_000,
            Err((_secs, nanos)) => nanos < 1_000_000_000,
        },
{
    match std::time::SystemTime::now().duration_since(std::time::UNIX_EPOCH) {
        Ok(d) => Ok((d.as_secs(), d.subsec_nanos())),
        Err(e) => Err((e.duration().as_secs(), e.duration().subsec_nanos())),
    }
}

/// The timestamp of the date `chrono` makes of `secs` seconds and `nanos`
/// nanoseconds after 1970: `DateTime::<Utc>::from_timestamp(secs, nanos)`,
/// read back with `timestamp`. `from_timestamp` gives no date for seconds
/// whose day count falls outside an `i32` or outside its years, or for
/// invalid nanoseconds; it gives one for seconds from 0 to the year 10000 and
/// nanoseconds of a part second. What it gives reads back as `secs`.
#[verifier::external_body]
fn utc_timestamp(secs: i64, nanos: u32) -> (r: Option<i64>)
    ensures
        r matches Some(t) ==> t == secs && t <= max_timestamp(),
        0 <= secs < surely_representable() && nanos < 1_000_000_000 ==> r is Some,
{
    chrono::DateTime::<chrono::Utc>::from_timestamp(secs, nanos).map(|d| d.timestamp())
}

/// A clock reading: seconds and nanoseconds after 1970 (`Ok`), or before
/// it (`Err`).
pub type ClockReading = Result<(u64, u32), (u64, u32)>;

/// The UNIX timestamp of a clock reading, taken through `chrono`: nothing
/// for a reading before 1970, its seconds where `chrono` holds them, and
/// nothing where it does not.
pub fn timestamp_of_reading(reading: ClockReading) -> (r: Option<i64>)
    ensures
        match reading {
            Err(_) => r is None,
            Ok((s, n)) => {
                &&& r matches Some(t) ==> t == s && t <= max_timestamp()
                &&& s < surely_representable() && n < 1_000_000_000 ==> r is Some
            },
        },
{
    match reading {
        Ok((secs, nanos)) => {
            if secs > 9223372036854775807u64 {
                None
            } else {
                utc_timestamp(secs as i64, nanos)
            }
        },
        Err(_) => None,
    }
}

/// The length of `hours` hours in seconds: `chrono::TimeDelta::hours(hours)`,
/// read back with `num_seconds`. `TimeDelta::hours` panics beyond
/// `i64::MAX / 1000` seconds either way, which `requires` leaves out.
#[verifier::external_body]
pub(crate) fn hours_in_seconds(hours: i64) -> (s: i64)
    requires
        -(i64::MAX / 1000) <= hours * 3600 <= i64::MAX / 1000,
    ensures
        s == hours * 3600,
{
    chrono::TimeDelta::hours(hours).num_seconds()
}

/// The holder of a session token and when the token expires.
#[derive(Debug)]
pub struct Claims {
    pub sub: String,
    pub exp: usize,
}

impl Claims {
    /// Claims for `owner` on a session opened at `now`, valid for a day.
    pub fn expiring(owner: String, now: i64) -> (c: Claims)
        requires
            0 <= now <= max_timestamp(),
        ensures
            c.sub == owner,
            c.exp == expiration_after(now as int, session_hours() * 3600),
    {
        let seconds = hours_in_seconds(24);
        Claims { sub: owner, exp: (now + seconds) as usize }
    }

    /// Claims for `owner` on a session opened at the clock reading
    /// `reading`, valid for a day; nothing where the reading has no timestamp.
    pub fn at_reading(owner: String, reading: ClockReading) -> (r: Option<Claims>)
        ensures
            match reading {
                Err(_) => r is None,
                Ok((s, n)) => {
                    &&& r matches Some(c) ==> c.sub == owner && s <= max_timestamp()
                        && c.exp == expiration_after(s as int, session_hours() * 3600)
                    &&& s < surely_representable() && n < 1_000_000_000 ==> r is Some
                },
            },
    {
        match timestamp_of_reading(reading) {
            Some(now) => Some(Claims::expiring(owner, now)),
            None => None,
        }
    }

    /// Claims for `owner` on a session opened now, valid for a day; nothing
    /// where the clock reads before 1970 or beyond what `chrono` can hold.
    /// The clock is read here and its reading handed to `at_reading`, so the
    /// expiration is tied to no given argument.
    pub fn new(owner: String) -> (r: Option<Claims>)
        ensures
            r matches Some(c) ==> c.sub == owner && exists|now: i64|
                0 <= now <= max_timestamp() && c.exp == #[trigger] expiration_after(
                    now as int,
                    session_hours() * 3600,
                ),
    {
        let reading = since_unix_epoch();
        let r = Claims::at_reading(owner, reading);
        proof {
            if r is Some {
                let (s, _n) = reading->Ok_0;
                assert(s as i64 as int == s as int);
                assert(expiration_after(s as i64 as int, session_hours() * 3600) == r->Some_0.exp);
            }
        }
        r
    }
}

} // verus!
