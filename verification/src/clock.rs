//! The current time and timestamps as text.
use crate::error::{refuse, CliError};
use std::time::{Duration, SystemTime, SystemTimeError, UNIX_EPOCH};
use time::format_description::well_known::Rfc3339;
use time::OffsetDateTime;
use vstd::prelude::*;
use vstd::string::to_string_from_display_ensures;

verus! {

/// A moment of the system clock.
#[verifier::external_type_specification]
#[verifier::external_body]
pub struct ExSystemTime(SystemTime);

/// The error for a clock that stands before the Unix epoch.
#[verifier::external_type_specification]
#[verifier::external_body]
pub struct ExSystemTimeError(SystemTimeError);

/// A moment with its calendar date and offset.
#[verifier::external_type_specification]
#[verifier::external_body]
pub struct ExOffsetDateTime(OffsetDateTime);

/// `SystemTime::now` reads the system clock: nothing is promised of the moment.
pub assume_specification[ SystemTime::now ]() -> SystemTime;

/// `Duration::as_secs`: the whole seconds of a span. A span is opaque here, so
/// nothing is said of their number.
pub assume_specification[ Duration::as_secs ](span: &Duration) -> u64;

/// `OffsetDateTime::now_utc` reads the system clock: nothing is promised of
/// the moment. A clock past the year 9999 makes it panic; it takes no argument by
/// which that could be left out.
pub assume_specification[ OffsetDateTime::now_utc ]() -> OffsetDateTime;

/// `OffsetDateTime::unix_timestamp_nanos`: the nanoseconds since the Unix epoch.
/// A moment is opaque here, so nothing is said of their number.
pub assume_specification[ OffsetDateTime::unix_timestamp_nanos ](moment: OffsetDateTime) -> i128;

/// `SystemTime::duration_since` the Unix epoch; an error before it.
#[verifier::external_body]
fn since_epoch(moment: SystemTime) -> (r: Result<Duration, SystemTimeError>) {
    moment.duration_since(UNIX_EPOCH)
}

/// The last second of the year 9999, the last that a date can be given of.
pub const LAST_SECOND: i64 = 253_402_300_799;

/// Nanoseconds in a second.
pub const NANOS: i128 = 1_000_000_000;

/// The RFC 3339 text of the moment so many nanoseconds after the Unix epoch, in
/// UTC.
pub uninterp spec fn rfc3339_utc(nanos: int) -> Seq<char>;

/// `OffsetDateTime::from_unix_timestamp_nanos`, then `OffsetDateTime::format`
/// with the RFC 3339 description. Of the moments from the epoch on, those up to
/// the end of the year 9999 have a date, and its text is a function of the
/// moment; it ends with a `Z` for UTC, and that of a whole second has twenty
/// characters. Every later moment is refused with "timestamp was not in range".
#[verifier::external_body]
fn utc_text(nanos: i128) -> (r: Result<String, String>)
    requires
        0 <= nanos,
    ensures
        match r {
            Ok(text) => nanos < (LAST_SECOND + 1) * NANOS && text@ == rfc3339_utc(nanos as int)
                && text@.len() >= 20 && text@.last() == 'Z' && (nanos as int % NANOS as int == 0
                ==> text@.len() == 20),
            Err(cause) => nanos >= (LAST_SECOND + 1) * NANOS && cause@
                == "timestamp was not in range"@,
        },
{
    match OffsetDateTime::from_unix_timestamp_nanos(nanos) {
        Ok(moment) => moment.format(&Rfc3339).map_err(|source| source.to_string()),
        Err(source) => Err(source.to_string()),
    }
}

/// The RFC 3339 text of a second after the Unix epoch, in UTC.
pub open spec fn utc_second(seconds: int) -> Seq<char> {
    rfc3339_utc(seconds * NANOS)
}

/// The seconds since the Unix epoch that the system clock gave, or the error
/// for a clock before it.
pub fn unix_from_clock(reading: Result<u64, String>) -> (r: Result<u64, CliError>)
    ensures
        match reading {
            Ok(seconds) => r == Ok::<u64, CliError>(seconds),
            Err(cause) => r matches Err(e) && e.says(
                "system clock is before Unix epoch: "@ + cause@,
            ),
        },
{
    match reading {
        Ok(seconds) => Ok(seconds),
        Err(cause) => Err(
            CliError::Message(
                "system clock is before Unix epoch: ".to_owned().concat(cause.as_str()),
            ),
        ),
    }
}

/// The error of a clock that stands before the Unix epoch.
pub open spec fn clock_failed(e: CliError) -> bool {
    e is Message && crate::text::begins(e.shown(), "system clock is before Unix epoch: "@)
}

/// The whole seconds of the span since the Unix epoch, or the error with the
/// text of why there is none.
pub open spec fn seconds_of(
    since: Result<Duration, SystemTimeError>,
    r: Result<u64, CliError>,
) -> bool {
    match since {
        Ok(span) => r matches Ok(seconds) && call_ensures(Duration::as_secs, (&span,), seconds),
        Err(err) => r matches Err(e) && exists|cause: String| #[trigger]
            to_string_from_display_ensures(&err, cause) && e.says(
                "system clock is before Unix epoch: "@ + cause@,
            ),
    }
}

/// This is what comes of a moment that the system clock gave, by its span since
/// the Unix epoch.
pub closed spec fn read_from_clock(r: Result<u64, CliError>) -> bool {
    exists|moment: SystemTime, since: Result<Duration, SystemTimeError>|
        {
            &&& #[trigger] call_ensures(SystemTime::now, (), moment)
            &&& #[trigger] call_ensures(since_epoch, (moment,), since)
            &&& seconds_of(since, r)
        }
}

/// The seconds that the system clock gave, or `otherwise` where it gave none.
pub open spec fn seconds_or(reading: Result<u64, CliError>, otherwise: u64) -> u64 {
    match reading {
        Ok(seconds) => seconds,
        Err(_) => otherwise,
    }
}

/// The current time in seconds since the Unix epoch: the whole seconds between
/// the epoch and the moment that the system clock gives, or the error where
/// there is no such span. Which moment the clock gives is left open.
pub fn current_unix() -> (r: Result<u64, CliError>)
    ensures
        read_from_clock(r),
        r matches Err(e) ==> clock_failed(e),
{
    let moment = SystemTime::now();
    let since = since_epoch(moment);
    let ghost given = since;
    let reading = match since {
        Ok(span) => Ok(span.as_secs()),
        Err(err) => Err(err.to_string()),
    };
    let r = unix_from_clock(reading);
    proof {
        assert(seconds_of(given, r));
        assert(call_ensures(since_epoch, (moment,), given));
        let head = "system clock is before Unix epoch: "@;
        assert(r matches Err(e) ==> e.shown().subrange(0, head.len() as int) =~= head);
    }
    r
}

/// A moment as it is written to a journal.
#[derive(Debug, PartialEq, Eq)]
pub struct TimestampedEvent {
    pub unix_seconds: u64,
    pub utc: String,
}

impl Clone for TimestampedEvent {
    fn clone(&self) -> (r: Self)
        ensures
            r == *self,
    {
        TimestampedEvent { unix_seconds: self.unix_seconds, utc: self.utc.clone() }
    }
}

/// What comes of writing a moment to a journal: refused before the Unix epoch
/// and after the year 9999, else its whole seconds and its text.
pub open spec fn event_at(nanos: int, r: Result<TimestampedEvent, CliError>) -> bool {
    if nanos < 0 {
        r matches Err(e) && e.says("system clock is before Unix epoch; cannot write journal"@)
    } else if nanos >= (LAST_SECOND + 1) * NANOS {
        r matches Err(e) && e.says(
            "failed to format journal timestamp: "@ + "timestamp was not in range"@,
        )
    } else {
        r matches Ok(event) && event.unix_seconds == nanos / (NANOS as int) && event.utc@
            == rfc3339_utc(nanos)
    }
}

/// The nanoseconds since the Unix epoch of a moment that the system clock gave.
pub open spec fn nanos_from_clock(nanos: i128) -> bool {
    exists|moment: OffsetDateTime|
        {
            &&& #[trigger] call_ensures(OffsetDateTime::now_utc, (), moment)
            &&& call_ensures(OffsetDateTime::unix_timestamp_nanos, (moment,), nanos)
        }
}

/// This is the journal form of a moment that the system clock gave.
pub open spec fn is_moment(event: TimestampedEvent) -> bool {
    exists|nanos: i128| #[trigger]
        nanos_from_clock(nanos) && event_at(nanos as int, Ok(event))
}

/// This is the error of a moment that the system clock gave and that cannot be
/// written to a journal.
pub open spec fn moment_failed(e: CliError) -> bool {
    exists|nanos: i128| #[trigger] nanos_from_clock(nanos) && event_at(nanos as int, Err(e))
}

/// The journal form of the moment so many nanoseconds after the Unix epoch.
pub fn timestamped_event_at(nanos: i128) -> (r: Result<TimestampedEvent, CliError>)
    ensures
        event_at(nanos as int, r),
{
    if nanos < 0 {
        return Err(refuse("system clock is before Unix epoch; cannot write journal"));
    }
    match utc_text(nanos) {
        Ok(text) => Ok(TimestampedEvent { unix_seconds: (nanos / NANOS) as u64, utc: text }),
        Err(cause) => Err(
            CliError::Message(
                "failed to format journal timestamp: ".to_owned().concat(cause.as_str()),
            ),
        ),
    }
}

/// The current moment as it is written to a journal.
pub fn timestamped_event() -> (r: Result<TimestampedEvent, CliError>)
    ensures
        match r {
            Ok(event) => is_moment(event),
            Err(e) => moment_failed(e),
        },
{
    let moment = OffsetDateTime::now_utc();
    let nanos: i128 = moment.unix_timestamp_nanos();
    assert(call_ensures(OffsetDateTime::now_utc, (), moment));
    assert(nanos_from_clock(nanos));
    timestamped_event_at(nanos)
}

/// The RFC 3339 text of a second since the Unix epoch.
pub fn format_unix_utc(unix_seconds: u64) -> (r: Result<String, CliError>)
    ensures
        match r {
            Ok(text) => unix_seconds <= LAST_SECOND && text@ == utc_second(unix_seconds as int)
                && text@.len() == 20 && text@.last() == 'Z',
            Err(e) => if unix_seconds > i64::MAX {
                e.says("scan timestamp is outside supported range"@)
            } else {
                unix_seconds > LAST_SECOND && e.says(
                    "scan timestamp is invalid: timestamp was not in range"@,
                )
            },
        },
{
    if unix_seconds > i64::MAX as u64 {
        return Err(refuse("scan timestamp is outside supported range"));
    }
    match utc_text(unix_seconds as i128 * NANOS) {
        Ok(text) => Ok(text),
        Err(cause) => {
            let message = "scan timestamp is invalid: ".to_owned().concat(cause.as_str());
            proof {
                reveal_strlit("scan timestamp is invalid: ");
                reveal_strlit("timestamp was not in range");
                reveal_strlit("scan timestamp is invalid: timestamp was not in range");
                assert(message@ =~= "scan timestamp is invalid: timestamp was not in range"@);
            }
            Err(CliError::Message(message))
        },
    }
}

} // verus!
