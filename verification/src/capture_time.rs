//! Capture time: milliseconds since the Unix epoch, and the RFC 2822 text
//! that chrono renders for an instant.
use vstd::prelude::*;

verus! {

/// The first count of milliseconds past what the generated header can
/// carry: the first instant of year 10000. RFC 2822 writes four-digit
/// years, and chrono refuses to format anything at or past this instant.
pub const MILLIS_LIMIT: i64 = 253_402_300_800_000;

/// An instant both chrono conversions accept: at or after the epoch and
/// before year 10000.
pub open spec fn rfc2822_representable(millis: int) -> bool {
    0 <= millis < MILLIS_LIMIT as int
}

/// The RFC 2822 text chrono renders for an instant; it depends on the
/// millisecond count alone.
pub uninterp spec fn rfc2822_of(millis: int) -> Seq<char>;

/// Relies on std's `SystemTime::now` and `SystemTime::duration_since`:
/// reads the wall clock as a count of milliseconds since the Unix epoch,
/// negated for an instant before it and clamped to the count's range, so
/// the read is total on any clock setting. Nothing is assumed of the
/// value, since the clock can be set to anything.
#[verifier::external_body]
pub(crate) fn now_millis() -> i64 {
    match std::time::SystemTime::now().duration_since(std::time::UNIX_EPOCH) {
        Ok(since) => i64::try_from(since.as_millis()).unwrap_or(i64::MAX),
        Err(before) => match i64::try_from(before.duration().as_millis()) {
            Ok(millis) => -millis,
            Err(_) => i64::MIN,
        },
    }
}

/// Relies on chrono's `DateTime::from_timestamp_millis`, which is defined
/// on every representable instant and round-trips with `timestamp_millis`,
/// and `DateTime::to_rfc2822`, which is defined for years 0 through 9999
/// and whose text depends on the instant alone.
#[verifier::external_body]
pub(crate) fn rfc2822_from_millis(millis: i64) -> (r: String)
    requires
        rfc2822_representable(millis as int),
    ensures
        r@ == rfc2822_of(millis as int),
{
    let instant = chrono::DateTime::<chrono::Utc>::from_timestamp_millis(millis)
        .expect("a representable instant");
    instant.to_rfc2822()
}

} // verus!
