//! The calls this library makes into `uuid` and `chrono` where their
//! behaviour is taken on trust rather than proved.

use vstd::prelude::*;

use std::fmt::Write;

use crate::model::Timestamp;

verus! {

/// The mask of the version and variant bits of a UUID held as a big-endian `u128`.
pub open spec fn uuid_v4_mask() -> u128 {
    0x0000_0000_0000_F000_C000_0000_0000_0000u128
}

/// The version and variant bits of a random (version 4, RFC 4122) UUID.
pub open spec fn uuid_v4_bits() -> u128 {
    0x0000_0000_0000_4000_8000_0000_0000_0000u128
}

/// Calls `uuid::Uuid::new_v4` and hands back the UUID as a big-endian `u128`
/// (`Uuid::as_u128`). Trusted: the value is random except for the version and
/// variant bits, which `new_v4` sets to version 4 and the RFC 4122 variant
/// (it masks random bits with those). Nothing else is promised of it; two calls
/// may give any values. It panics when the system yields no random bytes, which
/// no argument decides.
#[verifier::external_body]
pub(crate) fn new_uuid() -> (r: u128)
    ensures
        r & uuid_v4_mask() == uuid_v4_bits(),
{
    uuid::Uuid::new_v4().as_u128()
}

/// Calls `chrono::Utc::now` and hands back its seconds since the Unix epoch
/// (`timestamp`) and their fraction in nanoseconds (`timestamp_subsec_nanos`).
/// Trusted: the seconds are not negative (`now` panics on a clock before the
/// epoch) and the nanoseconds are under a second (`now` builds the value from
/// `Duration::subsec_nanos`). Which instant it is, nothing states.
#[verifier::external_body]
pub(crate) fn utc_now() -> (r: Timestamp)
    ensures
        r.secs >= 0,
        r.nanos < 1_000_000_000,
{
    let now = chrono::Utc::now();
    Timestamp { secs: now.timestamp(), nanos: now.timestamp_subsec_nanos() }
}

/// What chrono writes for the UTC instant `secs` seconds and `nanos` nanoseconds
/// after the Unix epoch under the strftime-style format `fmt`; `None` when chrono
/// cannot represent the instant or the format holds an unknown specifier.
pub uninterp spec fn utc_formatted(secs: i64, nanos: u32, fmt: Seq<char>) -> Option<Seq<char>>;

/// Builds the UTC date-time of the instant (`chrono::DateTime::from_timestamp`)
/// and writes it under the format `fmt` (`DateTime::format`, written into a
/// `String`). Trusted: the text is `utc_formatted` of the instant and the format,
/// and there is no text exactly when that is `None` (`from_timestamp` gives
/// `None` out of range; an unknown specifier makes the writing fail). Writing
/// into a `String` with `write!` reports a bad format as an error instead of
/// panicking, so this does not panic.
#[verifier::external_body]
pub(crate) fn format_utc(t: Timestamp, fmt: &str) -> (r: Option<String>)
    ensures
        match r {
            Some(text) => utc_formatted(t.secs, t.nanos, fmt@) == Some(text@),
            None => utc_formatted(t.secs, t.nanos, fmt@) is None,
        },
{
    let instant = chrono::DateTime::from_timestamp(t.secs, t.nanos)?;
    let mut text = String::new();
    match write!(text, "{}", instant.format(fmt)) {
        Ok(()) => Some(text),
        Err(_) => None,
    }
}

} // verus!
