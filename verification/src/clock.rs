//! The one place the library asks for the current time.

use vstd::prelude::*;

verus! {

/// Relies on chrono: `DateTime::<Utc>::to_rfc3339` renders a UTC time as
/// an RFC 3339 (ISO 8601) string. Its writer emits a signed year of at
/// most seven characters, fifteen characters of date and time, at most
/// ten of second fraction and six of offset, so the result is never empty
/// and never longer than 64 characters. The clock is read through std's
/// `SystemTime`; when it is unreadable or outside chrono's range the Unix
/// epoch stands in, so the call returns on every machine and never
/// panics. The value depends on the clock, so nothing more is promised
/// of it.
#[verifier::external_body]
pub fn now_rfc3339() -> (r: String)
    ensures
        r@.len() > 0,
        r@.len() <= 64,
{
    let now = std::time::SystemTime::now()
        .duration_since(std::time::UNIX_EPOCH)
        .unwrap_or(std::time::Duration::ZERO);
    let stamp = chrono::DateTime::<chrono::Utc>::from_timestamp(
        now.as_secs() as i64,
        now.subsec_nanos(),
    )
    .unwrap_or(chrono::DateTime::<chrono::Utc>::UNIX_EPOCH);
    stamp.to_rfc3339()
}

} // verus!
