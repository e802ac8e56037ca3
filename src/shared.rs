use vstd::prelude::*;
use vstd::utf8::{decode_utf8, valid_utf8};

use std::time::{Duration, SystemTime};

verus! {

/// A reading of the system clock, held opaque.
#[verifier::external_type_specification]
#[verifier::external_body]
pub struct ExSystemTime(SystemTime);

/// Relies on `SystemTime::now`: the system clock's current reading.
#[verifier::external_body]
fn clock_now() -> (r: SystemTime) {
    SystemTime::now()
}

/// Relies on `SystemTime::duration_since` from `UNIX_EPOCH`: the time elapsed
/// since the epoch, or a message where `t` lies before it.
#[verifier::external_body]
fn since_epoch(t: &SystemTime) -> (r: Result<Duration, String>) {
    t.duration_since(std::time::UNIX_EPOCH).map_err(|e| e.to_string())
}

/// Relies on `Duration::as_nanos`: the whole duration in nanoseconds.
#[verifier::external_body]
fn duration_nanos(d: &Duration) -> (r: u128) {
    d.as_nanos()
}

/// Narrows a nanosecond reading to 64 bits; readings past the range are refused.
pub fn nanos_to_u64(nanos: u128) -> (r: Result<u64, String>)
    ensures
        nanos <= u64::MAX ==> r == Ok::<u64, String>(nanos as u64),
        nanos > u64::MAX ==> r is Err,
{
    if nanos <= u64::MAX as u128 {
        Ok(nanos as u64)
    } else {
        Err("clock reading does not fit in 64 bits".to_string())
    }
}

/// The current wall-clock time in nanoseconds since the Unix epoch.
pub fn now_as_nanos_u64() -> (r: Result<u64, String>) {
    let now = clock_now();
    match since_epoch(&now) {
        Ok(d) => nanos_to_u64(duration_nanos(&d)),
        Err(e) => Err(e),
    }
}

/// Whether the two texts are equal.
pub fn same_text(a: &str, b: &str) -> (r: bool)
    ensures
        r == (a@ == b@),
{
    a.to_owned() == b.to_owned()
}

/// Relies on `std::str::from_utf8`, which accepts exactly the byte strings
/// that are valid UTF-8 and reads them as text.
#[verifier::external_body]
pub(crate) fn utf8_text(data: &[u8]) -> (r: Option<String>)
    ensures
        r is Some <==> valid_utf8(data@),
        r matches Some(s) ==> s@ == decode_utf8(data@),
{
    std::str::from_utf8(data).ok().map(|s| s.to_string())
}

} // verus!
