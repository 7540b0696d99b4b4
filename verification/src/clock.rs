//! Wall-clock time as seconds and nanoseconds since the Unix epoch.

use vstd::prelude::*;

verus! {

/// A moment at or after the Unix epoch.
#[derive(Debug, Clone, Copy)]
pub struct UnixTime {
    /// Whole seconds since the epoch.
    pub secs: u64,
    /// Nanoseconds within the second.
    pub nanos: u32,
}

/// Calls `SystemTime::now` of std and reads the moment as seconds and nanoseconds since the epoch,
/// `None` for a clock set before it. Claims only that the nanoseconds stay within their second:
/// what the clock shows is not known beforehand.
#[verifier::external_body]
pub(crate) fn read_clock() -> (r: Option<UnixTime>)
    ensures
        r is Some ==> r->0.nanos < 1_000_000_000,
{
    std::time::SystemTime::now()
        .duration_since(std::time::UNIX_EPOCH)
        .ok()
        .map(|d| UnixTime { secs: d.as_secs(), nanos: d.subsec_nanos() })
}

/// Whole seconds since the epoch, zero for a clock set before it.
pub fn secs_of(t: Option<UnixTime>) -> (r: u64)
    ensures
        r == (match t {
            Some(u) => u.secs,
            None => 0,
        }),
{
    match t {
        Some(u) => u.secs,
        None => 0,
    }
}

/// Nanoseconds since the epoch, reduced to 64 bits, zero for a clock set before it.
pub fn nanos_of(t: Option<UnixTime>) -> (r: u64)
    ensures
        r as int == (match t {
            Some(u) => (u.secs * 1_000_000_000 + u.nanos) % 0x1_0000_0000_0000_0000,
            None => 0,
        }),
{
    match t {
        Some(u) => {
            let n: u128 = u.secs as u128 * 1_000_000_000 + u.nanos as u128;
            (n % 0x1_0000_0000_0000_0000) as u64
        },
        None => 0,
    }
}

} // verus!
