use vstd::prelude::*;

use std::time::Duration;
use std::time::SystemTime;

verus! {

#[verifier::external_type_specification]
#[verifier::external_body]
pub struct ExSystemTime(SystemTime);

/// `SystemTime::now`: the current time of the system clock. Nothing is
/// claimed of the value; it depends on the machine's clock.
#[verifier::external_body]
fn system_now() -> SystemTime {
    SystemTime::now()
}

/// `SystemTime::duration_since` with `UNIX_EPOCH` as the earlier time:
/// `None` where the clock reads earlier than the epoch. Nothing is claimed
/// of the duration; it depends on the time that was read.
#[verifier::external_body]
fn since_unix_epoch(t: &SystemTime) -> Option<Duration> {
    t.duration_since(std::time::UNIX_EPOCH).ok()
}

/// `Duration::as_millis`. `Duration` is opaque here, so nothing is claimed
/// of the number of milliseconds.
#[verifier::external_body]
fn duration_millis(d: &Duration) -> u128 {
    d.as_millis()
}

/// Milliseconds since the Unix epoch, saturated to `u64`, from the time the
/// clock gave: `0` where it read earlier than the epoch.
pub open spec fn epoch_millis_spec(since: Option<u128>) -> u64 {
    match since {
        Some(ms) => if ms > u64::MAX {
            u64::MAX
        } else {
            ms as u64
        },
        None => 0,
    }
}

/// Milliseconds since the Unix epoch from the clock's reading, as
/// `epoch_millis_spec` says.
pub fn epoch_millis(since: Option<u128>) -> (r: u64)
    ensures
        r == epoch_millis_spec(since),
{
    match since {
        Some(ms) => {
            if ms > 0xffff_ffff_ffff_ffffu128 {
                0xffff_ffff_ffff_ffffu64
            } else {
                ms as u64
            }
        },
        None => 0,
    }
}

/// Milliseconds since the Unix epoch by the system clock, as
/// `epoch_millis_spec` says of whatever the clock read.
pub fn now_millis() -> (r: u64)
    ensures
        exists|since: Option<u128>| r == #[trigger] epoch_millis_spec(since),
{
    let t = system_now();
    let since = match since_unix_epoch(&t) {
        Some(d) => Some(duration_millis(&d)),
        None => None,
    };
    epoch_millis(since)
}

} // verus!
