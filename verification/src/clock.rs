//! The wall clock.
use vstd::prelude::*;

verus! {

#[verifier::external_type_specification]
#[verifier::external_body]
pub struct ExSystemTime(std::time::SystemTime);

/// `SystemTime::now`: the machine's clock. Nothing is stated of it.
pub assume_specification[ std::time::SystemTime::now ]() -> std::time::SystemTime
;

/// How long before a point in time the Unix epoch was; `None` for a point before
/// it.
pub uninterp spec fn elapsed(t: std::time::SystemTime) -> Option<std::time::Duration>;

/// The whole milliseconds in a duration.
pub uninterp spec fn whole_millis(d: std::time::Duration) -> u128;

/// `SystemTime::duration_since` the Unix epoch: `None` for a clock that is set
/// before it. How much time has passed is named and not stated.
#[verifier::external_body]
fn since_epoch(t: std::time::SystemTime) -> (r: Option<std::time::Duration>)
    ensures
        r == elapsed(t),
{
    t.duration_since(std::time::UNIX_EPOCH).ok()
}

/// `Duration::as_millis`: the whole milliseconds in the duration. What a
/// duration measures is named and not stated.
#[verifier::external_body]
fn as_millis(d: std::time::Duration) -> (r: u128)
    ensures
        r == whole_millis(d),
{
    d.as_millis()
}

/// A number of milliseconds since the epoch as the rest of the code counts
/// them: 64 bits, the rest cut off.
pub fn stamp_of(millis: u128) -> (r: u64)
    ensures
        r == millis % 0x1_0000_0000_0000_0000,
{
    (millis % 0x1_0000_0000_0000_0000) as u64
}

/// What a clock shows at a point in time: the milliseconds since the Unix epoch,
/// 64 bits of them; nothing before it.
pub open spec fn reading(t: std::time::SystemTime) -> Option<u64> {
    match elapsed(t) {
        Some(d) => Some((whole_millis(d) % 0x1_0000_0000_0000_0000) as u64),
        None => None,
    }
}

/// The current time, in milliseconds since the Unix epoch; `None` for a clock
/// that is set before it. Which point in time it is, is the machine's affair.
pub fn now_ms() -> (r: Option<u64>)
    ensures
        exists|t: std::time::SystemTime| r == #[trigger] reading(t),
{
    let t = std::time::SystemTime::now();
    let r = match since_epoch(t) {
        Some(d) => Some(stamp_of(as_millis(d))),
        None => None,
    };
    proof {
        assert(r == reading(t));
    }
    r
}

} // verus!
