//! Points in time and the system clock.

use vstd::prelude::*;

verus! {

/// A point in time: seconds and nanoseconds since the start of 1970.
#[derive(Clone, Copy, PartialEq, Eq, Structural, Debug)]
pub struct Timestamp {
    pub secs: u64,
    pub nanos: u32,
}

impl Timestamp {
    /// Nanosecond steps are below the seconds, so later times have larger ranks.
    pub open spec fn rank(self) -> int {
        self.secs * 0x1_0000_0000 + self.nanos
    }

    pub fn to_rank(&self) -> (r: u128)
        ensures
            r == self.rank(),
            r < 0x1_0000_0000_0000_0000_0000_0000,
    {
        self.secs as u128 * 0x1_0000_0000 + self.nanos as u128
    }
}

/// `SystemTime::now`, counted from `UNIX_EPOCH`; a clock set before that counts as at it. Nothing
/// is promised of the time that comes back.
#[verifier::external_body]
pub(crate) fn now() -> (t: Timestamp)
{
    let d = std::time::SystemTime::now().duration_since(std::time::UNIX_EPOCH).unwrap_or_default();
    Timestamp { secs: d.as_secs(), nanos: d.subsec_nanos() }
}

/// Later times have larger ranks.
pub proof fn law_later_times_rank_higher(a: Timestamp, b: Timestamp)
    ensures
        a.rank() < b.rank() <==> a.secs < b.secs || (a.secs == b.secs && a.nanos < b.nanos),
{
}

} // verus!
