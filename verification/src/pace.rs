//! Pauses between calls: a fixed pace for the map service, and an irregular one for the notes
//! service.

use vstd::prelude::*;

verus! {

/// Keeps calls at least an interval apart.
#[derive(Clone, Copy, PartialEq, Eq, Structural, Debug)]
pub struct RateLimiter {
    pub min_interval_ms: u64,
}

/// How long to wait, in nanoseconds, so that `required` have passed since the last call, which was
/// `elapsed` ago; the first call does not wait.
pub open spec fn pause(elapsed: Option<u128>, required: int) -> int {
    match elapsed {
        Some(e) => if e < required {
            required - e
        } else {
            0
        },
        None => 0,
    }
}

impl RateLimiter {
    pub fn new(min_interval_ms: u64) -> (r: RateLimiter)
        ensures
            r.min_interval_ms == min_interval_ms,
    {
        RateLimiter { min_interval_ms }
    }

    /// How long to wait, in nanoseconds, before the next call.
    pub fn wait_nanos(&self, elapsed: Option<u128>) -> (n: u128)
        ensures
            n == pause(elapsed, self.min_interval_ms * 1_000_000),
    {
        pause_nanos(elapsed, self.min_interval_ms)
    }
}

/// How long to wait, in nanoseconds, so that so many milliseconds have passed since the last call.
pub fn pause_nanos(elapsed: Option<u128>, required_ms: u64) -> (n: u128)
    ensures
        n == pause(elapsed, required_ms * 1_000_000),
{
    let required: u128 = required_ms as u128 * 1_000_000;
    match elapsed {
        Some(e) => if e < required {
            required - e
        } else {
            0
        },
        None => 0,
    }
}

/// After the pause at least the interval has passed since the last call.
pub proof fn law_calls_are_spaced(elapsed: u128, required: int)
    ensures
        elapsed + pause(Some(elapsed), required) >= required,
        pause(Some(elapsed), required) >= 0,
{
}

// ---- An irregular pace ----

/// The next number of a xorshift generator.
pub open spec fn xorshift(x: u64) -> u64 {
    let a = x ^ (x << 13u64);
    let b = a ^ (a >> 7u64);
    b ^ (b << 17u64)
}

/// A generator that has a number to start from never falls to zero, where it would stay.
pub proof fn law_generator_does_not_stop(x: u64)
    requires
        x != 0,
    ensures
        xorshift(x) != 0,
{
    let a = x ^ (x << 13u64);
    let b = a ^ (a >> 7u64);
    assert(x != 0 ==> x ^ (x << 13u64) != 0) by (bit_vector);
    assert(a != 0 ==> a ^ (a >> 7u64) != 0) by (bit_vector);
    assert(b != 0 ==> b ^ (b << 17u64) != 0) by (bit_vector);
}

/// A source of numbers that look random.
#[derive(Clone, Copy, PartialEq, Eq, Structural, Debug)]
pub struct Jitter {
    pub state: u64,
}

/// A number between two bounds.
pub open spec fn in_range(lo: u64, hi: u64, rand: u64) -> int {
    if hi < lo {
        lo as int
    } else {
        lo + rand as int % (hi - lo + 1)
    }
}

impl Jitter {
    /// A source that starts from the nanoseconds of a clock. The start is odd, so not zero.
    pub fn new(nanos: u64) -> (j: Jitter)
        ensures
            j.state == nanos | 1,
            j.state != 0,
    {
        assert(nanos | 1 != 0) by (bit_vector);
        Jitter { state: nanos | 1 }
    }

    pub fn next_rand(&mut self) -> (x: u64)
        ensures
            x == xorshift(old(self).state),
            final(self).state == x,
    {
        let x: u64 = self.state;
        let a: u64 = x ^ (x << 13u64);
        let b: u64 = a ^ (a >> 7u64);
        let c: u64 = b ^ (b << 17u64);
        self.state = c;
        c
    }

    /// How far apart, in milliseconds, the next call is to be from the last: the least interval and
    /// a random part below `jitter_ms`.
    pub fn next_interval(&mut self, min_ms: u64, jitter_ms: u64) -> (ms: u64)
        ensures
            jitter_ms == 0 ==> ms == min_ms && *final(self) == *old(self),
            jitter_ms != 0 ==> final(self).state == xorshift(old(self).state) && ms == (if min_ms
                + xorshift(old(self).state) % jitter_ms <= u64::MAX {
                min_ms + xorshift(old(self).state) % jitter_ms
            } else {
                u64::MAX as int
            }),
            min_ms <= ms,
            jitter_ms != 0 ==> ms < min_ms + jitter_ms,
    {
        let jitter: u64 = if jitter_ms == 0 {
            0
        } else {
            self.next_rand() % jitter_ms
        };
        min_ms.saturating_add(jitter)
    }

    /// A number from `lo` to `hi`.
    pub fn rand_range(&mut self, lo: u64, hi: u64) -> (n: u64)
        requires
            !(lo == 0 && hi == u64::MAX),
        ensures
            n == in_range(lo, hi, xorshift(old(self).state)),
            final(self).state == xorshift(old(self).state),
            lo <= hi ==> lo <= n <= hi,
    {
        let r = self.next_rand();
        if hi < lo {
            return lo;
        }
        let span: u64 = hi - lo + 1;
        lo + r % span
    }
}

/// A call waits exactly until the required time after the one before has passed: not at all where it
/// has, and the first call never.
pub proof fn law_calls_wait_no_longer_than_needed(elapsed: u128, required: int)
    ensures
        pause(None, required) == 0,
        elapsed >= required ==> pause(Some(elapsed), required) == 0,
        elapsed < required ==> elapsed + pause(Some(elapsed), required) == required,
{
}

/// A number drawn from a range lies in it, and every number of the range can be drawn.
pub proof fn law_chance_stays_in_range(lo: u64, hi: u64, rand: u64, n: u64)
    ensures
        lo <= hi ==> lo <= in_range(lo, hi, rand) <= hi,
        lo <= n <= hi ==> in_range(lo, hi, (n - lo) as u64) == n,
        hi < lo ==> in_range(lo, hi, rand) == lo,
{
    if lo <= hi {
        let width = hi - lo + 1;
        assert(0 <= rand as int % width < width);
        if lo <= n <= hi {
            assert((n - lo) % width == n - lo) by (nonlinear_arith)
                requires
                    0 <= n - lo < width,
            ;
        }
    }
}

} // verus!
