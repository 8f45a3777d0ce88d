//! The clock reference: an immutable offset between wall-clock time and the
//! NTP epoch, and the 8-byte seconds + fractional-seconds timestamp derived
//! from it.

use vstd::prelude::*;
use crate::packets::{spec_u32_be, u32_to_be};

verus! {

/// The NTP epoch, as seconds between 1900-01-01 and the Unix epoch.
pub const NTP_EPOCH_SECONDS: i64 = 0x83aa7e80;

/// The NTP epoch, in milliseconds.
pub const NTP_EPOCH_MILLIS: i64 = 0x83aa7e80 * 1000;

/// Bound on wall-clock readings in milliseconds: every reading this module
/// works with lies strictly within plus/minus 2^55 ms (about 1.1 million
/// years around the Unix epoch); a clock outside that range is saturated
/// to it.
pub const CLOCK_MILLIS_BOUND: i64 = 0x80_0000_0000_0000;

/// One full second in the NTP fixed-point fractional encoding (2^32).
pub const NTP_FRACTION_PER_SECOND: u64 = 0x1_0000_0000;

/// Milliseconds representable in the 32-bit seconds field: 2^32 seconds.
pub const NTP_RANGE_MILLIS: i64 = 0x1_0000_0000 * 1000;

/// Whole seconds of a duration of `t` milliseconds.
pub open spec fn spec_ntp_seconds(t: int) -> int {
    t / 1000
}

/// The NTP fixed-point fraction of a duration of `t` milliseconds: the
/// remainder milliseconds scaled so that 2^32 represents one second,
/// rounded to nearest.
pub open spec fn spec_ntp_fraction(t: int) -> int {
    ((t % 1000) * 0x1_0000_0000 + 500) / 1000
}

/// The 8-byte timestamp for a duration of `t` milliseconds since the NTP
/// epoch: 32-bit big-endian seconds, then 32-bit big-endian fraction.
pub open spec fn spec_timestamp_bytes(t: int) -> Seq<u8> {
    spec_u32_be(spec_ntp_seconds(t) as u32) + spec_u32_be(spec_ntp_fraction(t) as u32)
}

/// Relies on std's `SystemTime::now` and `duration_since(UNIX_EPOCH)`: the
/// current wall clock's distance from the Unix epoch in milliseconds, and
/// whether the clock stands at or after the epoch (`duration_since` hands
/// a clock before the epoch back as its error, carrying the distance).
/// Nothing is promised of the magnitude; [`now_millis`] saturates it in
/// verified code. Total: neither arm of `duration_since` panics.
#[verifier::external_body]
fn clock_epoch_distance() -> (r: (bool, u128)) {
    match std::time::SystemTime::now().duration_since(std::time::UNIX_EPOCH) {
        Ok(d) => (true, d.as_millis()),
        Err(e) => (false, e.duration().as_millis()),
    }
}

/// The current wall-clock reading in milliseconds since the Unix epoch,
/// saturated into the clock bound so that every later computation is free
/// of overflow whatever the system clock holds.
fn now_millis() -> (r: i64)
    ensures
        -CLOCK_MILLIS_BOUND < r < CLOCK_MILLIS_BOUND,
{
    let reading = clock_epoch_distance();
    let capped: i64 = if reading.1 >= (CLOCK_MILLIS_BOUND - 1) as u128 {
        CLOCK_MILLIS_BOUND - 1
    } else {
        reading.1 as i64
    };
    if reading.0 {
        capped
    } else {
        -capped
    }
}

/// The clock reference. Holds the single immutable millisecond offset
/// between the wall clock and the NTP epoch, fixed at construction.
pub struct NTP {
    time_ref: i64,
}

impl NTP {
    /// The stored offset: wall-clock milliseconds at construction minus the
    /// NTP epoch in milliseconds.
    pub closed spec fn offset_millis(&self) -> i64 {
        self.time_ref
    }

    /// The offset stays within bounds that keep every timestamp
    /// computation free of overflow; every constructed reference
    /// satisfies this.
    #[verifier::type_invariant]
    spec fn wf(self) -> bool {
        -2 * (CLOCK_MILLIS_BOUND as int) <= self.offset_millis() <= 2 * (
        CLOCK_MILLIS_BOUND as int)
    }

    /// Builds the reference anchored at the wall-clock reading
    /// `now_millis`, taken at construction time.
    pub fn anchored_at(now_millis: i64) -> (r: NTP)
        requires
            -CLOCK_MILLIS_BOUND < now_millis < CLOCK_MILLIS_BOUND,
        ensures
            r.offset_millis() == now_millis - NTP_EPOCH_MILLIS,
    {
        NTP { time_ref: now_millis - NTP_EPOCH_MILLIS }
    }

    /// Builds the reference anchored at the current wall-clock reading, so
    /// that later timestamps count milliseconds since the NTP epoch. The
    /// offset is the reading minus the epoch, so it inherits the clock
    /// bound shifted by the epoch.
    pub fn new() -> (r: NTP)
        ensures
            -CLOCK_MILLIS_BOUND - NTP_EPOCH_MILLIS < r.offset_millis() < CLOCK_MILLIS_BOUND
                - NTP_EPOCH_MILLIS,
    {
        NTP::anchored_at(now_millis())
    }

    /// The 8-byte timestamp for the current wall-clock reading, as
    /// [`Self::timestamp_at`] encodes it. Always exactly 8 bytes.
    pub fn timestamp(&self) -> (r: Vec<u8>)
        ensures
            r@.len() == 8,
    {
        self.timestamp_at(now_millis())
    }

    /// The stored offset, for diagnostic use.
    pub fn time_ref(&self) -> (r: i64)
        ensures
            r == self.offset_millis(),
    {
        self.time_ref
    }

    /// The 8-byte timestamp for the wall-clock reading `now_millis`:
    /// always exactly 8 bytes; the exact seconds + fraction encoding of
    /// `now_millis - offset` whenever that duration fits the 32-bit
    /// seconds field, and all-zero otherwise.
    pub fn timestamp_at(&self, now_millis: i64) -> (r: Vec<u8>)
        requires
            -CLOCK_MILLIS_BOUND < now_millis < CLOCK_MILLIS_BOUND,
        ensures
            r@.len() == 8,
            0 <= now_millis - self.offset_millis() < NTP_RANGE_MILLIS ==> r@
                == spec_timestamp_bytes(now_millis - self.offset_millis()),
            !(0 <= now_millis - self.offset_millis() < NTP_RANGE_MILLIS) ==> r@ =~= seq![
                0u8,
                0,
                0,
                0,
                0,
                0,
                0,
                0,
            ],
    {
        proof {
            use_type_invariant(&*self);
        }
        let t = now_millis - self.time_ref;
        let mut out: Vec<u8> = Vec::new();
        if 0 <= t && t < NTP_RANGE_MILLIS {
            let tu = t as u64;
            let sec = (tu / 1000) as u32;
            let msec = tu % 1000;
            let frac = ((msec * NTP_FRACTION_PER_SECOND + 500) / 1000) as u32;
            let sec_bytes = u32_to_be(sec);
            let frac_bytes = u32_to_be(frac);
            let mut i: usize = 0;
            while i < 4
                invariant
                    0 <= i <= 4,
                    out@ =~= sec_bytes@.subrange(0, i as int),
                    sec_bytes@.len() == 4,
                decreases 4 - i,
            {
                out.push(sec_bytes[i]);
                i = i + 1;
            }
            let mut j: usize = 0;
            while j < 4
                invariant
                    0 <= j <= 4,
                    out@ =~= sec_bytes@ + frac_bytes@.subrange(0, j as int),
                    sec_bytes@.len() == 4,
                    frac_bytes@.len() == 4,
                decreases 4 - j,
            {
                out.push(frac_bytes[j]);
                j = j + 1;
            }
            proof {
                assert(frac_bytes@.subrange(0, 4) =~= frac_bytes@);
                assert(out@ =~= spec_timestamp_bytes(t as int));
            }
        } else {
            let mut z: usize = 0;
            while z < 8
                invariant
                    0 <= z <= 8,
                    out@ =~= seq![0u8, 0, 0, 0, 0, 0, 0, 0].subrange(0, z as int),
                decreases 8 - z,
            {
                out.push(0u8);
                z = z + 1;
            }
            proof {
                assert(out@ =~= seq![0u8, 0, 0, 0, 0, 0, 0, 0]);
            }
        }
        out
    }
}

/// For one fixed clock reference and a wall clock that does not run
/// backwards, a later timestamp never carries a smaller seconds value, and
/// every timestamp has exactly 8 bytes.
pub proof fn lemma_timestamp_monotonic(ntp: NTP, now1: i64, now2: i64)
    requires
        now1 <= now2,
    ensures
        spec_ntp_seconds(now1 - ntp.offset_millis()) <= spec_ntp_seconds(
            now2 - ntp.offset_millis(),
        ),
        0 <= now1 - ntp.offset_millis() && now2 - ntp.offset_millis() < NTP_RANGE_MILLIS
            ==> (spec_ntp_seconds(now1 - ntp.offset_millis()) as u32) <= (spec_ntp_seconds(
            now2 - ntp.offset_millis(),
        ) as u32),
        spec_timestamp_bytes(now1 - ntp.offset_millis()).len() == 8,
{
    vstd::arithmetic::div_mod::lemma_div_is_ordered(
        now1 - ntp.offset_millis(),
        now2 - ntp.offset_millis(),
        1000,
    );
}

} // verus!
