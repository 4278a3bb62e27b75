//! Conversion of raw trace timestamps to nanoseconds since the reference
//! point of the profile.

use crate::profile_values::timestamp_at;
use fxprof_processed_profile::Timestamp;
use vstd::prelude::*;

verus! {

/// `x` limited to the range of `u64`.
pub open spec fn clamp_u64(x: int) -> u64 {
    if x <= 0 {
        0
    } else if x >= u64::MAX {
        u64::MAX
    } else {
        x as u64
    }
}

#[derive(Debug, Clone, Copy)]
pub struct TimestampConverter {
    /// A reference timestamp, as a raw timestamp.
    pub reference_raw: u64,
    /// Nanoseconds per raw tick. If raw values are in nanoseconds, this is 1.
    pub raw_to_ns_factor: u64,
}

impl TimestampConverter {
    /// Nanoseconds from the reference point to the raw timestamp `raw`:
    /// `(raw - reference_raw) * raw_to_ns_factor`, zero for a timestamp
    /// before the reference, `u64::MAX` where the product needs more than
    /// 64 bits.
    pub open spec fn raw_nanos(self, raw: u64) -> u64 {
        clamp_u64((raw - self.reference_raw) * self.raw_to_ns_factor)
    }

    /// Nanoseconds from the reference point to a time given in
    /// microseconds on the raw clock's scale:
    /// `time_us * 1000 - reference_raw * raw_to_ns_factor`, limited to the
    /// range of `u64` in the same way.
    pub open spec fn us_nanos(self, time_us: u64) -> u64 {
        clamp_u64(time_us * 1000 - self.reference_raw * self.raw_to_ns_factor)
    }

    /// The converter in use before the trace header has been seen: raw
    /// values count as nanoseconds since zero.
    pub fn stub() -> (c: Self)
        ensures
            c.reference_raw == 0,
            c.raw_to_ns_factor == 1,
    {
        TimestampConverter { reference_raw: 0, raw_to_ns_factor: 1 }
    }

    /// The converter that a trace header declares: the header's own raw
    /// timestamp is the reference, and a tick lasts `10^9 / perf_freq`
    /// nanoseconds. A frequency of zero declares nothing and gives `None`.
    pub fn from_header(header_raw: u64, perf_freq: u64) -> (c: Option<Self>)
        ensures
            perf_freq == 0 <==> c is None,
            c matches Some(conv) ==> conv.reference_raw == header_raw
                && conv.raw_to_ns_factor == 1_000_000_000u64 / perf_freq,
    {
        if perf_freq == 0 {
            None
        } else {
            Some(
                TimestampConverter {
                    reference_raw: header_raw,
                    raw_to_ns_factor: 1_000_000_000u64 / perf_freq,
                },
            )
        }
    }

    pub fn raw_to_nanos(&self, raw: u64) -> (nanos: u64)
        ensures
            nanos == self.raw_nanos(raw),
    {
        let ticks: u64 = raw.saturating_sub(self.reference_raw);
        proof {
            if raw < self.reference_raw {
                assert((raw - self.reference_raw) * self.raw_to_ns_factor <= 0)
                    by (nonlinear_arith)
                    requires
                        raw - self.reference_raw < 0,
                        self.raw_to_ns_factor >= 0,
                ;
                assert(0 * self.raw_to_ns_factor == 0);
            }
        }
        scale(ticks, self.raw_to_ns_factor)
    }

    pub fn us_to_nanos(&self, time_us: u64) -> (nanos: u64)
        ensures
            nanos == self.us_nanos(time_us),
    {
        let wide_us: u128 = (time_us as u128) * 1000;
        proof {
            lemma_product_fits(self.reference_raw, self.raw_to_ns_factor);
        }
        let wide_reference: u128 = (self.reference_raw as u128) * (self.raw_to_ns_factor as u128);
        if wide_us <= wide_reference {
            0
        } else {
            let wide: u128 = wide_us - wide_reference;
            if wide > u64::MAX as u128 {
                u64::MAX
            } else {
                wide as u64
            }
        }
    }

    pub fn convert_raw(&self, raw: u64) -> (t: Timestamp)
        ensures
            t == timestamp_at(self.raw_nanos(raw)),
    {
        Timestamp::from_nanos_since_reference(self.raw_to_nanos(raw))
    }

    pub fn convert_us(&self, time_us: u64) -> (t: Timestamp)
        ensures
            t == timestamp_at(self.us_nanos(time_us)),
    {
        Timestamp::from_nanos_since_reference(self.us_to_nanos(time_us))
    }

    /// The reference timestamp itself converts to zero.
    pub proof fn lemma_reference_converts_to_zero(self)
        ensures
            self.raw_nanos(self.reference_raw) == 0,
    {
    }

    /// Conversion keeps the order of raw timestamps.
    pub proof fn lemma_convert_raw_monotonic(self, r1: u64, r2: u64)
        requires
            r1 <= r2,
        ensures
            self.raw_nanos(r1) <= self.raw_nanos(r2),
    {
        assert((r1 - self.reference_raw) * self.raw_to_ns_factor <= (r2 - self.reference_raw)
            * self.raw_to_ns_factor) by (nonlinear_arith)
            requires
                r1 - self.reference_raw <= r2 - self.reference_raw,
                self.raw_to_ns_factor >= 0,
        ;
    }

    /// Conversion of microsecond times keeps their order too.
    pub proof fn lemma_convert_us_monotonic(self, t1: u64, t2: u64)
        requires
            t1 <= t2,
        ensures
            self.us_nanos(t1) <= self.us_nanos(t2),
    {
    }
}

/// The product of two 64-bit numbers fits in 128 bits.
pub proof fn lemma_product_fits(a: u64, b: u64)
    ensures
        0 <= a * b <= u128::MAX,
{
    assert(0 <= a * b <= 0xFFFF_FFFF_FFFF_FFFF * 0xFFFF_FFFF_FFFF_FFFF) by (nonlinear_arith)
        requires
            0 <= a <= 0xFFFF_FFFF_FFFF_FFFF,
            0 <= b <= 0xFFFF_FFFF_FFFF_FFFF,
    ;
}

/// `amount * factor`, or `u64::MAX` where the product needs more than 64
/// bits.
pub fn scale(amount: u64, factor: u64) -> (product: u64)
    ensures
        product == clamp_u64(amount * factor),
{
    proof {
        lemma_product_fits(amount, factor);
    }
    let wide: u128 = (amount as u128) * (factor as u128);
    if wide > u64::MAX as u128 {
        u64::MAX
    } else {
        wide as u64
    }
}

} // verus!
