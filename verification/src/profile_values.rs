//! The value types of `fxprof_processed_profile` that the engine hands to
//! the profile: timestamps and CPU deltas.
//!
//! Both types keep their number private, so a value is known here only as
//! the result of the constructor that made it.

use fxprof_processed_profile::{CpuDelta, Timestamp};
use vstd::prelude::*;

verus! {

/// `fxprof_processed_profile::Timestamp`, carried through as it is.
#[verifier::external_type_specification]
#[verifier::external_body]
pub struct ExTimestamp(Timestamp);

/// `fxprof_processed_profile::CpuDelta`, carried through as it is.
#[verifier::external_type_specification]
#[verifier::external_body]
pub struct ExCpuDelta(CpuDelta);

/// The timestamp that lies `nanos` nanoseconds after the profile's
/// reference time.
pub uninterp spec fn timestamp_at(nanos: u64) -> Timestamp;

/// The CPU delta that stands for `nanos` nanoseconds of CPU time.
pub uninterp spec fn cpu_delta_of(nanos: u64) -> CpuDelta;

/// `Timestamp::from_nanos_since_reference` stores its argument unchanged,
/// so its result depends on the argument alone; the contract gives that
/// result its name and claims nothing else.
pub assume_specification[ Timestamp::from_nanos_since_reference ](nanos: u64) -> (t: Timestamp)
    ensures
        t == timestamp_at(nanos),
;

/// `CpuDelta::from_nanos` stores its argument divided by 1000 (whole
/// microseconds), so its result depends on the argument alone; the
/// contract gives that result its name and claims nothing else.
pub assume_specification[ CpuDelta::from_nanos ](nanos: u64) -> (d: CpuDelta)
    ensures
        d == cpu_delta_of(nanos),
;

/// `CpuDelta` is `Copy`, and its `clone` is the derived one: the copy
/// equals the value it was made from.
pub assume_specification[ <CpuDelta as Clone>::clone ](d: &CpuDelta) -> (copy: CpuDelta)
    ensures
        copy == *d,
;

/// `Timestamp` is `Copy`, and its `clone` is the derived one: the copy
/// equals the value it was made from.
pub assume_specification[ <Timestamp as Clone>::clone ](t: &Timestamp) -> (copy: Timestamp)
    ensures
        copy == *t,
;

} // verus!
