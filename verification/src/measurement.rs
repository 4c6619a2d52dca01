//! What a process used of its machine between two looks at it.
use vstd::prelude::*;

verus! {

/// A span of processor time.
#[derive(Clone, Copy, Debug, Eq, PartialEq)]
pub struct CpuTime {
    seconds: u64,
    nanoseconds: u32,
}

impl View for CpuTime {
    type V = nat;

    /// The span in nanoseconds.
    closed spec fn view(&self) -> nat {
        (self.seconds * 1_000_000_000 + self.nanoseconds) as nat
    }
}

impl CpuTime {
    #[verifier::type_invariant]
    spec fn whole_seconds_apart(self) -> bool {
        self.nanoseconds < 1_000_000_000
    }

    /// The whole seconds of the span.
    pub fn seconds(&self) -> (result: u64)
        ensures
            result as nat == self@ / 1_000_000_000,
    {
        proof {
            use_type_invariant(self);
        }
        self.seconds
    }

    /// The nanoseconds of the span beyond its whole seconds.
    pub fn nanoseconds(&self) -> (result: u32)
        ensures
            result as nat == self@ % 1_000_000_000,
    {
        proof {
            use_type_invariant(self);
        }
        self.nanoseconds
    }

    /// The span less another, and none where the other is longer.
    pub fn saturating_sub(self, other: CpuTime) -> (result: CpuTime)
        ensures
            result@ == (if self@ < other@ {
                0
            } else {
                self@ - other@
            }),
    {
        proof {
            use_type_invariant(&self);
            use_type_invariant(&other);
        }
        if self.seconds < other.seconds || (self.seconds == other.seconds && self.nanoseconds
            < other.nanoseconds) {
            CpuTime { seconds: 0, nanoseconds: 0 }
        } else if self.nanoseconds >= other.nanoseconds {
            CpuTime {
                seconds: self.seconds - other.seconds,
                nanoseconds: self.nanoseconds - other.nanoseconds,
            }
        } else {
            CpuTime {
                seconds: self.seconds - other.seconds - 1,
                nanoseconds: 1_000_000_000 - other.nanoseconds + self.nanoseconds,
            }
        }
    }
}

/// What a process has used so far.
#[derive(Clone, Copy, Debug, Eq, PartialEq)]
pub struct ProcessResources {
    pub user_cpu: Option<CpuTime>,
    pub system_cpu: Option<CpuTime>,
    /// The most memory that was ever resident, where the host tells. It is no difference between
    /// two looks.
    pub process_max_resident_bytes: Option<u64>,
}

/// What a process used between two looks.
#[derive(Clone, Copy, Debug, Eq, PartialEq)]
pub struct ResourceDelta {
    pub user_cpu: Option<CpuTime>,
    pub system_cpu: Option<CpuTime>,
    pub process_max_resident_bytes: Option<u64>,
}

/// An optional span in nanoseconds.
pub open spec fn span(time: Option<CpuTime>) -> Option<nat> {
    match time {
        Some(time) => Some(time@),
        None => None,
    }
}

/// How much longer the later of two spans is, where both are known.
pub open spec fn grown(before: Option<nat>, after: Option<nat>) -> Option<nat> {
    match (before, after) {
        (Some(before), Some(after)) => Some(
            if after < before {
                0
            } else {
                (after - before) as nat
            },
        ),
        _ => None,
    }
}

/// The span that seconds and microseconds make, where both are in range.
pub open spec fn timeval_span(seconds: i64, microseconds: i64) -> Option<nat> {
    if 0 <= seconds && 0 <= microseconds < 1_000_000 {
        Some((seconds * 1_000_000_000 + microseconds * 1_000) as nat)
    } else {
        None
    }
}

/// The span that seconds and microseconds make, where both are in range.
pub fn timeval_duration(seconds: i64, microseconds: i64) -> (result: Option<CpuTime>)
    ensures
        span(result) == timeval_span(seconds, microseconds),
{
    if seconds < 0 || microseconds < 0 || microseconds >= 1_000_000 {
        return None;
    }
    Some(CpuTime { seconds: seconds as u64, nanoseconds: microseconds as u32 * 1_000 })
}

/// The most resident memory in bytes, from a count of units of that many bytes.
pub fn max_resident_bytes(count: i64, unit: u64) -> (result: Option<u64>)
    ensures
        result == (if count >= 0 && count * unit <= u64::MAX {
            Some((count * unit) as u64)
        } else {
            None
        }),
{
    if count < 0 {
        return None;
    }
    (count as u64).checked_mul(unit)
}

/// How much longer the later of two spans is.
pub fn duration_delta(before: Option<CpuTime>, after: Option<CpuTime>) -> (result: Option<CpuTime>)
    ensures
        span(result) == grown(span(before), span(after)),
{
    match (before, after) {
        (Some(before), Some(after)) => Some(after.saturating_sub(before)),
        _ => None,
    }
}

/// What a process used between two looks.
pub fn resource_delta(before: ProcessResources, after: ProcessResources) -> (result: ResourceDelta)
    ensures
        span(result.user_cpu) == grown(span(before.user_cpu), span(after.user_cpu)),
        span(result.system_cpu) == grown(span(before.system_cpu), span(after.system_cpu)),
        result.process_max_resident_bytes == after.process_max_resident_bytes,
{
    ResourceDelta {
        user_cpu: duration_delta(before.user_cpu, after.user_cpu),
        system_cpu: duration_delta(before.system_cpu, after.system_cpu),
        process_max_resident_bytes: after.process_max_resident_bytes,
    }
}

} // verus!
