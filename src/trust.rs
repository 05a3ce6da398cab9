//! The trust gate: a candidate's reputation profile against the profile an
//! escrow requires.

use vstd::prelude::*;

verus! {

/// A reputation profile.
#[derive(Debug, Clone, Copy, PartialEq, Eq, Structural)]
pub struct TrustMetrics {
    /// share of accepted escrows completed, in percent
    pub percent_completed: u8,
    /// share of creators satisfied, in percent
    pub percent_satisfied: u8,
    /// average volume of an escrow
    pub avg_volume: u32,
    /// average time to complete, in milliseconds; lower is better
    pub avg_completion_speed: u32,
    /// volume over all escrows
    pub total_volume: u32,
    /// number of escrows completed
    pub total_completed: u32,
}

impl TrustMetrics {
    /// The required profile `self` is better than `candidate` on at least one
    /// field, so the candidate may not accept.
    pub open spec fn spec_is_higher(self, candidate: TrustMetrics) -> bool {
        ||| self.percent_completed > candidate.percent_completed
        ||| self.percent_satisfied > candidate.percent_satisfied
        ||| self.avg_volume > candidate.avg_volume
        ||| self.avg_completion_speed < candidate.avg_completion_speed
        ||| self.total_volume > candidate.total_volume
        ||| self.total_completed > candidate.total_completed
    }

    /// `self` is at least as good as `other` on every field.
    pub open spec fn dominates(self, other: TrustMetrics) -> bool {
        &&& self.percent_completed >= other.percent_completed
        &&& self.percent_satisfied >= other.percent_satisfied
        &&& self.avg_volume >= other.avg_volume
        &&& self.avg_completion_speed <= other.avg_completion_speed
        &&& self.total_volume >= other.total_volume
        &&& self.total_completed >= other.total_completed
    }

    /// Whether the required profile `self` denies `candidate`: true when a single
    /// field of the candidate falls short (a lower latency is the better one).
    pub fn is_higher(&self, candidate: TrustMetrics) -> (r: bool)
        ensures
            r == self.spec_is_higher(candidate),
    {
        let other = candidate;
        if self.percent_completed > other.percent_completed {
            return true;
        }
        if self.percent_satisfied > other.percent_satisfied {
            return true;
        }
        if self.avg_volume > other.avg_volume {
            return true;
        }
        if self.avg_completion_speed < other.avg_completion_speed {
            return true;
        }
        if self.total_volume > other.total_volume {
            return true;
        }
        if self.total_completed > other.total_completed {
            return true;
        }
        false
    }
}

/// Admission is monotonic: a candidate at least as good as an admitted one is
/// admitted too.
pub proof fn lemma_admission_monotonic(
    required: TrustMetrics,
    admitted: TrustMetrics,
    better: TrustMetrics,
)
    requires
        !required.spec_is_higher(admitted),
        better.dominates(admitted),
    ensures
        !required.spec_is_higher(better),
{
}

/// The profile that stands for every identity until a reputation source is
/// wired in.
pub fn get_trust_metrics(sender: &String) -> (r: TrustMetrics)
    ensures
        r == (TrustMetrics {
            percent_completed: 95,
            percent_satisfied: 90,
            avg_volume: 100,
            avg_completion_speed: 600000,
            total_volume: 2000,
            total_completed: 20,
        }),
{
    TrustMetrics {
        percent_completed: 95,
        percent_satisfied: 90,
        avg_volume: 100,
        avg_completion_speed: 600000,
        total_volume: 2000,
        total_completed: 20,
    }
}

} // verus!
