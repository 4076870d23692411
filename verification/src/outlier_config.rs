//! Configuration of outlier detection.

use crate::time::Duration;
use vstd::prelude::*;

verus! {

/// A whole percentage between 0 and 100.
#[derive(Clone, Copy, Debug, PartialEq, Eq, Structural)]
pub struct Percentage {
    value: u8,
}

impl Percentage {
    /// The percentage as a number.
    pub closed spec fn value(self) -> u8 {
        self.value
    }

    #[verifier::type_invariant]
    spec fn in_range(self) -> bool {
        self.value <= 100
    }

    /// The percentage `value`, or `None` if it is more than 100.
    pub fn new(value: u32) -> (percentage: Option<Percentage>)
        ensures
            percentage is Some <==> value <= 100,
            percentage matches Some(p) ==> p.value() == value,
    {
        if value <= 100 {
            Some(Percentage { value: value as u8 })
        } else {
            None
        }
    }

    /// The percentage as a number.
    pub fn get(&self) -> (value: u8)
        ensures
            value == self.value(),
            value <= 100,
    {
        proof {
            use_type_invariant(self);
        }
        self.value
    }
}

/// Settings of the success-rate algorithm.
#[derive(Clone, Copy, Debug)]
pub struct SuccessRateConfig {
    pub stdev_factor: u32,
    pub enforcing_success_rate: Percentage,
    pub minimum_hosts: u32,
    pub request_volume: u32,
}

/// Settings of the failure-percentage algorithm.
#[derive(Clone, Copy, Debug)]
pub struct FailurePercentageConfig {
    /// An endpoint is an outlier when its failure percentage is above this.
    pub threshold: Percentage,
    /// How likely an outlier is to be ejected.
    pub enforcing_failure_percentage: Percentage,
    /// How many endpoints must have enough traffic for the algorithm to run.
    pub minimum_hosts: u32,
    /// How many requests an endpoint needs in an interval to be judged.
    pub request_volume: u32,
}

/// Settings of outlier detection for one endpoint pool.
#[derive(Clone, Copy, Debug)]
pub struct OutlierDetectionConfig {
    /// Time between two sweeps.
    pub interval: Duration,
    /// How long a first ejection lasts, within the bound below.
    pub base_ejection_time: Duration,
    /// Upper bound on the time of any ejection.
    pub max_ejection_time: Duration,
    /// Share of the pool that may be ejected at a time.
    pub max_ejection_percent: Percentage,
    pub success_rate: Option<SuccessRateConfig>,
    pub failure_percentage: Option<FailurePercentageConfig>,
}

impl OutlierDetectionConfig {
    /// Whether any detection algorithm is configured.
    pub open spec fn enabled(self) -> bool {
        self.success_rate is Some || self.failure_percentage is Some
    }

    /// Whether any detection algorithm is configured.
    pub fn is_enabled(&self) -> (enabled: bool)
        ensures
            enabled == self.enabled(),
    {
        self.success_rate.is_some() || self.failure_percentage.is_some()
    }
}

} // verus!
