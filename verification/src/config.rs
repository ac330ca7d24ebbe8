//! Run configuration: the knobs of the schedule generator and the
//! configuration errors that reject a run before any commit is planned.

use vstd::prelude::*;

verus! {

/// Probabilities are held in fixed point as a count of millionths, so the
/// whole probability 1.0 is `PROBABILITY_SCALE` millionths.
pub const PROBABILITY_SCALE: u32 = 1000000;

/// A configuration fault found before scheduling begins: no commit is
/// planned and no sink call is made once one of these is reported.
#[derive(Clone, Copy, PartialEq, Eq, Structural, Debug)]
pub enum ConfigError {
    /// The inclusion probability lies outside 0.0 through 1.0, or its
    /// literal is not a decimal numeral.
    InvalidProbability,
    /// The maximum number of commits per day is zero.
    InvalidMaxCommits,
    /// A date literal is not a valid `YYYY-MM-DD` calendar date.
    InvalidDate,
}

impl ConfigError {
    /// A short human-readable account of the fault.
    pub fn describe(&self) -> (m: &'static str)
        ensures
            *self is InvalidProbability ==> m@ == "probability must be between 0.0 and 1.0"@,
            *self is InvalidMaxCommits ==> m@ == "maximum commits per day must be at least 1"@,
            *self is InvalidDate ==> m@ == "dates must be valid YYYY-MM-DD calendar dates"@,
    {
        match self {
            ConfigError::InvalidProbability => "probability must be between 0.0 and 1.0",
            ConfigError::InvalidMaxCommits => "maximum commits per day must be at least 1",
            ConfigError::InvalidDate => "dates must be valid YYYY-MM-DD calendar dates",
        }
    }
}

/// The schedule generator's configuration.
#[derive(Clone, Copy, PartialEq, Eq, Structural, Debug)]
pub struct ScheduleConfig {
    /// Skip Saturdays and Sundays entirely when set.
    pub workdays_only: bool,
    /// The largest commit count a single day may receive; at least 1.
    pub max_commits_per_day: u32,
    /// The chance that a qualifying day receives commits at all, in
    /// millionths; at most [`PROBABILITY_SCALE`].
    pub inclusion_probability: u32,
}

impl ScheduleConfig {
    pub open spec fn valid(self) -> bool {
        &&& self.max_commits_per_day >= 1
        &&& self.inclusion_probability <= PROBABILITY_SCALE
    }

    /// Checks the configuration invariants once, before iteration begins:
    /// the probability must not exceed the scale and the per-day maximum
    /// must be positive.
    pub fn new(workdays_only: bool, max_commits_per_day: u32, inclusion_probability: u32) -> (r:
        Result<ScheduleConfig, ConfigError>)
        ensures
            inclusion_probability > PROBABILITY_SCALE ==> r == Err::<ScheduleConfig, ConfigError>(
                ConfigError::InvalidProbability,
            ),
            inclusion_probability <= PROBABILITY_SCALE && max_commits_per_day == 0 ==> r == Err::<
                ScheduleConfig,
                ConfigError,
            >(ConfigError::InvalidMaxCommits),
            inclusion_probability <= PROBABILITY_SCALE && max_commits_per_day >= 1 ==> r == Ok::<
                ScheduleConfig,
                ConfigError,
            >(ScheduleConfig { workdays_only, max_commits_per_day, inclusion_probability }),
    {
        if inclusion_probability > PROBABILITY_SCALE {
            Err(ConfigError::InvalidProbability)
        } else if max_commits_per_day == 0 {
            Err(ConfigError::InvalidMaxCommits)
        } else {
            Ok(ScheduleConfig { workdays_only, max_commits_per_day, inclusion_probability })
        }
    }
}

impl Default for ScheduleConfig {
    /// The configuration of a run with no flags: every day qualifies, a day
    /// receives up to three commits, and the probability gate always passes.
    fn default() -> (r: Self)
        ensures
            r == (ScheduleConfig {
                workdays_only: false,
                max_commits_per_day: 3,
                inclusion_probability: PROBABILITY_SCALE,
            }),
    {
        ScheduleConfig {
            workdays_only: false,
            max_commits_per_day: 3,
            inclusion_probability: PROBABILITY_SCALE,
        }
    }
}

} // verus!
