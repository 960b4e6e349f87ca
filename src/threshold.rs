use vstd::prelude::*;

use crate::level::{Level, LevelFilter};
use crate::registry::{Deserializable, Deserialize, Deserializers, Family};

verus! {

/// What a filter says of a record.
#[derive(Clone, Copy, Debug, PartialEq, Eq, Structural)]
pub enum Response {
    /// The record is logged, whatever later filters say.
    Accept,
    /// The filter has no opinion; later filters decide.
    Neutral,
    /// The record is dropped.
    Reject,
}

/// A filter that rejects every record more verbose than a threshold.
#[derive(Clone, Copy, Debug, PartialEq, Eq, Structural)]
pub struct ThresholdFilter {
    level: LevelFilter,
}

impl ThresholdFilter {
    pub closed spec fn threshold(self) -> LevelFilter {
        self.level
    }

    /// Creates a filter with the given threshold.
    pub fn new(level: LevelFilter) -> (r: ThresholdFilter)
        ensures
            r.threshold() == level,
    {
        ThresholdFilter { level }
    }

    /// The threshold of this filter.
    pub fn level(&self) -> (r: LevelFilter)
        ensures
            r == self.threshold(),
    {
        self.level
    }

    /// Rejects a record whose level is more verbose than the threshold, and
    /// is neutral on every other record.
    pub fn filter(&self, level: Level) -> (r: Response)
        ensures
            r == (if self.threshold().admits(level) {
                Response::Neutral
            } else {
                Response::Reject
            }),
    {
        if self.level.enabled(level) {
            Response::Neutral
        } else {
            Response::Reject
        }
    }
}

impl Deserializable for ThresholdFilter {
    open spec fn family() -> Family {
        Family::Filter
    }

    fn name() -> (r: &'static str) {
        Family::Filter.name()
    }
}

/// The configuration of a threshold filter.
#[derive(Clone, Copy, Debug, PartialEq, Eq, Structural)]
pub struct ThresholdFilterConfig {
    /// The threshold to filter at.
    pub level: LevelFilter,
}

/// The factory of threshold filters, registered under the kind `threshold`.
#[derive(Clone, Copy, Debug, PartialEq, Eq, Structural)]
pub struct ThresholdFilterDeserializer;

impl ThresholdFilterDeserializer {
    /// Builds a threshold filter at the configured level; never fails.
    pub fn build(&self, config: ThresholdFilterConfig) -> (r: ThresholdFilter)
        ensures
            r.threshold() == config.level,
    {
        ThresholdFilter::new(config.level)
    }
}

impl Deserialize for ThresholdFilterDeserializer {
    type Config = ThresholdFilterConfig;
    type Output = ThresholdFilter;

    open spec fn builds(&self, config: ThresholdFilterConfig, r: Result<ThresholdFilter, String>) -> bool {
        r is Ok && r->Ok_0.threshold() == config.level
    }

    fn deserialize(&self, config: ThresholdFilterConfig, _deserializers: &Deserializers<Self>) -> (r: Result<
        ThresholdFilter,
        String,
    >) {
        Ok(self.build(config))
    }
}

} // verus!
