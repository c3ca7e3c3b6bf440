//! Construction of one channel codec from its configuration.

use vstd::prelude::*;
use crate::datetime_timeline::{DatetimeTimeline, spec_format};
use crate::enum_timeline::EnumTimeline;
use crate::float_timeline::FloatTimeline;
use crate::integer_timeline::IntegerTimeline;
use crate::structures::{Timeline, TimelineConfig};

verus! {

/// The configuration describes a usable channel: ordered bounds within
/// the exact-arithmetic window, a workable bit width, and at least one
/// option for a categorical channel.
pub open spec fn timeline_config_wf(config: TimelineConfig) -> bool {
    match config {
        TimelineConfig::Datetime(_) => true,
        TimelineConfig::Float(c) => -1_000_000_000_000 <= c.min_value && c.min_value < c.max_value
            && c.max_value <= 1_000_000_000_000 && 1 <= c.capacity <= 24,
        TimelineConfig::Integer(c) => c.min_value < c.max_value && 1 <= c.capacity <= 24,
        TimelineConfig::Enum(c) => 1 <= c.capacity <= 24 && c.options@.len() >= 1,
    }
}

/// The returned codec carries exactly the configuration's bounds, width,
/// options or format, with no remap.
pub open spec fn timeline_matches_config(r: Timeline, config: TimelineConfig) -> bool {
    match config {
        TimelineConfig::Float(c) => r matches Timeline::Float(t) && t.params.min_value
            == c.min_value && t.params.max_value == c.max_value && t.params.capacity == c.capacity
            && t.params.get_multiplier is Identity && t.params.get_reverse_multiplier is Identity,
        TimelineConfig::Integer(c) => r matches Timeline::Integer(t) && t.params.min_value
            == c.min_value && t.params.max_value == c.max_value && t.params.capacity == c.capacity
            && t.params.get_multiplier is Identity && t.params.get_reverse_multiplier is Identity,
        TimelineConfig::Enum(c) => r matches Timeline::Enum(t) && t.params.capacity == c.capacity
            && t.params.options@.len() == c.options@.len() && forall|i: int|
            0 <= i < c.options@.len() ==> (#[trigger] t.params.options@[i])@ == c.options@[i]@,
        TimelineConfig::Datetime(c) => r matches Timeline::Datetime(t) && spec_format(t.config)
            == spec_format(c),
    }
}

/// The channel codec a configuration describes.
pub fn init_timeline_by_config(config: &TimelineConfig) -> (r: Timeline)
    requires
        timeline_config_wf(*config),
    ensures
        r.wf(),
        timeline_matches_config(r, *config),
{
    match config {
        TimelineConfig::Datetime(payload) => Timeline::Datetime(DatetimeTimeline::from_config(payload)),
        TimelineConfig::Float(payload) => Timeline::Float(FloatTimeline::from_config(payload)),
        TimelineConfig::Integer(payload) => Timeline::Integer(IntegerTimeline::from_config(payload)),
        TimelineConfig::Enum(payload) => Timeline::Enum(EnumTimeline::from_config(payload)),
    }
}

} // verus!
