//! The tagged value type of the data plane and the tagged sum of the
//! per-channel codecs.

use vstd::prelude::*;
use crate::datetime_timeline::{
    DatetimeTimeline, DatetimeTimelineConfig, spec_datetime_bits, spec_datetime_reverse,
    spec_format,
};
use crate::date_parts::parsed_datetime;
use crate::enum_timeline::{EnumTimeline, EnumTimelineConfig};
use crate::float_timeline::{FloatTimeline, FloatTimelineConfig};
use crate::integer_timeline::{IntegerTimeline, IntegerTimelineConfig};

verus! {

/// One observed sample of a channel. Real values are carried as integer
/// thousandths.
#[derive(Clone, Debug, PartialEq)]
pub enum ComplexTimelineValue {
    /// A real value, in thousandths
    Float(i64),
    /// A timestamp text
    Datetime(String),
    /// A whole value
    Integer(i32),
    /// A categorical option
    Enum(String),
}

/// Configuration of one channel codec.
#[derive(Debug)]
pub enum TimelineConfig {
    /// A datetime channel
    Datetime(DatetimeTimelineConfig),
    /// A real-valued channel
    Float(FloatTimelineConfig),
    /// An integer-valued channel
    Integer(IntegerTimelineConfig),
    /// A categorical channel
    Enum(EnumTimelineConfig),
}

/// One channel codec: a value of the channel's kind maps to a
/// fixed-width bit word and back.
#[derive(Debug)]
pub enum Timeline {
    /// A real-valued channel
    Float(FloatTimeline),
    /// An integer-valued channel
    Integer(IntegerTimeline),
    /// A categorical channel
    Enum(EnumTimeline),
    /// A datetime channel
    Datetime(DatetimeTimeline),
}

impl Timeline {
    /// The wrapped codec is well formed.
    pub open spec fn wf(&self) -> bool {
        match self {
            Timeline::Float(t) => t.wf(),
            Timeline::Integer(t) => t.wf(),
            Timeline::Enum(t) => t.wf(),
            Timeline::Datetime(_) => true,
        }
    }

    /// Number of bits of one encoded value of this channel.
    pub open spec fn spec_capacity(&self) -> int {
        match self {
            Timeline::Float(t) => t.params.capacity as int,
            Timeline::Integer(t) => t.params.capacity as int,
            Timeline::Enum(t) => t.params.capacity as int,
            Timeline::Datetime(_) => 24,
        }
    }

    /// The value is of this channel's kind.
    pub open spec fn matches_value(&self, v: ComplexTimelineValue) -> bool {
        match self {
            Timeline::Float(_) => v is Float,
            Timeline::Integer(_) => v is Integer,
            Timeline::Enum(_) => v is Enum,
            Timeline::Datetime(_) => v is Datetime,
        }
    }

    /// The word a matching value encodes to.
    pub open spec fn spec_bits(&self, v: ComplexTimelineValue) -> Seq<bool> {
        match self {
            Timeline::Float(t) => match v {
                ComplexTimelineValue::Float(x) => t.spec_bits(x as int),
                _ => Seq::empty(),
            },
            Timeline::Integer(t) => match v {
                ComplexTimelineValue::Integer(x) => t.spec_bits(x as int),
                _ => Seq::empty(),
            },
            Timeline::Enum(t) => match v {
                ComplexTimelineValue::Enum(s) => t.spec_bits(s@),
                _ => Seq::empty(),
            },
            Timeline::Datetime(t) => match v {
                ComplexTimelineValue::Datetime(s) => spec_datetime_bits(
                    parsed_datetime(s@, spec_format(t.config)),
                ),
                _ => Seq::empty(),
            },
        }
    }

    /// `r` is what this channel decodes `bits` to.
    pub open spec fn reverse_ok(&self, bits: Seq<bool>, r: ComplexTimelineValue) -> bool {
        match self {
            Timeline::Float(t) => r matches ComplexTimelineValue::Float(y) && y
                == t.spec_reverse_value(bits) && t.params.min_value <= y <= t.params.max_value,
            Timeline::Integer(t) => r matches ComplexTimelineValue::Integer(y) && y
                == t.spec_reverse_value(bits) && t.params.min_value <= y <= t.params.max_value,
            Timeline::Enum(t) => r matches ComplexTimelineValue::Enum(s) && s@
                == t.params.options@[t.spec_reverse_index(bits)]@,
            Timeline::Datetime(t) => r matches ComplexTimelineValue::Datetime(s) && s@
                == spec_datetime_reverse(bits, spec_format(t.config)),
        }
    }

    /// Encode a matching value as this channel's word.
    pub fn get_bits(&self, value: &ComplexTimelineValue) -> (r: Vec<bool>)
        requires
            self.wf(),
            self.matches_value(*value),
        ensures
            r@.len() == self.spec_capacity(),
            r@ == self.spec_bits(*value),
    {
        match self {
            Timeline::Float(t) => t.get_bits(value),
            Timeline::Integer(t) => t.get_bits(value),
            Timeline::Enum(t) => t.get_bits(value),
            Timeline::Datetime(t) => t.get_bits(value),
        }
    }

    /// Decode this channel's word back to a value.
    pub fn reverse(&self, bits: &[bool]) -> (r: ComplexTimelineValue)
        requires
            self.wf(),
            bits@.len() == self.spec_capacity(),
        ensures
            self.reverse_ok(bits@, r),
    {
        match self {
            Timeline::Float(t) => t.reverse(bits),
            Timeline::Integer(t) => t.reverse(bits),
            Timeline::Enum(t) => t.reverse(bits),
            Timeline::Datetime(t) => t.reverse(bits),
        }
    }

    /// Number of bits of one encoded value of this channel.
    pub fn get_capacity(&self) -> (r: u8)
        ensures
            r == self.spec_capacity(),
    {
        match self {
            Timeline::Float(t) => t.get_capacity(),
            Timeline::Integer(t) => t.get_capacity(),
            Timeline::Enum(t) => t.get_capacity(),
            Timeline::Datetime(t) => t.get_capacity(),
        }
    }
}

} // verus!
