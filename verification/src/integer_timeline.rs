//! Codec of an integer-valued channel: the same quantization grid as
//! the real-valued channel, on whole values.

use vstd::prelude::*;
use vstd::arithmetic::power2::pow2;
use crate::bits::{
    bits_to_number, bits_value, lemma_bit_codec_round_trip, lemma_bits_value_bound,
    lemma_capacity_grid_bounds, msb_bits, number_to_bits, pow2_usize,
};
use crate::rounding::{Remap, apply_denormalize, apply_normalize, spec_denormalize, spec_normalize};
use crate::structures::ComplexTimelineValue;

verus! {

/// Range and width of an integer-valued channel.
#[derive(Clone, Copy, Debug)]
pub struct IntegerTimelineConfig {
    /// Smallest value of the range
    pub min_value: i32,
    /// Largest value of the range
    pub max_value: i32,
    /// Number of bits of one encoded value
    pub capacity: u8,
}

/// Parameters of an integer-valued channel.
#[derive(Clone, Copy, Debug)]
pub struct IntegerTimelineParams {
    /// Smallest value of the range
    pub min_value: i32,
    /// Largest value of the range
    pub max_value: i32,
    /// Number of bits of one encoded value
    pub capacity: u8,
    /// Remap applied to the normalized coordinate before quantization
    pub get_multiplier: Remap,
    /// Remap applied to the normalized coordinate on the way back
    pub get_reverse_multiplier: Remap,
}

/// The bounds are ordered and the bit width is workable.
pub open spec fn integer_params_wf(p: IntegerTimelineParams) -> bool {
    &&& p.min_value < p.max_value
    &&& 1 <= p.capacity <= 24
}

/// Codec of an integer-valued channel.
#[derive(Clone, Copy, Debug)]
pub struct IntegerTimeline {
    /// Width of the value range
    pub range: i64,
    /// Largest grid point of the quantization, `2^capacity - 1`
    pub max_normalize_value: usize,
    /// The channel parameters
    pub params: IntegerTimelineParams,
}

impl IntegerTimeline {
    /// The derived fields match the parameters.
    pub open spec fn wf(&self) -> bool {
        &&& integer_params_wf(self.params)
        &&& self.range == self.params.max_value - self.params.min_value
        &&& self.max_normalize_value == pow2(self.params.capacity as nat) - 1
    }

    /// A channel from its parameters.
    pub fn new(params: IntegerTimelineParams) -> (r: Self)
        requires
            integer_params_wf(params),
        ensures
            r.wf(),
            r.params == params,
    {
        proof {
            lemma_capacity_grid_bounds(params.capacity as nat);
        }
        let max_normalize_value = pow2_usize(params.capacity) - 1;
        let range = params.max_value as i64 - params.min_value as i64;

        IntegerTimeline { max_normalize_value, params, range }
    }

    /// A channel from its configuration, with no remap.
    pub fn from_config(config: &IntegerTimelineConfig) -> (r: Self)
        requires
            config.min_value < config.max_value,
            1 <= config.capacity <= 24,
        ensures
            r.wf(),
            r.params.min_value == config.min_value,
            r.params.max_value == config.max_value,
            r.params.capacity == config.capacity,
            r.params.get_multiplier is Identity,
            r.params.get_reverse_multiplier is Identity,
    {
        let params = IntegerTimelineParams {
            min_value: config.min_value,
            max_value: config.max_value,
            capacity: config.capacity,
            get_multiplier: Remap::Identity,
            get_reverse_multiplier: Remap::Identity,
        };

        IntegerTimeline::new(params)
    }

    /// Grid point of an in-range value.
    pub fn normalize_value(&self, value: i32) -> (r: usize)
        requires
            self.wf(),
            self.params.min_value <= value <= self.params.max_value,
        ensures
            r == spec_normalize(
                value - self.params.min_value,
                self.range as int,
                self.max_normalize_value as int,
                self.params.get_multiplier,
            ),
            r <= self.max_normalize_value,
    {
        proof {
            lemma_capacity_grid_bounds(self.params.capacity as nat);
        }
        apply_normalize(
            value as i64 - self.params.min_value as i64,
            self.range,
            self.max_normalize_value,
            self.params.get_multiplier,
        )
    }

    /// The word an in-range value encodes to.
    pub open spec fn spec_bits(&self, x: int) -> Seq<bool> {
        let c = self.params.capacity as nat;
        if x > self.params.max_value {
            Seq::new(c, |i: int| true)
        } else if x < self.params.min_value {
            Seq::new(c, |i: int| false)
        } else {
            msb_bits(
                spec_normalize(
                    x - self.params.min_value,
                    self.range as int,
                    self.max_normalize_value as int,
                    self.params.get_multiplier,
                ) as nat,
                c,
            )
        }
    }

    /// Encode a value: all ones above the range, all zeros below it, the
    /// quantized grid point within it.
    pub fn get_bits(&self, timeline_value: &ComplexTimelineValue) -> (r: Vec<bool>)
        requires
            self.wf(),
            timeline_value matches ComplexTimelineValue::Integer(_),
        ensures
            r@.len() == self.params.capacity as nat,
            timeline_value matches ComplexTimelineValue::Integer(x) ==> r@ == self.spec_bits(
                x as int,
            ),
    {
        let value: i32 = match timeline_value {
            ComplexTimelineValue::Integer(v) => *v,
            _ => {
                proof {
                    assert(false);
                }
                0i32
            },
        };
        let cap = self.params.capacity as usize;
        if value > self.params.max_value {
            let r = vec![true; cap];
            proof {
                assert(r@ =~= self.spec_bits(value as int));
            }
            return r;
        }
        if value < self.params.min_value {
            let r = vec![false; cap];
            proof {
                assert(r@ =~= self.spec_bits(value as int));
            }
            return r;
        }
        let normalized_value = self.normalize_value(value);

        number_to_bits(normalized_value, self.params.capacity, self.max_normalize_value)
    }

    /// Number of bits of one encoded value.
    pub fn get_capacity(&self) -> (r: u8)
        ensures
            r == self.params.capacity,
    {
        self.params.capacity
    }

    /// The value a word decodes to.
    pub open spec fn spec_reverse_value(&self, bits: Seq<bool>) -> int {
        self.params.min_value + spec_denormalize(
            bits_value(bits) as int,
            self.range as int,
            self.max_normalize_value as int,
            self.params.get_reverse_multiplier,
        )
    }

    /// Decode a word back to a value of the range.
    pub fn reverse(&self, bits: &[bool]) -> (r: ComplexTimelineValue)
        requires
            self.wf(),
            bits@.len() == self.params.capacity as nat,
        ensures
            r matches ComplexTimelineValue::Integer(y) && y == self.spec_reverse_value(bits@),
            r matches ComplexTimelineValue::Integer(y) && self.params.min_value <= y
                <= self.params.max_value,
    {
        proof {
            lemma_bits_value_bound(bits@);
            lemma_capacity_grid_bounds(self.params.capacity as nat);
        }
        let normalized_value = bits_to_number(bits);

        let offset = apply_denormalize(
            normalized_value,
            self.range,
            self.max_normalize_value,
            self.params.get_reverse_multiplier,
        );

        ComplexTimelineValue::Integer((self.params.min_value as i64 + offset) as i32)
    }
}

/// The channel's round trip on an in-range value of a linear channel:
/// decoding the encoded word lands within half a quantization step plus
/// half a unit of the value.
pub proof fn lemma_integer_round_trip(t: IntegerTimeline, x: int)
    requires
        t.wf(),
        t.params.get_multiplier is Identity,
        t.params.get_reverse_multiplier is Identity,
        t.params.min_value <= x <= t.params.max_value,
    ensures
        ({
            let y = t.spec_reverse_value(t.spec_bits(x));
            -(t.range + t.max_normalize_value) <= 2 * t.max_normalize_value * (y - x) <= t.range
                + t.max_normalize_value
        }),
{
    let m = t.max_normalize_value as int;
    let range = t.range as int;
    let d = x - t.params.min_value;
    let c = t.params.capacity as nat;
    lemma_capacity_grid_bounds(c);
    let n = crate::rounding::spec_normalize(d, range, m, Remap::Identity);
    crate::rounding::lemma_quantize_round_trip(d, range, m);
    lemma_bit_codec_round_trip(n as nat, c);
    assert(t.spec_bits(x) == msb_bits(n as nat, c));
    assert(bits_value(t.spec_bits(x)) == n);
    let y = t.spec_reverse_value(t.spec_bits(x));
    assert(y - x == crate::rounding::spec_denormalize(n, range, m, Remap::Identity) - d);
}

} // verus!
