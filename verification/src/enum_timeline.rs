//! Codec of a categorical channel: an ordered option list, encoded by
//! position. An unknown option encodes as position zero, and a position
//! beyond the list decodes to the first option.

use vstd::prelude::*;
use vstd::arithmetic::power2::pow2;
use crate::bits::{
    bits_to_number, bits_value, lemma_bits_value_bound, lemma_capacity_grid_bounds,
    number_to_bits, pow2_usize, spec_number_to_bits,
};
use crate::structures::ComplexTimelineValue;

verus! {

/// Width and option list of a categorical channel.
#[derive(Clone, Debug)]
pub struct EnumTimelineConfig {
    /// Number of bits of one encoded value
    pub capacity: u8,
    /// The options, in encoding order
    pub options: Vec<String>,
}

/// Parameters of a categorical channel.
#[derive(Debug)]
pub struct EnumTimelineParams {
    /// Number of bits of one encoded value
    pub capacity: u8,
    /// The options, in encoding order
    pub options: Vec<String>,
}

/// Codec of a categorical channel.
#[derive(Debug)]
pub struct EnumTimeline {
    /// Largest encodable position, `2^capacity - 1`
    pub max_normalize_value: usize,
    /// The channel parameters
    pub params: EnumTimelineParams,
}

/// Position of the first occurrence of `v` in `options`, if any.
pub open spec fn spec_find_option(options: Seq<Seq<char>>, v: Seq<char>) -> Option<int>
    decreases options.len(),
{
    if options.len() == 0 {
        None
    } else if options.first() == v {
        Some(0int)
    } else {
        match spec_find_option(options.drop_first(), v) {
            Some(i) => Some(i + 1),
            None => None,
        }
    }
}

/// The number an option encodes to: the position of its first
/// occurrence, or zero when it is not listed.
pub open spec fn spec_enum_number(options: Seq<Seq<char>>, v: Seq<char>) -> int {
    match spec_find_option(options, v) {
        Some(i) => i,
        None => 0int,
    }
}

/// What `spec_find_option` finds: the first occurrence when one exists,
/// nothing when the value is not listed.
pub proof fn lemma_find_option_characterization(options: Seq<Seq<char>>, v: Seq<char>)
    ensures
        spec_find_option(options, v) is None ==> forall|j: int|
            0 <= j < options.len() ==> #[trigger] options[j] != v,
        spec_find_option(options, v) matches Some(k) ==> 0 <= k < options.len() && options[k] == v
            && forall|j: int| 0 <= j < k ==> #[trigger] options[j] != v,
    decreases options.len(),
{
    if options.len() > 0 && options.first() != v {
        lemma_find_option_characterization(options.drop_first(), v);
        assert(forall|j: int|
            1 <= j < options.len() ==> #[trigger] options[j] == options.drop_first()[j - 1]);
    }
}

impl EnumTimeline {
    /// The derived field matches the parameters and the list is not
    /// empty.
    pub open spec fn wf(&self) -> bool {
        &&& 1 <= self.params.capacity <= 24
        &&& self.params.options@.len() >= 1
        &&& self.max_normalize_value == pow2(self.params.capacity as nat) - 1
    }

    /// A channel from its parameters.
    pub fn new(params: EnumTimelineParams) -> (r: Self)
        requires
            1 <= params.capacity <= 24,
            params.options@.len() >= 1,
        ensures
            r.wf(),
            r.params == params,
    {
        proof {
            lemma_capacity_grid_bounds(params.capacity as nat);
        }
        let max_normalize_value = pow2_usize(params.capacity) - 1;

        EnumTimeline { max_normalize_value, params }
    }

    /// A channel from its configuration.
    pub fn from_config(config: &EnumTimelineConfig) -> (r: Self)
        requires
            1 <= config.capacity <= 24,
            config.options@.len() >= 1,
        ensures
            r.wf(),
            r.params.capacity == config.capacity,
            r.params.options@.len() == config.options@.len(),
            forall|i: int|
                0 <= i < config.options@.len() ==> #[trigger] r.params.options@[i]@
                    == config.options@[i]@,
    {
        let mut options: Vec<String> = Vec::new();
        let n = config.options.len();
        for i in 0..n
            invariant
                n == config.options@.len(),
                options@.len() == i,
                forall|j: int|
                    0 <= j < i ==> #[trigger] options@[j]@ == config.options@[j]@,
            decreases n - i,
        {
            options.push(config.options[i].clone());
        }
        EnumTimeline::new(EnumTimelineParams { capacity: config.capacity, options })
    }

    /// Number of bits of one encoded value.
    pub fn get_capacity(&self) -> (r: u8)
        ensures
            r == self.params.capacity,
    {
        self.params.capacity
    }

    /// The word an option encodes to.
    pub open spec fn spec_bits(&self, v: Seq<char>) -> Seq<bool> {
        spec_number_to_bits(
            spec_enum_number(self.params.options@.map_values(|s: String| s@), v) as nat,
            self.params.capacity as nat,
            self.max_normalize_value as nat,
        )
    }

    /// Encode an option: the MSB-first bits of its first position in the
    /// list, zero when it is not listed, all ones when the position does
    /// not fit the width.
    pub fn get_bits(&self, timeline_value: &ComplexTimelineValue) -> (r: Vec<bool>)
        requires
            self.wf(),
            timeline_value matches ComplexTimelineValue::Enum(_),
        ensures
            r@.len() == self.params.capacity as nat,
            timeline_value matches ComplexTimelineValue::Enum(s) ==> r@ == self.spec_bits(s@),
    {
        let value: &String = match timeline_value {
            ComplexTimelineValue::Enum(v) => v,
            _ => {
                proof {
                    assert(false);
                }
                &self.params.options[0]
            },
        };
        let ghost opts = self.params.options@.map_values(|s: String| s@);
        let mut number: usize = 0;
        let mut found = false;
        let n = self.params.options.len();
        for i in 0..n
            invariant
                n == self.params.options@.len(),
                opts == self.params.options@.map_values(|s: String| s@),
                found ==> 0 <= number < i && opts[number as int] == value@ && forall|j: int|
                    0 <= j < number ==> #[trigger] opts[j] != value@,
                !found ==> number == 0 && forall|j: int| 0 <= j < i ==> #[trigger] opts[j]
                    != value@,
            decreases n - i,
        {
            proof {
                assert(opts[i as int] == self.params.options@[i as int]@);
            }
            if !found && self.params.options[i].eq(value) {
                number = i;
                found = true;
            }
        }
        proof {
            lemma_find_option_characterization(opts, value@);
            match spec_find_option(opts, value@) {
                Some(k) => {
                    assert(found);
                    assert(number == k) by {
                        if number < k {
                            assert(opts[number as int] != value@);
                        }
                        if k < number {
                            assert(opts[k] != value@);
                        }
                    }
                },
                None => {
                    assert(!found);
                },
            }
        }
        number_to_bits(number, self.params.capacity, self.max_normalize_value)
    }

    /// Position a word decodes to: its value when it addresses the list,
    /// the first option otherwise.
    pub open spec fn spec_reverse_index(&self, bits: Seq<bool>) -> int {
        if bits_value(bits) < self.params.options@.len() {
            bits_value(bits) as int
        } else {
            0int
        }
    }

    /// Decode a word back to an option of the list.
    pub fn reverse(&self, bits: &[bool]) -> (r: ComplexTimelineValue)
        requires
            self.wf(),
            bits@.len() == self.params.capacity as nat,
        ensures
            r matches ComplexTimelineValue::Enum(s) && s@ == self.params.options@[self.spec_reverse_index(bits@)]@,
    {
        proof {
            lemma_bits_value_bound(bits@);
            lemma_capacity_grid_bounds(self.params.capacity as nat);
        }
        let number = bits_to_number(bits);

        if number < self.params.options.len() {
            ComplexTimelineValue::Enum(self.params.options[number].clone())
        } else {
            ComplexTimelineValue::Enum(self.params.options[0].clone())
        }
    }
}

/// The channel's round trip on a listed option: when the list fits the
/// width, decoding the encoded word restores the option.
pub proof fn lemma_enum_round_trip(t: EnumTimeline, v: Seq<char>)
    requires
        t.wf(),
        t.params.options@.len() <= t.max_normalize_value + 1,
        exists|i: int|
            0 <= i < t.params.options@.len() && (#[trigger] t.params.options@[i])@ == v,
    ensures
        t.params.options@[t.spec_reverse_index(t.spec_bits(v))]@ == v,
{
    let opts = t.params.options@.map_values(|s: String| s@);
    let c = t.params.capacity as nat;
    let m = t.max_normalize_value as nat;
    lemma_capacity_grid_bounds(c);
    lemma_find_option_characterization(opts, v);
    let i = choose|i: int|
        0 <= i < t.params.options@.len() && (#[trigger] t.params.options@[i])@ == v;
    assert(opts[i] == v);
    match spec_find_option(opts, v) {
        Some(k) => {
            assert(0 <= k < opts.len() && opts[k] == v);
            assert(spec_enum_number(opts, v) == k);
            assert(k <= m);
            crate::bits::lemma_bit_codec_round_trip(k as nat, c);
            assert(t.spec_bits(v) == crate::bits::msb_bits(k as nat, c));
            assert(bits_value(t.spec_bits(v)) == k);
            assert(t.spec_reverse_index(t.spec_bits(v)) == k);
        },
        None => {
            assert(opts[i] != v);
        },
    }
}

} // verus!
