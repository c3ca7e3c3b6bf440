//! The field codec: an ordered list of channel codecs, one field-sized
//! bit vector. Encoding concatenates each channel's word in order;
//! decoding slices each channel's width back out at its offset.

use vstd::prelude::*;
use crate::bits::copy_bit_range;
use crate::structures::{ComplexTimelineValue, Timeline};

verus! {

/// Offset of channel `i`'s word inside the concatenated bit vector: the
/// sum of the widths of the channels before it.
pub open spec fn spec_offset(items: Seq<Timeline>, i: int) -> int
    decreases i,
{
    if i <= 0 {
        0
    } else {
        spec_offset(items, i - 1) + items[i - 1].spec_capacity()
    }
}

/// Total width of the concatenated bit vector.
pub open spec fn spec_total_capacity(items: Seq<Timeline>) -> int {
    spec_offset(items, items.len() as int)
}

/// The concatenation of the channels' words from channel `i` on.
pub open spec fn spec_concat_from(
    items: Seq<Timeline>,
    values: Seq<ComplexTimelineValue>,
    i: int,
) -> Seq<bool>
    decreases values.len() - i,
{
    if i < 0 || i >= values.len() {
        Seq::empty()
    } else {
        items[i].spec_bits(values[i]) + spec_concat_from(items, values, i + 1)
    }
}

/// Offsets grow along the channel list when every channel is well
/// formed.
pub proof fn lemma_offset_monotone(items: Seq<Timeline>, i: int, j: int)
    requires
        forall|k: int| 0 <= k < items.len() ==> (#[trigger] items[k]).wf(),
        0 <= i <= j <= items.len(),
    ensures
        spec_offset(items, i) <= spec_offset(items, j),
    decreases j - i,
{
    if i < j {
        lemma_offset_monotone(items, i, j - 1);
        crate::bits::lemma_capacity_grid_bounds(1);
    }
}

/// The field codec: the channels of one observation, in order.
pub struct ComplexTimeline {
    /// The channel codecs, in field order
    pub items: Vec<Timeline>,
}

impl ComplexTimeline {
    /// Every channel codec is well formed.
    pub open spec fn wf(&self) -> bool {
        forall|i: int| 0 <= i < self.items@.len() ==> (#[trigger] self.items@[i]).wf()
    }

    /// A field codec from its channels.
    pub fn new(items: Vec<Timeline>) -> (r: Self)
        ensures
            r.items == items,
    {
        ComplexTimeline { items }
    }

    /// Encode one observation: each value's word, concatenated in
    /// channel order.
    pub fn get_bits(&self, value: &[ComplexTimelineValue]) -> (r: Result<Vec<bool>, ()>)
        requires
            self.wf(),
            value@.len() <= self.items@.len(),
            forall|i: int|
                0 <= i < value@.len() ==> (#[trigger] self.items@[i]).matches_value(value@[i]),
        ensures
            r matches Ok(bits) && bits@ == spec_concat_from(self.items@, value@, 0),
    {
        let mut result: Vec<bool> = Vec::new();
        let n = value.len();
        for index in 0..n
            invariant
                n == value@.len(),
                n <= self.items@.len(),
                self.wf(),
                forall|i: int|
                    0 <= i < value@.len() ==> (#[trigger] self.items@[i]).matches_value(value@[i]),
                spec_concat_from(self.items@, value@, 0) == result@ + spec_concat_from(
                    self.items@,
                    value@,
                    index as int,
                ),
            decreases n - index,
        {
            let ghost before = result@;
            let mut bits = self.items[index].get_bits(&value[index]);
            result.append(&mut bits);
            proof {
                assert(result@ == before + self.items@[index as int].spec_bits(
                    value@[index as int],
                ));
                assert(before + (self.items@[index as int].spec_bits(value@[index as int])
                    + spec_concat_from(self.items@, value@, index + 1)) =~= (before
                    + self.items@[index as int].spec_bits(value@[index as int]))
                    + spec_concat_from(self.items@, value@, index + 1));
            }
        }
        proof {
            assert(result@ + spec_concat_from(self.items@, value@, n as int) =~= result@);
        }
        Ok(result)
    }

    /// Decode a field-sized bit vector: each channel's width sliced out
    /// at its offset and decoded by that channel.
    #[verifier::rlimit(60)]
    pub fn reverse(&self, bits: &[bool]) -> (r: Vec<ComplexTimelineValue>)
        requires
            self.wf(),
            spec_total_capacity(self.items@) <= bits@.len(),
        ensures
            r@.len() == self.items@.len(),
            forall|i: int|
                0 <= i < r@.len() ==> (#[trigger] self.items@[i]).reverse_ok(
                    bits@.subrange(
                        spec_offset(self.items@, i),
                        spec_offset(self.items@, i) + self.items@[i].spec_capacity(),
                    ),
                    r@[i],
                ),
    {
        let mut res: Vec<ComplexTimelineValue> = Vec::new();
        let mut offset: usize = 0;
        let total_len = bits.len();
        let n = self.items.len();
        for index in 0..n
            invariant
                n == self.items@.len(),
                self.wf(),
                spec_total_capacity(self.items@) <= bits@.len(),
                bits@.len() == total_len,
                offset == spec_offset(self.items@, index as int),
                res@.len() == index,
                forall|i: int|
                    0 <= i < res@.len() ==> (#[trigger] self.items@[i]).reverse_ok(
                        bits@.subrange(
                            spec_offset(self.items@, i),
                            spec_offset(self.items@, i) + self.items@[i].spec_capacity(),
                        ),
                        res@[i],
                    ),
            decreases n - index,
        {
            let capacity = self.items[index].get_capacity();
            proof {
                lemma_offset_monotone(self.items@, index + 1, n as int);
                assert(spec_offset(self.items@, index + 1) == offset + capacity);
            }
            let next_offset = offset + capacity as usize;

            let timeline_bits = copy_bit_range(bits, offset, next_offset);

            let res_item = self.items[index].reverse(timeline_bits.as_slice());

            res.push(res_item);

            offset = next_offset;
        }
        res
    }
}

/// A channel's word is as wide as its capacity says.
pub proof fn lemma_channel_bits_len(t: Timeline, v: ComplexTimelineValue)
    requires
        t.wf(),
        t.matches_value(v),
    ensures
        t.spec_bits(v).len() == t.spec_capacity(),
{
    match t {
        Timeline::Float(_) => {
        },
        Timeline::Integer(_) => {
        },
        Timeline::Enum(_) => {
        },
        Timeline::Datetime(_) => {
        },
    }
}

/// The concatenation from channel `i` on spans the widths of the
/// channels from `i` on.
pub proof fn lemma_concat_len(
    items: Seq<Timeline>,
    values: Seq<ComplexTimelineValue>,
    i: int,
)
    requires
        values.len() == items.len(),
        forall|k: int| 0 <= k < items.len() ==> (#[trigger] items[k]).wf(),
        forall|k: int|
            0 <= k < values.len() ==> (#[trigger] items[k]).matches_value(values[k]),
        0 <= i <= items.len(),
    ensures
        spec_concat_from(items, values, i).len() == spec_total_capacity(items) - spec_offset(
            items,
            i,
        ),
    decreases items.len() - i,
{
    if i < items.len() {
        lemma_concat_len(items, values, i + 1);
        lemma_channel_bits_len(items[i], values[i]);
        assert(spec_offset(items, i + 1) == spec_offset(items, i) + items[i].spec_capacity());
    }
}

/// Slicing a channel's width out of the concatenation at the channel's
/// offset gives back exactly that channel's word.
pub proof fn lemma_concat_slice(
    items: Seq<Timeline>,
    values: Seq<ComplexTimelineValue>,
    i: int,
    j: int,
)
    requires
        values.len() == items.len(),
        forall|k: int| 0 <= k < items.len() ==> (#[trigger] items[k]).wf(),
        forall|k: int|
            0 <= k < values.len() ==> (#[trigger] items[k]).matches_value(values[k]),
        0 <= i <= j < items.len(),
    ensures
        spec_concat_from(items, values, i).subrange(
            spec_offset(items, j) - spec_offset(items, i),
            spec_offset(items, j) - spec_offset(items, i) + items[j].spec_capacity(),
        ) == items[j].spec_bits(values[j]),
    decreases j - i,
{
    let bits_i = items[i].spec_bits(values[i]);
    let rest = spec_concat_from(items, values, i + 1);
    lemma_channel_bits_len(items[i], values[i]);
    lemma_concat_len(items, values, i + 1);
    lemma_offset_monotone(items, j + 1, items.len() as int);
    assert(spec_offset(items, i + 1) == spec_offset(items, i) + items[i].spec_capacity());
    if i == j {
        assert((bits_i + rest).subrange(0, bits_i.len() as int) =~= bits_i);
    } else {
        lemma_concat_slice(items, values, i + 1, j);
        lemma_offset_monotone(items, i + 1, j);
        let s = spec_offset(items, j) - spec_offset(items, i);
        let e = s + items[j].spec_capacity();
        lemma_channel_bits_len(items[j], values[j]);
        assert((bits_i + rest).subrange(s, e) =~= rest.subrange(
            s - bits_i.len(),
            e - bits_i.len(),
        ));
    }
}

/// `w` restores `v` on this channel: exactly for a categorical channel,
/// within half a quantization step for a linear numeric channel.
pub open spec fn close_under(t: Timeline, v: ComplexTimelineValue, w: ComplexTimelineValue) -> bool {
    match t {
        Timeline::Float(ft) => v matches ComplexTimelineValue::Float(x) && w matches
            ComplexTimelineValue::Float(y) && -(ft.range + ft.max_normalize_value) <= 2
            * ft.max_normalize_value * (y - x) <= ft.range + ft.max_normalize_value,
        Timeline::Integer(it) => v matches ComplexTimelineValue::Integer(x) && w matches
            ComplexTimelineValue::Integer(y) && -(it.range + it.max_normalize_value) <= 2
            * it.max_normalize_value * (y - x) <= it.range + it.max_normalize_value,
        Timeline::Enum(_) => v matches ComplexTimelineValue::Enum(a) && w matches
            ComplexTimelineValue::Enum(b) && a@ == b@,
        Timeline::Datetime(_) => true,
    }
}

/// The channel admits the exact round-trip statement: a linear numeric
/// channel with the value in range, or a categorical channel whose list
/// fits the width and lists the value.
pub open spec fn round_trip_ready(t: Timeline, v: ComplexTimelineValue) -> bool {
    match t {
        Timeline::Float(ft) => ft.params.get_multiplier is Identity
            && ft.params.get_reverse_multiplier is Identity && (v matches
        ComplexTimelineValue::Float(x) && ft.params.min_value <= x <= ft.params.max_value),
        Timeline::Integer(it) => it.params.get_multiplier is Identity
            && it.params.get_reverse_multiplier is Identity && (v matches
        ComplexTimelineValue::Integer(x) && it.params.min_value <= x <= it.params.max_value),
        Timeline::Enum(et) => et.params.options@.len() <= et.max_normalize_value + 1 && (v matches
        ComplexTimelineValue::Enum(s) && exists|i: int|
            0 <= i < et.params.options@.len() && (#[trigger] et.params.options@[i])@ == s@),
        Timeline::Datetime(_) => false,
    }
}

/// The round trip of the field codec: when every channel admits the
/// exact statement, any decoding of the encoded field restores every
/// value, exactly for categorical channels and within half a
/// quantization step for numeric ones.
pub proof fn lemma_complex_round_trip(
    ct: ComplexTimeline,
    values: Seq<ComplexTimelineValue>,
    restored: Seq<ComplexTimelineValue>,
)
    requires
        ct.wf(),
        values.len() == ct.items@.len(),
        restored.len() == ct.items@.len(),
        forall|i: int| 0 <= i < values.len() ==> round_trip_ready(#[trigger] ct.items@[i], values[i]),
        forall|i: int|
            0 <= i < restored.len() ==> (#[trigger] ct.items@[i]).reverse_ok(
                spec_concat_from(ct.items@, values, 0).subrange(
                    spec_offset(ct.items@, i),
                    spec_offset(ct.items@, i) + ct.items@[i].spec_capacity(),
                ),
                restored[i],
            ),
    ensures
        forall|i: int|
            0 <= i < values.len() ==> close_under(#[trigger] ct.items@[i], values[i], restored[i]),
{
    let items = ct.items@;
    assert forall|i: int|
        0 <= i < values.len() implies close_under(
        #[trigger] items[i],
        values[i],
        restored[i],
    ) by {
        assert(items[i].matches_value(values[i]));
        lemma_concat_slice(items, values, 0, i);
        let word = items[i].spec_bits(values[i]);
        assert(items[i].reverse_ok(word, restored[i]));
        match items[i] {
            Timeline::Float(ft) => {
                if let ComplexTimelineValue::Float(x) = values[i] {
                    crate::float_timeline::lemma_float_round_trip(ft, x as int);
                }
            },
            Timeline::Integer(it) => {
                if let ComplexTimelineValue::Integer(x) = values[i] {
                    crate::integer_timeline::lemma_integer_round_trip(it, x as int);
                }
            },
            Timeline::Enum(et) => {
                if let ComplexTimelineValue::Enum(s) = values[i] {
                    crate::enum_timeline::lemma_enum_round_trip(et, s@);
                }
            },
            Timeline::Datetime(_) => {
            },
        }
    }
}

} // verus!
