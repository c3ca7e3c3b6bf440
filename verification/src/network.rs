//! Discrete state of the two-layer simulator: which neurons fired on the
//! last pass, the refractory countdowns, and the input-collision and
//! scheduling rules that drive a tick. The real-valued propagation and
//! weight update feed this state with the thresholded firing vectors.

use vstd::prelude::*;
use crate::connections::{get_last_field_indexes};
use crate::geometry::{
    ComputedParams, LayerParams, cp_wf, get_computed_params, get_layer_size, lp_wf,
    spec_column_height, spec_field_size, spec_layer_size, spec_neuron_index, spec_row_width,
};
use crate::spiral::spec_last_field;

verus! {

/// The refractory countdown after one pass: a neuron that fired is
/// reloaded to the full interval, any other counts down toward zero.
pub open spec fn spec_next_refract(fired: bool, current: u8, initial: u8) -> u8 {
    if fired {
        initial
    } else if current > 0 {
        (current - 1) as u8
    } else {
        0u8
    }
}

/// The output tap: entry `x * field_height + y` is the flat index of the
/// tail-field neuron at in-field position (`x`, `y`).
pub open spec fn tap_indexes_ok(p: LayerParams, s: Seq<usize>) -> bool {
    &&& s.len() == spec_field_size(p)
    &&& forall|x: int, y: int|
        0 <= x < p.field_width && 0 <= y < p.field_height ==> #[trigger] s[x * p.field_height + y]
            == spec_neuron_index(
            p,
            spec_last_field(p.layer_width as int, p.layer_height as int).0,
            spec_last_field(p.layer_width as int, p.layer_height as int).1,
            x,
            y,
        )
    &&& forall|k: int| 0 <= k < s.len() ==> #[trigger] s[k] < spec_layer_size(p)
}

/// Per-layer refractory countdowns and thresholded firing flags of the
/// simulator, together with the layer geometry and the integer timing
/// parameters of a tick.
pub struct NetworkState {
    /// Layer dimensions
    pub params: LayerParams,
    /// Sizes derived from the dimensions
    pub computed: ComputedParams,
    /// Flat indexes of the tail-field neurons of the second layer
    pub last_field_indexes: Vec<usize>,
    /// Whether each first-layer neuron fired on the last pass
    pub fired_1: Vec<bool>,
    /// Whether each second-layer neuron fired on the last pass
    pub fired_2: Vec<bool>,
    /// Refractory countdowns of the first layer
    pub refract_1: Vec<u8>,
    /// Refractory countdowns of the second layer
    pub refract_2: Vec<u8>,
    /// Countdown value loaded when a neuron fires
    pub refract_interval: u8,
    /// Number of quiescent shifts after each loaded input
    pub signal_shift_interval: u8,
}

impl NetworkState {
    /// All vectors span one layer, every countdown is within the
    /// refractory interval, and the output tap matches the geometry.
    pub open spec fn wf(&self) -> bool {
        &&& lp_wf(self.params)
        &&& cp_wf(self.computed, self.params)
        &&& self.fired_1@.len() == spec_layer_size(self.params)
        &&& self.fired_2@.len() == spec_layer_size(self.params)
        &&& self.refract_1@.len() == spec_layer_size(self.params)
        &&& self.refract_2@.len() == spec_layer_size(self.params)
        &&& forall|i: int|
            0 <= i < self.refract_1@.len() ==> #[trigger] self.refract_1@[i]
                <= self.refract_interval
        &&& forall|i: int|
            0 <= i < self.refract_2@.len() ==> #[trigger] self.refract_2@[i]
                <= self.refract_interval
        &&& tap_indexes_ok(self.params, self.last_field_indexes@)
    }

    /// A fresh network state: no neuron has fired, no neuron is
    /// refractory.
    pub fn new(layer_params: LayerParams, refract_interval: u8, signal_shift_interval: u8) -> (r:
        Self)
        requires
            lp_wf(layer_params),
        ensures
            r.wf(),
            r.params == layer_params,
            r.refract_interval == refract_interval,
            r.signal_shift_interval == signal_shift_interval,
            forall|i: int| 0 <= i < r.fired_1@.len() ==> !(#[trigger] r.fired_1@[i]),
            forall|i: int| 0 <= i < r.fired_2@.len() ==> !(#[trigger] r.fired_2@[i]),
            forall|i: int| 0 <= i < r.refract_1@.len() ==> #[trigger] r.refract_1@[i] == 0,
            forall|i: int| 0 <= i < r.refract_2@.len() ==> #[trigger] r.refract_2@[i] == 0,
    {
        let computed = get_computed_params(&layer_params);
        let layer_size = get_layer_size(&layer_params, &computed);
        let last_field_indexes = get_last_field_indexes(&layer_params, &computed);
        NetworkState {
            params: layer_params,
            computed,
            last_field_indexes,
            fired_1: vec![false; layer_size],
            fired_2: vec![false; layer_size],
            refract_1: vec![0u8; layer_size],
            refract_2: vec![0u8; layer_size],
            refract_interval,
            signal_shift_interval,
        }
    }

    /// Split an input against the first layer's refractory state: bits
    /// whose neuron can take a pulse go into the apply vector, bits whose
    /// neuron is still refractory are deferred into a residual vector,
    /// returned only when at least one collision happened.
    pub fn split_signal(&self, bit_vec: &[bool]) -> (r: (Vec<bool>, Option<Vec<bool>>))
        requires
            self.wf(),
            bit_vec@.len() <= spec_field_size(self.params),
        ensures
            r.0@.len() == spec_field_size(self.params),
            forall|i: int|
                0 <= i < r.0@.len() ==> #[trigger] r.0@[i] == (i < bit_vec@.len() && bit_vec@[i]
                    && self.refract_1@[i] == 0),
            r.1 is Some <==> exists|i: int|
                0 <= i < bit_vec@.len() && #[trigger] bit_vec@[i] && self.refract_1@[i] > 0,
            r.1 matches Some(rest) ==> rest@.len() == spec_field_size(self.params) && forall|i: int|
                0 <= i < rest@.len() ==> #[trigger] rest@[i] == (i < bit_vec@.len() && bit_vec@[i]
                    && self.refract_1@[i] > 0),
    {
        proof {
            crate::geometry::lemma_partial_products(self.params);
        }
        let field_size = self.computed.field_size;
        let mut has_intersection = false;
        let mut apply_vec: Vec<bool> = vec![false; field_size];
        let mut rest_vec: Vec<bool> = vec![false; field_size];

        let n = bit_vec.len();
        for pos in 0..n
            invariant
                n == bit_vec@.len(),
                self.wf(),
                n <= field_size == spec_field_size(self.params),
                field_size <= self.refract_1@.len(),
                apply_vec@.len() == field_size,
                rest_vec@.len() == field_size,
                forall|i: int|
                    0 <= i < pos ==> #[trigger] apply_vec@[i] == (bit_vec@[i]
                        && self.refract_1@[i] == 0),
                forall|i: int|
                    pos <= i < field_size ==> !(#[trigger] apply_vec@[i]),
                forall|i: int|
                    0 <= i < pos ==> #[trigger] rest_vec@[i] == (bit_vec@[i]
                        && self.refract_1@[i] > 0),
                forall|i: int|
                    pos <= i < field_size ==> !(#[trigger] rest_vec@[i]),
                has_intersection <==> exists|i: int|
                    0 <= i < pos && #[trigger] bit_vec@[i] && self.refract_1@[i] > 0,
            decreases n - pos,
        {
            if bit_vec[pos] {
                if self.refract_1[pos] > 0 {
                    has_intersection = true;
                    rest_vec.set(pos, true);
                } else {
                    apply_vec.set(pos, true);
                }
            }
        }

        (
            apply_vec,
            if has_intersection {
                Some(rest_vec)
            } else {
                None
            },
        )
    }

    /// Load an input prefix into the first layer's firing flags: the
    /// given bits fill the head of the first field, the rest of that
    /// field is cleared, and everything beyond it keeps its state.
    pub fn load_input(&mut self, bit_vec: &[bool])
        requires
            old(self).wf(),
            bit_vec@.len() <= spec_field_size(old(self).params),
        ensures
            final(self).wf(),
            final(self).params == old(self).params,
            final(self).computed == old(self).computed,
            final(self).last_field_indexes == old(self).last_field_indexes,
            final(self).refract_interval == old(self).refract_interval,
            final(self).signal_shift_interval == old(self).signal_shift_interval,
            final(self).fired_2 == old(self).fired_2,
            final(self).refract_1 == old(self).refract_1,
            final(self).refract_2 == old(self).refract_2,
            final(self).fired_1@.len() == old(self).fired_1@.len(),
            forall|i: int|
                0 <= i < bit_vec@.len() ==> #[trigger] final(self).fired_1@[i] == bit_vec@[i],
            forall|i: int|
                bit_vec@.len() <= i < spec_field_size(old(self).params)
                    ==> #[trigger] final(self).fired_1@[i] == false,
            forall|i: int|
                spec_field_size(old(self).params) <= i < final(self).fired_1@.len()
                    ==> #[trigger] final(self).fired_1@[i] == old(self).fired_1@[i],
    {
        proof {
            crate::geometry::lemma_partial_products(self.params);
        }
        let n = bit_vec.len();
        let ghost fired0 = self.fired_1@;
        for pos in 0..n
            invariant
                n == bit_vec@.len(),
                n <= spec_field_size(self.params),
                self.wf(),
                *self == (NetworkState { fired_1: self.fired_1, ..*old(self) }),
                self.fired_1@.len() == fired0.len(),
                spec_field_size(self.params) <= fired0.len(),
                forall|i: int| 0 <= i < pos ==> #[trigger] self.fired_1@[i] == bit_vec@[i],
                forall|i: int|
                    pos <= i < fired0.len() ==> #[trigger] self.fired_1@[i] == fired0[i],
            decreases n - pos,
        {
            let value = bit_vec[pos];
            self.fired_1.set(pos, value);
        }
        let field_size = self.computed.field_size;
        for pos in n..field_size
            invariant
                n == bit_vec@.len(),
                n <= field_size == spec_field_size(self.params),
                self.wf(),
                *self == (NetworkState { fired_1: self.fired_1, ..*old(self) }),
                self.fired_1@.len() == fired0.len(),
                spec_field_size(self.params) <= fired0.len(),
                forall|i: int| 0 <= i < n ==> #[trigger] self.fired_1@[i] == bit_vec@[i],
                forall|i: int| n <= i < pos ==> !(#[trigger] self.fired_1@[i]),
                forall|i: int|
                    pos <= i < fired0.len() ==> #[trigger] self.fired_1@[i] == fired0[i],
            decreases field_size - pos,
        {
            self.fired_1.set(pos, false);
        }
    }

    /// Commit the outcome of the forward pass: the second layer's firing
    /// flags take the propagated vector, and the first layer's
    /// countdowns advance by the refractory rule over the input that was
    /// just applied.
    pub fn commit_forward(&mut self, fired_2_next: Vec<bool>)
        requires
            old(self).wf(),
            fired_2_next@.len() == spec_layer_size(old(self).params),
        ensures
            final(self).wf(),
            final(self).params == old(self).params,
            final(self).computed == old(self).computed,
            final(self).last_field_indexes == old(self).last_field_indexes,
            final(self).refract_interval == old(self).refract_interval,
            final(self).signal_shift_interval == old(self).signal_shift_interval,
            final(self).fired_1 == old(self).fired_1,
            final(self).refract_2 == old(self).refract_2,
            final(self).fired_2 == fired_2_next,
            final(self).refract_1@.len() == old(self).refract_1@.len(),
            forall|i: int|
                0 <= i < final(self).refract_1@.len() ==> #[trigger] final(self).refract_1@[i]
                    == spec_next_refract(
                    old(self).fired_1@[i],
                    old(self).refract_1@[i],
                    old(self).refract_interval,
                ),
    {
        let next_refract_1 = recount_refract_intervals(
            &self.fired_1,
            &self.refract_1,
            self.refract_interval,
        );
        self.fired_2 = fired_2_next;
        self.refract_1 = next_refract_1;
    }

    /// Commit the outcome of the reverse pass: the first layer's firing
    /// flags take the propagated vector, and the second layer's
    /// countdowns advance by the refractory rule.
    pub fn commit_reverse(&mut self, fired_1_next: Vec<bool>)
        requires
            old(self).wf(),
            fired_1_next@.len() == spec_layer_size(old(self).params),
        ensures
            final(self).wf(),
            final(self).params == old(self).params,
            final(self).computed == old(self).computed,
            final(self).last_field_indexes == old(self).last_field_indexes,
            final(self).refract_interval == old(self).refract_interval,
            final(self).signal_shift_interval == old(self).signal_shift_interval,
            final(self).fired_2 == old(self).fired_2,
            final(self).refract_1 == old(self).refract_1,
            final(self).fired_1 == fired_1_next,
            final(self).refract_2@.len() == old(self).refract_2@.len(),
            forall|i: int|
                0 <= i < final(self).refract_2@.len() ==> #[trigger] final(self).refract_2@[i]
                    == spec_next_refract(
                    old(self).fired_2@[i],
                    old(self).refract_2@[i],
                    old(self).refract_interval,
                ),
    {
        let next_refract_2 = recount_refract_intervals(
            &self.fired_2,
            &self.refract_2,
            self.refract_interval,
        );
        self.fired_1 = fired_1_next;
        self.refract_2 = next_refract_2;
    }

    /// Thresholded state of the output tap: bit `k` reports whether the
    /// tail-field neuron at tap position `k` fired.
    pub fn get_last_field_state(&self) -> (r: Vec<bool>)
        requires
            self.wf(),
        ensures
            r@.len() == spec_field_size(self.params),
            forall|k: int|
                0 <= k < r@.len() ==> #[trigger] r@[k] == self.fired_2@[self.last_field_indexes@[k] as int],
    {
        let mut r: Vec<bool> = Vec::new();
        let n = self.last_field_indexes.len();
        for k in 0..n
            invariant
                self.wf(),
                n == self.last_field_indexes@.len(),
                r@.len() == k,
                forall|j: int|
                    0 <= j < k ==> #[trigger] r@[j] == self.fired_2@[self.last_field_indexes@[j] as int],
            decreases n - k,
        {
            let field_index = self.last_field_indexes[k];
            r.push(self.fired_2[field_index]);
        }
        r
    }

    /// Width and height of one layer's neuron grid.
    pub fn get_layer_dimensions(&self) -> (r: (usize, usize))
        requires
            self.wf(),
        ensures
            r.0 == spec_row_width(self.params),
            r.1 == spec_column_height(self.params),
    {
        (self.computed.row_width, self.computed.column_height)
    }

    /// Refractory countdown of one neuron; the first layer when
    /// `layer_index` is 1, the second otherwise.
    pub fn get_neuron_refract_timeout(
        &self,
        layer_index: u8,
        layer_x: usize,
        layer_y: usize,
        neuron_in_field_x: usize,
        neuron_in_field_y: usize,
    ) -> (r: u8)
        requires
            self.wf(),
            layer_x < self.params.layer_width,
            layer_y < self.params.layer_height,
            neuron_in_field_x < self.params.field_width,
            neuron_in_field_y < self.params.field_height,
        ensures
            r == (if layer_index == 1 {
                self.refract_1@
            } else {
                self.refract_2@
            })[spec_neuron_index(
                self.params,
                layer_x as int,
                layer_y as int,
                neuron_in_field_x as int,
                neuron_in_field_y as int,
            )],
            r <= self.refract_interval,
    {
        let neuron_index = crate::geometry::get_neuron_index(
            &self.params,
            &self.computed,
            layer_x,
            layer_y,
            neuron_in_field_x,
            neuron_in_field_y,
        );
        if layer_index == 1 {
            self.refract_1[neuron_index]
        } else {
            self.refract_2[neuron_index]
        }
    }

    /// Whether one neuron fired on the last pass; the first layer when
    /// `layer_index` is 1, the second otherwise.
    pub fn get_neuron_fired(
        &self,
        layer_index: u8,
        layer_x: usize,
        layer_y: usize,
        neuron_in_field_x: usize,
        neuron_in_field_y: usize,
    ) -> (r: bool)
        requires
            self.wf(),
            layer_x < self.params.layer_width,
            layer_y < self.params.layer_height,
            neuron_in_field_x < self.params.field_width,
            neuron_in_field_y < self.params.field_height,
        ensures
            r == (if layer_index == 1 {
                self.fired_1@
            } else {
                self.fired_2@
            })[spec_neuron_index(
                self.params,
                layer_x as int,
                layer_y as int,
                neuron_in_field_x as int,
                neuron_in_field_y as int,
            )],
    {
        let neuron_index = crate::geometry::get_neuron_index(
            &self.params,
            &self.computed,
            layer_x,
            layer_y,
            neuron_in_field_x,
            neuron_in_field_y,
        );
        if layer_index == 1 {
            self.fired_1[neuron_index]
        } else {
            self.fired_2[neuron_index]
        }
    }

    /// Layer dimensions of this state.
    pub fn get_layer_params(&self) -> (r: &LayerParams)
        ensures
            r == self.params,
    {
        &self.params
    }
}

/// Refractory countdowns after one pass: a neuron that fired is reloaded
/// to the initial interval, any other counts down, saturating at zero.
pub fn recount_refract_intervals(
    neurons_fired: &Vec<bool>,
    refract_intervals: &Vec<u8>,
    initial_refract_interval: u8,
) -> (r: Vec<u8>)
    requires
        neurons_fired@.len() == refract_intervals@.len(),
    ensures
        r@.len() == refract_intervals@.len(),
        forall|i: int|
            0 <= i < r@.len() ==> #[trigger] r@[i] == spec_next_refract(
                neurons_fired@[i],
                refract_intervals@[i],
                initial_refract_interval,
            ),
{
    let n = neurons_fired.len();
    let mut r: Vec<u8> = Vec::new();
    for i in 0..n
        invariant
            n == neurons_fired@.len(),
            n == refract_intervals@.len(),
            r@.len() == i,
            forall|j: int|
                0 <= j < i ==> #[trigger] r@[j] == spec_next_refract(
                    neurons_fired@[j],
                    refract_intervals@[j],
                    initial_refract_interval,
                ),
        decreases n - i,
    {
        if neurons_fired[i] {
            r.push(initial_refract_interval);
        } else if refract_intervals[i] > 0 {
            r.push(refract_intervals[i] - 1);
        } else {
            r.push(0);
        }
    }
    r
}

/// Number of field-sized chunks an input of `data_len` bits fills, the
/// last chunk possibly partial.
pub open spec fn spec_tick_count(data_len: int, field_size: int) -> int {
    if data_len % field_size == 0 {
        data_len / field_size
    } else {
        data_len / field_size + 1
    }
}

/// Number of ticks needed to push `data_len` bits of input.
pub fn tick_count_for(data_len: usize, field_size: usize) -> (r: usize)
    requires
        field_size >= 1,
    ensures
        r == spec_tick_count(data_len as int, field_size as int),
{
    if data_len % field_size == 0 {
        data_len / field_size
    } else {
        proof {
            let dl = data_len as int;
            let fs = field_size as int;
            assert(dl % 1int == 0) by (nonlinear_arith);
            assert(dl / fs + 1 <= usize::MAX) by (nonlinear_arith)
                requires
                    2 <= fs,
                    0 <= dl <= usize::MAX,
            ;
        }
        data_len / field_size + 1
    }
}

/// Bounds of chunk `i` of an input of `data_len` bits: `field_size` bits
/// from `i * field_size`, clipped at the end of the input.
pub fn chunk_bounds(i: usize, field_size: usize, data_len: usize) -> (r: (usize, usize))
    requires
        field_size >= 1,
        i < spec_tick_count(data_len as int, field_size as int),
    ensures
        r.0 == i * field_size,
        r.1 == if i * field_size + field_size <= data_len {
            i * field_size + field_size
        } else {
            data_len as int
        },
        r.0 < data_len || (data_len == 0 && r.0 == 0),
        r.0 <= r.1 <= data_len,
        r.1 - r.0 <= field_size,
{
    proof {
        let fs = field_size as int;
        let dl = data_len as int;
        vstd::arithmetic::div_mod::lemma_fundamental_div_mod(dl, fs);
        assert(i * fs < dl || dl == 0) by (nonlinear_arith)
            requires
                fs >= 1,
                0 <= i < spec_tick_count(dl, fs),
                0 <= dl,
                dl == fs * (dl / fs) + dl % fs,
                0 <= dl % fs < fs,
                spec_tick_count(dl, fs) == if dl % fs == 0 {
                    dl / fs
                } else {
                    dl / fs + 1
                },
        ;
    }
    let start = i * field_size;
    let end = if data_len - start >= field_size {
        start + field_size
    } else {
        data_len
    };
    (start, end)
}

/// The prediction schedule for an input of `data_len` bits: how many
/// ticks consume the input, and how many quiescent ticks follow before
/// the output tap is read — one fewer than the number of fields of both
/// layers, so that activity can traverse the pairing end to end.
pub fn predict_plan(data_len: usize, field_size: usize, field_count: usize) -> (r: (usize, usize))
    requires
        field_size >= 1,
        field_count >= 1,
    ensures
        r.0 == spec_tick_count(data_len as int, field_size as int),
        r.1 == field_count - 1,
{
    let tick_count = tick_count_for(data_len, field_size);
    (tick_count, field_count - 1)
}

} // verus!
