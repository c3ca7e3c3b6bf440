//! Layer geometry: the grid of fields, the grid of neurons, and the
//! mapping between neuron coordinates and flat indexes.

use vstd::prelude::*;
use vstd::arithmetic::div_mod::lemma_fundamental_div_mod_converse;

verus! {

/// Dimensions of one layer: fields of `field_width x field_height`
/// neurons, arranged in a `layer_width x layer_height` grid.
#[derive(Clone, Copy, Debug)]
pub struct LayerParams {
    /// Width in neurons of one field
    pub field_width: usize,
    /// Height in neurons of one field
    pub field_height: usize,
    /// Width in fields of one layer
    pub layer_width: usize,
    /// Height in fields of one layer
    pub layer_height: usize,
}

/// Derived sizes, computed once from [`LayerParams`].
#[derive(Clone, Copy, Debug)]
pub struct ComputedParams {
    /// Number of fields in both layers together
    pub field_count: usize,
    /// Number of neurons in one field
    pub field_size: usize,
    /// Number of neurons in one row of fields
    pub row_size: usize,
    /// Number of neurons in one row of neurons
    pub row_width: usize,
    /// Number of neurons in one column of neurons
    pub column_height: usize,
}

pub open spec fn spec_field_size(p: LayerParams) -> int {
    p.field_width * p.field_height
}

pub open spec fn spec_row_size(p: LayerParams) -> int {
    p.field_width * p.field_height * p.layer_width
}

pub open spec fn spec_layer_size(p: LayerParams) -> int {
    p.field_width * p.field_height * p.layer_width * p.layer_height
}

pub open spec fn spec_row_width(p: LayerParams) -> int {
    p.field_width * p.layer_width
}

pub open spec fn spec_column_height(p: LayerParams) -> int {
    p.field_height * p.layer_height
}

pub open spec fn spec_field_count(p: LayerParams) -> int {
    p.layer_width * p.layer_height * 2
}

/// A usable set of layer dimensions: nothing degenerate, and every
/// derived size fits in a `usize`.
pub open spec fn lp_wf(p: LayerParams) -> bool {
    &&& 1 <= p.field_width
    &&& 1 <= p.field_height
    &&& 1 <= p.layer_width
    &&& 1 <= p.layer_height
    &&& spec_layer_size(p) <= usize::MAX
    &&& spec_field_count(p) <= usize::MAX
}

/// `cp` holds exactly the sizes derived from `p`.
pub open spec fn cp_wf(cp: ComputedParams, p: LayerParams) -> bool {
    &&& cp.field_size == spec_field_size(p)
    &&& cp.row_size == spec_row_size(p)
    &&& cp.row_width == spec_row_width(p)
    &&& cp.column_height == spec_column_height(p)
    &&& cp.field_count == spec_field_count(p)
}

/// Every partial product of the layer dimensions is bounded by the full
/// layer size.
pub proof fn lemma_partial_products(p: LayerParams)
    requires
        lp_wf(p),
    ensures
        spec_field_size(p) <= spec_row_size(p) <= spec_layer_size(p),
        spec_row_width(p) <= spec_layer_size(p),
        spec_column_height(p) <= spec_layer_size(p),
        p.field_width <= spec_field_size(p),
        p.field_height <= spec_field_size(p),
{
    let fw = p.field_width as int;
    let fh = p.field_height as int;
    let lw = p.layer_width as int;
    let lh = p.layer_height as int;
    assert(fw * fh <= fw * fh * lw <= fw * fh * lw * lh && fw * lw <= fw * fh * lw * lh && fh * lh
        <= fw * fh * lw * lh && fw <= fw * fh && fh <= fw * fh) by (nonlinear_arith)
        requires
            1 <= fw && 1 <= fh && 1 <= lw && 1 <= lh,
    ;
}

/// Derived sizes of one layer.
pub fn get_computed_params(layer_params: &LayerParams) -> (r: ComputedParams)
    requires
        lp_wf(*layer_params),
    ensures
        cp_wf(r, *layer_params),
{
    proof {
        lemma_partial_products(*layer_params);
    }
    let field_size = layer_params.field_width * layer_params.field_height;
    let row_size = field_size * layer_params.layer_width;
    let row_width = layer_params.field_width * layer_params.layer_width;
    let column_height = layer_params.field_height * layer_params.layer_height;
    let field_count = layer_params.layer_width * layer_params.layer_height * 2;

    ComputedParams { field_size, field_count, row_size, row_width, column_height }
}

/// Number of neurons in one layer.
pub fn get_layer_size(layer_params: &LayerParams, computed_params: &ComputedParams) -> (r: usize)
    requires
        lp_wf(*layer_params),
        cp_wf(*computed_params, *layer_params),
    ensures
        r == spec_layer_size(*layer_params),
{
    proof {
        lemma_partial_products(*layer_params);
        let p = *layer_params;
        assert(spec_row_size(p) * p.layer_height == spec_layer_size(p)) by (nonlinear_arith);
    }
    computed_params.row_size * layer_params.layer_height
}

/// Flat index of the neuron at position (`fx`, `fy`) of field (`lx`, `ly`).
pub open spec fn spec_neuron_index(p: LayerParams, lx: int, ly: int, fx: int, fy: int) -> int {
    ly * spec_row_size(p) + lx * spec_field_size(p) + fy * p.field_width + fx
}

/// The flat index of an in-range neuron lies below the layer size.
pub proof fn lemma_neuron_index_bound(p: LayerParams, lx: int, ly: int, fx: int, fy: int)
    requires
        lp_wf(p),
        0 <= lx < p.layer_width,
        0 <= ly < p.layer_height,
        0 <= fx < p.field_width,
        0 <= fy < p.field_height,
    ensures
        0 <= lx * spec_field_size(p) + fy * p.field_width + fx < spec_row_size(p),
        0 <= spec_neuron_index(p, lx, ly, fx, fy) < spec_layer_size(p),
{
    let fw = p.field_width as int;
    let fh = p.field_height as int;
    let lw = p.layer_width as int;
    let lh = p.layer_height as int;
    assert(0 <= fy * fw + fx < fw * fh) by (nonlinear_arith)
        requires
            0 <= fx < fw && 0 <= fy < fh,
    ;
    assert(0 <= lx * (fw * fh) + fy * fw + fx < fw * fh * lw) by (nonlinear_arith)
        requires
            0 <= lx < lw && 0 <= fy * fw + fx < fw * fh,
    ;
    assert(0 <= ly * (fw * fh * lw) + (lx * (fw * fh) + fy * fw + fx) < fw * fh * lw * lh)
        by (nonlinear_arith)
        requires
            0 <= ly < lh && 0 <= lx * (fw * fh) + fy * fw + fx < fw * fh * lw,
    ;
}

/// Flat index of a neuron from its field and in-field coordinates.
pub fn get_neuron_index(
    layer_params: &LayerParams,
    computed_params: &ComputedParams,
    layer_x: usize,
    layer_y: usize,
    neuron_in_field_x: usize,
    neuron_in_field_y: usize,
) -> (r: usize)
    requires
        lp_wf(*layer_params),
        cp_wf(*computed_params, *layer_params),
        layer_x < layer_params.layer_width,
        layer_y < layer_params.layer_height,
        neuron_in_field_x < layer_params.field_width,
        neuron_in_field_y < layer_params.field_height,
    ensures
        r == spec_neuron_index(
            *layer_params,
            layer_x as int,
            layer_y as int,
            neuron_in_field_x as int,
            neuron_in_field_y as int,
        ),
        r < spec_layer_size(*layer_params),
{
    proof {
        lemma_neuron_index_bound(
            *layer_params,
            layer_x as int,
            layer_y as int,
            neuron_in_field_x as int,
            neuron_in_field_y as int,
        );
        let p = *layer_params;
        assert(layer_y * spec_row_size(p) <= (p.layer_height - 1) * spec_row_size(p)
            && spec_layer_size(p) == p.layer_height * spec_row_size(p)) by (nonlinear_arith)
            requires
                0 <= layer_y < p.layer_height,
                spec_row_size(p) == p.field_width * p.field_height * p.layer_width,
                spec_layer_size(p) == p.field_width * p.field_height * p.layer_width
                    * p.layer_height,
                0 <= spec_row_size(p),
        ;
    }
    let layer_offset = computed_params.row_size * layer_y + computed_params.field_size * layer_x;
    let field_offset = layer_params.field_width * neuron_in_field_y + neuron_in_field_x;

    layer_offset + field_offset
}

/// Position of a neuron in the whole neuron grid of one layer.
pub fn get_neuron_coordinates(
    params: &LayerParams,
    layer_x: usize,
    layer_y: usize,
    neuron_in_field_x: usize,
    neuron_in_field_y: usize,
) -> (r: (usize, usize))
    requires
        lp_wf(*params),
        layer_x < params.layer_width,
        layer_y < params.layer_height,
        neuron_in_field_x < params.field_width,
        neuron_in_field_y < params.field_height,
    ensures
        r.0 == params.field_width * layer_x + neuron_in_field_x,
        r.1 == params.field_height * layer_y + neuron_in_field_y,
        r.0 < spec_row_width(*params),
        r.1 < spec_column_height(*params),
{
    proof {
        let p = *params;
        let fw = p.field_width as int;
        let fh = p.field_height as int;
        let lw = p.layer_width as int;
        let lh = p.layer_height as int;
        lemma_partial_products(p);
        assert(fw * layer_x + neuron_in_field_x < fw * lw && fh * layer_y + neuron_in_field_y < fh
            * lh) by (nonlinear_arith)
            requires
                0 <= layer_x < lw && 0 <= layer_y < lh && 0 <= neuron_in_field_x < fw && 0
                    <= neuron_in_field_y < fh,
        ;
    }
    let layer_x_offset = params.field_width * layer_x;
    let layer_y_offset = params.field_height * layer_y;

    (layer_x_offset + neuron_in_field_x, layer_y_offset + neuron_in_field_y)
}

/// Field coordinates and in-field coordinates of the neuron at grid
/// position (`neuron_x`, `neuron_y`).
pub fn get_neuron_full_coordinates(params: &LayerParams, neuron_x: usize, neuron_y: usize) -> (r: (
    usize,
    usize,
    usize,
    usize,
))
    requires
        lp_wf(*params),
        neuron_x < spec_row_width(*params),
        neuron_y < spec_column_height(*params),
    ensures
        r.0 == neuron_x as int / params.field_width as int,
        r.1 == neuron_y as int / params.field_height as int,
        r.2 == neuron_x as int % params.field_width as int,
        r.3 == neuron_y as int % params.field_height as int,
        r.0 < params.layer_width,
        r.1 < params.layer_height,
        r.2 < params.field_width,
        r.3 < params.field_height,
        neuron_x == params.field_width * r.0 + r.2,
        neuron_y == params.field_height * r.1 + r.3,
{
    let neuron_in_field_x = neuron_x % params.field_width;
    let neuron_in_field_y = neuron_y % params.field_height;

    proof {
        vstd::arithmetic::div_mod::lemma_fundamental_div_mod(
            neuron_x as int,
            params.field_width as int,
        );
        vstd::arithmetic::div_mod::lemma_fundamental_div_mod(
            neuron_y as int,
            params.field_height as int,
        );
        vstd::arithmetic::div_mod::lemma_div_pos_is_pos(
            neuron_x as int,
            params.field_width as int,
        );
        vstd::arithmetic::div_mod::lemma_div_pos_is_pos(
            neuron_y as int,
            params.field_height as int,
        );
        assert(neuron_in_field_x <= neuron_x && neuron_in_field_y <= neuron_y) by (nonlinear_arith)
            requires
                neuron_x == params.field_width as int * (neuron_x as int
                    / params.field_width as int) + neuron_in_field_x,
                neuron_y == params.field_height as int * (neuron_y as int
                    / params.field_height as int) + neuron_in_field_y,
                0 <= neuron_x as int / params.field_width as int,
                0 <= neuron_y as int / params.field_height as int,
                0 <= neuron_in_field_x,
                0 <= neuron_in_field_y,
                0 <= params.field_width,
                0 <= params.field_height,
        ;
    }
    let layer_x = (neuron_x - neuron_in_field_x) / params.field_width;
    let layer_y = (neuron_y - neuron_in_field_y) / params.field_height;

    proof {
        let p = *params;
        let fw = p.field_width as int;
        let fh = p.field_height as int;
        vstd::arithmetic::div_mod::lemma_fundamental_div_mod(neuron_x as int, fw);
        vstd::arithmetic::div_mod::lemma_fundamental_div_mod(neuron_y as int, fh);
        assert((neuron_x - neuron_in_field_x) / fw == neuron_x as int / fw) by {
            vstd::arithmetic::div_mod::lemma_div_multiples_vanish(
                neuron_x as int / fw,
                fw,
            );
        }
        assert((neuron_y - neuron_in_field_y) / fh == neuron_y as int / fh) by {
            vstd::arithmetic::div_mod::lemma_div_multiples_vanish(
                neuron_y as int / fh,
                fh,
            );
        }
        assert(neuron_x as int / fw < p.layer_width) by (nonlinear_arith)
            requires
                0 <= neuron_x < fw * p.layer_width,
                1 <= fw,
                neuron_x == fw * (neuron_x as int / fw) + neuron_x as int % fw,
                0 <= neuron_x as int % fw < fw,
        ;
        assert(neuron_y as int / fh < p.layer_height) by (nonlinear_arith)
            requires
                0 <= neuron_y < fh * p.layer_height,
                1 <= fh,
                neuron_y == fh * (neuron_y as int / fh) + neuron_y as int % fh,
                0 <= neuron_y as int % fh < fh,
        ;
    }
    (layer_x, layer_y, neuron_in_field_x, neuron_in_field_y)
}

/// Flat index of the neuron at grid position (`neuron_x`, `neuron_y`).
pub fn get_neuron_index_by_coordinates(
    layer_params: &LayerParams,
    computed_params: &ComputedParams,
    neuron_x: usize,
    neuron_y: usize,
) -> (r: usize)
    requires
        lp_wf(*layer_params),
        cp_wf(*computed_params, *layer_params),
        neuron_x < spec_row_width(*layer_params),
        neuron_y < spec_column_height(*layer_params),
    ensures
        r == spec_neuron_index(
            *layer_params,
            neuron_x as int / layer_params.field_width as int,
            neuron_y as int / layer_params.field_height as int,
            neuron_x as int % layer_params.field_width as int,
            neuron_y as int % layer_params.field_height as int,
        ),
        r < spec_layer_size(*layer_params),
{
    let (layer_x, layer_y, neuron_in_field_x, neuron_in_field_y) = get_neuron_full_coordinates(
        layer_params,
        neuron_x,
        neuron_y,
    );

    get_neuron_index(
        layer_params,
        computed_params,
        layer_x,
        layer_y,
        neuron_in_field_x,
        neuron_in_field_y,
    )
}

/// The flat index determines the field and in-field coordinates: the
/// mixed-radix digits of the index can be recovered by division and
/// remainder.
pub proof fn lemma_neuron_index_inverse(p: LayerParams, lx: int, ly: int, fx: int, fy: int)
    requires
        lp_wf(p),
        0 <= lx < p.layer_width,
        0 <= ly < p.layer_height,
        0 <= fx < p.field_width,
        0 <= fy < p.field_height,
    ensures
        spec_neuron_index(p, lx, ly, fx, fy) / spec_row_size(p) == ly,
        spec_neuron_index(p, lx, ly, fx, fy) % spec_row_size(p) == lx * spec_field_size(p) + fy
            * p.field_width + fx,
        (lx * spec_field_size(p) + fy * p.field_width + fx) / spec_field_size(p) == lx,
        (lx * spec_field_size(p) + fy * p.field_width + fx) % spec_field_size(p) == fy
            * p.field_width + fx,
        (fy * p.field_width + fx) / p.field_width as int == fy,
        (fy * p.field_width + fx) % p.field_width as int == fx,
{
    let idx = spec_neuron_index(p, lx, ly, fx, fy);
    let rs = spec_row_size(p);
    let fs = spec_field_size(p);
    let fw = p.field_width as int;
    lemma_neuron_index_bound(p, lx, ly, fx, fy);
    lemma_partial_products(p);
    lemma_fundamental_div_mod_converse(idx, rs, ly, lx * fs + fy * fw + fx);
    assert(0 <= fy * fw + fx < fs) by (nonlinear_arith)
        requires
            0 <= fx < fw && 0 <= fy < p.field_height && fs == fw * p.field_height,
    ;
    lemma_fundamental_div_mod_converse(lx * fs + fy * fw + fx, fs, lx, fy * fw + fx);
    lemma_fundamental_div_mod_converse(fy * fw + fx, fw, fy, fx);
}

/// Two different in-range coordinate tuples give two different flat
/// indexes.
pub proof fn lemma_neuron_index_injective(
    p: LayerParams,
    lx1: int,
    ly1: int,
    fx1: int,
    fy1: int,
    lx2: int,
    ly2: int,
    fx2: int,
    fy2: int,
)
    requires
        lp_wf(p),
        0 <= lx1 < p.layer_width,
        0 <= ly1 < p.layer_height,
        0 <= fx1 < p.field_width,
        0 <= fy1 < p.field_height,
        0 <= lx2 < p.layer_width,
        0 <= ly2 < p.layer_height,
        0 <= fx2 < p.field_width,
        0 <= fy2 < p.field_height,
        spec_neuron_index(p, lx1, ly1, fx1, fy1) == spec_neuron_index(p, lx2, ly2, fx2, fy2),
    ensures
        lx1 == lx2 && ly1 == ly2 && fx1 == fx2 && fy1 == fy2,
{
    lemma_neuron_index_inverse(p, lx1, ly1, fx1, fy1);
    lemma_neuron_index_inverse(p, lx2, ly2, fx2, fy2);
}

} // verus!
