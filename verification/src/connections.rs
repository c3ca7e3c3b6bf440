//! Geometry of the initial synapse connections: which matrix entries
//! receive the strong initial conductance, which entries of a distance
//! matrix a mask stamp touches, and which neurons form the output tap.

use vstd::prelude::*;
use crate::geometry::{
    ComputedParams, LayerParams, cp_wf, get_neuron_index, get_neuron_index_by_coordinates, lp_wf,
    lemma_neuron_index_bound, lemma_neuron_index_injective, spec_field_size, spec_layer_size,
    spec_neuron_index, spec_row_size, spec_row_width, spec_column_height,
};
use crate::spiral::{
    get_last_field, get_next_field, spec_last_field, spec_next_field, lemma_next_field_injective,
};

verus! {

/// A strictly smaller coordinate tuple, in the order the index formula
/// weighs them: layer row, layer column, field row, field column.
pub open spec fn coords_lex_lt(
    lx1: int,
    ly1: int,
    fx1: int,
    fy1: int,
    lx2: int,
    ly2: int,
    fx2: int,
    fy2: int,
) -> bool {
    ||| ly1 < ly2
    ||| (ly1 == ly2 && lx1 < lx2)
    ||| (ly1 == ly2 && lx1 == lx2 && fy1 < fy2)
    ||| (ly1 == ly2 && lx1 == lx2 && fy1 == fy2 && fx1 < fx2)
}

/// The flat neuron index grows strictly along the coordinate order.
pub proof fn lemma_neuron_index_lex_mono(
    p: LayerParams,
    lx1: int,
    ly1: int,
    fx1: int,
    fy1: int,
    lx2: int,
    ly2: int,
    fx2: int,
    fy2: int,
)
    requires
        lp_wf(p),
        0 <= lx1 < p.layer_width,
        0 <= ly1 < p.layer_height,
        0 <= fx1 < p.field_width,
        0 <= fy1 < p.field_height,
        0 <= lx2 < p.layer_width,
        0 <= ly2 < p.layer_height,
        0 <= fx2 < p.field_width,
        0 <= fy2 < p.field_height,
        coords_lex_lt(lx1, ly1, fx1, fy1, lx2, ly2, fx2, fy2),
    ensures
        spec_neuron_index(p, lx1, ly1, fx1, fy1) < spec_neuron_index(p, lx2, ly2, fx2, fy2),
{
    let rs = spec_row_size(p);
    let fs = spec_field_size(p);
    let fw = p.field_width as int;
    lemma_neuron_index_bound(p, lx1, ly1, fx1, fy1);
    lemma_neuron_index_bound(p, lx2, ly2, fx2, fy2);
    let o1 = lx1 * fs + fy1 * fw + fx1;
    let o2 = lx2 * fs + fy2 * fw + fx2;
    if ly1 < ly2 {
        assert(ly1 * rs + o1 < ly2 * rs + o2) by (nonlinear_arith)
            requires
                ly1 < ly2,
                0 <= o1 < rs,
                0 <= o2,
        ;
    } else if lx1 < lx2 {
        assert(0 <= fy1 * fw + fx1 < fs && 0 <= fy2 * fw + fx2) by (nonlinear_arith)
            requires
                0 <= fx1 < fw,
                0 <= fy1 < p.field_height,
                0 <= fx2 < fw,
                0 <= fy2,
                fs == fw * p.field_height,
        ;
        assert(lx1 * fs + (fy1 * fw + fx1) < lx2 * fs + (fy2 * fw + fx2)) by (nonlinear_arith)
            requires
                lx1 < lx2,
                0 <= fy1 * fw + fx1 < fs,
                0 <= fy2 * fw + fx2,
        ;
    } else if fy1 < fy2 {
        assert(fy1 * fw + fx1 < fy2 * fw + fx2) by (nonlinear_arith)
            requires
                fy1 < fy2,
                0 <= fx1 < fw,
                0 <= fx2,
        ;
    } else {
    }
}

/// One pre-synaptic neuron of a paired field, its own flat index, and
/// the flat index of its counterpart under the serpentine pairing.
#[derive(Clone, Copy, Debug)]
pub struct InitialConnection {
    /// Field column of the pre-synaptic neuron
    pub layer_x: usize,
    /// Field row of the pre-synaptic neuron
    pub layer_y: usize,
    /// Column inside the field
    pub field_x: usize,
    /// Row inside the field
    pub field_y: usize,
    /// Flat index of the pre-synaptic neuron; the forward matrix holds
    /// the strong initial conductance on its diagonal entry
    pub pre_index: usize,
    /// Flat index of the counterpart neuron in the paired field; the
    /// reverse matrix holds the strong initial conductance at
    /// (`reverse_post_index`, `pre_index`)
    pub reverse_post_index: usize,
}

pub open spec fn connection_wf(p: LayerParams, c: InitialConnection) -> bool {
    &&& 0 <= c.layer_x < p.layer_width
    &&& 0 <= c.layer_y < p.layer_height
    &&& 0 <= c.field_x < p.field_width
    &&& 0 <= c.field_y < p.field_height
    &&& (c.layer_x as int, c.layer_y as int) != spec_last_field(
        p.layer_width as int,
        p.layer_height as int,
    )
    &&& c.pre_index == spec_neuron_index(
        p,
        c.layer_x as int,
        c.layer_y as int,
        c.field_x as int,
        c.field_y as int,
    )
    &&& c.reverse_post_index == spec_neuron_index(
        p,
        spec_next_field(
            p.layer_width as int,
            p.layer_height as int,
            c.layer_x as int,
            c.layer_y as int,
        ).0,
        spec_next_field(
            p.layer_width as int,
            p.layer_height as int,
            c.layer_x as int,
            c.layer_y as int,
        ).1,
        c.field_x as int,
        c.field_y as int,
    )
    &&& c.pre_index < spec_layer_size(p)
    &&& c.reverse_post_index < spec_layer_size(p)
}

/// The positions of the strong initial conductances: one entry per
/// neuron of every field except the tail, walked in index order.
#[verifier::loop_isolation(false)]
pub fn initial_connections(layer_params: &LayerParams, computed_params: &ComputedParams) -> (r: Vec<
    InitialConnection,
>)
    requires
        lp_wf(*layer_params),
        cp_wf(*computed_params, *layer_params),
    ensures
        r@.len() == spec_field_size(*layer_params) * (layer_params.layer_width
            * layer_params.layer_height - 1),
        forall|k: int| 0 <= k < r@.len() ==> connection_wf(*layer_params, #[trigger] r@[k]),
        forall|k1: int, k2: int|
            0 <= k1 < k2 < r@.len() ==> #[trigger] r@[k1].pre_index < #[trigger] r@[k2].pre_index,
{
    let p = *layer_params;
    let ghost lw = p.layer_width as int;
    let ghost lh = p.layer_height as int;
    let ghost fs = spec_field_size(p);
    let (finish_x, finish_y) = get_last_field(layer_params);
    let mut r: Vec<InitialConnection> = Vec::new();

    proof {
        assert(0 * lw == 0 && fs * 0 == 0) by (nonlinear_arith);
    }
    for layer_y in 0..layer_params.layer_height
        invariant
            r@.len() == fs * (layer_y * lw - (if finish_y < layer_y {
                1int
            } else {
                0int
            })),
            forall|k: int| 0 <= k < r@.len() ==> connection_wf(p, #[trigger] r@[k]),
            forall|k: int| 0 <= k < r@.len() ==> (#[trigger] r@[k]).layer_y < layer_y,
            forall|k1: int, k2: int|
                0 <= k1 < k2 < r@.len() ==> #[trigger] r@[k1].pre_index
                    < #[trigger] r@[k2].pre_index,
        decreases p.layer_height - layer_y,
    {
        for layer_x in 0..layer_params.layer_width
            invariant
                r@.len() == fs * (layer_y * lw + layer_x - (if finish_y < layer_y || (finish_y
                    == layer_y && finish_x < layer_x) {
                    1int
                } else {
                    0int
                })),
                forall|k: int| 0 <= k < r@.len() ==> connection_wf(p, #[trigger] r@[k]),
                forall|k: int|
                    0 <= k < r@.len() ==> coords_lex_lt(
                        (#[trigger] r@[k]).layer_x as int,
                        r@[k].layer_y as int,
                        r@[k].field_x as int,
                        r@[k].field_y as int,
                        layer_x as int,
                        layer_y as int,
                        0,
                        0,
                    ),
                forall|k1: int, k2: int|
                    0 <= k1 < k2 < r@.len() ==> #[trigger] r@[k1].pre_index
                        < #[trigger] r@[k2].pre_index,
            decreases p.layer_width - layer_x,
        {
            let ghost len0 = r@.len();
            let ghost moved0: int = if finish_y < layer_y || (finish_y == layer_y && finish_x
                < layer_x) {
                1int
            } else {
                0int
            };
            if layer_x != finish_x || layer_y != finish_y {
                let (next_x, next_y) = get_next_field(layer_params, layer_x, layer_y);
                proof {
                    assert(0 * p.field_width as int == 0) by (nonlinear_arith);
                }
                for field_y in 0..layer_params.field_height
                    invariant
                        (next_x as int, next_y as int) == spec_next_field(
                            lw,
                            lh,
                            layer_x as int,
                            layer_y as int,
                        ),
                        next_x < p.layer_width,
                        next_y < p.layer_height,
                        layer_x != finish_x || layer_y != finish_y,
                        r@.len() == len0 + field_y * p.field_width,
                        forall|k: int| 0 <= k < r@.len() ==> connection_wf(p, #[trigger] r@[k]),
                        forall|k: int|
                            0 <= k < len0 ==> coords_lex_lt(
                                (#[trigger] r@[k]).layer_x as int,
                                r@[k].layer_y as int,
                                r@[k].field_x as int,
                                r@[k].field_y as int,
                                layer_x as int,
                                layer_y as int,
                                0,
                                0,
                            ),
                        forall|k: int|
                            len0 <= k < r@.len() ==> (#[trigger] r@[k]).layer_x == layer_x
                                && r@[k].layer_y == layer_y && r@[k].field_y < field_y,
                        forall|k1: int, k2: int|
                            0 <= k1 < k2 < r@.len() ==> #[trigger] r@[k1].pre_index
                                < #[trigger] r@[k2].pre_index,
                    decreases p.field_height - field_y,
                {
                    let ghost len1 = r@.len();
                    for field_x in 0..layer_params.field_width
                        invariant
                            field_y < p.field_height,
                            (next_x as int, next_y as int) == spec_next_field(
                                lw,
                                lh,
                                layer_x as int,
                                layer_y as int,
                            ),
                            next_x < p.layer_width,
                            next_y < p.layer_height,
                            layer_x != finish_x || layer_y != finish_y,
                            r@.len() == len1 + field_x,
                            len0 <= len1,
                            forall|k: int| 0 <= k < r@.len() ==> connection_wf(p, #[trigger] r@[k]),
                            forall|k: int|
                                0 <= k < len0 ==> coords_lex_lt(
                                    (#[trigger] r@[k]).layer_x as int,
                                    r@[k].layer_y as int,
                                    r@[k].field_x as int,
                                    r@[k].field_y as int,
                                    layer_x as int,
                                    layer_y as int,
                                    0,
                                    0,
                                ),
                            forall|k: int|
                                len0 <= k < len1 ==> (#[trigger] r@[k]).layer_x == layer_x
                                    && r@[k].layer_y == layer_y && r@[k].field_y < field_y,
                            forall|k: int|
                                len1 <= k < r@.len() ==> (#[trigger] r@[k]).layer_x == layer_x
                                    && r@[k].layer_y == layer_y && r@[k].field_y == field_y
                                    && r@[k].field_x < field_x,
                            forall|k1: int, k2: int|
                                0 <= k1 < k2 < r@.len() ==> #[trigger] r@[k1].pre_index
                                    < #[trigger] r@[k2].pre_index,
                        decreases p.field_width - field_x,
                    {
                        let neuron_index = get_neuron_index(
                            layer_params,
                            computed_params,
                            layer_x,
                            layer_y,
                            field_x,
                            field_y,
                        );
                        let neuron_2_to_1_index = get_neuron_index(
                            layer_params,
                            computed_params,
                            next_x,
                            next_y,
                            field_x,
                            field_y,
                        );
                        proof {
                            assert forall|k: int|
                                0 <= k < r@.len() implies #[trigger] r@[k].pre_index
                                < neuron_index as int by {
                                lemma_neuron_index_lex_mono(
                                    p,
                                    r@[k].layer_x as int,
                                    r@[k].layer_y as int,
                                    r@[k].field_x as int,
                                    r@[k].field_y as int,
                                    layer_x as int,
                                    layer_y as int,
                                    field_x as int,
                                    field_y as int,
                                );
                            }
                        }
                        r.push(
                            InitialConnection {
                                layer_x,
                                layer_y,
                                field_x,
                                field_y,
                                pre_index: neuron_index,
                                reverse_post_index: neuron_2_to_1_index,
                            },
                        );
                    }
                    proof {
                        assert((field_y + 1) * p.field_width as int == field_y * p.field_width
                            + p.field_width) by (nonlinear_arith);
                    }
                }
                proof {
                    assert(p.field_height * p.field_width as int == fs) by (nonlinear_arith)
                        requires
                            fs == p.field_width * p.field_height,
                    ;
                    assert(fs * (layer_y * lw + layer_x - moved0) + fs == fs * (layer_y * lw + (
                    layer_x + 1) - moved0)) by (nonlinear_arith);
                }
            } else {
                proof {
                    assert(fs * (layer_y * lw + layer_x - moved0) == fs * (layer_y * lw + (layer_x
                        + 1) - (moved0 + 1))) by (nonlinear_arith);
                }
            }
        }
        proof {
            assert(fs * (layer_y * lw + lw - (if finish_y <= layer_y {
                1int
            } else {
                0int
            })) == fs * ((layer_y + 1) * lw - (if finish_y < layer_y + 1 {
                1int
            } else {
                0int
            }))) by (nonlinear_arith);
        }
    }
    proof {
        assert(fs * (lh * lw - 1) == fs * (lw * lh - 1)) by (nonlinear_arith);
    }
    r
}

/// In any list of well-formed initial connections with strictly growing
/// pre-indexes, the reverse positions are pairwise distinct as well:
/// the strong initial conductances touch each matrix entry at most once.
pub proof fn lemma_initial_connections_distinct(p: LayerParams, s: Seq<InitialConnection>)
    requires
        lp_wf(p),
        forall|k: int| 0 <= k < s.len() ==> connection_wf(p, #[trigger] s[k]),
        forall|k1: int, k2: int|
            0 <= k1 < k2 < s.len() ==> #[trigger] s[k1].pre_index < #[trigger] s[k2].pre_index,
    ensures
        forall|k1: int, k2: int|
            0 <= k1 < k2 < s.len() ==> #[trigger] s[k1].reverse_post_index
                != #[trigger] s[k2].reverse_post_index,
{
    let lw = p.layer_width as int;
    let lh = p.layer_height as int;
    assert forall|k1: int, k2: int|
        0 <= k1 < k2 < s.len() implies #[trigger] s[k1].reverse_post_index
        != #[trigger] s[k2].reverse_post_index by {
        let a = s[k1];
        let b = s[k2];
        if a.reverse_post_index == b.reverse_post_index {
            let na = spec_next_field(lw, lh, a.layer_x as int, a.layer_y as int);
            let nb = spec_next_field(lw, lh, b.layer_x as int, b.layer_y as int);
            lemma_neuron_index_injective(
                p,
                na.0,
                na.1,
                a.field_x as int,
                a.field_y as int,
                nb.0,
                nb.1,
                b.field_x as int,
                b.field_y as int,
            );
            lemma_next_field_injective(
                lw,
                lh,
                a.layer_x as int,
                a.layer_y as int,
                b.layer_x as int,
                b.layer_y as int,
            );
            assert(a.pre_index == b.pre_index);
        }
    }
}

/// Flat indexes of the neurons of the tail field: the output tap read
/// by prediction, column by column.
#[verifier::loop_isolation(false)]
pub fn get_last_field_indexes(layer_params: &LayerParams, computed_params: &ComputedParams) -> (r:
    Vec<usize>)
    requires
        lp_wf(*layer_params),
        cp_wf(*computed_params, *layer_params),
    ensures
        r@.len() == spec_field_size(*layer_params),
        forall|x: int, y: int|
            0 <= x < layer_params.field_width && 0 <= y < layer_params.field_height
                ==> #[trigger] r@[x * layer_params.field_height + y] == spec_neuron_index(
                *layer_params,
                spec_last_field(
                    layer_params.layer_width as int,
                    layer_params.layer_height as int,
                ).0,
                spec_last_field(
                    layer_params.layer_width as int,
                    layer_params.layer_height as int,
                ).1,
                x,
                y,
            ),
        forall|k: int| 0 <= k < r@.len() ==> #[trigger] r@[k] < spec_layer_size(*layer_params),
{
    let p = *layer_params;
    let ghost lw = p.layer_width as int;
    let ghost lh = p.layer_height as int;
    let mut r: Vec<usize> = Vec::new();

    let (last_field_x, last_field_y) = get_last_field(layer_params);

    proof {
        assert(0 * p.field_height as int == 0) by (nonlinear_arith);
    }
    for neuron_in_field_x in 0..layer_params.field_width
        invariant
            (last_field_x as int, last_field_y as int) == spec_last_field(lw, lh),
            last_field_x < p.layer_width,
            last_field_y < p.layer_height,
            r@.len() == neuron_in_field_x * p.field_height,
            forall|x: int, y: int|
                0 <= x < neuron_in_field_x && 0 <= y < p.field_height ==> #[trigger] r@[x
                    * p.field_height + y] == spec_neuron_index(
                    p,
                    last_field_x as int,
                    last_field_y as int,
                    x,
                    y,
                ),
            forall|k: int| 0 <= k < r@.len() ==> #[trigger] r@[k] < spec_layer_size(p),
        decreases p.field_width - neuron_in_field_x,
    {
        for neuron_in_field_y in 0..layer_params.field_height
            invariant
                (last_field_x as int, last_field_y as int) == spec_last_field(lw, lh),
                last_field_x < p.layer_width,
                last_field_y < p.layer_height,
                neuron_in_field_x < p.field_width,
                r@.len() == neuron_in_field_x * p.field_height + neuron_in_field_y,
                forall|x: int, y: int|
                    0 <= x < neuron_in_field_x && 0 <= y < p.field_height ==> #[trigger] r@[x
                        * p.field_height + y] == spec_neuron_index(
                        p,
                        last_field_x as int,
                        last_field_y as int,
                        x,
                        y,
                    ),
                forall|y: int|
                    0 <= y < neuron_in_field_y ==> #[trigger] r@[neuron_in_field_x as int
                        * p.field_height + y] == spec_neuron_index(
                        p,
                        last_field_x as int,
                        last_field_y as int,
                        neuron_in_field_x as int,
                        y,
                    ),
                forall|k: int| 0 <= k < r@.len() ==> #[trigger] r@[k] < spec_layer_size(p),
            decreases p.field_height - neuron_in_field_y,
        {
            let idx = get_neuron_index(
                layer_params,
                computed_params,
                last_field_x,
                last_field_y,
                neuron_in_field_x,
                neuron_in_field_y,
            );
            r.push(idx);
            proof {
                assert forall|x: int, y: int|
                    0 <= x < neuron_in_field_x && 0 <= y < p.field_height implies #[trigger] r@[x
                    * p.field_height + y] == spec_neuron_index(
                    p,
                    last_field_x as int,
                    last_field_y as int,
                    x,
                    y,
                ) by {
                    assert(x * p.field_height + y < neuron_in_field_x * p.field_height)
                        by (nonlinear_arith)
                        requires
                            0 <= x < neuron_in_field_x && 0 <= y < p.field_height,
                    ;
                }
            }
        }
        proof {
            assert((neuron_in_field_x + 1) * p.field_height as int == neuron_in_field_x
                * p.field_height + p.field_height) by (nonlinear_arith);
            assert forall|x: int, y: int|
                0 <= x < neuron_in_field_x + 1 && 0 <= y < p.field_height implies #[trigger] r@[x
                * p.field_height + y] == spec_neuron_index(
                p,
                last_field_x as int,
                last_field_y as int,
                x,
                y,
            ) by {
                if x < neuron_in_field_x {
                    assert(x * p.field_height + y < neuron_in_field_x * p.field_height)
                        by (nonlinear_arith)
                        requires
                            0 <= x < neuron_in_field_x && 0 <= y < p.field_height,
                    ;
                }
            }
        }
    }
    r
}

/// The mask cell (`ix`, `iy`) of a stamp centered at (`x`, `y`) lands on
/// the neuron grid: the offsets stay inside the layer edges.
pub open spec fn mask_cell_in_bounds(
    p: LayerParams,
    x: int,
    y: int,
    offset: int,
    ix: int,
    iy: int,
) -> bool {
    &&& 0 <= x + ix - offset < spec_row_width(p)
    &&& 0 <= y + iy - offset < spec_column_height(p)
}

/// Flat index of the neuron that mask cell (`ix`, `iy`) of a stamp
/// centered at (`x`, `y`) covers.
pub open spec fn spec_mask_target(
    p: LayerParams,
    x: int,
    y: int,
    offset: int,
    ix: int,
    iy: int,
) -> int {
    spec_neuron_index(
        p,
        (x + ix - offset) / p.field_width as int,
        (y + iy - offset) / p.field_height as int,
        (x + ix - offset) % p.field_width as int,
        (y + iy - offset) % p.field_height as int,
    )
}

/// The entries of a distance matrix that one mask stamp centered at the
/// neuron at (`x`, `y`) writes, as a row-major grid over the mask cells:
/// the flat neuron index for a cell whose offsets stay inside the layer
/// edges, and nothing for a clipped cell.
#[verifier::loop_isolation(false)]
pub fn mask_targets(
    layer_params: &LayerParams,
    computed_params: &ComputedParams,
    x: usize,
    y: usize,
    mask_size: usize,
    mask_offset: usize,
) -> (r: Vec<Option<usize>>)
    requires
        lp_wf(*layer_params),
        cp_wf(*computed_params, *layer_params),
        x < spec_row_width(*layer_params),
        y < spec_column_height(*layer_params),
        mask_size == 2 * mask_offset + 1,
        x + mask_size <= usize::MAX,
        y + mask_size <= usize::MAX,
        mask_size * mask_size <= usize::MAX,
    ensures
        r@.len() == mask_size * mask_size,
        forall|ix: int, iy: int|
            0 <= ix < mask_size && 0 <= iy < mask_size ==> #[trigger] r@[ix * mask_size + iy] == (
            if mask_cell_in_bounds(*layer_params, x as int, y as int, mask_offset as int, ix, iy) {
                Some(
                    spec_mask_target(
                        *layer_params,
                        x as int,
                        y as int,
                        mask_offset as int,
                        ix,
                        iy,
                    ) as usize,
                )
            } else {
                None
            }),
{
    let p = *layer_params;
    let mut r: Vec<Option<usize>> = Vec::new();

    proof {
        assert(0 * mask_size as int == 0) by (nonlinear_arith);
    }
    for iter_x in 0..mask_size
        invariant
            r@.len() == iter_x * mask_size,
            forall|ix: int, iy: int|
                0 <= ix < iter_x && 0 <= iy < mask_size ==> #[trigger] r@[ix * mask_size + iy] == (
                if mask_cell_in_bounds(p, x as int, y as int, mask_offset as int, ix, iy) {
                    Some(
                        spec_mask_target(
                            p,
                            x as int,
                            y as int,
                            mask_offset as int,
                            ix,
                            iy,
                        ) as usize,
                    )
                } else {
                    None
                }),
        decreases mask_size - iter_x,
    {
        for iter_y in 0..mask_size
            invariant
                iter_x < mask_size,
                r@.len() == iter_x * mask_size + iter_y,
                forall|ix: int, iy: int|
                    0 <= ix < iter_x && 0 <= iy < mask_size ==> #[trigger] r@[ix * mask_size + iy]
                        == (if mask_cell_in_bounds(
                        p,
                        x as int,
                        y as int,
                        mask_offset as int,
                        ix,
                        iy,
                    ) {
                        Some(
                            spec_mask_target(
                                p,
                                x as int,
                                y as int,
                                mask_offset as int,
                                ix,
                                iy,
                            ) as usize,
                        )
                    } else {
                        None
                    }),
                forall|iy: int|
                    0 <= iy < iter_y ==> #[trigger] r@[iter_x as int * mask_size + iy] == (
                    if mask_cell_in_bounds(
                        p,
                        x as int,
                        y as int,
                        mask_offset as int,
                        iter_x as int,
                        iy,
                    ) {
                        Some(
                            spec_mask_target(
                                p,
                                x as int,
                                y as int,
                                mask_offset as int,
                                iter_x as int,
                                iy,
                            ) as usize,
                        )
                    } else {
                        None
                    }),
            decreases mask_size - iter_y,
        {
            let in_x = x + iter_x >= mask_offset && x + iter_x - mask_offset
                < computed_params.row_width;
            let in_y = y + iter_y >= mask_offset && y + iter_y - mask_offset
                < computed_params.column_height;
            if in_x && in_y {
                let neuron_x = x + iter_x - mask_offset;
                let neuron_y = y + iter_y - mask_offset;
                let target_index = get_neuron_index_by_coordinates(
                    layer_params,
                    computed_params,
                    neuron_x,
                    neuron_y,
                );
                r.push(Some(target_index));
            } else {
                r.push(None);
            }
            proof {
                assert forall|ix: int, iy: int|
                    0 <= ix < iter_x && 0 <= iy < mask_size implies #[trigger] r@[ix * mask_size
                    + iy] == (if mask_cell_in_bounds(
                    p,
                    x as int,
                    y as int,
                    mask_offset as int,
                    ix,
                    iy,
                ) {
                    Some(
                        spec_mask_target(
                            p,
                            x as int,
                            y as int,
                            mask_offset as int,
                            ix,
                            iy,
                        ) as usize,
                    )
                } else {
                    None
                }) by {
                    assert(ix * mask_size + iy < iter_x * mask_size) by (nonlinear_arith)
                        requires
                            0 <= ix < iter_x && 0 <= iy < mask_size,
                    ;
                }
            }
        }
        proof {
            assert((iter_x + 1) * mask_size as int == iter_x * mask_size + mask_size)
                by (nonlinear_arith);
            assert forall|ix: int, iy: int|
                0 <= ix < iter_x + 1 && 0 <= iy < mask_size implies #[trigger] r@[ix * mask_size
                + iy] == (if mask_cell_in_bounds(p, x as int, y as int, mask_offset as int, ix, iy) {
                Some(
                    spec_mask_target(p, x as int, y as int, mask_offset as int, ix, iy) as usize,
                )
            } else {
                None
            }) by {
                if ix < iter_x {
                    assert(ix * mask_size + iy < iter_x * mask_size) by (nonlinear_arith)
                        requires
                            0 <= ix < iter_x && 0 <= iy < mask_size,
                    ;
                }
            }
        }
    }
    r
}

} // verus!
