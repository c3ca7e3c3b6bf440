//! Serpentine pairing of fields: each field of the forward layer is
//! paired with a counterpart reached by a boustrophedon scan, and the
//! final field of the scan is the tail that feeds predictions out.

use vstd::prelude::*;
use crate::geometry::LayerParams;

verus! {

/// Successor of field (`x`, `y`) under the serpentine scan: even rows
/// walk right, odd rows walk left, the end of a row steps down, and the
/// end of the scan wraps to the origin.
pub open spec fn spec_next_field(lw: int, lh: int, x: int, y: int) -> (int, int) {
    if y % 2 == 0 {
        if x == lw - 1 {
            if y == lh - 1 {
                (0, 0)
            } else {
                (x, y + 1)
            }
        } else {
            (x + 1, y)
        }
    } else {
        if x == 0 {
            if y == lh - 1 {
                (0, 0)
            } else {
                (0, y + 1)
            }
        } else {
            (x - 1, y)
        }
    }
}

/// The tail of the serpentine scan: the bottom-left field when the
/// number of rows is even, the bottom-right one when it is odd.
pub open spec fn spec_last_field(lw: int, lh: int) -> (int, int) {
    (
        if lh % 2 == 0 {
            0int
        } else {
            lw - 1
        },
        lh - 1,
    )
}

/// Successor of a field under the serpentine scan.
pub fn get_next_field(params: &LayerParams, field_x: usize, field_y: usize) -> (r: (usize, usize))
    requires
        1 <= params.layer_width,
        1 <= params.layer_height,
        field_x < params.layer_width,
        field_y < params.layer_height,
    ensures
        (r.0 as int, r.1 as int) == spec_next_field(
            params.layer_width as int,
            params.layer_height as int,
            field_x as int,
            field_y as int,
        ),
        r.0 < params.layer_width,
        r.1 < params.layer_height,
{
    let layer_2_to_1_x = if field_y % 2 == 0 {
        if field_x == params.layer_width - 1 {
            if field_y == params.layer_height - 1 {
                0
            } else {
                field_x
            }
        } else {
            field_x + 1
        }
    } else {
        if field_x == 0 {
            field_x
        } else {
            field_x - 1
        }
    };

    let layer_2_to_1_y = if field_y % 2 == 0 {
        if field_x == params.layer_width - 1 {
            if field_y == params.layer_height - 1 {
                0
            } else {
                field_y + 1
            }
        } else {
            field_y
        }
    } else if field_x == 0 {
        if field_y == params.layer_height - 1 {
            0
        } else {
            field_y + 1
        }
    } else {
        field_y
    };

    (layer_2_to_1_x, layer_2_to_1_y)
}

/// Tail field of the serpentine scan.
pub fn get_last_field(params: &LayerParams) -> (r: (usize, usize))
    requires
        1 <= params.layer_width,
        1 <= params.layer_height,
    ensures
        (r.0 as int, r.1 as int) == spec_last_field(
            params.layer_width as int,
            params.layer_height as int,
        ),
        r.0 < params.layer_width,
        r.1 < params.layer_height,
{
    (
        if params.layer_height % 2 == 0 {
            0
        } else {
            params.layer_width - 1
        },
        params.layer_height - 1,
    )
}

/// Only the tail field wraps to the origin: the serpentine successor of
/// a field other than the tail is never (0, 0).
pub proof fn lemma_next_field_misses_origin(lw: int, lh: int, x: int, y: int)
    requires
        1 <= lw,
        1 <= lh,
        0 <= x < lw,
        0 <= y < lh,
        (x, y) != spec_last_field(lw, lh),
    ensures
        spec_next_field(lw, lh, x, y) != (0int, 0int),
{
}

/// The serpentine successor is one-to-one on fields other than the tail.
pub proof fn lemma_next_field_injective(lw: int, lh: int, x1: int, y1: int, x2: int, y2: int)
    requires
        1 <= lw,
        1 <= lh,
        0 <= x1 < lw,
        0 <= y1 < lh,
        0 <= x2 < lw,
        0 <= y2 < lh,
        (x1, y1) != spec_last_field(lw, lh),
        (x2, y2) != spec_last_field(lw, lh),
        spec_next_field(lw, lh, x1, y1) == spec_next_field(lw, lh, x2, y2),
    ensures
        x1 == x2 && y1 == y2,
{
    lemma_next_field_misses_origin(lw, lh, x1, y1);
    lemma_next_field_misses_origin(lw, lh, x2, y2);
}

} // verus!
