//! The layer geometry, the serpentine pairing, the initial connection
//! positions, and the refractory state machine, on a small grid:
//! fields of 2 x 2 neurons, layers of 3 x 2 fields.

use rnn_core::connections::{get_last_field_indexes, initial_connections, mask_targets};
use rnn_core::geometry::{
    get_computed_params, get_layer_size, get_neuron_full_coordinates, get_neuron_index,
    get_neuron_index_by_coordinates, LayerParams,
};
use rnn_core::network::{
    chunk_bounds, predict_plan, recount_refract_intervals, tick_count_for, NetworkState,
};
use rnn_core::spiral::{get_last_field, get_next_field};

fn small_params() -> LayerParams {
    LayerParams {
        field_width: 2,
        field_height: 2,
        layer_width: 3,
        layer_height: 2,
    }
}

#[test]
fn computed_params_of_small_grid() {
    let params = small_params();
    let computed = get_computed_params(&params);
    assert_eq!(computed.field_size, 4);
    assert_eq!(computed.row_size, 12);
    assert_eq!(computed.row_width, 6);
    assert_eq!(computed.column_height, 4);
    assert_eq!(computed.field_count, 12);
    assert_eq!(get_layer_size(&params, &computed), 24);
}

#[test]
fn serpentine_walk() {
    let params = small_params();
    assert_eq!(get_next_field(&params, 0, 0), (1, 0));
    assert_eq!(get_next_field(&params, 1, 0), (2, 0));
    assert_eq!(get_next_field(&params, 2, 0), (2, 1));
    assert_eq!(get_next_field(&params, 2, 1), (1, 1));
    assert_eq!(get_next_field(&params, 1, 1), (0, 1));
    assert_eq!(get_last_field(&params), (0, 1));
}

#[test]
fn neuron_indexing_round_trip() {
    let params = small_params();
    let computed = get_computed_params(&params);

    assert_eq!(get_neuron_index(&params, &computed, 0, 0, 0, 0), 0);
    assert_eq!(get_neuron_index(&params, &computed, 1, 0, 1, 1), 7);
    assert_eq!(get_neuron_index(&params, &computed, 0, 1, 0, 0), 12);

    let (layer_x, layer_y, in_x, in_y) = get_neuron_full_coordinates(&params, 3, 2);
    assert_eq!((layer_x, layer_y, in_x, in_y), (1, 1, 1, 0));
    assert_eq!(
        get_neuron_index_by_coordinates(&params, &computed, 3, 2),
        get_neuron_index(&params, &computed, 1, 1, 1, 0)
    );
}

#[test]
fn initial_connections_cover_every_field_but_the_tail() {
    let params = small_params();
    let computed = get_computed_params(&params);
    let connections = initial_connections(&params, &computed);

    // one entry per neuron of the five paired fields
    assert_eq!(connections.len(), 4 * 5);
    for pair in connections.windows(2) {
        assert!(pair[0].pre_index < pair[1].pre_index);
    }
    for connection in &connections {
        assert!(!(connection.layer_x == 0 && connection.layer_y == 1));
        let (next_x, next_y) =
            get_next_field(&params, connection.layer_x, connection.layer_y);
        assert_eq!(
            connection.reverse_post_index,
            get_neuron_index(
                &params,
                &computed,
                next_x,
                next_y,
                connection.field_x,
                connection.field_y
            )
        );
    }
}

#[test]
fn output_tap_indexes() {
    let params = small_params();
    let computed = get_computed_params(&params);
    // the tail field is (0, 1); its neurons sit at offset 12
    assert_eq!(
        get_last_field_indexes(&params, &computed),
        vec![12, 14, 13, 15]
    );
}

#[test]
fn mask_stamp_is_clipped_at_the_edges() {
    let params = small_params();
    let computed = get_computed_params(&params);
    let targets = mask_targets(&params, &computed, 0, 0, 3, 1);
    assert_eq!(
        targets,
        vec![
            None,
            None,
            None,
            None,
            Some(0),
            Some(2),
            None,
            Some(1),
            Some(3)
        ]
    );
}

#[test]
fn refractory_countdown_rule() {
    assert_eq!(
        recount_refract_intervals(&vec![true, false, false], &vec![0, 3, 0], 5),
        vec![5, 2, 0]
    );
}

#[test]
fn input_collision_split() {
    let net = NetworkState::new(small_params(), 5, 0);
    let (apply, rest) = net.split_signal(&[true, false, true]);
    assert_eq!(apply, vec![true, false, true, false]);
    assert!(rest.is_none());
}

#[test]
fn fired_neurons_reload_the_refractory_interval() {
    let mut net = NetworkState::new(small_params(), 5, 0);

    net.load_input(&[true, false, true]);
    let mut fired_2 = vec![false; 24];
    fired_2[12] = true;
    fired_2[13] = true;
    net.commit_forward(fired_2);

    // the two loaded first-layer neurons are now refractory
    assert_eq!(net.get_neuron_refract_timeout(1, 0, 0, 0, 0), 5);
    assert_eq!(net.get_neuron_refract_timeout(1, 0, 0, 1, 0), 0);
    assert_eq!(net.get_neuron_refract_timeout(1, 0, 0, 0, 1), 5);

    // a new pulse on a refractory neuron is deferred into the residual
    let (apply, rest) = net.split_signal(&[true, true, false]);
    assert_eq!(apply, vec![false, true, false, false]);
    assert_eq!(rest, Some(vec![true, false, false, false]));

    // the tap reads the thresholded second-layer state: positions 12 and
    // 13 are the first column of the tail field
    assert_eq!(
        net.get_last_field_state(),
        vec![true, false, true, false]
    );

    let fired_1 = vec![false; 24];
    net.commit_reverse(fired_1);
    assert_eq!(net.get_neuron_refract_timeout(2, 0, 1, 0, 0), 5);
    assert_eq!(net.get_neuron_refract_timeout(2, 0, 1, 1, 0), 5);
    assert_eq!(net.get_neuron_refract_timeout(2, 0, 1, 0, 1), 0);
}

#[test]
fn tick_schedule() {
    assert_eq!(tick_count_for(10, 4), 3);
    assert_eq!(tick_count_for(8, 4), 2);
    assert_eq!(tick_count_for(0, 4), 0);
    assert_eq!(chunk_bounds(2, 4, 10), (8, 10));
    assert_eq!(chunk_bounds(0, 4, 10), (0, 4));
    assert_eq!(predict_plan(8, 4, 12), (2, 11));
    assert_eq!(predict_plan(60, 4, 12), (15, 11));
}
