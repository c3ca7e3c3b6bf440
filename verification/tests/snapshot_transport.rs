//! The gzip framing of snapshots, through the real compressor.

use rnn_core::snapshot::{decode_snapshot, encode_snapshot, SnapshotTransportError};

#[test]
fn snapshot_round_trip() {
    let text = "{\"neurons_1\":[0.0,1.0]}";
    let wrapped = encode_snapshot(text);
    assert_ne!(wrapped, text.as_bytes().to_vec());
    assert_eq!(decode_snapshot(&wrapped).unwrap(), text);
}

#[test]
fn snapshot_framing_error_is_told_apart() {
    match decode_snapshot(b"not a gzip stream") {
        Err(SnapshotTransportError::Gz(_)) => {}
        other => panic!("unexpected outcome: {:?}", other),
    }
}
