//! Core of a two-layer recurrent spiking-neuron network and its data plane.
//!
//! The crate covers the bit codec, the per-channel timeline codecs, the
//! complex timeline, timestamp-ordered training streams, the serpentine
//! field pairing, neuron-index geometry, the refractory state machine of
//! the simulator, and the gzip transport of model snapshots.

pub mod bits;
pub mod complex_stream;
pub mod complex_timeline;
pub mod connections;
pub mod csv_datetime_stream;
pub mod csv_stream;
pub mod csv_support;
pub mod date_parts;
pub mod datetime_timeline;
pub mod decimal;
pub mod enum_timeline;
pub mod float_timeline;
pub mod geometry;
pub mod init_timeline_by_config;
pub mod integer_timeline;
pub mod network;
pub mod rounding;
pub mod snapshot;
pub mod spiral;
pub mod structures;
