//! Re-projection of decoded activity-file records: a lossless field dump and a
//! fixed-schema live telemetry snapshot, replayed sample by sample.

pub mod focus;
pub mod names;
pub mod options;
pub mod output;
pub mod playback;
pub mod record;
pub mod telemetry;
pub mod value;
