//! Real-time sample-playback engine: voices that play one shared, immutable
//! sample buffer once through, a pool that spawns and retires them, and a
//! block processor that mixes every live voice into the host's output
//! channels sample-accurately.
//!
//! Amplitudes are fixed-point integers so that mixing is exact integer
//! addition; the scale is chosen by the caller (decode and any conversion to
//! or from floating point happen outside this crate).

pub mod block;
pub mod event;
pub mod pool;
pub mod sample_buffer;
pub mod voice;
