//! A sample-accurate MIDI playback scheduler.
//!
//! A sequence of tick-stamped events is read from a Standard MIDI File and
//! replayed, one audio cycle at a time, as host events that carry a sample
//! offset. All time arithmetic is exact integer arithmetic: positions are
//! whole microseconds and sample rates are whole hertz.

pub mod chunks;
pub mod cycle_laws;
pub mod engine;
pub mod event;
pub mod laws;
pub mod scheduler;
pub mod sequence;
pub mod smf;
pub mod timing;

pub use engine::Engine;
pub use event::{HostEvent, Payload, RawEvent, TimedEvent};
pub use scheduler::{Playback, Scheduler};
pub use sequence::{Container, LoadError, Sequence, TimeBase};
pub use chunks::has_overflowing_division;
pub use smf::{load, read_container};
