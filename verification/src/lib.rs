//! Verified logic of a real-time audio loopback and equaliser: choosing
//! capture and playback devices by name, moving samples between the
//! capture and playback callbacks, planning the equaliser's filter chain,
//! reading the console commands, and managing the Linux loopback module.

pub mod devices;
pub mod equalizer;
pub mod pulse_module;
pub mod sample_queue;
pub mod sample_ring;
pub mod text;

pub use pulse_module::ensure_windows_loopback_setup;
