//! The event core of a MIDI to OSC bridge.
//!
//! Three producers feed one channel: the input source delivers frames, a
//! timer ticks, and the keyboard reports key presses. A single consumer takes
//! the events off the channel one by one. This crate holds everything that
//! consumer decides, and leaves to its caller what touches the outside world:
//! reading the channel and the clock, sending, and drawing.
//!
//! - [`midi`] decodes a raw frame into a typed event.
//! - [`address`] builds the addresses events are published under.
//! - [`translate`] maps an event to its address and its encoded value.
//! - [`cache`] remembers the last value of every address for a limited time.
//! - [`bus`] is the consumer: its state, and what every event makes of it.
//! - [`config`] and [`timer`] hold what is settled at startup and the pace of
//!   the timer.
//!
//! Times are counted in milliseconds from a starting point of the caller's
//! choice. Values are kept as integers throughout; a normalized value is the
//! numerator of a fraction of full scale.

pub mod address;
pub mod bus;
pub mod cache;
pub mod config;
pub mod midi;
pub mod timer;
pub mod translate;
