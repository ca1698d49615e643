//! Microphone audio from an iOS device, played without a glitch.
//!
//! The device sends AAC packets over a stream. They are decoded, held back for a moment in a jitter
//! buffer, resampled so that the buffer neither fills nor drains, and written to a playback device
//! one period at a time. This library holds every decision on that way, each with a contract that
//! says exactly what it decides:
//!
//! - [`frame`] and [`decode`]: what the stream is made of, and how the codec is set up;
//! - [`session`]: what each frame calls for, and what the end of a session leads to;
//! - [`jitter`] and [`shared`]: the audio that waits to be played, by number and by age;
//! - [`policy`]: how much of it is held;
//! - [`renderer`], [`period`], [`recovery`] and [`reopen`]: what the playback thread does next,
//!   whatever the playback device answers;
//! - [`resample`]: the rules of resampling;
//! - [`sink`]: the playback device;
//! - [`virtual_source`]: the microphone that applications see;
//! - [`measure`]: how late packets arrive;
//! - [`time`], [`double`], [`text`] and [`error`]: what all of them are written in.
//!
//! Samples are of any type that can be copied: nothing here looks into them. What computes on
//! samples is handed in as a closure.

pub mod decode;
pub mod double;
pub mod error;
pub mod frame;
pub mod jitter;
pub mod measure;
pub mod period;
pub mod policy;
pub mod recovery;
pub mod renderer;
pub mod reopen;
pub mod resample;
pub mod session;
pub mod shared;
pub mod sink;
pub mod text;
pub mod time;
pub mod virtual_source;
