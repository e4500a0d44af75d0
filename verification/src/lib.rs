//! A backend-agnostic description of audio input and output devices.
//!
//! The library holds what a host does besides talking to a driver: the
//! stream configuration and its validation, the choice of an API or a
//! device by a part of its name, the plan that turns a configuration into
//! the streams to open, and the latency ring that carries input samples to
//! the output callback.

mod error;
pub mod config;
pub mod select;
pub mod ring;
pub mod plan;

pub use error::Error;
pub use config::{Config, DeviceInfo};
