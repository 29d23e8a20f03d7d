//! Automatic brightness for laptops with an ambient light sensor.
//!
//! The library decides: which brightness the light calls for, when to change
//! the display's and the keyboard's backlight, and when to leave them to the
//! user. It reads and writes nothing itself. What it needs from the sensor, the
//! devices, the clocks and the clients is handed to it as plain values, and it
//! answers with what is to be done.
//!
//! - [`single`] and [`rounding`]: single-precision numbers, computed exactly.
//! - [`config`]: what can be configured, and which configurations are usable.
//! - [`curve`]: from light to brightness.
//! - [`sensor`]: the light sensor and its moving average.
//! - [`output`]: backlight devices.
//! - [`ramp`]: smooth transitions.
//! - [`channel`]: control of one backlight, and how it yields to manual changes.
//! - [`reactor`]: the control loop, with transitions made step by step.
//! - [`daemon`]: control with each transition made in one go, and
//!   [`daemon::transition`]: the steps of that.
//! - [`idle`]: idleness of the seat.
//! - [`ipc`]: what clients and the daemon say to each other.
//! - [`text`]: trimming, joining and numbers in text.

pub mod channel;
pub mod config;
pub mod curve;
pub mod daemon;
pub mod idle;
pub mod ipc;
pub mod output;
pub mod ramp;
pub mod reactor;
pub mod rounding;
pub mod sensor;
pub mod single;
pub mod text;
