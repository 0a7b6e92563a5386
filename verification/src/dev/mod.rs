//! Devices.

pub mod console;
