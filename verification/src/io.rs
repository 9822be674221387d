//! Input devices.

pub mod kbd;
