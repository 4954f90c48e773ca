//! Capture setup: audio devices and video encoders.
pub mod audio;
pub mod encoders;
