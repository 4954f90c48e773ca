//! Windows shown over the desktop during a recording.
pub mod floating_toolbar;
