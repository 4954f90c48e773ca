//! Verified core of a screen recorder with speech-to-text transcription.
pub mod config;
pub mod library;
pub mod path;
pub mod recorder;
pub mod text;
pub mod transcription;
pub mod ui;
