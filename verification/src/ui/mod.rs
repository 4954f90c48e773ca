//! State and texts behind the user interface.
pub mod overlays;
pub mod pages;
