//! Pages of the main window.
pub mod ai;
