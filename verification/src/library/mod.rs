//! The local library of recordings: display of their metadata and the order
//! in which they are listed.
pub mod scanner;
