//! The erltod site.
pub mod utils;
