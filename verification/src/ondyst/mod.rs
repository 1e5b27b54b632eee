//! The ondyst site ("one day's talk").
pub mod domain;
pub mod util;
pub mod utils;
