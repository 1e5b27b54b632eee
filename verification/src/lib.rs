//! Text processing, request decisions and query building for the untroche web applications.
pub mod common;
pub mod erltod;
pub mod matcher;
pub mod ondyst;
pub mod portal;
pub mod random;
pub mod text;
