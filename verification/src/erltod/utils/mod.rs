//! Types used across the erltod site.
pub mod page;
