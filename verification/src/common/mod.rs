//! Code shared by the applications: HTML encoding, request helpers and shared state.
pub mod error;
pub mod html_codec;
pub mod html_encode;
pub mod keys;
pub mod link;
pub mod pagination;
pub mod profile;
pub mod query;
pub mod req_type;
pub mod state;
pub mod tera_filter;
