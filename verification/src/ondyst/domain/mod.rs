//! The site's request handling: its decisions and the queries it makes.
pub mod actor;
pub mod chat;
pub mod entry;
pub mod home;
pub mod location;
