//! The portal's request handling: its decisions and the queries it makes.
pub mod auth;
pub mod entry;
pub mod home;
pub mod report;
pub mod webhook;
