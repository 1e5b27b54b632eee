//! The untroche portal: accounts, their settings and the webhooks of the sites.
pub mod domain;
pub mod util;
pub mod utils;
