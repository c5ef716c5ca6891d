//! Update checking for container images.

pub mod check;
pub mod config;
pub mod docker;
pub mod http;
pub mod index;
pub mod json;
pub mod lists;
pub mod reference;
pub mod registry;
pub mod request;
pub mod session;
pub mod structs;
pub mod text;
