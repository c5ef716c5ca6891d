//! The values that a check works on.

pub mod container;
pub mod image;
pub mod parts;
pub mod status;
pub mod update;
pub mod version;
