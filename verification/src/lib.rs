//! Update detection for a package published through the Arch User Repository.

pub mod json;
pub mod platform;
pub mod text;
pub mod update;
pub mod version;
