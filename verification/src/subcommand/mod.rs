pub mod build;
pub mod deploy;
pub mod provision;
pub mod render;
