pub mod library;
pub mod log;
pub mod path;
pub mod provision;
pub mod run_with_ssh_config;
pub mod ssh;
pub mod string_map;
pub mod subcommand;
pub mod text;
pub mod transfer_images;
pub mod tunnel_ssh;
