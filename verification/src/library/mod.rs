pub mod command;
pub mod compose;
pub mod configuration;
pub mod constants;
pub mod docker_host;
pub mod provision;
pub mod run;
pub mod run_bash_script_over_ssh;
pub mod tear_down_cache;
