pub mod deploy_locally;

use vstd::prelude::*;

verus! {

/// What deploying a Compose project takes.
pub struct In {
    pub compose_file: String,
    pub docker_host: Option<String>,
    pub project_folder: Option<String>,
    pub project_name: Option<String>,
}

} // verus!
