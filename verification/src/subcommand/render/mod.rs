use vstd::prelude::*;

verus! {

/// What rendering a Compose project takes.
pub struct In {
    pub compose_file: String,
    pub environment_files: Option<Vec<String>>,
    pub project_folder: Option<String>,
    pub project_name: Option<String>,
}

} // verus!
