use crate::path::{join, joined};
use vstd::prelude::*;

verus! {

/// The configuration file of a project.
pub const CONFIGURATION_FILE: &'static str = "kerek.json";

/// The folder where generated files go.
pub const WORK_FOLDER: &'static str = ".kerek";

/// Where the base provisioning script goes.
pub fn provision_base_file() -> (path: String)
    ensures
        path@ == joined(WORK_FOLDER@, "provision_base.sh"@),
{
    join(WORK_FOLDER, "provision_base.sh")
}

/// Where the Vagrantfile goes.
pub fn vagrantfile_file() -> (path: String)
    ensures
        path@ == joined(WORK_FOLDER@, "Vagrantfile"@),
{
    join(WORK_FOLDER, "Vagrantfile")
}

} // verus!
