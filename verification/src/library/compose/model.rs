use vstd::prelude::*;

verus! {

/// A Compose project as the deployment reads it.
pub struct Project {
    pub name: Option<String>,
    /// Services by name, ordered by name.
    pub services: Vec<(String, Service)>,
    pub x_wheelsticks: Wheelsticks,
}

/// A service with its build context.
pub struct Service {
    pub build: String,
}

/// The local and remote workbench folders.
pub struct Wheelsticks {
    pub local_workbench: String,
    pub remote_workbench: String,
}

impl Default for Wheelsticks {
    /// Both workbenches in `.wheelsticks`.
    fn default() -> (wheelsticks: Self)
        ensures
            wheelsticks.local_workbench@ == ".wheelsticks"@,
            wheelsticks.remote_workbench@ == ".wheelsticks"@,
    {
        Wheelsticks {
            local_workbench: ".wheelsticks".to_owned(),
            remote_workbench: ".wheelsticks".to_owned(),
        }
    }
}

} // verus!
