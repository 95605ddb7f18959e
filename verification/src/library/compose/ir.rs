use super::yaml::{Yaml, YamlModel};
use crate::text::lex_le;
use vstd::prelude::*;

pub use super::schema::SchemaMode;

verus! {

/// A Compose project with defaults applied, as the other commands use it.
pub struct Project {
    pub name: String,
    /// Services by name, ordered by name.
    pub services: Vec<(String, Service)>,
    pub x_wheelsticks: Wheelsticks,
    /// The fields of the Compose file that the schema does not know or support, each
    /// in its place, if there are any.
    pub alien_fields: Option<Yaml>,
}

/// A service.
pub struct Service {
    pub build: String,
}

/// The `x-wheelsticks` settings with defaults applied.
pub struct Wheelsticks {
    pub local_workbench: String,
    pub remote_workbench: String,
    pub schema_mode: SchemaMode,
    /// The folder of the user's systemd units as the home folder joined with
    /// `user_systemd_folder_original`.
    pub user_systemd_folder_absolute: String,
    /// The folder of the user's systemd units as the Compose file gives it, relative to
    /// the home folder.
    pub user_systemd_folder_original: String,
}

/// The value of the settings.
pub struct WheelsticksView {
    pub local_workbench: Seq<char>,
    pub remote_workbench: Seq<char>,
    pub schema_mode: SchemaMode,
    pub user_systemd_folder_absolute: Seq<char>,
    pub user_systemd_folder_original: Seq<char>,
}

/// The value of a project.
pub struct ProjectView {
    pub name: Seq<char>,
    /// Each service as its name and its build context.
    pub services: Seq<(Seq<char>, Seq<char>)>,
    pub x_wheelsticks: WheelsticksView,
    pub alien_fields: Option<YamlModel>,
}

impl View for Wheelsticks {
    type V = WheelsticksView;

    open spec fn view(&self) -> WheelsticksView {
        WheelsticksView {
            local_workbench: self.local_workbench@,
            remote_workbench: self.remote_workbench@,
            schema_mode: self.schema_mode,
            user_systemd_folder_absolute: self.user_systemd_folder_absolute@,
            user_systemd_folder_original: self.user_systemd_folder_original@,
        }
    }
}

/// Whether `names` increase strictly, as the keys of a sorted map do.
pub open spec fn sorted_names(names: Seq<Seq<char>>) -> bool {
    forall|i: int, j: int|
        0 <= i < j < names.len() ==> lex_le(#[trigger] names[i], #[trigger] names[j]) && names[i]
            != names[j]
}

/// The names of the services of a project.
pub open spec fn service_names(project: ProjectView) -> Seq<Seq<char>> {
    project.services.map_values(|s: (Seq<char>, Seq<char>)| s.0)
}

/// The value of an optional document.
pub open spec fn optional_model(value: Option<Yaml>) -> Option<YamlModel> {
    match value {
        Some(v) => Some(v@),
        None => None,
    }
}

impl View for Project {
    type V = ProjectView;

    open spec fn view(&self) -> ProjectView {
        ProjectView {
            name: self.name@,
            services: self.services@.map_values(|s: (String, Service)| (s.0@, s.1.build@)),
            x_wheelsticks: self.x_wheelsticks@,
            alien_fields: optional_model(self.alien_fields),
        }
    }
}

} // verus!
