use super::yaml::{entry_models, push_entry, text, Yaml, YamlModel};
use vstd::prelude::*;

verus! {

/// The key that marks a field that the schema does not know or support.
pub const ALIEN_FIELD_MARK: &'static str = "x-wheelsticks-alien";

/// How fields that the schema does not know are treated: with a warning, silently or as
/// an error.
#[derive(Clone, Copy, Debug, PartialEq, Eq, Structural)]
pub enum SchemaMode {
    Default,
    Loose,
    Strict,
}

impl SchemaMode {
    /// The mode that applies when none is given.
    pub fn default_mode() -> (mode: SchemaMode)
        ensures
            mode == SchemaMode::Default,
    {
        SchemaMode::Default
    }
}

impl Default for SchemaMode {
    fn default() -> (mode: SchemaMode)
        ensures
            mode == SchemaMode::Default,
    {
        SchemaMode::Default
    }
}

/// A Compose file as read, before defaults are applied.
pub struct Project {
    pub name: Option<String>,
    /// Services by name, ordered by name.
    pub services: Vec<(String, Service)>,
    pub x_wheelsticks: Wheelsticks,
    /// Top-level fields that the schema does not know, ordered by name.
    pub unknown_fields: Vec<(String, Unknown)>,
}

/// A service as read.
pub struct Service {
    pub build: String,
    pub profiles: Option<Unsupported>,
    pub unknown_fields: Vec<(String, Unknown)>,
}

/// The `x-wheelsticks` settings as read.
pub struct Wheelsticks {
    pub local_workbench: Option<String>,
    pub remote_workbench: Option<String>,
    pub schema_mode: SchemaMode,
    pub user_systemd_folder: Option<String>,
    pub unknown_fields: Vec<(String, Unknown)>,
}

/// The value of a field that the schema does not know.
pub struct Unknown(pub Yaml);

/// The value of a field that the schema knows but does not support.
pub struct Unsupported(pub Yaml);

/// The string value `text`.
pub open spec fn text_yaml(text: Seq<char>) -> YamlModel {
    YamlModel::String(text)
}

/// An optional string as written out: null when absent.
pub open spec fn optional_yaml(text: Option<String>) -> YamlModel {
    match text {
        Some(t) => YamlModel::String(t@),
        None => YamlModel::Null,
    }
}

/// The mapping that marks an alien field with `comment`.
pub open spec fn alien_mark(comment: Seq<char>) -> YamlModel {
    YamlModel::Mapping(seq![(text_yaml(ALIEN_FIELD_MARK@), text_yaml(comment))])
}

/// How an unknown field is written out: as a mark in its place.
pub open spec fn unknown_mark() -> YamlModel {
    alien_mark("← unknown"@)
}

/// How an unsupported field is written out: as a mark in its place.
pub open spec fn unsupported_mark() -> YamlModel {
    alien_mark("← unsupported"@)
}

/// The entries that the unknown fields `fields` are written out as.
pub open spec fn unknown_entries(fields: Seq<(String, Unknown)>) -> Seq<(YamlModel, YamlModel)> {
    fields.map_values(|f: (String, Unknown)| (text_yaml(f.0@), unknown_mark()))
}

/// The name of a schema mode as written out.
pub open spec fn schema_mode_name(mode: SchemaMode) -> Seq<char> {
    match mode {
        SchemaMode::Default => "default"@,
        SchemaMode::Loose => "loose"@,
        SchemaMode::Strict => "strict"@,
    }
}

/// How a service is written out.
pub open spec fn service_yaml(service: Service) -> YamlModel {
    YamlModel::Mapping(
        seq![(text_yaml("build"@), text_yaml(service.build@))] + match service.profiles {
            None => Seq::empty(),
            Some(_) => seq![(text_yaml("profiles"@), unsupported_mark())],
        } + unknown_entries(service.unknown_fields@),
    )
}

/// How the services are written out.
pub open spec fn services_yaml(services: Seq<(String, Service)>) -> YamlModel {
    YamlModel::Mapping(
        services.map_values(|s: (String, Service)| (text_yaml(s.0@), service_yaml(s.1))),
    )
}

/// How the `x-wheelsticks` settings are written out.
pub open spec fn wheelsticks_yaml(wheelsticks: Wheelsticks) -> YamlModel {
    YamlModel::Mapping(
        seq![
            (text_yaml("local_workbench"@), optional_yaml(wheelsticks.local_workbench)),
            (text_yaml("remote_workbench"@), optional_yaml(wheelsticks.remote_workbench)),
            (text_yaml("schema_mode"@), text_yaml(schema_mode_name(wheelsticks.schema_mode))),
            (text_yaml("user_systemd_folder"@), optional_yaml(wheelsticks.user_systemd_folder)),
        ] + unknown_entries(wheelsticks.unknown_fields@),
    )
}

/// How a project is written out, fields in the order of the schema and each field that
/// is not known or supported replaced by a mark.
pub open spec fn project_yaml(project: Project) -> YamlModel {
    YamlModel::Mapping(
        seq![
            (text_yaml("name"@), optional_yaml(project.name)),
            (text_yaml("services"@), services_yaml(project.services@)),
            (text_yaml("x-wheelsticks"@), wheelsticks_yaml(project.x_wheelsticks)),
        ] + unknown_entries(project.unknown_fields@),
    )
}

/// The mapping that marks an alien field with `comment`.
pub fn mark_alien_field(comment: &str) -> (mark: Yaml)
    ensures
        mark@ == alien_mark(comment@),
{
    let key = ALIEN_FIELD_MARK.to_owned();
    let value = comment.to_owned();
    let mut entries: Vec<(Yaml, Yaml)> = Vec::new();
    entries.push((Yaml::String(key), Yaml::String(value)));
    proof {
        let e = entries@;
        assert(e.len() == 1);
        assert(e.last().0@ == text_yaml(ALIEN_FIELD_MARK@));
        assert(e.last().1@ == text_yaml(comment@));
        assert(e.drop_last() == Seq::<(Yaml, Yaml)>::empty());
        assert(entry_models(e.drop_last()) == Seq::<(YamlModel, YamlModel)>::empty());
        assert(entry_models(e) == seq![(text_yaml(ALIEN_FIELD_MARK@), text_yaml(comment@))]);
    }
    Yaml::Mapping(entries)
}


/// Appends the marks of the unknown fields `fields` to `entries`.
fn push_unknown_entries(entries: &mut Vec<(Yaml, Yaml)>, fields: &Vec<(String, Unknown)>)
    ensures
        entry_models(final(entries)@) == entry_models(old(entries)@) + unknown_entries(fields@),
{
    let ghost start = entry_models(entries@);
    let mut i: usize = 0;
    assert(unknown_entries(fields@.take(0)) == Seq::<(YamlModel, YamlModel)>::empty());
    while i < fields.len()
        invariant
            i <= fields.len(),
            entry_models(entries@) == start + unknown_entries(fields@.take(i as int)),
        decreases fields.len() - i,
    {
        push_entry(entries, Yaml::String(fields[i].0.clone()), mark_alien_field("← unknown"));
        assert(unknown_entries(fields@.take(i + 1)) == unknown_entries(fields@.take(i as int)).push(
            (text_yaml(fields@[i as int].0@), unknown_mark()),
        ));
        i = i + 1;
    }
    assert(fields@.take(fields.len() as int) == fields@);
}

/// An optional string as written out.
fn optional_text(value: &Option<String>) -> (r: Yaml)
    ensures
        r@ == optional_yaml(*value),
{
    match value {
        Some(t) => Yaml::String(t.clone()),
        None => Yaml::Null,
    }
}

impl Service {
    /// How the service is written out.
    pub fn to_yaml(&self) -> (r: Yaml)
        ensures
            r@ == service_yaml(*self),
    {
        let mut entries: Vec<(Yaml, Yaml)> = Vec::new();
        assert(entry_models(entries@) == Seq::<(YamlModel, YamlModel)>::empty());
        push_entry(&mut entries, text("build"), Yaml::String(self.build.clone()));
        let ghost known = seq![(text_yaml("build"@), text_yaml(self.build@))] + match self.profiles {
            None => Seq::empty(),
            Some(_) => seq![(text_yaml("profiles"@), unsupported_mark())],
        };
        if self.profiles.is_some() {
            push_entry(&mut entries, text("profiles"), mark_alien_field("← unsupported"));
        }
        assert(entry_models(entries@) == known);
        push_unknown_entries(&mut entries, &self.unknown_fields);
        Yaml::Mapping(entries)
    }
}

impl Wheelsticks {
    /// How the settings are written out.
    pub fn to_yaml(&self) -> (r: Yaml)
        ensures
            r@ == wheelsticks_yaml(*self),
    {
        let mut entries: Vec<(Yaml, Yaml)> = Vec::new();
        assert(entry_models(entries@) == Seq::<(YamlModel, YamlModel)>::empty());
        push_entry(&mut entries, text("local_workbench"), optional_text(&self.local_workbench));
        push_entry(&mut entries, text("remote_workbench"), optional_text(&self.remote_workbench));
        let mode = match self.schema_mode {
            SchemaMode::Default => text("default"),
            SchemaMode::Loose => text("loose"),
            SchemaMode::Strict => text("strict"),
        };
        push_entry(&mut entries, text("schema_mode"), mode);
        push_entry(
            &mut entries,
            text("user_systemd_folder"),
            optional_text(&self.user_systemd_folder),
        );
        assert(entry_models(entries@) == seq![
            (text_yaml("local_workbench"@), optional_yaml(self.local_workbench)),
            (text_yaml("remote_workbench"@), optional_yaml(self.remote_workbench)),
            (text_yaml("schema_mode"@), text_yaml(schema_mode_name(self.schema_mode))),
            (text_yaml("user_systemd_folder"@), optional_yaml(self.user_systemd_folder)),
        ]);
        push_unknown_entries(&mut entries, &self.unknown_fields);
        Yaml::Mapping(entries)
    }
}

impl Project {
    /// How the project is written out, fields in the order of the schema and each field
    /// that is not known or supported replaced by a mark.
    pub fn to_yaml(&self) -> (r: Yaml)
        ensures
            r@ == project_yaml(*self),
    {
        let mut services: Vec<(Yaml, Yaml)> = Vec::new();
        assert(entry_models(services@) == Seq::<(YamlModel, YamlModel)>::empty());
        let mut i: usize = 0;
        while i < self.services.len()
            invariant
                i <= self.services.len(),
                entry_models(services@) == self.services@.take(i as int).map_values(
                    |s: (String, Service)| (text_yaml(s.0@), service_yaml(s.1)),
                ),
            decreases self.services.len() - i,
        {
            let (name, service) = &self.services[i];
            push_entry(&mut services, Yaml::String(name.clone()), service.to_yaml());
            assert(self.services@.take(i + 1) == self.services@.take(i as int).push(
                self.services@[i as int],
            ));
            i = i + 1;
        }
        assert(self.services@.take(self.services.len() as int) == self.services@);
        let mut entries: Vec<(Yaml, Yaml)> = Vec::new();
        assert(entry_models(entries@) == Seq::<(YamlModel, YamlModel)>::empty());
        push_entry(&mut entries, text("name"), optional_text(&self.name));
        push_entry(&mut entries, text("services"), Yaml::Mapping(services));
        push_entry(&mut entries, text("x-wheelsticks"), self.x_wheelsticks.to_yaml());
        assert(entry_models(entries@) == seq![
            (text_yaml("name"@), optional_yaml(self.name)),
            (text_yaml("services"@), services_yaml(self.services@)),
            (text_yaml("x-wheelsticks"@), wheelsticks_yaml(self.x_wheelsticks)),
        ]);
        push_unknown_entries(&mut entries, &self.unknown_fields);
        Yaml::Mapping(entries)
    }
}

impl Unknown {
    /// How an unknown field is written out: as a mark in its place.
    pub fn serialize(&self) -> (r: Yaml)
        ensures
            r@ == unknown_mark(),
    {
        mark_alien_field("← unknown")
    }
}

impl Unsupported {
    /// How an unsupported field is written out: as a mark in its place.
    pub fn serialize(&self) -> (r: Yaml)
        ensures
            r@ == unsupported_mark(),
    {
        mark_alien_field("← unsupported")
    }
}

} // verus!
