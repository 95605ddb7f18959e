use super::ir;
use super::schema;
use super::schema::{project_yaml, SchemaMode, ALIEN_FIELD_MARK};
use super::yaml::{entry_models, models, push_entry, push_item, untag, untagged, Yaml, YamlModel};
use crate::path::{join, joined};
use crate::text::{chars_of, is_prefix, starts_with};
use vstd::prelude::*;

verus! {

/// Where a Compose project is read from.
pub struct Parameters {
    pub compose_file: String,
    pub project_name: Option<String>,
}

/// The local and remote workbench folder unless the Compose file names one.
pub const DEFAULT_WORKBENCH: &'static str = ".wheelsticks";

/// The folder of the user's systemd units, relative to the home folder, unless the Compose
/// file names one.
pub const DEFAULT_USER_SYSTEMD_FOLDER: &'static str = ".config/systemd/user";

/// The names of the services of a Compose file.
pub open spec fn schema_service_names(project: schema::Project) -> Seq<Seq<char>> {
    project.services@.map_values(|s: (String, schema::Service)| s.0@)
}

/// The home folder is unknown: `HOME` is unset or not Unicode.
pub struct MissingHome;

/// Whether `key` is a string that starts with `x-`, the prefix of extension fields.
pub open spec fn is_extension_key(key: YamlModel) -> bool {
    key matches YamlModel::String(k) && is_prefix("x-"@, k)
}

/// The fields of a written-out project that are marked as alien, each in its place: a
/// mapping whose only key is the mark stands for the alien field that it marks; elsewhere
/// only what holds marks is kept, and extension fields (keys starting with `x-`) are
/// passed over. `None` if there is no mark.
pub open spec fn alien_fields_of(value: YamlModel) -> Option<YamlModel>
    decreases value,
{
    match value {
        YamlModel::Mapping(entries) => if entries.len() == 1 && untag(entries[0].0)
            == YamlModel::String(ALIEN_FIELD_MARK@) {
            Some(entries[0].1)
        } else {
            let collected = alien_entries(entries);
            if collected.len() > 0 {
                Some(YamlModel::Mapping(collected))
            } else {
                None
            }
        },
        YamlModel::Sequence(items) => {
            let collected = alien_items(items);
            if collected.len() > 0 {
                Some(YamlModel::Sequence(collected))
            } else {
                None
            }
        },
        _ => None,
    }
}

/// The entries of a mapping that hold marks, each with only what its value holds of them.
pub open spec fn alien_entries(entries: Seq<(YamlModel, YamlModel)>) -> Seq<(YamlModel, YamlModel)>
    decreases entries,
{
    if entries.len() == 0 {
        Seq::empty()
    } else {
        let prefix = alien_entries(entries.drop_last());
        let key = entries.last().0;
        if is_extension_key(key) {
            prefix
        } else {
            match alien_fields_of(entries.last().1) {
                Some(found) => prefix.push((key, found)),
                None => prefix,
            }
        }
    }
}

/// What the items of a sequence hold of marks.
pub open spec fn alien_items(items: Seq<YamlModel>) -> Seq<YamlModel>
    decreases items,
{
    if items.len() == 0 {
        Seq::empty()
    } else {
        let prefix = alien_items(items.drop_last());
        match alien_fields_of(items.last()) {
            Some(found) => prefix.push(found),
            None => prefix,
        }
    }
}

/// Whether `key` is a string that starts with `x-`.
fn is_extension_key_exec(key: &Yaml) -> (r: bool)
    ensures
        r == is_extension_key(key@),
{
    match key {
        Yaml::String(k) => {
            let prefix = chars_of("x-");
            starts_with(&chars_of(k.as_str()), &prefix)
        },
        _ => false,
    }
}

/// Whether `key` is the alien-field mark, tags aside.
fn is_mark(key: &Yaml) -> (r: bool)
    ensures
        r == (untag(key@) == YamlModel::String(ALIEN_FIELD_MARK@)),
{
    match untagged(key) {
        Yaml::String(k) => *k == ALIEN_FIELD_MARK.to_owned(),
        _ => false,
    }
}

/// The fields of a written-out project that are marked as alien, each in its place.
#[verifier::rlimit(30)]
pub fn collect_alien_fields(value: &Yaml) -> (found: Option<Yaml>)
    ensures
        ir::optional_model(found) == alien_fields_of(value@),
    decreases value,
{
    match value {
        Yaml::Mapping(v) => {
            if v.len() == 1 && is_mark(&v[0].0) {
                proof {
                    crate::library::compose::yaml::lemma_entry_models_len(v@);
                }
                return Some(super::yaml::copy(&v[0].1));
            }
            proof {
                crate::library::compose::yaml::lemma_entry_models_len(v@);
            }
            let mut collected: Vec<(Yaml, Yaml)> = Vec::new();
            let mut i: usize = 0;
            assert(v@.take(0) == Seq::<(Yaml, Yaml)>::empty());
            assert(entry_models(collected@) == Seq::<(YamlModel, YamlModel)>::empty());
            while i < v.len()
                invariant
                    *value == Yaml::Mapping(*v),
                    i <= v.len(),
                    entry_models(collected@) == alien_entries(entry_models(v@.take(i as int))),
                decreases v.len() - i,
            {
                proof {
                    assert(decreases_to!(*value => (*value)->Mapping_0));
                    assert(decreases_to!((*value)->Mapping_0 => (*value)->Mapping_0@));
                    assert(decreases_to!((*value)->Mapping_0@ => (*value)->Mapping_0@[i as int]));
                    assert(decreases_to!((*value)->Mapping_0@[i as int] => (*value)->Mapping_0@[i as int].1));
                    let done = entry_models(v@.take(i as int));
                    let next = entry_models(v@.take(i + 1));
                    assert(v@.take(i + 1).drop_last() == v@.take(i as int));
                    assert(v@.take(i + 1).last() == v@[i as int]);
                    assert(next == done.push((v@[i as int].0@, v@[i as int].1@)));
                    assert(next.drop_last() == done);
                }
                if !is_extension_key_exec(&v[i].0) {
                    if let Some(found) = collect_alien_fields(&v[i].1) {
                        push_entry(&mut collected, super::yaml::copy(&v[i].0), found);
                    }
                }
                i = i + 1;
            }
            assert(v@.take(v.len() as int) == v@);
            proof {
                crate::library::compose::yaml::lemma_entry_models_len(collected@);
            }
            if collected.len() > 0 {
                Some(Yaml::Mapping(collected))
            } else {
                None
            }
        },
        Yaml::Sequence(v) => {
            let mut collected: Vec<Yaml> = Vec::new();
            let mut i: usize = 0;
            assert(v@.take(0) == Seq::<Yaml>::empty());
            assert(models(collected@) == Seq::<YamlModel>::empty());
            proof {
                crate::library::compose::yaml::lemma_models_len(v@);
            }
            while i < v.len()
                invariant
                    *value == Yaml::Sequence(*v),
                    i <= v.len(),
                    models(collected@) == alien_items(models(v@.take(i as int))),
                decreases v.len() - i,
            {
                proof {
                    assert(decreases_to!(*value => (*value)->Sequence_0));
                    assert(decreases_to!((*value)->Sequence_0 => (*value)->Sequence_0@));
                    assert(decreases_to!((*value)->Sequence_0@ => (*value)->Sequence_0@[i as int]));
                    let done = models(v@.take(i as int));
                    let next = models(v@.take(i + 1));
                    assert(v@.take(i + 1).drop_last() == v@.take(i as int));
                    assert(v@.take(i + 1).last() == v@[i as int]);
                    assert(next == done.push(v@[i as int]@));
                    assert(next.drop_last() == done);
                }
                if let Some(found) = collect_alien_fields(&v[i]) {
                    push_item(&mut collected, found);
                }
                i = i + 1;
            }
            assert(v@.take(v.len() as int) == v@);
            proof {
                crate::library::compose::yaml::lemma_models_len(collected@);
            }
            if collected.len() > 0 {
                Some(Yaml::Sequence(collected))
            } else {
                None
            }
        },
        _ => None,
    }
}


/// `value` if given, else `default`.
pub open spec fn or_default(value: Option<String>, default: Seq<char>) -> Seq<char> {
    match value {
        Some(v) => v@,
        None => default,
    }
}

/// The folder of the user's systemd units that `project` gives, relative to the home
/// folder.
pub open spec fn user_systemd_folder(project: schema::Project) -> Seq<char> {
    or_default(project.x_wheelsticks.user_systemd_folder, DEFAULT_USER_SYSTEMD_FOLDER@)
}

/// The project that a Compose file gives under the name `name` with the home folder
/// `home`: defaults applied to the settings, the folder of the user's systemd units also
/// joined to the home folder, and the fields that the schema does not know or support
/// collected.
pub open spec fn promoted(name: Seq<char>, project: schema::Project, home: Seq<char>) -> ir::ProjectView {
    ir::ProjectView {
        name,
        services: project.services@.map_values(
            |s: (String, schema::Service)| (s.0@, s.1.build@),
        ),
        x_wheelsticks: ir::WheelsticksView {
            local_workbench: or_default(project.x_wheelsticks.local_workbench, DEFAULT_WORKBENCH@),
            remote_workbench: or_default(
                project.x_wheelsticks.remote_workbench,
                DEFAULT_WORKBENCH@,
            ),
            schema_mode: project.x_wheelsticks.schema_mode,
            user_systemd_folder_absolute: joined(home, user_systemd_folder(project)),
            user_systemd_folder_original: user_systemd_folder(project),
        },
        alien_fields: alien_fields_of(project_yaml(project)),
    }
}

/// `value` if given, else `default`.
fn unwrap_or(value: Option<String>, default: &str) -> (r: String)
    ensures
        r@ == or_default(value, default@),
{
    match value {
        Some(v) => v,
        None => default.to_owned(),
    }
}

/// The project that a Compose file gives under the name `project_name` with the home
/// folder `home`; without a home folder, none.
pub fn promote(project_name: String, project: schema::Project, home: Option<String>) -> (promoted_project: Result<ir::Project, MissingHome>)
    requires
        ir::sorted_names(schema_service_names(project)),
    ensures
        match home {
            None => promoted_project is Err,
            Some(h) => promoted_project matches Ok(p) && p@ == promoted(project_name@, project, h@)
                && ir::sorted_names(ir::service_names(p@)),
        },
{
    let home = match home {
        Some(h) => h,
        None => return Err(MissingHome),
    };
    let alien_fields = collect_alien_fields(&project.to_yaml());
    let ghost given = project;
    let schema::Project { name: _, services, x_wheelsticks, unknown_fields: _ } = project;
    let mut promoted_services: Vec<(String, ir::Service)> = Vec::new();
    let mut i: usize = 0;
    while i < services.len()
        invariant
            i <= services.len(),
            services == given.services,
            promoted_services@.map_values(|s: (String, ir::Service)| (s.0@, s.1.build@))
                == services@.take(i as int).map_values(
                |s: (String, schema::Service)| (s.0@, s.1.build@),
            ),
        decreases services.len() - i,
    {
        let (key, service) = &services[i];
        let ghost before = promoted_services@;
        promoted_services.push((key.clone(), ir::Service { build: service.build.clone() }));
        assert(services@.take(i + 1) == services@.take(i as int).push(services@[i as int]));
        assert(promoted_services@ == before.push(promoted_services@.last()));
        assert(promoted_services@.map_values(|s: (String, ir::Service)| (s.0@, s.1.build@))
            == before.map_values(|s: (String, ir::Service)| (s.0@, s.1.build@)).push(
            (key@, service.build@),
        ));
        assert(services@.take(i + 1).map_values(|s: (String, schema::Service)| (s.0@, s.1.build@))
            == services@.take(i as int).map_values(
            |s: (String, schema::Service)| (s.0@, s.1.build@),
        ).push((key@, service.build@)));
        i = i + 1;
    }
    assert(services@.take(services.len() as int) == services@);
    let original = unwrap_or(x_wheelsticks.user_systemd_folder, DEFAULT_USER_SYSTEMD_FOLDER);
    let absolute = join(home.as_str(), original.as_str());
    let project = ir::Project {
        name: project_name,
        services: promoted_services,
        x_wheelsticks: ir::Wheelsticks {
            local_workbench: unwrap_or(x_wheelsticks.local_workbench, DEFAULT_WORKBENCH),
            remote_workbench: unwrap_or(x_wheelsticks.remote_workbench, DEFAULT_WORKBENCH),
            schema_mode: x_wheelsticks.schema_mode,
            user_systemd_folder_absolute: absolute,
            user_systemd_folder_original: original,
        },
        alien_fields,
    };
    assert(ir::service_names(project@) == schema_service_names(given));
    Ok(project)
}

/// What becomes of a project with fields that the schema does not know or support: the
/// default mode accepts it with a warning that shows those fields (`Ok(Some(..))`), the
/// loose mode accepts it silently, the strict mode refuses it (`Err` with those fields).
pub open spec fn alien_verdict(project: ir::ProjectView) -> Result<Option<YamlModel>, YamlModel> {
    match project.alien_fields {
        None => Ok(None),
        Some(aliens) => match project.x_wheelsticks.schema_mode {
            SchemaMode::Default => Ok(Some(aliens)),
            SchemaMode::Loose => Ok(None),
            SchemaMode::Strict => Err(aliens),
        },
    }
}

/// The value of a verdict.
pub open spec fn verdict_view(verdict: Result<Option<Yaml>, Yaml>) -> Result<Option<YamlModel>, YamlModel> {
    match verdict {
        Ok(warning) => Ok(ir::optional_model(warning)),
        Err(aliens) => Err(aliens@),
    }
}

/// What becomes of the fields of `project` that the schema does not know or support:
/// `Ok` with the fields to warn about, if any, or `Err` with the fields that refuse it.
pub fn handle_alien_fields(project: &ir::Project) -> (verdict: Result<Option<Yaml>, Yaml>)
    ensures
        verdict_view(verdict) == alien_verdict(project@),
{
    match &project.alien_fields {
        None => Ok(None),
        Some(aliens) => match project.x_wheelsticks.schema_mode {
            SchemaMode::Default => Ok(Some(super::yaml::copy(aliens))),
            SchemaMode::Loose => Ok(None),
            SchemaMode::Strict => Err(super::yaml::copy(aliens)),
        },
    }
}

/// A project read from a Compose file, with the fields to warn about.
pub struct Parsed {
    pub project: ir::Project,
    pub warning: Option<Yaml>,
}

/// Why a Compose file gives no project.
pub enum ParseError {
    /// The home folder is unknown.
    MissingHome,
    /// The schema mode refuses these fields that the schema does not know or support.
    AlienFields(Yaml),
}

/// The project that the deserialized Compose file `project` gives under the name
/// `project_name` with the home folder `home`, checked for fields that the schema does
/// not know or support: an error without a home folder, or with those fields where the
/// schema mode refuses them.
pub fn go(project_name: String, project: schema::Project, home: Option<String>) -> (parsed: Result<Parsed, ParseError>)
    requires
        ir::sorted_names(schema_service_names(project)),
    ensures
        match home {
            None => parsed matches Err(ParseError::MissingHome),
            Some(h) => match parsed {
                Ok(p) => p.project@ == promoted(project_name@, project, h@) && alien_verdict(
                    p.project@,
                ) == Ok::<Option<YamlModel>, YamlModel>(ir::optional_model(p.warning))
                    && ir::sorted_names(ir::service_names(p.project@)),
                Err(ParseError::AlienFields(aliens)) => alien_verdict(
                    promoted(project_name@, project, h@),
                ) == Err::<Option<YamlModel>, YamlModel>(aliens@),
                Err(ParseError::MissingHome) => false,
            },
        },
{
    let project = match promote(project_name, project, home) {
        Ok(p) => p,
        Err(MissingHome) => return Err(ParseError::MissingHome),
    };
    match handle_alien_fields(&project) {
        Ok(warning) => Ok(Parsed { project, warning }),
        Err(aliens) => Err(ParseError::AlienFields(aliens)),
    }
}

} // verus!
