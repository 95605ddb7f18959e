use super::interpolated::{deserialize, mapped, Interpolation, Source};
use super::yaml::{untag, untagged, Yaml, YamlModel};
use crate::library::command::optional_view;
use crate::path::{file_name_of, path_file_name};
use vstd::prelude::*;

verus! {

/// Where the name of a Compose project can come from.
pub struct In<'a> {
    pub compose_source: &'a Source,
    pub override_: Option<String>,
    pub project_folder: String,
}

/// The name of a project when nothing else gives one.
pub const LAST_RESORT_NAME: &'static str = "default";

/// The values of the entries of a mapping whose key, tags aside, is the string `name`.
pub open spec fn name_values(entries: Seq<(YamlModel, YamlModel)>) -> Seq<YamlModel>
    decreases entries.len(),
{
    if entries.len() == 0 {
        Seq::empty()
    } else if untag(entries.last().0) == YamlModel::String("name"@) {
        name_values(entries.drop_last()).push(entries.last().1)
    } else {
        name_values(entries.drop_last())
    }
}

/// The `name` field of a Compose document read as a structure with a required string
/// field `name`: tags aside, the document is a mapping (null counts as an empty one) whose
/// keys are all strings, with exactly one key `name` whose value is a string.
pub open spec fn name_field(document: YamlModel) -> Option<Seq<char>> {
    match untag(document) {
        YamlModel::Mapping(entries) => {
            let values = name_values(entries);
            if (forall|i: int| 0 <= i < entries.len() ==> #[trigger] untag(entries[i].0) is String)
                && values.len() == 1 && untag(values[0]) is String {
                Some(untag(values[0])->String_0)
            } else {
                None
            }
        },
        _ => None,
    }
}

/// The name of a project given the name passed to override it, the document of its
/// Compose file with its variables interpolated (or the failure to interpolate them) and
/// the final component of its folder: the first of these three that gives a name, else
/// `default`.
pub open spec fn chosen_name(
    override_: Option<Seq<char>>,
    interpolated: Result<YamlModel, super::interpolate::Failure>,
    folder_name: Option<Seq<char>>,
) -> Seq<char> {
    match override_ {
        Some(name) => name,
        None => match interpolated {
            Ok(document) if name_field(document) is Some => name_field(document)->Some_0,
            _ => match folder_name {
                Some(name) => name,
                None => LAST_RESORT_NAME@,
            },
        },
    }
}

/// The `name` field of a Compose document, if it has a valid one.
#[verifier::rlimit(30)]
pub fn get_name_from_document(document: &Yaml) -> (name: Option<String>)
    ensures
        optional_view(name) == name_field(document@),
{
    match untagged(document) {
        Yaml::Mapping(entries) => {
            let mut found: Option<&Yaml> = None;
            let mut count: usize = 0;
            let mut i: usize = 0;
            proof {
                super::yaml::lemma_entry_models_len(entries@);
            }
            let ghost models = super::yaml::entry_models(entries@);
            assert(untag(document@) == YamlModel::Mapping(models));
            assert(models.take(0) == Seq::<(YamlModel, YamlModel)>::empty());
            while i < entries.len()
                invariant
                    i <= entries.len(),
                    models == super::yaml::entry_models(entries@),
                    models.len() == entries.len(),
                    forall|k: int|
                        0 <= k < models.len() ==> #[trigger] models[k] == (
                            entries@[k].0@,
                            entries@[k].1@,
                        ),
                    forall|k: int| 0 <= k < i ==> #[trigger] untag(models[k].0) is String,
                    untag(document@) == YamlModel::Mapping(models),
                    count == name_values(models.take(i as int)).len(),
                    count <= i,
                    count == 1 ==> (found matches Some(v) && v@ == name_values(
                        models.take(i as int),
                    )[0]),
                decreases entries.len() - i,
            {
                proof {
                    assert(models.take(i + 1).drop_last() == models.take(i as int));
                    assert(models.take(i + 1).last() == models[i as int]);
                }
                match untagged(&entries[i].0) {
                    Yaml::String(key) => {
                        if *key == "name".to_owned() {
                            if count == 0 {
                                found = Some(&entries[i].1);
                            }
                            count = count + 1;
                        }
                    },
                    _ => {
                        assert(!(untag(models[i as int].0) is String));
                        return None;
                    },
                }
                i = i + 1;
            }
            assert(models.take(entries.len() as int) == models);
            if count == 1 {
                match found {
                    Some(value) => match untagged(value) {
                        Yaml::String(name) => Some(name.clone()),
                        _ => None,
                    },
                    None => None,
                }
            } else {
                None
            }
        },
        Yaml::Null => None,
        _ => None,
    }
}

/// The name passed to override the project name, if any.
pub fn get_name_from_override(in_: &In) -> (name: Option<String>)
    ensures
        optional_view(name) == optional_view(in_.override_),
{
    match &in_.override_ {
        Some(name) => Some(name.clone()),
        None => None,
    }
}

/// The `name` field of the Compose file, its variables interpolated, if it has a valid
/// one and interpolating succeeds.
pub fn get_name_from_compose_contents(in_: &In) -> (name: Option<String>)
    ensures
        optional_view(name) == match mapped(
            in_.compose_source.contents@,
            &Interpolation {
                overrides: &in_.compose_source.variable_overrides,
                environment: &in_.compose_source.environment,
            },
        ) {
            Ok(document) => name_field(document),
            Err(_) => None,
        },
{
    match deserialize(in_.compose_source) {
        Ok(document) => get_name_from_document(&document),
        Err(_) => None,
    }
}

/// The final component of the project folder, if it has one.
pub fn get_name_from_project_folder(in_: &In) -> (name: Option<String>)
    ensures
        optional_view(name) == path_file_name(in_.project_folder@),
{
    file_name_of(in_.project_folder.as_str())
}

/// The name of the project given the names that the override, the Compose file and the
/// project folder give, in this order of precedence; `default` if none does.
pub fn choose_among(
    from_override: Option<String>,
    from_contents: Option<String>,
    from_folder: Option<String>,
) -> (name: String)
    ensures
        name@ == match (optional_view(from_override), optional_view(from_contents), optional_view(from_folder)) {
            (Some(n), _, _) => n,
            (None, Some(n), _) => n,
            (None, None, Some(n)) => n,
            (None, None, None) => LAST_RESORT_NAME@,
        },
{
    match from_override {
        Some(name) => name,
        None => match from_contents {
            Some(name) => name,
            None => match from_folder {
                Some(name) => name,
                None => LAST_RESORT_NAME.to_owned(),
            },
        },
    }
}

/// The name of a Compose project: the overriding name if one is given, else the `name`
/// field of its Compose file (its variables interpolated), else the name of its folder,
/// else `default`.
pub fn go(in_: In) -> (name: String)
    ensures
        name@ == chosen_name(
            optional_view(in_.override_),
            mapped(
                in_.compose_source.contents@,
                &Interpolation {
                    overrides: &in_.compose_source.variable_overrides,
                    environment: &in_.compose_source.environment,
                },
            ),
            path_file_name(in_.project_folder@),
        ),
{
    let from_override = get_name_from_override(&in_);
    let from_contents = get_name_from_compose_contents(&in_);
    let from_folder = get_name_from_project_folder(&in_);
    choose_among(from_override, from_contents, from_folder)
}

} // verus!
