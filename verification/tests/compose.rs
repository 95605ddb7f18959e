use kerek::library::compose::deserialize::{go as format_of, Format};
use kerek::library::compose::ir;
use kerek::library::compose::parse::{collect_alien_fields, go, handle_alien_fields, promote, ParseError};
use kerek::library::compose::parse_environment_variables;
use kerek::library::compose::print;
use kerek::library::compose::schema::{self, mark_alien_field, SchemaMode, Unknown, Unsupported};
use kerek::library::compose::yaml::Yaml;

fn text(s: &str) -> Yaml {
    Yaml::String(s.to_owned())
}

fn is_text(value: &Yaml, expected: &str) -> bool {
    matches!(value, Yaml::String(s) if s == expected)
}

fn environment(file: &str) -> Vec<(String, Option<String>)> {
    let variables = parse_environment_variables::go(file);
    let mut pairs: Vec<(String, Option<String>)> = vec![];
    for (key, value) in variables.entries() {
        pairs.retain(|(k, _)| k != key);
        pairs.push((key.clone(), value.clone()));
    }
    pairs.sort();
    pairs
}

fn pairs(expected: &[(&str, Option<&str>)]) -> Vec<(String, Option<String>)> {
    let mut pairs: Vec<(String, Option<String>)> = expected
        .iter()
        .map(|(k, v)| ((*k).to_owned(), v.map(|v| v.to_owned())))
        .collect();
    pairs.sort();
    pairs
}

#[test]
fn environment_file_blank() {
    assert_eq!(environment(""), pairs(&[]));
}

#[test]
fn environment_file_comment() {
    assert_eq!(environment("#X=Y"), pairs(&[]));
}

#[test]
fn environment_file_unset() {
    assert_eq!(environment("VAR"), pairs(&[("VAR", None)]));
}

#[test]
fn environment_file_empty() {
    assert_eq!(environment("VAR="), pairs(&[("VAR", Some(""))]));
}

#[test]
fn environment_file_quoted() {
    assert_eq!(environment("VAR=\"quoted\""), pairs(&[("VAR", Some("\"quoted\""))]));
}

#[test]
fn environment_file_nonempty() {
    assert_eq!(environment("VAR=VAL"), pairs(&[("VAR", Some("VAL"))]));
}

#[test]
fn environment_file_many() {
    assert_eq!(environment("X\n#\nY=Z\n"), pairs(&[("X", None), ("Y", Some("Z"))]));
}

#[test]
fn environment_file_later_line_wins_and_splits_at_first_equals() {
    assert_eq!(environment("A=1\r\nA=2=3\n"), pairs(&[("A", Some("2=3"))]));
}

fn maximal_project() -> schema::Project {
    schema::Project {
        name: Some("my_project".into()),
        services: vec![
            (
                "my_service_0".into(),
                schema::Service {
                    build: "my_build_context_0".into(),
                    profiles: Some(Unsupported(text("debug"))),
                    unknown_fields: vec![("image".into(), Unknown(text("x")))],
                },
            ),
            (
                "my_service_1".into(),
                schema::Service {
                    build: "my_build_context_1".into(),
                    profiles: None,
                    unknown_fields: vec![],
                },
            ),
        ],
        x_wheelsticks: schema::Wheelsticks {
            local_workbench: Some("my_local_workbench".into()),
            remote_workbench: Some("my_remote_workbench".into()),
            schema_mode: SchemaMode::Loose,
            user_systemd_folder: Some("my_user_systemd_folder".into()),
            unknown_fields: vec![("extra".into(), Unknown(Yaml::Null))],
        },
        unknown_fields: vec![("volumes".into(), Unknown(Yaml::Null))],
    }
}

fn minimal_project() -> schema::Project {
    schema::Project {
        name: None,
        services: vec![],
        x_wheelsticks: schema::Wheelsticks {
            local_workbench: None,
            remote_workbench: None,
            schema_mode: SchemaMode::Default,
            user_systemd_folder: None,
            unknown_fields: vec![],
        },
        unknown_fields: vec![],
    }
}

fn home() -> Option<String> {
    Some("/home/me".into())
}

#[test]
fn promotes_minimal_project_with_defaults() {
    let project = promote("my_project".into(), minimal_project(), home()).ok().unwrap();
    assert_eq!(project.name, "my_project");
    assert!(project.services.is_empty());
    assert_eq!(project.x_wheelsticks.local_workbench, ".wheelsticks");
    assert_eq!(project.x_wheelsticks.remote_workbench, ".wheelsticks");
    assert_eq!(project.x_wheelsticks.schema_mode, SchemaMode::Default);
    assert_eq!(project.x_wheelsticks.user_systemd_folder_absolute, "/home/me/.config/systemd/user");
    assert_eq!(project.x_wheelsticks.user_systemd_folder_original, ".config/systemd/user");
    assert!(project.alien_fields.is_none());
}

#[test]
fn promotes_maximal_project_with_alien_fields() {
    let project = promote("my_project".into(), maximal_project(), home()).ok().unwrap();
    assert_eq!(project.services.len(), 2);
    assert_eq!(project.services[0].0, "my_service_0");
    assert_eq!(project.services[0].1.build, "my_build_context_0");
    assert_eq!(project.x_wheelsticks.local_workbench, "my_local_workbench");
    assert_eq!(project.x_wheelsticks.user_systemd_folder_absolute, "/home/me/my_user_systemd_folder");
    assert_eq!(project.x_wheelsticks.user_systemd_folder_original, "my_user_systemd_folder");
    // services: my_service_0: {profiles: ← unsupported, image: ← unknown}; volumes: ← unknown
    match project.alien_fields {
        Some(Yaml::Mapping(top)) => {
            assert_eq!(top.len(), 2);
            assert!(is_text(&top[0].0, "services"));
            assert!(is_text(&top[1].0, "volumes"));
            assert!(is_text(&top[1].1, "← unknown"));
            match &top[0].1 {
                Yaml::Mapping(services) => {
                    assert_eq!(services.len(), 1);
                    assert!(is_text(&services[0].0, "my_service_0"));
                    match &services[0].1 {
                        Yaml::Mapping(fields) => {
                            assert_eq!(fields.len(), 2);
                            assert!(is_text(&fields[0].0, "profiles"));
                            assert!(is_text(&fields[0].1, "← unsupported"));
                            assert!(is_text(&fields[1].0, "image"));
                            assert!(is_text(&fields[1].1, "← unknown"));
                        }
                        _ => panic!("service aliens"),
                    }
                }
                _ => panic!("services aliens"),
            }
        }
        _ => panic!("no alien fields"),
    }
}

#[test]
fn alien_fields_skip_extensions_and_keep_sequences() {
    let mark = mark_alien_field("here");
    let value = Yaml::Mapping(vec![
        (text("x-ignored"), mark_alien_field("ignored")),
        (text("list"), Yaml::Sequence(vec![Yaml::Null, mark_alien_field("item")])),
        (text("plain"), text("value")),
        (text("nested"), Yaml::Mapping(vec![(text("inner"), mark)])),
    ]);
    match collect_alien_fields(&value) {
        Some(Yaml::Mapping(entries)) => {
            assert_eq!(entries.len(), 2);
            assert!(is_text(&entries[0].0, "list"));
            assert!(matches!(&entries[0].1, Yaml::Sequence(items) if items.len() == 1 && is_text(&items[0], "item")));
            assert!(is_text(&entries[1].0, "nested"));
        }
        _ => panic!("expected aliens"),
    }
    assert!(collect_alien_fields(&text("x")).is_none());
    assert!(collect_alien_fields(&Yaml::Sequence(vec![])).is_none());
}

#[test]
fn alien_mark_is_recognised_through_tags() {
    let value = Yaml::Mapping(vec![(
        Yaml::Tagged("!t".into(), Box::new(text("x-wheelsticks-alien"))),
        text("comment"),
    )]);
    assert!(matches!(collect_alien_fields(&value), Some(v) if is_text(&v, "comment")));
}

fn project_with_aliens(mode: SchemaMode) -> ir::Project {
    ir::Project {
        name: "p".into(),
        services: vec![],
        x_wheelsticks: ir::Wheelsticks {
            local_workbench: "l".into(),
            remote_workbench: "r".into(),
            schema_mode: mode,
            user_systemd_folder_absolute: "/home/me/s".into(),
            user_systemd_folder_original: "s".into(),
        },
        alien_fields: Some(text("alien")),
    }
}

#[test]
fn default_mode_warns_about_alien_fields() {
    assert!(matches!(handle_alien_fields(&project_with_aliens(SchemaMode::Default)), Ok(Some(v)) if is_text(&v, "alien")));
}

#[test]
fn loose_mode_ignores_alien_fields() {
    assert!(matches!(handle_alien_fields(&project_with_aliens(SchemaMode::Loose)), Ok(None)));
}

#[test]
fn strict_mode_refuses_alien_fields() {
    assert!(matches!(handle_alien_fields(&project_with_aliens(SchemaMode::Strict)), Err(v) if is_text(&v, "alien")));
}

#[test]
fn parse_refuses_alien_fields_in_strict_mode() {
    let mut project = maximal_project();
    project.x_wheelsticks.schema_mode = SchemaMode::Strict;
    assert!(matches!(go("p".into(), project, home()), Err(ParseError::AlienFields(_))));
    let parsed = go("p".into(), minimal_project(), home()).ok().unwrap();
    assert!(parsed.warning.is_none());
    assert_eq!(parsed.project.name, "p");
}

#[test]
fn prints_then_promotes_to_same_project() {
    let project = promote("my_project".into(), {
        let mut p = maximal_project();
        p.services[0].1.profiles = None;
        p.services[0].1.unknown_fields = vec![];
        p.x_wheelsticks.unknown_fields = vec![];
        p.unknown_fields = vec![];
        p
    }, home()).ok().unwrap();
    assert!(project.alien_fields.is_none());
    let demoted = print::demote(&project);
    let again = promote(project.name.clone(), demoted, home()).ok().unwrap();
    assert_eq!(again.name, project.name);
    assert_eq!(again.services.len(), project.services.len());
    for (a, b) in again.services.iter().zip(project.services.iter()) {
        assert_eq!(a.0, b.0);
        assert_eq!(a.1.build, b.1.build);
    }
    assert_eq!(again.x_wheelsticks.local_workbench, project.x_wheelsticks.local_workbench);
    assert_eq!(again.x_wheelsticks.remote_workbench, project.x_wheelsticks.remote_workbench);
    assert_eq!(again.x_wheelsticks.schema_mode, project.x_wheelsticks.schema_mode);
    assert_eq!(again.x_wheelsticks.user_systemd_folder_absolute, project.x_wheelsticks.user_systemd_folder_absolute);
    assert_eq!(again.x_wheelsticks.user_systemd_folder_original, project.x_wheelsticks.user_systemd_folder_original);
    assert!(again.alien_fields.is_none());
}

#[test]
fn printed_document_lists_every_setting() {
    let project = promote("p".into(), minimal_project(), home()).ok().unwrap();
    match print::go(&project) {
        Yaml::Mapping(top) => {
            assert_eq!(top.len(), 3);
            assert!(is_text(&top[0].0, "name") && is_text(&top[0].1, "p"));
            assert!(is_text(&top[1].0, "services"));
            match &top[2].1 {
                Yaml::Mapping(settings) => {
                    assert_eq!(settings.len(), 4);
                    assert!(is_text(&settings[2].0, "schema_mode") && is_text(&settings[2].1, "default"));
                    assert!(is_text(&settings[3].0, "user_systemd_folder"));
                    assert!(is_text(&settings[3].1, ".config/systemd/user"));
                }
                _ => panic!("settings"),
            }
        }
        _ => panic!("not a mapping"),
    }
}

#[test]
fn promote_without_home_fails() {
    assert!(promote("p".into(), minimal_project(), None).is_err());
    assert!(matches!(go("p".into(), minimal_project(), None), Err(ParseError::MissingHome)));
}

#[test]
fn absolute_user_systemd_folder_is_kept_as_given() {
    let mut project = minimal_project();
    project.x_wheelsticks.user_systemd_folder = Some("/etc/systemd/user".into());
    let promoted = promote("p".into(), project, Some("/home/me/".into())).ok().unwrap();
    assert_eq!(promoted.x_wheelsticks.user_systemd_folder_absolute, "/etc/systemd/user");
    let promoted = promote("p".into(), minimal_project(), Some("/home/me/".into())).ok().unwrap();
    assert_eq!(promoted.x_wheelsticks.user_systemd_folder_absolute, "/home/me/.config/systemd/user");
}

#[test]
fn schema_marks_replace_unknown_values() {
    assert!(matches!(Unknown(text("anything")).serialize(), Yaml::Mapping(e) if e.len() == 1 && is_text(&e[0].0, "x-wheelsticks-alien") && is_text(&e[0].1, "← unknown")));
    assert!(matches!(Unsupported(text("anything")).serialize(), Yaml::Mapping(e) if e.len() == 1 && is_text(&e[0].1, "← unsupported")));
    assert_eq!(SchemaMode::default_mode(), SchemaMode::Default);
}

#[test]
fn format_follows_extension() {
    assert_eq!(format_of("compose.toml"), Format::Toml);
    assert_eq!(format_of("dir/compose.yaml"), Format::Yaml);
    assert_eq!(format_of("toml"), Format::Yaml);
    assert_eq!(format_of(".toml"), Format::Yaml);
}

#[test]
fn model_workbenches_default_to_wheelsticks() {
    let wheelsticks = kerek::library::compose::model::Wheelsticks::default();
    assert_eq!(wheelsticks.local_workbench, ".wheelsticks");
    assert_eq!(wheelsticks.remote_workbench, ".wheelsticks");
}
