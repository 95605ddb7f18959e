use kerek::library::compose::get_project_name::{go, get_name_from_document, In};
use kerek::library::compose::interpolated::Source;
use kerek::library::compose::yaml::Yaml;
use kerek::path::file_name_of;
use kerek::string_map::StringMap;

fn text(s: &str) -> Yaml {
    Yaml::String(s.to_owned())
}

fn mapping(entries: Vec<(Yaml, Yaml)>) -> Yaml {
    Yaml::Mapping(entries)
}

fn source(contents: Yaml) -> Source {
    Source {
        contents,
        variable_overrides: StringMap::new(),
        environment: StringMap::new(),
    }
}

#[test]
fn priority_0_is_override() {
    let compose_source = source(mapping(vec![(text("name"), text("a"))]));
    assert_eq!(
        go(In {
            compose_source: &compose_source,
            override_: Some("b".into()),
            project_folder: "c".into(),
        }),
        "b",
    )
}

#[test]
fn priority_1_is_compose_contents() {
    let compose_source = source(mapping(vec![(text("name"), text("a"))]));
    assert_eq!(
        go(In {
            compose_source: &compose_source,
            override_: None,
            project_folder: "c".into(),
        }),
        "a",
    )
}

#[test]
fn priority_2_is_project_folder() {
    let compose_source = source(Yaml::Null);
    assert_eq!(
        go(In {
            compose_source: &compose_source,
            override_: None,
            project_folder: "c".into(),
        }),
        "c",
    )
}

#[test]
fn priority_3_is_last_resort() {
    let compose_source = source(Yaml::Null);
    assert_eq!(
        go(In {
            compose_source: &compose_source,
            override_: None,
            project_folder: "".into(),
        }),
        "default",
    )
}

#[test]
fn name_from_contents_is_interpolated() {
    let mut overrides = StringMap::new();
    overrides.insert("PROJECT".to_owned(), Some("wheels".to_owned()));
    let compose_source = Source {
        contents: mapping(vec![(text("name"), text("my-${PROJECT}"))]),
        variable_overrides: overrides,
        environment: StringMap::new(),
    };
    assert_eq!(
        go(In {
            compose_source: &compose_source,
            override_: None,
            project_folder: "c".into(),
        }),
        "my-wheels",
    )
}

#[test]
fn name_with_missing_variable_falls_back_to_folder() {
    let compose_source = source(mapping(vec![(text("name"), text("${NAME:?unset}"))]));
    assert_eq!(
        go(In {
            compose_source: &compose_source,
            override_: None,
            project_folder: "some/folder/".into(),
        }),
        "folder",
    )
}

#[test]
fn name_field_must_be_a_string_of_a_mapping_with_string_keys() {
    assert_eq!(
        get_name_from_document(&mapping(vec![(text("name"), Yaml::Number("1".into()))])),
        None
    );
    assert_eq!(
        get_name_from_document(&mapping(vec![
            (text("name"), text("a")),
            (Yaml::Number("1".into()), text("b")),
        ])),
        None
    );
    assert_eq!(
        get_name_from_document(&mapping(vec![(text("name"), text("a")), (text("name"), text("b"))])),
        None
    );
    assert_eq!(
        get_name_from_document(&mapping(vec![
            (text("services"), Yaml::Null),
            (Yaml::Tagged("!key".into(), Box::new(text("name"))), text("tagged")),
        ])),
        Some("tagged".to_owned())
    );
    assert_eq!(get_name_from_document(&Yaml::Null), None);
    assert_eq!(get_name_from_document(&text("name")), None);
}

#[test]
fn file_name_is_final_component() {
    assert_eq!(file_name_of("a/b/"), Some("b".to_owned()));
    assert_eq!(file_name_of("tmp/foo.txt"), Some("foo.txt".to_owned()));
    assert_eq!(file_name_of("foo/.."), None);
    assert_eq!(file_name_of("/"), None);
    assert_eq!(file_name_of("."), None);
    assert_eq!(file_name_of(""), None);
    assert_eq!(file_name_of("foo.txt/.//"), Some("foo.txt".to_owned()));
    assert_eq!(file_name_of("/usr/bin/"), Some("bin".to_owned()));
}
