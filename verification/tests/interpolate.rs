use kerek::library::compose::interpolate::{find_unset_variables, go, EnvironmentValue, InterpolationError};
use kerek::library::compose::interpolated::{
    deserialize, escape_text, find_unset_variables_in, serialize, Interpolation, Source,
};
use kerek::library::compose::yaml::Yaml;
use kerek::string_map::StringMap;

fn variables() -> StringMap<Option<String>> {
    let mut variables = StringMap::new();
    variables.insert("EMPTY".to_owned(), Some("".to_owned()));
    variables.insert("SOME".to_owned(), Some("X".to_owned()));
    variables.insert("THING".to_owned(), Some("YZ".to_owned()));
    variables.insert("UNSET".to_owned(), None);
    variables
}

fn substitute(input: &str) -> Option<String> {
    go(input, &variables(), &StringMap::new()).ok()
}

fn check(input: &str, expected: Option<&str>) {
    assert_eq!(substitute(input), expected.map(|e| e.to_owned()), "{input}");
}

#[test]
fn handles_substitution_plain() {
    check("$SOME", Some("X"));
    check("$THING", Some("YZ"));
    check("${SOME}", Some("X"));
    check("${THING}", Some("YZ"));
}

#[test]
fn handles_substitution_optional() {
    check("${SOME:-default}", Some("X"));
    check("${UNSET:-default}", Some("default"));
    check("${EMPTY:-default}", Some("default"));
    check("${SOME-default}", Some("X"));
    check("${UNSET-default}", Some("default"));
    check("${EMPTY-default}", Some(""));
    check("${UNSET-}", Some(""));
}

#[test]
fn handles_substitution_required() {
    check("${SOME:?error}", Some("X"));
    check("${UNSET:?error}", None);
    check("${EMPTY:?error}", None);
    check("${SOME?error}", Some("X"));
    check("${UNSET?error}", None);
    check("${EMPTY?error}", Some(""));
    check("${UNSET?}", None);
}

#[test]
fn handles_substitution_nested() {
    check("${SOME:-${THING}}", Some("X"));
    check("${UNSET:-${THING}}", Some("YZ"));
    check("${SOME?$THING}", Some("X"));
    check("${UNSET?$THING}", None);
    check("${SOME:-${UNSET:-default}}", Some("X"));
    check("${UNSET:-${SOME:-default}}", Some("X"));
    check("${UNSET:-${EMPTY:-default}}", Some("default"));
}

#[test]
fn handles_substitution_escapes_and_braces() {
    check("$$SOME", Some("$SOME"));
    check("${UNSET}", Some(""));
    check("} { ${SOME} } {", Some("} { X } {"));
}

#[test]
fn handles_substitution_many_lines() {
    check(
        "0. $$.\n1. $SOME.\n2. ${SOME}.\n3. ${UNSET:-default 0}.\n4. ${UNSET-default 1}.\n5. ${SOME:?error 0}.\n6. ${SOME?error 1}.\n7. ${UNSET:-${SOME:-default}}.\n8. $$SOME.\n9. ${UNSET}.\n---",
        Some("0. $.\n1. X.\n2. X.\n3. default 0.\n4. default 1.\n5. X.\n6. X.\n7. X.\n8. $SOME.\n9. .\n---"),
    );
}

#[test]
fn handles_unchanged() {
    for input in [
        "",
        "x",
        "foo",
        "$",
        "-",
        ":",
        "?",
        "{",
        "}",
        "$123_VARIABLE",
        "${123_VARIABLE}",
        "${VARIABLE",
        "${VARIABLE }",
        "${ VARIABLE}",
        "${VARIABLE/foo/bar}",
    ] {
        assert_eq!(go(input, &StringMap::new(), &StringMap::new()).ok(), Some(input.to_owned()), "{input}");
    }
}

fn unicode(value: &str) -> EnvironmentValue {
    EnvironmentValue::Unicode(value.to_owned())
}

#[test]
fn missing_variable_carries_its_message() {
    match go("a ${UNSET:?is ${SOME}} b", &variables(), &StringMap::new()) {
        Err(InterpolationError::Missing { identifier, context }) => {
            assert_eq!(identifier, "UNSET");
            assert_eq!(context, "is X");
        }
        _ => panic!("should be missing"),
    }
}

#[test]
fn non_unicode_variable_fails_where_referenced() {
    let mut environment = StringMap::new();
    environment.insert("ODD".to_owned(), EnvironmentValue::NotUnicode("\"\\xFF\"".to_owned()));
    match go("${ODD:-fallback}", &StringMap::new(), &environment) {
        Err(InterpolationError::NotUnicode { identifier, value }) => {
            assert_eq!(identifier, "ODD");
            assert_eq!(value, "\"\\xFF\"");
        }
        _ => panic!("should fail"),
    }
    assert_eq!(go("$$ODD", &StringMap::new(), &environment).ok(), Some("$ODD".to_owned()));
    let mut overrides = StringMap::new();
    overrides.insert("ODD".to_owned(), Some("fine".to_owned()));
    assert_eq!(go("$ODD", &overrides, &environment).ok(), Some("fine".to_owned()));
}

#[test]
fn overrides_come_before_environment() {
    let mut environment = StringMap::new();
    environment.insert("SOME".to_owned(), unicode("from environment"));
    environment.insert("OTHER".to_owned(), unicode("other"));
    environment.insert("UNSET".to_owned(), unicode("set in environment"));
    assert_eq!(go("$SOME $OTHER", &variables(), &environment).ok(), Some("X other".to_owned()));
    assert_eq!(go("${UNSET-unset}", &variables(), &environment).ok(), Some("unset".to_owned()));
}

#[test]
fn escaping_then_interpolating_gives_text_back() {
    for text in ["$5 $$", "plain", "${SOME}", "$$$", ""] {
        let escaped = escape_text(&text.to_owned());
        assert_eq!(go(&escaped, &variables(), &StringMap::new()).ok(), Some(text.to_owned()));
    }
}

#[test]
fn serializes() {
    let value = Yaml::Mapping(vec![(
        Yaml::String("field".into()),
        Yaml::String("$5 $$".into()),
    )]);
    match serialize(&value) {
        Yaml::Mapping(entries) => {
            assert_eq!(entries.len(), 1);
            assert!(matches!(&entries[0].0, Yaml::String(k) if k == "field"));
            assert!(matches!(&entries[0].1, Yaml::String(v) if v == "$$5 $$$$"));
        }
        _ => panic!("not a mapping"),
    }
}

#[test]
fn deserializes() {
    let mut environment = StringMap::new();
    environment.insert("WHEELSTICKS_SOME".to_owned(), unicode("X"));
    let source = Source {
        contents: Yaml::Mapping(vec![(
            Yaml::String("field".into()),
            Yaml::String("${WHEELSTICKS_SOME} days".into()),
        )]),
        variable_overrides: StringMap::new(),
        environment,
    };
    match deserialize(&source) {
        Ok(Yaml::Mapping(entries)) => {
            assert_eq!(entries.len(), 1);
            assert!(matches!(&entries[0].0, Yaml::String(k) if k == "field"));
            assert!(matches!(&entries[0].1, Yaml::String(v) if v == "X days"));
        }
        _ => panic!("not interpolated"),
    }
}

#[test]
fn deserializes_nested_values() {
    let mut environment = StringMap::new();
    environment.insert("WHEELSTICKS_SOME".to_owned(), unicode("X"));
    let source = Source {
        contents: Yaml::Mapping(vec![(
            Yaml::String("field".into()),
            Yaml::Sequence(vec![Yaml::String("${WHEELSTICKS_SOME} days".into()), Yaml::Bool(true)]),
        )]),
        variable_overrides: StringMap::new(),
        environment,
    };
    match deserialize(&source) {
        Ok(Yaml::Mapping(entries)) => match &entries[0].1 {
            Yaml::Sequence(items) => {
                assert!(matches!(&items[0], Yaml::String(v) if v == "X days"));
                assert!(matches!(&items[1], Yaml::Bool(true)));
            }
            _ => panic!("not a sequence"),
        },
        _ => panic!("not interpolated"),
    }
}

#[test]
fn deserialize_fails_on_first_missing_variable() {
    let source = Source {
        contents: Yaml::Sequence(vec![
            Yaml::String("${A:?first}".into()),
            Yaml::String("${B:?second}".into()),
        ]),
        variable_overrides: StringMap::new(),
        environment: StringMap::new(),
    };
    match deserialize(&source) {
        Err(InterpolationError::Missing { identifier, context }) => {
            assert_eq!(identifier, "A");
            assert_eq!(context, "first");
        }
        _ => panic!("should fail"),
    }
}

fn unset(input: &str) -> Vec<String> {
    find_unset_variables(input, &variables(), &StringMap::new())
}

#[test]
fn unset_plain_references_are_reported_in_order() {
    assert_eq!(unset("$UNSET ${MISSING} $SOME"), vec!["UNSET", "MISSING"]);
    assert_eq!(unset("$EMPTY ${EMPTY}"), Vec::<String>::new());
    assert_eq!(unset("no references $$UNSET"), Vec::<String>::new());
}

#[test]
fn unset_references_in_arguments_count_only_where_the_argument_is_used() {
    assert_eq!(unset("${SOME:-$UNSET}"), Vec::<String>::new());
    assert_eq!(unset("${UNSET-$MISSING}"), vec!["MISSING"]);
    assert_eq!(unset("${EMPTY:-${MISSING}}"), vec!["MISSING"]);
    assert_eq!(unset("${UNSET-x}"), Vec::<String>::new());
}

#[test]
fn unset_references_stop_at_the_first_failure() {
    assert_eq!(unset("$A ${B:?failed} $C"), vec!["A"]);
    assert_eq!(unset("${B:?$A} $C"), vec!["A"]);
}

#[test]
fn unset_references_of_a_document_follow_its_order() {
    let contents = Yaml::Mapping(vec![
        (Yaml::String("$KEY".into()), Yaml::String("$FIRST".into())),
        (
            Yaml::String("list".into()),
            Yaml::Sequence(vec![Yaml::String("${SECOND}".into()), Yaml::Number("1".into())]),
        ),
        (Yaml::String("stop".into()), Yaml::String("${THIRD?required} $FOURTH".into())),
        (Yaml::String("after".into()), Yaml::String("$FIFTH".into())),
    ]);
    let overrides = StringMap::new();
    let environment = StringMap::new();
    let interpolation = Interpolation { overrides: &overrides, environment: &environment };
    assert_eq!(find_unset_variables_in(&contents, &interpolation), vec!["FIRST", "SECOND"]);
}

#[test]
fn serializing_then_deserializing_gives_the_document_back() {
    let document = Yaml::Mapping(vec![
        (Yaml::String("field".into()), Yaml::String("$5 $$ ${UNSET:?x}".into())),
        (Yaml::String("list".into()), Yaml::Sequence(vec![Yaml::String("$A".into()), Yaml::Null])),
    ]);
    let source = Source {
        contents: serialize(&document),
        variable_overrides: variables(),
        environment: StringMap::new(),
    };
    match deserialize(&source) {
        Ok(Yaml::Mapping(entries)) => {
            assert!(matches!(&entries[0].1, Yaml::String(v) if v == "$5 $$ ${UNSET:?x}"));
            match &entries[1].1 {
                Yaml::Sequence(items) => {
                    assert!(matches!(&items[0], Yaml::String(v) if v == "$A"));
                    assert!(matches!(&items[1], Yaml::Null));
                }
                _ => panic!("not a sequence"),
            }
        }
        _ => panic!("round trip failed"),
    }
}

#[test]
fn pieces_join_in_order_and_the_first_failure_wins() {
    check("", Some(""));
    check("plain text", Some("plain text"));
    check("a$SOME-${THING}b", Some("aX-YZb"));
    match go("${A:?first} ${B:?second}", &variables(), &StringMap::new()) {
        Err(InterpolationError::Missing { identifier, context }) => {
            assert_eq!(identifier, "A");
            assert_eq!(context, "first");
        }
        _ => panic!("should fail on the first reference"),
    }
}
