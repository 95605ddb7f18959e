use kerek::library::command::{CommandLine, StatusWithinTime};
use kerek::string_map::StringMap;
use kerek::subcommand::deploy::deploy_locally::{
    add_container, apply_change, csv_fields, go, health_check_step, load_target_images,
    parse_image_metadata, plan_changes, remove_container, ChangeStep, ContainerChange, Image,
    Operator, RawImage, INITIAL_HEALTH_CHECK_SECONDS,
};

fn image(id: &str, digest: &str, count: u16, names: &[&str]) -> Image {
    Image {
        container_count: count,
        container_names: names.iter().map(|n| (*n).to_owned()).collect(),
        digest: digest.to_owned(),
        health_check: None,
        image_id: id.to_owned(),
        networks: vec![],
        port_mappings: vec![],
        volume_mounts: vec![],
    }
}

fn summary(changes: &[ContainerChange]) -> Vec<(String, Operator, String)> {
    changes
        .iter()
        .map(|c| (c.container_name.clone(), c.operator, c.image_digest.clone()))
        .collect()
}

fn args(command: &CommandLine) -> Vec<&str> {
    command.arguments.iter().map(|a| a.as_str()).collect()
}

#[test]
fn csv_fields_split_at_commas() {
    assert_eq!(csv_fields(None), Vec::<String>::new());
    assert_eq!(csv_fields(Some(&"".to_owned())), vec![""]);
    assert_eq!(csv_fields(Some(&"a,,b".to_owned())), vec!["a", "", "b"]);
    assert_eq!(csv_fields(Some(&"x".to_owned())), vec!["x"]);
}

#[test]
fn csv_fields_join_back_to_the_label() {
    for label in ["", "a", "a,b", ",,", "web-0,web-1,"] {
        let fields = csv_fields(Some(&label.to_owned()));
        assert_eq!(fields.join(","), label);
        assert_eq!(fields.len(), label.matches(',').count() + 1);
    }
}

#[test]
fn parses_image_metadata_from_labels() {
    let mut labels = StringMap::new();
    labels.insert("info.evolutics.wheelsticks.container-names".to_owned(), "web-0,web-1".to_owned());
    labels.insert("info.evolutics.wheelsticks.health-check".to_owned(), "curl localhost".to_owned());
    labels.insert("info.evolutics.wheelsticks.port-mappings".to_owned(), "80:80".to_owned());
    let parsed = parse_image_metadata(RawImage {
        containers: 2,
        digest: "sha256:d".into(),
        id: "abc".into(),
        labels,
    });
    assert_eq!(parsed.container_count, 2);
    assert_eq!(parsed.container_names, vec!["web-0", "web-1"]);
    assert_eq!(parsed.health_check, Some("curl localhost".to_owned()));
    assert_eq!(parsed.image_id, "abc");
    assert!(parsed.networks.is_empty());
    assert_eq!(parsed.port_mappings, vec!["80:80"]);
    assert!(parsed.volume_mounts.is_empty());
}

#[test]
fn unchanged_image_keeps_its_containers() {
    let actual = vec![image("a", "d1", 2, &["web-1", "web-0"])];
    let target = vec![image("a", "d1", 2, &["web-1", "web-0"])];
    assert_eq!(
        summary(&plan_changes(&actual, &target)),
        vec![
            ("web-0".to_owned(), Operator::Keep, "d1".to_owned()),
            ("web-1".to_owned(), Operator::Keep, "d1".to_owned()),
        ],
    );
}

#[test]
fn new_digest_replaces_containers_in_name_order() {
    let actual = vec![image("a", "d1", 1, &["web-0", "db"])];
    let target = vec![image("b", "d2", 0, &["web-0"]), image("c", "d3", 0, &["cache"])];
    assert_eq!(
        summary(&plan_changes(&actual, &target)),
        vec![
            ("cache".to_owned(), Operator::Add, "d3".to_owned()),
            ("db".to_owned(), Operator::Remove, "d1".to_owned()),
            ("web-0".to_owned(), Operator::Remove, "d1".to_owned()),
            ("web-0".to_owned(), Operator::Add, "d2".to_owned()),
        ],
    );
}

#[test]
fn planned_change_names_systemd_unit() {
    let changes = plan_changes(&vec![], &vec![image("a", "d", 0, &["web"])]);
    assert_eq!(changes[0].systemd_unit, "container-web.service");
    assert_eq!(changes[0].image_id, "a");
}

#[test]
fn deploy_selects_images_in_use_and_targets() {
    let raw = |id: &str, count: u16, names: &str| {
        let mut labels = StringMap::new();
        labels.insert("info.evolutics.wheelsticks.container-names".to_owned(), names.to_owned());
        RawImage { containers: count, digest: format!("digest-{id}"), id: id.to_owned(), labels }
    };
    let changes = go(&vec!["new".to_owned()], vec![raw("old", 1, "app"), raw("new", 0, "app"), raw("unused", 0, "zzz")]);
    assert_eq!(
        summary(&changes),
        vec![
            ("app".to_owned(), Operator::Remove, "digest-old".to_owned()),
            ("app".to_owned(), Operator::Add, "digest-new".to_owned()),
        ],
    );
}

#[test]
fn deploy_counts_each_listed_image_once() {
    let raw = |id: &str, count: u16, names: &str| {
        let mut labels = StringMap::new();
        labels.insert("info.evolutics.wheelsticks.container-names".to_owned(), names.to_owned());
        RawImage { containers: count, digest: format!("digest-{id}"), id: id.to_owned(), labels }
    };
    let changes = go(
        &vec!["new".to_owned()],
        vec![raw("old", 1, "app"), raw("new", 0, "app"), raw("old", 1, "app"), raw("new", 0, "app")],
    );
    assert_eq!(
        summary(&changes),
        vec![
            ("app".to_owned(), Operator::Remove, "digest-old".to_owned()),
            ("app".to_owned(), Operator::Add, "digest-new".to_owned()),
        ],
    );
}

fn change(operator: Operator) -> ContainerChange {
    ContainerChange {
        container_name: "web".into(),
        health_check: Some("true".into()),
        image_digest: "d".into(),
        image_id: "img".into(),
        networks: vec!["front".into(), "back".into()],
        operator,
        port_mappings: vec!["80:8080".into()],
        systemd_unit: "container-web.service".into(),
        volume_mounts: vec!["data:/data".into()],
    }
}

#[test]
fn adding_container_creates_enables_and_checks_it() {
    let plan = add_container(&change(Operator::Add));
    assert_eq!(plan.networks.len(), 2);
    assert_eq!(args(&plan.networks[0].0), vec!["network", "exists", "--", "front"]);
    assert_eq!(args(&plan.networks[1].1), vec!["network", "create", "--", "back"]);
    assert_eq!(plan.create.program, "podman");
    assert_eq!(
        args(&plan.create),
        vec![
            "create", "--health-cmd", "true", "--name", "web", "--network", "front", "--network",
            "back", "--publish", "80:8080", "--volume", "data:/data", "--", "img",
        ],
    );
    assert_eq!(
        args(&plan.generate_unit),
        vec!["generate", "systemd", "--files", "--name", "--restart-policy", "always", "--", "web"],
    );
    assert_eq!(plan.generate_unit.current_folder, Some(".config/systemd/user".to_owned()));
    assert_eq!(plan.enable_unit.program, "systemctl");
    assert_eq!(args(&plan.enable_unit), vec!["--now", "--user", "enable", "container-web.service"]);
    assert_eq!(args(plan.health_check.as_ref().unwrap()), vec!["healthcheck", "run", "web"]);
}

#[test]
fn removing_container_disables_and_removes_it() {
    let plan = remove_container(&change(Operator::Remove));
    assert_eq!(args(&plan.disable_unit), vec!["--now", "--user", "disable", "container-web.service"]);
    assert_eq!(plan.unit_file, ".config/systemd/user/container-web.service");
    assert_eq!(args(&plan.remove), vec!["rm", "--", "web"]);
    assert!(matches!(apply_change(&change(Operator::Keep)), ChangeStep::Keep));
    assert!(matches!(apply_change(&change(Operator::Add)), ChangeStep::Add(_)));
}

#[test]
fn health_check_doubles_time_limit_after_timeout() {
    assert_eq!(INITIAL_HEALTH_CHECK_SECONDS, 5);
    assert_eq!(health_check_step(5, StatusWithinTime::Success), None);
    assert_eq!(health_check_step(5, StatusWithinTime::Failure), Some(5));
    assert_eq!(health_check_step(5, StatusWithinTime::Timeout), Some(10));
}

#[test]
fn target_images_are_sorted_tar_files() {
    let names: Vec<String> = ["b.tar", "notes.txt", "a.tar", ".tar", "c.tar.gz", "b.tar"]
        .iter()
        .map(|n| (*n).to_owned())
        .collect();
    let target = load_target_images("/work", &names);
    assert_eq!(target.files, vec!["/work/a.tar", "/work/b.tar"]);
    assert_eq!(target.image_ids, vec!["a", "b"]);
}
