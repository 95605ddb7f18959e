use kerek::library::command::{environment_of, with_arguments, CommandLine};
use kerek::library::compose::ir;
use kerek::library::configuration::{
    convert, UserFacingEnvironmentVariables, UserFacingLifeCycle, UserFacingMain, UserFacingTests,
};
use kerek::library::docker_host::get;
use kerek::library::provision;
use kerek::library::run::main::snapshot_command;
use kerek::library::run_bash_script_over_ssh;
use kerek::log::Level;
use kerek::run_with_ssh_config;
use kerek::ssh::ssh_cli;
use kerek::string_map::StringMap;
use kerek::subcommand::build;
use kerek::subcommand::deploy::deploy_locally::{
    collect_garbage_command, list_images_command, load_image_command,
};
use kerek::subcommand::provision::{playbook_command, to_decimal};
use kerek::text::{debug_quote, debug_quote_path, lex_le_exec, split_exec};
use kerek::transfer_images::available_images_command;

fn strings(items: &[&str]) -> Vec<String> {
    items.iter().map(|s| (*s).to_owned()).collect()
}

fn configuration(provision: &[&str]) -> kerek::library::configuration::Main {
    let mut staging = StringMap::new();
    staging.insert("KEREK_SSH_HOST".to_owned(), "vm".to_owned());
    convert(UserFacingMain {
        cache_folder: Some("cache".into()),
        vagrantfile: None,
        life_cycle: UserFacingLifeCycle {
            provision: strings(provision),
            build: vec![],
            deploy: vec![],
            move_to_next_version: vec![],
        },
        tests: UserFacingTests { base: vec![], smoke: vec![], acceptance: vec![] },
        environment_variables: UserFacingEnvironmentVariables { staging, production: StringMap::new() },
    })
}

#[test]
fn builds_one_image_per_service() {
    let project = ir::Project {
        name: "shop".into(),
        services: vec![
            ("api".into(), ir::Service { build: "./api".into() }),
            ("web".into(), ir::Service { build: "./web".into() }),
        ],
        x_wheelsticks: ir::Wheelsticks {
            local_workbench: "l".into(),
            remote_workbench: "r".into(),
            schema_mode: ir::SchemaMode::Default,
            user_systemd_folder_absolute: "/home/me/s".into(),
            user_systemd_folder_original: "s".into(),
        },
        alien_fields: None,
    };
    let commands = build::go(&project);
    assert_eq!(commands.len(), 2);
    assert_eq!(commands[0].program, "podman");
    assert_eq!(commands[0].arguments, vec!["build", "--tag", "shop-api", "--", "./api"]);
    assert_eq!(commands[1].arguments, vec!["build", "--tag", "shop-web", "--", "./web"]);
}

#[test]
fn provision_command_comes_from_life_cycle() {
    let main = configuration(&["ansible", "site.yml"]);
    let launch = provision::go(&main, &main.staging);
    assert_eq!(launch.command.program, "ansible");
    assert_eq!(launch.command.arguments, vec!["site.yml"]);
    assert_eq!(launch.environment[0], ("KEREK_GIT_BRANCH".to_owned(), "origin/main".to_owned()));
    assert!(launch.environment.contains(&("KEREK_SSH_HOST".to_owned(), "vm".to_owned())));
    let default = configuration(&[]);
    let launch = provision::go(&default, &default.production);
    assert_eq!(launch.command.program, "bash");
    assert_eq!(launch.command.arguments, vec!["--", "cache/scripts.sh", "provision"]);
}

#[test]
fn snapshots_are_taken_and_restored_in_cache() {
    let main = configuration(&[]);
    let restore = snapshot_command(&main, &"abc".to_owned(), false);
    assert_eq!(restore.command.program, "vagrant");
    assert_eq!(restore.command.arguments, vec!["snapshot", "restore", "--", "abc"]);
    assert_eq!(restore.command.current_folder, Some("cache".to_owned()));
    let save = snapshot_command(&main, &"abc".to_owned(), true);
    assert_eq!(save.command.arguments, vec!["snapshot", "save", "--force", "--", "abc"]);
}

#[test]
fn later_environment_wins() {
    let mut first = StringMap::new();
    first.insert("A".to_owned(), "1".to_owned());
    let mut second = StringMap::new();
    second.insert("A".to_owned(), "2".to_owned());
    let environment = environment_of(&first, &second);
    assert_eq!(environment, vec![("A".to_owned(), "1".to_owned()), ("A".to_owned(), "2".to_owned())]);
}

#[test]
fn runs_script_over_ssh() {
    let command = run_bash_script_over_ssh::go(&run_bash_script_over_ssh::In {
        configuration_file: "ssh_config".into(),
        host: "vm".into(),
        script_file: "script.sh".into(),
    });
    assert_eq!(command.program, "ssh");
    assert_eq!(command.arguments, vec!["-F", "ssh_config", "vm", "bash"]);
}

#[test]
fn wraps_ssh_with_configuration() {
    assert_eq!(
        run_with_ssh_config::wrapper_script("/usr/bin/ssh\n", "/home/me/config"),
        "#!/bin/sh\nexec \"/usr/bin/ssh\" -F \"/home/me/config\" \"$@\"\n",
    );
    let command = run_with_ssh_config::go(&run_with_ssh_config::In {
        command: strings(&["ansible-playbook", "site.yml"]),
        dry_run: false,
        ssh_config: "config".into(),
    });
    assert_eq!(command.program, "ansible-playbook");
    assert_eq!(command.arguments, vec!["site.yml"]);
    assert_eq!(run_with_ssh_config::which_ssh_command().arguments, vec!["ssh"]);
}

#[test]
fn debug_quotes_escape_special_characters() {
    assert_eq!(debug_quote("a\"b"), "\"a\\\"b\"");
    assert_eq!(debug_quote_path("/tmp/a b"), "\"/tmp/a b\"");
}

#[test]
fn ansible_provisions_ssh_host_only() {
    let host = get("ssh://deploy@example.com:2222".into()).ok().unwrap();
    let launch = playbook_command(&host, "{}".into(), "playbook.yaml".into()).ok().unwrap();
    assert_eq!(launch.command.program, "ansible-playbook");
    assert_eq!(
        launch.command.arguments,
        vec!["--extra-vars", "{}", "--inventory", ",example.com", "--user", "deploy", "--", "playbook.yaml"],
    );
    assert_eq!(launch.environment, vec![("ANSIBLE_REMOTE_PORT".to_owned(), "2222".to_owned())]);
    let local = get("unix:///run/docker.sock".into()).ok().unwrap();
    assert!(playbook_command(&local, "{}".into(), "p".into()).is_err());
    assert_eq!(to_decimal(0), "0");
    assert_eq!(to_decimal(65535), "65535");
}

#[test]
fn engine_commands() {
    assert_eq!(list_images_command().arguments, vec!["images", "--format", "json"]);
    assert_eq!(collect_garbage_command().arguments, vec!["system", "prune", "--all", "--force", "--volumes"]);
    assert_eq!(load_image_command(&"a.tar".to_owned()).arguments, vec!["load", "--input", "a.tar"]);
    let docker = CommandLine { program: "docker".into(), arguments: strings(&["-H", "x"]), current_folder: None };
    let command = available_images_command(&docker);
    assert_eq!(command.arguments[..4], ["-H", "x", "images", "--format"]);
    let extended = with_arguments(&docker, &strings(&["ps"]));
    assert_eq!(extended.arguments, vec!["-H", "x", "ps"]);
}

#[test]
fn ssh_cli_from_options() {
    let cli = ssh_cli(Some("cfg".into()), true, Some(Level::Info));
    assert_eq!(cli.command().arguments, vec!["-F", "cfg", "-o", "LogLevel=INFO", "-vvv"]);
}

#[test]
fn text_comparison_and_splitting() {
    assert!(lex_le_exec(&"abc".to_owned(), &"abd".to_owned()));
    assert!(lex_le_exec(&"ab".to_owned(), &"abc".to_owned()));
    assert!(!lex_le_exec(&"b".to_owned(), &"abc".to_owned()));
    assert!(lex_le_exec(&"same".to_owned(), &"same".to_owned()));
    assert_eq!(split_exec(&"a,b,".to_owned(), ','), vec!["a", "b", ""]);
}

#[test]
fn string_map_keeps_last_insertion() {
    let mut map = StringMap::new();
    map.insert("k".to_owned(), 1u8);
    map.insert("j".to_owned(), 2u8);
    map.insert("k".to_owned(), 3u8);
    assert_eq!(map.get(&"k".to_owned()), Some(&3));
    assert_eq!(map.get(&"j".to_owned()), Some(&2));
    assert_eq!(map.get(&"x".to_owned()), None);
}
