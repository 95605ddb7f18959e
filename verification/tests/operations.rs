use kerek::library::command::{
    status_bit, status_ok, status_within_time, stdout_raw, CommandLine, StatusWithinTime,
};
use kerek::library::configuration::{
    command_or_default, convert, get_cache, with_custom_variables, Environment,
    UserFacingEnvironmentVariables, UserFacingLifeCycle, UserFacingMain, UserFacingTests,
};
use kerek::library::constants::{provision_base_file, vagrantfile_file};
use kerek::library::run::main::{go as next_step, start, Action, Phase};
use kerek::library::tear_down_cache;
use kerek::log::{is_shown, Level, LevelSetting};
use kerek::path::{extension_of, join, stem_of};
use kerek::provision::{self, is_confirmed};
use kerek::ssh::{Arguments, Cli};
use kerek::string_map::StringMap;
use kerek::text::{concatenate, lines_exec, string_of, trim_end};
use kerek::transfer_images::{self, get_available_images, get_requested_images, optional_command, ImageStep};
use kerek::tunnel_ssh::{self, infer_remote_socket, infer_remote_socket_command};

fn strings(items: &[&str]) -> Vec<String> {
    items.iter().map(|s| (*s).to_owned()).collect()
}

fn lookup(map: &StringMap<String>, key: &str) -> Option<String> {
    map.get(&key.to_owned()).cloned()
}

#[test]
fn status_bit_reads_exit_codes() {
    assert_eq!(status_bit(Some(0)), Some(false));
    assert_eq!(status_bit(Some(1)), Some(true));
    assert_eq!(status_bit(Some(2)), None);
    assert_eq!(status_bit(None), None);
}

#[test]
fn status_ok_needs_exit_code_zero() {
    assert!(status_ok(Some(0)));
    assert!(!status_ok(Some(1)));
    assert!(!status_ok(None));
    assert_eq!(stdout_raw(Some(0), b"Hi".to_vec()), Some(b"Hi".to_vec()));
    assert_eq!(stdout_raw(Some(1), b"Hi".to_vec()), None);
}

#[test]
fn status_within_time_tells_timeouts_apart() {
    assert_eq!(status_within_time(Some(Some(0))), StatusWithinTime::Success);
    assert_eq!(status_within_time(Some(Some(1))), StatusWithinTime::Failure);
    assert_eq!(status_within_time(Some(None)), StatusWithinTime::Failure);
    assert_eq!(status_within_time(None), StatusWithinTime::Timeout);
}

#[test]
fn text_helpers() {
    assert_eq!(concatenate("ab", "cd"), "abcd");
    assert_eq!(string_of(&vec!['x', 'y']), "xy");
    assert_eq!(trim_end("a b \t\n"), "a b");
    assert_eq!(lines_exec("a\r\nb\n\nc\r"), vec!["a", "b", "", "c\r"]);
    assert_eq!(lines_exec("a\n"), vec!["a"]);
    assert!(lines_exec("").is_empty());
}

#[test]
fn path_helpers() {
    assert_eq!(join("a", "b"), "a/b");
    assert_eq!(join("a/", "b"), "a/b");
    assert_eq!(join("", "b"), "b");
    assert_eq!(join("a", "/b"), "/b");
    assert_eq!(extension_of("a.tar"), Some("tar".to_owned()));
    assert_eq!(extension_of(".bashrc"), None);
    assert_eq!(extension_of("archive.tar.gz"), Some("gz".to_owned()));
    assert_eq!(extension_of("plain"), None);
    assert_eq!(stem_of("archive.tar.gz"), "archive.tar");
    assert_eq!(stem_of(".bashrc"), ".bashrc");
    assert_eq!(stem_of(".."), "..");
}

#[test]
fn constants_are_in_work_folder() {
    assert_eq!(provision_base_file(), ".kerek/provision_base.sh");
    assert_eq!(vagrantfile_file(), ".kerek/Vagrantfile");
}

fn user_facing(cache_folder: Option<&str>) -> UserFacingMain {
    let mut staging = StringMap::new();
    staging.insert("KEREK_SSH_HOST".to_owned(), "custom".to_owned());
    staging.insert("EXTRA".to_owned(), "1".to_owned());
    UserFacingMain {
        cache_folder: cache_folder.map(|f| f.to_owned()),
        vagrantfile: None,
        life_cycle: UserFacingLifeCycle {
            provision: vec![],
            build: strings(&["make", "build"]),
            deploy: vec![],
            move_to_next_version: vec![],
        },
        tests: UserFacingTests { base: vec![], smoke: strings(&["smoke"]), acceptance: vec![] },
        environment_variables: UserFacingEnvironmentVariables { staging, production: StringMap::new() },
    }
}

#[test]
fn configuration_applies_defaults() {
    let main = convert(user_facing(None));
    assert_eq!(main.cache.folder, ".kerek");
    assert_eq!(main.cache.scripts, ".kerek/scripts.sh");
    assert_eq!(main.cache.ssh_configuration, ".kerek/ssh_configuration");
    assert_eq!(main.cache.vagrantfile, ".kerek/Vagrantfile");
    assert_eq!(main.life_cycle.provision, vec!["bash", "--", ".kerek/scripts.sh", "provision"]);
    assert_eq!(main.life_cycle.build, vec!["make", "build"]);
    assert_eq!(main.tests.base, vec!["bash", "--", ".kerek/scripts.sh", "base_test"]);
    assert_eq!(main.tests.smoke, vec!["smoke"]);
    assert_eq!(lookup(&main.variables, "KEREK_GIT_BRANCH"), Some("origin/main".to_owned()));
    assert_eq!(main.staging.id, "staging");
    assert_eq!(lookup(&main.staging.variables, "KEREK_IP_ADDRESS"), Some("192.168.60.158".to_owned()));
    assert_eq!(lookup(&main.staging.variables, "KEREK_SSH_HOST"), Some("custom".to_owned()));
    assert_eq!(lookup(&main.staging.variables, "EXTRA"), Some("1".to_owned()));
    assert_eq!(main.production.id, "production");
    assert_eq!(
        lookup(&main.production.variables, "KEREK_SSH_CONFIGURATION"),
        Some("safe/ssh_configuration".to_owned()),
    );
}

#[test]
fn custom_variables_win() {
    let mut variables = StringMap::new();
    variables.insert("A".to_owned(), "default".to_owned());
    variables.insert("B".to_owned(), "kept".to_owned());
    let mut custom = StringMap::new();
    custom.insert("A".to_owned(), "custom".to_owned());
    let environment = with_custom_variables(Environment { id: "e".into(), variables }, &custom);
    assert_eq!(lookup(&environment.variables, "A"), Some("custom".to_owned()));
    assert_eq!(lookup(&environment.variables, "B"), Some("kept".to_owned()));
    let cache = get_cache("c/".into());
    assert_eq!(command_or_default(vec![], &cache, "x"), vec!["bash", "--", "c/scripts.sh", "x"]);
}

#[test]
fn log_level_is_set_once() {
    let mut setting = LevelSetting::new();
    assert_eq!(setting.level(), Level::Debug);
    assert!(setting.set_level(Level::Warn).is_ok());
    assert_eq!(setting.level(), Level::Warn);
    assert!(setting.set_level(Level::Info).is_err());
    assert_eq!(setting.level(), Level::Warn);
    assert!(is_shown(Level::Info, Level::Warn));
    assert!(!is_shown(Level::Error, Level::Info));
}

#[test]
fn staging_run_resets_without_snapshot_and_stops_after_dry_run() {
    assert_eq!(start(), Phase::InitialLoad);
    assert_eq!(next_step(Phase::InitialLoad, false, false), Action::Run(Phase::Reset));
    assert_eq!(next_step(Phase::Reset, true, false), Action::Run(Phase::Save));
    assert_eq!(next_step(Phase::Save, true, false), Action::Run(Phase::Iterate));
    assert_eq!(next_step(Phase::Iterate, true, true), Action::Finish);
    assert_eq!(next_step(Phase::Iterate, true, false), Action::Run(Phase::Reload));
    assert_eq!(next_step(Phase::Reload, false, false), Action::Fail);
}

#[test]
fn tearing_down_destroys_existing_machine() {
    let main = convert(user_facing(Some("cache")));
    let tear_down = tear_down_cache::go(&main, true);
    let destroy = tear_down.destroy_vm.unwrap();
    assert_eq!(destroy.command.program, "vagrant");
    assert_eq!(destroy.command.arguments, vec!["destroy", "--force"]);
    assert_eq!(destroy.command.current_folder, Some("cache".to_owned()));
    assert_eq!(tear_down.cache_folder, "cache");
    assert!(tear_down_cache::go(&main, false).destroy_vm.is_none());
}

fn cli(config: Option<&str>) -> Cli {
    Cli::new(Arguments { config: config.map(|c| c.to_owned()), debug: false, log_level: None })
}

#[test]
fn provisions_localhost_with_bash() {
    let in_ = provision::In {
        container_engine: "podman".into(),
        dry_run: false,
        force: true,
        has_ssh_config_override: false,
        host: "localhost".into(),
        ssh_cli: cli(None),
    };
    let plan = provision::go(&in_);
    assert!(!plan.ask_user);
    let launch = plan.launch.unwrap();
    assert_eq!(launch.command.program, "bash");
    assert!(launch.command.arguments.is_empty());
    assert_eq!(launch.environment, vec![("CONTAINER_ENGINE".to_owned(), "podman".to_owned())]);
}

#[test]
fn provisions_remote_host_over_ssh() {
    let in_ = provision::In {
        container_engine: "docker".into(),
        dry_run: false,
        force: false,
        has_ssh_config_override: true,
        host: "localhost".into(),
        ssh_cli: cli(Some("my_config")),
    };
    let plan = provision::go(&in_);
    assert!(plan.ask_user);
    let launch = plan.launch.unwrap();
    assert_eq!(launch.command.program, "ssh");
    assert_eq!(
        launch.command.arguments,
        vec!["-F", "my_config", "localhost", "CONTAINER_ENGINE=docker", "bash"],
    );
    assert!(is_confirmed("yes\n"));
    assert!(!is_confirmed("no\n"));
}

#[test]
fn infers_remote_socket() {
    let command = infer_remote_socket_command(&"podman".to_owned(), &cli(None), &"host".to_owned());
    assert_eq!(
        command.arguments,
        vec!["host", "podman", "info", "--format", "{{.Host.RemoteSocket.Path}}"],
    );
    let command = infer_remote_socket_command(&"other".to_owned(), &cli(None), &"host".to_owned());
    assert_eq!(command.arguments, vec!["host", "echo", "${DOCKER_HOST}"]);
    assert_eq!(infer_remote_socket("unix:///run/docker.sock\n"), "/run/docker.sock");
    assert_eq!(infer_remote_socket("/run/podman.sock \n"), "/run/podman.sock");
}

#[test]
fn tunnels_local_socket_to_remote_one() {
    let in_ = tunnel_ssh::In {
        container_engine: "docker".into(),
        dry_run: true,
        local_socket: "kerek.sock".into(),
        remote_socket: None,
        ssh_cli: cli(None),
        ssh_host: "my-host".into(),
    };
    assert!(tunnel_ssh::given_remote_socket(&in_).is_none());
    let tunnel = tunnel_ssh::go(&in_, &"/tmp/kerek.sock".to_owned(), &"/run/docker.sock".to_owned());
    assert!(tunnel.dry_run);
    assert_eq!(
        tunnel.command.arguments,
        vec![
            "-f",
            "-N",
            "-o",
            "LocalForward \"/tmp/kerek.sock\" \"/run/docker.sock\"",
            "-o",
            "StreamLocalBindUnlink=yes",
            "my-host",
        ],
    );
}

fn docker(host: &str) -> CommandLine {
    CommandLine { program: "docker".into(), arguments: strings(&["--host", host]), current_folder: None }
}

#[test]
fn requested_images_splice_stdin() {
    assert_eq!(get_requested_images(strings(&["a", "-", "b", "-"]), strings(&["x", "y"])), vec!["a", "x", "y", "b", "-"]);
    assert_eq!(get_requested_images(strings(&["a"]), strings(&["x"])), vec!["a"]);
    assert_eq!(get_available_images("a:1\nb@d\n"), vec!["a:1", "b@d"]);
    assert!(optional_command(&vec![]).is_none());
    let compress = optional_command(&strings(&["zstd", "-1"])).unwrap();
    assert_eq!(compress.program, "zstd");
    assert_eq!(compress.arguments, vec!["-1"]);
}

#[test]
fn transfers_missing_images_only() {
    let in_ = transfer_images::In {
        compress: strings(&["gzip"]),
        docker_cli: docker("ssh://dest"),
        source_docker_cli: docker("ssh://src"),
        dry_run: false,
        force: false,
        images: strings(&["img:1"]),
    };
    let available = strings(&["img:1"]);
    assert!(matches!(transfer_images::go(&in_, &available, &"img:1".to_owned()), ImageStep::Skip));
    match transfer_images::go(&in_, &available, &"img:2".to_owned()) {
        ImageStep::Transfer(pipeline) => {
            assert_eq!(pipeline.len(), 3);
            assert_eq!(pipeline[0].arguments, vec!["--host", "ssh://src", "save", "--", "img:2"]);
            assert_eq!(pipeline[1].program, "gzip");
            assert_eq!(pipeline[2].arguments, vec!["--host", "ssh://dest", "load"]);
        }
        _ => panic!("should transfer"),
    }
    let dry = transfer_images::In { dry_run: true, ..in_ };
    assert!(matches!(transfer_images::go(&dry, &available, &"img:2".to_owned()), ImageStep::WouldTransfer));
}
