use kerek::log::Level;
use kerek::ssh::{Arguments, Cli};

#[test]
fn translates_maximum_arguments() {
    let cli = Cli::new(Arguments {
        config: Some("config".into()),
        debug: true,
        log_level: Some(Level::Warn),
    });

    assert_eq!(
        cli.command().arguments,
        vec!["-F", "config", "-o", "LogLevel=ERROR", "-vvv"],
    );
    assert!(cli.has_config_override());
}

#[test]
fn translates_minimum_arguments() {
    let cli = Cli::new(Arguments {
        config: None,
        debug: false,
        log_level: None,
    });

    assert_eq!(cli.command().arguments.first(), None);
    assert!(!cli.has_config_override());
}

#[test]
fn ssh_program_and_log_level_names() {
    for (level, name) in [
        (Level::Debug, "LogLevel=DEBUG"),
        (Level::Info, "LogLevel=INFO"),
        (Level::Error, "LogLevel=ERROR"),
        (Level::Fatal, "LogLevel=FATAL"),
    ] {
        let cli = Cli::new(Arguments { config: None, debug: false, log_level: Some(level) });
        let command = cli.command();
        assert_eq!(command.program, "ssh");
        assert_eq!(command.arguments, vec!["-o", name]);
    }
}
