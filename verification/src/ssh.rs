use crate::library::command::{CommandLine, CommandView};
use crate::log::Level;
use vstd::prelude::*;

verus! {

/// The SSH client with the options that every call gets.
pub struct Cli {
    arguments: Arguments,
}

/// The options of the SSH client.
pub struct Arguments {
    pub config: Option<String>,
    pub debug: bool,
    pub log_level: Option<Level>,
}

/// The name of a log level as SSH spells it.
pub open spec fn ssh_level_name(level: Level) -> Seq<char> {
    match level {
        Level::Debug => "DEBUG"@,
        Level::Info => "INFO"@,
        Level::Warn | Level::Error => "ERROR"@,
        Level::Fatal => "FATAL"@,
    }
}

/// The arguments that carry `arguments` to SSH: `-F <config>`, then
/// `-o LogLevel=<level>`, then `-vvv` for debugging, each where given.
pub open spec fn ssh_arguments(arguments: Arguments) -> Seq<Seq<char>> {
    (match arguments.config {
        Some(c) => seq!["-F"@, c@],
        None => Seq::empty(),
    }) + (match arguments.log_level {
        Some(level) => seq!["-o"@, "LogLevel="@ + ssh_level_name(level)],
        None => Seq::empty(),
    }) + (if arguments.debug {
        seq!["-vvv"@]
    } else {
        Seq::empty()
    })
}

impl Cli {
    /// The options of the client.
    pub closed spec fn spec_arguments(&self) -> Arguments {
        self.arguments
    }

    /// The client with `arguments`.
    pub fn new(arguments: Arguments) -> (cli: Self)
        ensures
            cli.spec_arguments() == arguments,
    {
        Cli { arguments }
    }

    /// The `ssh` command with the options of the client, to which a call adds its own
    /// arguments.
    pub fn command(&self) -> (command: CommandLine)
        ensures
            command@ == (CommandView {
                program: "ssh"@,
                arguments: ssh_arguments(self.spec_arguments()),
                current_folder: None,
            }),
    {
        let mut arguments: Vec<String> = Vec::new();
        if let Some(config) = &self.arguments.config {
            arguments.push("-F".to_owned());
            arguments.push(config.clone());
        }
        let ghost a = arguments.deep_view();
        if let Some(level) = self.arguments.log_level {
            let name = match level {
                Level::Debug => "DEBUG",
                Level::Info => "INFO",
                Level::Warn | Level::Error => "ERROR",
                Level::Fatal => "FATAL",
            };
            arguments.push("-o".to_owned());
            arguments.push(crate::text::concatenate("LogLevel=", name));
        }
        let ghost b = arguments.deep_view();
        if self.arguments.debug {
            arguments.push("-vvv".to_owned());
        }
        proof {
            let given = self.arguments;
            assert(a == match given.config {
                Some(c) => seq!["-F"@, c@],
                None => Seq::<Seq<char>>::empty(),
            });
            assert(b == a + match given.log_level {
                Some(level) => seq!["-o"@, "LogLevel="@ + ssh_level_name(level)],
                None => Seq::<Seq<char>>::empty(),
            });
            assert(arguments.deep_view() == b + if given.debug {
                seq!["-vvv"@]
            } else {
                Seq::<Seq<char>>::empty()
            });
        }
        CommandLine::new("ssh", arguments)
    }

    /// Whether an SSH configuration file is given.
    pub fn has_config_override(&self) -> (r: bool)
        ensures
            r == self.spec_arguments().config is Some,
    {
        self.arguments.config.is_some()
    }
}


/// The SSH client for the options of the command line: the SSH configuration file, and
/// debugging and the log level as the Docker options give them.
pub fn ssh_cli(ssh_config: Option<String>, debug: bool, log_level: Option<Level>) -> (cli: Cli)
    ensures
        cli.spec_arguments() == (Arguments { config: ssh_config, debug, log_level }),
{
    Cli::new(Arguments { config: ssh_config, debug, log_level })
}

} // verus!
