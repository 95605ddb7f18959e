use crate::library::command::{CommandLine, CommandView, Launch};
use crate::ssh::{ssh_arguments, Cli};
use crate::text::{concatenate, trim_end, trimmed_end};
use vstd::prelude::*;

verus! {

/// What provisioning a host takes.
pub struct In {
    pub container_engine: String,
    pub dry_run: bool,
    pub force: bool,
    pub has_ssh_config_override: bool,
    pub host: String,
    pub ssh_cli: Cli,
}

/// The answer that confirms a question.
pub const CONFIRMATION: &'static str = "yes";

/// Whether the answer `answer` (a line read from the user) confirms: it is `yes`, trailing
/// whitespace aside.
pub fn is_confirmed(answer: &str) -> (confirmed: bool)
    ensures
        confirmed == (trimmed_end(answer@) == CONFIRMATION@),
{
    trim_end(answer) == CONFIRMATION.to_owned()
}

/// Whether `in_` targets the current machine: the host `localhost` without an SSH
/// configuration file.
pub open spec fn is_local(in_: In) -> bool {
    in_.host@ == "localhost"@ && !in_.has_ssh_config_override
}

/// How the provisioning script (given on the standard input) is run: by Bash on the
/// current machine with `CONTAINER_ENGINE` set, else over SSH on the host.
pub open spec fn provision_launch(in_: In, launch: Launch) -> bool {
    if is_local(in_) {
        &&& launch.command@ == CommandView {
            program: "bash"@,
            arguments: Seq::empty(),
            current_folder: None,
        }
        &&& launch.environment@.map_values(|e: (String, String)| (e.0@, e.1@)) == seq![
            ("CONTAINER_ENGINE"@, in_.container_engine@),
        ]
    } else {
        &&& launch.command@ == CommandView {
            program: "ssh"@,
            arguments: ssh_arguments(in_.ssh_cli.spec_arguments()) + seq![
                in_.host@,
                "CONTAINER_ENGINE="@ + in_.container_engine@,
                "bash"@,
            ],
            current_folder: None,
        }
        &&& launch.environment@.len() == 0
    }
}

/// What provisioning takes: confirming with the user unless forced, then nothing more in
/// a dry run, else running the script.
pub struct Provision {
    pub ask_user: bool,
    pub launch: Option<Launch>,
}

/// The command that runs the provisioning script for `in_`.
pub fn provision_command(in_: &In) -> (launch: Launch)
    ensures
        provision_launch(*in_, launch),
{
    if in_.host == "localhost".to_owned() && !in_.has_ssh_config_override {
        let mut environment: Vec<(String, String)> = Vec::new();
        environment.push(("CONTAINER_ENGINE".to_owned(), in_.container_engine.clone()));
        assert(environment@.map_values(|e: (String, String)| (e.0@, e.1@)) == seq![
            ("CONTAINER_ENGINE"@, in_.container_engine@),
        ]);
        let command = CommandLine::new("bash", Vec::new());
        assert(command@.arguments == Seq::<Seq<char>>::empty());
        Launch { command, environment }
    } else {
        let base = in_.ssh_cli.command();
        let mut arguments = base.arguments;
        let ghost a = arguments.deep_view();
        arguments.push(in_.host.clone());
        arguments.push(concatenate("CONTAINER_ENGINE=", in_.container_engine.as_str()));
        arguments.push("bash".to_owned());
        assert(arguments.deep_view() == a + seq![
            in_.host@,
            "CONTAINER_ENGINE="@ + in_.container_engine@,
            "bash"@,
        ]);
        Launch { command: CommandLine::new("ssh", arguments), environment: Vec::new() }
    }
}

/// What provisioning with `in_` takes.
pub fn go(in_: &In) -> (provision: Provision)
    ensures
        provision.ask_user == !in_.force,
        in_.dry_run <==> provision.launch is None,
        provision.launch matches Some(l) ==> provision_launch(*in_, l),
{
    Provision {
        ask_user: !in_.force,
        launch: if in_.dry_run {
            None
        } else {
            Some(provision_command(in_))
        },
    }
}

} // verus!
