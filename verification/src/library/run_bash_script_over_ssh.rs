use crate::library::command::{CommandLine, CommandView};
use vstd::prelude::*;

verus! {

/// A Bash script to run on an SSH host.
pub struct In {
    pub configuration_file: String,
    pub host: String,
    pub script_file: String,
}

/// The SSH command that runs Bash on the host with the configuration file; the script is
/// its standard input.
pub fn go(in_: &In) -> (command: CommandLine)
    ensures
        command@ == (CommandView {
            program: "ssh"@,
            arguments: seq!["-F"@, in_.configuration_file@, in_.host@, "bash"@],
            current_folder: None,
        }),
{
    let mut arguments: Vec<String> = Vec::new();
    arguments.push("-F".to_owned());
    arguments.push(in_.configuration_file.clone());
    arguments.push(in_.host.clone());
    arguments.push("bash".to_owned());
    assert(arguments.deep_view() == seq!["-F"@, in_.configuration_file@, in_.host@, "bash"@]);
    CommandLine::new("ssh", arguments)
}

} // verus!
