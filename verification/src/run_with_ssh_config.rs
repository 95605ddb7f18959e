use crate::library::command::{CommandLine, CommandView};
use crate::text::{concatenate, debug_path_text, debug_quote, debug_quote_path, debug_text, trim_end, trimmed_end};
use vstd::prelude::*;

verus! {

/// A command to run with an SSH configuration file in force.
pub struct In {
    pub command: Vec<String>,
    pub dry_run: bool,
    pub ssh_config: String,
}

/// The script that stands in for `ssh`: it runs the real one (where `which ssh` said it
/// is, trailing whitespace aside) with the configuration file, passing on all arguments.
pub open spec fn wrapper_script_text(which_output: Seq<char>, ssh_config: Seq<char>) -> Seq<char> {
    "#!/bin/sh\nexec "@ + debug_text(trimmed_end(which_output)) + " -F "@ + debug_path_text(
        ssh_config,
    ) + " \"$@\"\n"@
}

/// The script that stands in for `ssh`, given what `which ssh` printed and the absolute
/// path of the configuration file.
pub fn wrapper_script(which_output: &str, ssh_config: &str) -> (script: String)
    ensures
        script@ == wrapper_script_text(which_output@, ssh_config@),
{
    let real_ssh = trim_end(which_output);
    let script = concatenate("#!/bin/sh\nexec ", debug_quote(real_ssh.as_str()).as_str());
    let script = concatenate(script.as_str(), " -F ");
    let script = concatenate(script.as_str(), debug_quote_path(ssh_config).as_str());
    concatenate(script.as_str(), " \"$@\"\n")
}

/// The command that finds the real `ssh`.
pub fn which_ssh_command() -> (command: CommandLine)
    ensures
        command@ == (CommandView { program: "which"@, arguments: seq!["ssh"@], current_folder: None }),
{
    let mut arguments: Vec<String> = Vec::new();
    arguments.push("ssh".to_owned());
    assert(arguments.deep_view() == seq!["ssh"@]);
    CommandLine::new("which", arguments)
}

/// The command of `in_`: its first element is the program.
pub fn go(in_: &In) -> (command: CommandLine)
    requires
        in_.command.len() > 0,
    ensures
        command@ == (CommandView {
            program: in_.command.deep_view()[0],
            arguments: in_.command.deep_view().skip(1),
            current_folder: None,
        }),
{
    match crate::transfer_images::optional_command(&in_.command) {
        Some(command) => command,
        None => CommandLine::new("", Vec::new()),
    }
}

} // verus!
