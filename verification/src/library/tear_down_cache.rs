use crate::library::command::{environment_of, CommandLine, CommandView, Launch};
use crate::library::configuration;
use crate::string_map::entries_map;
use vstd::prelude::*;

verus! {

/// Tearing the cache down: the virtual machine destroyed if it exists, then the cache
/// folder removed if it exists.
pub struct TearDown {
    pub destroy_vm: Option<Launch>,
    pub cache_folder: String,
}

/// The command that destroys the virtual machine, if its Vagrantfile exists.
pub fn remove_vm_if_exists(configuration: &configuration::Main, vagrantfile_exists: bool) -> (launch: Option<Launch>)
    ensures
        vagrantfile_exists <==> launch is Some,
        launch matches Some(l) ==> l.command@ == (CommandView {
            program: "vagrant"@,
            arguments: seq!["destroy"@, "--force"@],
            current_folder: Some(configuration.cache.folder@),
        }) && entries_map(l.environment@) == configuration.variables@.union_prefer_right(
            configuration.staging.variables@,
        ),
{
    if vagrantfile_exists {
        let arguments = crate::subcommand::deploy::deploy_locally::strings(&["destroy", "--force"]);
        assert(arguments.deep_view() == seq!["destroy"@, "--force"@]);
        Some(
            Launch {
                command: CommandLine {
                    program: "vagrant".to_owned(),
                    arguments,
                    current_folder: Some(configuration.cache.folder.clone()),
                },
                environment: environment_of(
                    &configuration.variables,
                    &configuration.staging.variables,
                ),
            },
        )
    } else {
        None
    }
}

/// Tearing down the cache of `configuration`, given whether its Vagrantfile exists.
pub fn go(configuration: &configuration::Main, vagrantfile_exists: bool) -> (tear_down: TearDown)
    ensures
        vagrantfile_exists <==> tear_down.destroy_vm is Some,
        tear_down.destroy_vm matches Some(l) ==> l.command@ == (CommandView {
            program: "vagrant"@,
            arguments: seq!["destroy"@, "--force"@],
            current_folder: Some(configuration.cache.folder@),
        }) && entries_map(l.environment@) == configuration.variables@.union_prefer_right(
            configuration.staging.variables@,
        ),
        tear_down.cache_folder@ == configuration.cache.folder@,
{
    TearDown {
        destroy_vm: remove_vm_if_exists(configuration, vagrantfile_exists),
        cache_folder: configuration.cache.folder.clone(),
    }
}

} // verus!
