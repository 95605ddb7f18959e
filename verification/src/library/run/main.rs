use crate::library::command::{environment_of, CommandLine, CommandView, Launch};
use crate::library::configuration;
use crate::string_map::entries_map;
use vstd::prelude::*;

verus! {

/// A step of running the staging loop.
#[derive(Clone, Copy, Debug, PartialEq, Eq, Structural)]
pub enum Phase {
    /// Restore the snapshot of the virtual machine, if there is one.
    InitialLoad,
    /// Set the virtual machine up from scratch.
    Reset,
    /// Take a snapshot of the fresh virtual machine.
    Save,
    /// Run one iteration: build, deploy and test.
    Iterate,
    /// Restore the snapshot before the next iteration.
    Reload,
}

/// What comes after a step.
#[derive(Clone, Copy, Debug, PartialEq, Eq, Structural)]
pub enum Action {
    Run(Phase),
    /// Stop: all went well.
    Finish,
    /// Stop with the error of the step that failed.
    Fail,
}

/// The first step: restoring the snapshot.
pub fn start() -> (phase: Phase)
    ensures
        phase == Phase::InitialLoad,
{
    Phase::InitialLoad
}

/// What follows `phase`, given whether it succeeded: without a snapshot the machine is
/// reset and a snapshot taken; each iteration is followed by restoring the snapshot, except
/// in a dry run, which stops after one iteration; any other failure stops the run.
pub open spec fn next_spec(phase: Phase, succeeded: bool, is_dry_run: bool) -> Action {
    match phase {
        Phase::InitialLoad => if succeeded {
            Action::Run(Phase::Iterate)
        } else {
            Action::Run(Phase::Reset)
        },
        Phase::Reset => if succeeded {
            Action::Run(Phase::Save)
        } else {
            Action::Fail
        },
        Phase::Save | Phase::Reload => if succeeded {
            Action::Run(Phase::Iterate)
        } else {
            Action::Fail
        },
        Phase::Iterate => if !succeeded {
            Action::Fail
        } else if is_dry_run {
            Action::Finish
        } else {
            Action::Run(Phase::Reload)
        },
    }
}

/// What follows `phase`, given whether it succeeded.
pub fn go(phase: Phase, succeeded: bool, is_dry_run: bool) -> (action: Action)
    ensures
        action == next_spec(phase, succeeded, is_dry_run),
{
    match phase {
        Phase::InitialLoad => if succeeded {
            Action::Run(Phase::Iterate)
        } else {
            Action::Run(Phase::Reset)
        },
        Phase::Reset => if succeeded {
            Action::Run(Phase::Save)
        } else {
            Action::Fail
        },
        Phase::Save | Phase::Reload => if succeeded {
            Action::Run(Phase::Iterate)
        } else {
            Action::Fail
        },
        Phase::Iterate => if !succeeded {
            Action::Fail
        } else if is_dry_run {
            Action::Finish
        } else {
            Action::Run(Phase::Reload)
        },
    }
}

/// Only a dry run finishes, and it does so right after its first successful iteration;
/// otherwise iterations go on until one step fails.
pub proof fn lemma_only_dry_runs_finish(phase: Phase, succeeded: bool, is_dry_run: bool)
    ensures
        next_spec(phase, succeeded, is_dry_run) == Action::Finish <==> (phase == Phase::Iterate
            && succeeded && is_dry_run),
{
}

/// The Vagrant command that restores (`save` false) or takes (`save` true) the snapshot
/// `snapshot_name`, in the cache folder, with the variables of the configuration and of
/// staging.
pub fn snapshot_command(configuration: &configuration::Main, snapshot_name: &String, save: bool) -> (launch: Launch)
    ensures
        launch.command@ == (CommandView {
            program: "vagrant"@,
            arguments: if save {
                seq!["snapshot"@, "save"@, "--force"@, "--"@, snapshot_name@]
            } else {
                seq!["snapshot"@, "restore"@, "--"@, snapshot_name@]
            },
            current_folder: Some(configuration.cache.folder@),
        }),
        entries_map(launch.environment@) == configuration.variables@.union_prefer_right(
            configuration.staging.variables@,
        ),
{
    let mut arguments: Vec<String> = if save {
        let a = crate::subcommand::deploy::deploy_locally::strings(
            &["snapshot", "save", "--force", "--"],
        );
        assert(a.deep_view() == seq!["snapshot"@, "save"@, "--force"@, "--"@]);
        a
    } else {
        let a = crate::subcommand::deploy::deploy_locally::strings(&["snapshot", "restore", "--"]);
        assert(a.deep_view() == seq!["snapshot"@, "restore"@, "--"@]);
        a
    };
    let ghost a = arguments.deep_view();
    arguments.push(snapshot_name.clone());
    assert(arguments.deep_view() == a.push(snapshot_name@));
    assert(arguments.deep_view() == if save {
        seq!["snapshot"@, "save"@, "--force"@, "--"@, snapshot_name@]
    } else {
        seq!["snapshot"@, "restore"@, "--"@, snapshot_name@]
    });
    Launch {
        command: CommandLine {
            program: "vagrant".to_owned(),
            arguments,
            current_folder: Some(configuration.cache.folder.clone()),
        },
        environment: environment_of(&configuration.variables, &configuration.staging.variables),
    }
}

} // verus!
