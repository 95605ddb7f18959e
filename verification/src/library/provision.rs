use crate::library::command::{environment_of, CommandLine, CommandView, Launch};
use crate::library::configuration;
use crate::string_map::entries_map;
use vstd::prelude::*;

verus! {

/// The provisioning command of the life cycle of `configuration`, with the variables of
/// the configuration and then those of `environment`.
pub fn go(configuration: &configuration::Main, environment: &configuration::Environment) -> (launch: Launch)
    requires
        configuration.life_cycle.provision.len() > 0,
    ensures
        launch.command@ == (CommandView {
            program: configuration.life_cycle.provision.deep_view()[0],
            arguments: configuration.life_cycle.provision.deep_view().skip(1),
            current_folder: None,
        }),
        entries_map(launch.environment@) == configuration.variables@.union_prefer_right(
            environment.variables@,
        ),
{
    let provision = &configuration.life_cycle.provision;
    let mut arguments: Vec<String> = Vec::new();
    let mut i: usize = 1;
    assert(provision.deep_view().subrange(1, 1) == Seq::<Seq<char>>::empty());
    while i < provision.len()
        invariant
            1 <= i <= provision.len(),
            arguments.deep_view() == provision.deep_view().subrange(1, i as int),
        decreases provision.len() - i,
    {
        let ghost before = arguments.deep_view();
        arguments.push(provision[i].clone());
        assert(arguments.deep_view() == before.push(provision[i as int]@));
        assert(provision.deep_view().subrange(1, i + 1) == provision.deep_view().subrange(
            1,
            i as int,
        ).push(provision[i as int]@));
        i = i + 1;
    }
    assert(provision.deep_view().subrange(1, provision.len() as int) == provision.deep_view().skip(1));
    Launch {
        command: CommandLine {
            program: provision[0].clone(),
            arguments,
            current_folder: None,
        },
        environment: environment_of(&configuration.variables, &environment.variables),
    }
}

} // verus!
