use crate::library::command::{CommandLine, CommandView};
use crate::library::compose::ir;
use crate::text::concatenate;
use vstd::prelude::*;

verus! {

/// What building the images of a Compose project takes.
pub struct In {
    pub compose_file: String,
    pub project_folder: Option<String>,
    pub project_name: Option<String>,
}

/// The command that builds the image `image_name` from the context `build_context`.
pub open spec fn build_command(image_name: Seq<char>, build_context: Seq<char>) -> CommandView {
    CommandView {
        program: "podman"@,
        arguments: seq!["build"@, "--tag"@, image_name, "--"@, build_context],
        current_folder: None,
    }
}

/// The commands that build the images of `project`: one per service, in the order of the
/// services, each image named after the project and the service.
pub open spec fn build_commands(project: ir::ProjectView) -> Seq<CommandView> {
    project.services.map_values(
        |s: (Seq<char>, Seq<char>)| build_command(project.name + "-"@ + s.0, s.1),
    )
}

/// The command that builds the image `image_name` of `service`.
pub fn build_image(image_name: &String, service: &ir::Service) -> (command: CommandLine)
    ensures
        command@ == build_command(image_name@, service.build@),
{
    let mut arguments = crate::subcommand::deploy::deploy_locally::strings(&["build", "--tag"]);
    let ghost a = arguments.deep_view();
    assert(a == seq!["build"@, "--tag"@]);
    arguments.push(image_name.clone());
    arguments.push("--".to_owned());
    arguments.push(service.build.clone());
    assert(arguments.deep_view() == a + seq![image_name@, "--"@, service.build@]);
    assert(arguments.deep_view() == seq!["build"@, "--tag"@, image_name@, "--"@, service.build@]);
    CommandLine::new("podman", arguments)
}

/// The commands that build the images of `project`.
pub fn go(project: &ir::Project) -> (commands: Vec<CommandLine>)
    requires
        ir::sorted_names(ir::service_names(project@)),
    ensures
        commands@.map_values(|c: CommandLine| c@) == build_commands(project@),
{
    let mut commands: Vec<CommandLine> = Vec::new();
    let mut i: usize = 0;
    while i < project.services.len()
        invariant
            i <= project.services.len(),
            commands@.map_values(|c: CommandLine| c@) == build_commands(project@).take(i as int),
        decreases project.services.len() - i,
    {
        let (key, service) = &project.services[i];
        let prefix = concatenate(project.name.as_str(), "-");
        let image_name = concatenate(prefix.as_str(), key.as_str());
        let ghost before = commands@;
        commands.push(build_image(&image_name, service));
        assert(commands@ == before.push(commands@.last()));
        assert(build_commands(project@).take(i + 1) == build_commands(project@).take(i as int).push(
            build_command(project@.name + "-"@ + key@, service.build@),
        ));
        i = i + 1;
    }
    assert(build_commands(project@).take(i as int) == build_commands(project@));
    commands
}

} // verus!
