use crate::library::command::{with_arguments, CommandLine, CommandView};
use crate::text::{lines, lines_exec};
use vstd::prelude::*;

verus! {

/// What transferring images takes.
pub struct In {
    /// The compression command, if any: a program and its arguments.
    pub compress: Vec<String>,
    /// The command of the destination Docker host, with its options.
    pub docker_cli: CommandLine,
    /// The command of the default Docker host, where the images come from.
    pub source_docker_cli: CommandLine,
    pub dry_run: bool,
    pub force: bool,
    pub images: Vec<String>,
}

/// The format in which the destination lists its images: every name under which an image
/// counts as present, one per line.
pub const IMAGE_FORMAT: &'static str = "{{.Repository}}:{{.Tag}}\n{{.Repository}}@{{.Digest}}\n{{.Repository}}:{{.Tag}}@{{.Digest}}";

/// The command that lists the images of the Docker host of `docker_cli`.
pub fn available_images_command(docker_cli: &CommandLine) -> (command: CommandLine)
    ensures
        command@ == (CommandView {
            program: docker_cli@.program,
            arguments: docker_cli@.arguments + seq!["images"@, "--format"@, IMAGE_FORMAT@],
            current_folder: docker_cli@.current_folder,
        }),
{
    let extra = crate::subcommand::deploy::deploy_locally::strings(&["images", "--format", IMAGE_FORMAT]);
    assert(extra.deep_view() == seq!["images"@, "--format"@, IMAGE_FORMAT@]);
    with_arguments(docker_cli, &extra)
}

/// The images that the listing `output` names: its lines.
pub fn get_available_images(output: &str) -> (images: Vec<String>)
    ensures
        images.deep_view() == lines(output@),
{
    lines_exec(output)
}

/// The index of the first `-` among the images, which stands for the lines of the
/// standard input.
pub open spec fn stdin_index(images: Seq<Seq<char>>) -> Option<int>
    decreases images.len(),
{
    if images.len() == 0 {
        None
    } else if images[0] == "-"@ {
        Some(0)
    } else {
        match stdin_index(images.drop_first()) {
            Some(k) => Some(k + 1),
            None => None,
        }
    }
}

proof fn lemma_stdin_index(images: Seq<Seq<char>>)
    ensures
        match stdin_index(images) {
            Some(k) => 0 <= k < images.len() && images[k] == "-"@ && forall|j: int|
                0 <= j < k ==> images[j] != "-"@,
            None => forall|j: int| 0 <= j < images.len() ==> images[j] != "-"@,
        },
    decreases images.len(),
{
    if images.len() > 0 && images[0] != "-"@ {
        lemma_stdin_index(images.drop_first());
        assert forall|j: int| 1 <= j < images.len() implies images[j] == images.drop_first()[j - 1] by {}
    }
}

/// The position of the first `-` among the images, if the standard input is to be read.
pub fn find_stdin(images: &Vec<String>) -> (index: Option<usize>)
    ensures
        match index {
            Some(k) => stdin_index(images.deep_view()) == Some(k as int),
            None => stdin_index(images.deep_view()) is None,
        },
{
    proof {
        lemma_stdin_index(images.deep_view());
    }
    let dash = "-".to_owned();
    let mut i: usize = 0;
    while i < images.len()
        invariant
            i <= images.len(),
            dash@ == "-"@,
            forall|j: int| 0 <= j < i ==> images.deep_view()[j] != "-"@,
        decreases images.len() - i,
    {
        assert(images.deep_view()[i as int] == images@[i as int]@);
        if images[i] == dash {
            proof {
                let s = images.deep_view();
                lemma_stdin_index(s);
                match stdin_index(s) {
                    Some(k) => {
                        if k < i {
                            assert(s[k] != "-"@);
                        }
                        if k > i {
                            assert(s[i as int] == "-"@);
                        }
                    },
                    None => {
                        assert(s[i as int] == "-"@);
                    },
                }
            }
            return Some(i);
        }
        i = i + 1;
    }
    None
}

/// The images to transfer: the arguments, the first `-` among them replaced by the lines
/// of the standard input.
pub open spec fn requested_images(arguments: Seq<Seq<char>>, stdin_lines: Seq<Seq<char>>) -> Seq<Seq<char>> {
    match stdin_index(arguments) {
        None => arguments,
        Some(k) => arguments.take(k) + stdin_lines + arguments.skip(k + 1),
    }
}

/// The images to transfer, given the lines of the standard input (read only where an
/// argument is `-`).
pub fn get_requested_images(argument_images: Vec<String>, stdin_images: Vec<String>) -> (images: Vec<String>)
    ensures
        images.deep_view() == requested_images(argument_images.deep_view(), stdin_images.deep_view()),
{
    proof {
        lemma_stdin_index(argument_images.deep_view());
    }
    match find_stdin(&argument_images) {
        None => argument_images,
        Some(k) => {
            let mut images: Vec<String> = Vec::new();
            let mut i: usize = 0;
            while i < argument_images.len()
                invariant
                    i <= argument_images.len(),
                    k < argument_images.len(),
                    images.deep_view() == if i <= k {
                        argument_images.deep_view().take(i as int)
                    } else {
                        argument_images.deep_view().take(k as int) + stdin_images.deep_view()
                            + argument_images.deep_view().subrange(k + 1, i as int)
                    },
                decreases argument_images.len() - i,
            {
                let ghost before = images.deep_view();
                if i == k {
                    let mut j: usize = 0;
                    while j < stdin_images.len()
                        invariant
                            j <= stdin_images.len(),
                            images.deep_view() == before + stdin_images.deep_view().take(j as int),
                        decreases stdin_images.len() - j,
                    {
                        let ghost b = images.deep_view();
                        images.push(stdin_images[j].clone());
                        assert(images.deep_view() == b.push(stdin_images[j as int]@));
                        assert(stdin_images.deep_view().take(j + 1) == stdin_images.deep_view().take(
                            j as int,
                        ).push(stdin_images[j as int]@));
                        j = j + 1;
                    }
                    assert(stdin_images.deep_view().take(j as int) == stdin_images.deep_view());
                    assert(argument_images.deep_view().subrange(k + 1, k + 1) == Seq::<
                        Seq<char>,
                    >::empty());
                } else {
                    images.push(argument_images[i].clone());
                    assert(images.deep_view() == before.push(argument_images[i as int]@));
                    if i < k {
                        assert(argument_images.deep_view().take(i + 1) == argument_images.deep_view().take(
                            i as int,
                        ).push(argument_images[i as int]@));
                    } else {
                        assert(argument_images.deep_view().subrange(k + 1, i + 1)
                            == argument_images.deep_view().subrange(k + 1, i as int).push(
                            argument_images[i as int]@,
                        ));
                    }
                }
                i = i + 1;
            }
            assert(argument_images.deep_view().subrange(k + 1, argument_images.len() as int)
                == argument_images.deep_view().skip(k + 1));
            images
        },
    }
}

/// The compression command, if one is given: its first element is the program.
pub fn optional_command(command: &Vec<String>) -> (result: Option<CommandLine>)
    ensures
        command.len() == 0 <==> result is None,
        result matches Some(c) ==> c@ == (CommandView {
            program: command.deep_view()[0],
            arguments: command.deep_view().skip(1),
            current_folder: None,
        }),
{
    if command.len() == 0 {
        None
    } else {
        let mut arguments: Vec<String> = Vec::new();
        let mut i: usize = 1;
        assert(command.deep_view().subrange(1, 1) == Seq::<Seq<char>>::empty());
        while i < command.len()
            invariant
                1 <= i <= command.len(),
                arguments.deep_view() == command.deep_view().subrange(1, i as int),
            decreases command.len() - i,
        {
            let ghost before = arguments.deep_view();
            arguments.push(command[i].clone());
            assert(arguments.deep_view() == before.push(command[i as int]@));
            assert(command.deep_view().subrange(1, i + 1) == command.deep_view().subrange(
                1,
                i as int,
            ).push(command[i as int]@));
            i = i + 1;
        }
        assert(command.deep_view().subrange(1, command.len() as int) == command.deep_view().skip(1));
        Some(CommandLine { program: command[0].clone(), arguments, current_folder: None })
    }
}

/// What becomes of one requested image.
pub enum ImageStep {
    /// The destination has it already.
    Skip,
    /// It would be transferred, but this is a dry run.
    WouldTransfer,
    /// It is transferred through these commands, each piped into the next: save from the
    /// source, compress if asked, load into the destination.
    Transfer(Vec<CommandLine>),
}

/// The pipeline that transfers `image`.
pub open spec fn transfer_pipeline(in_: In, image: Seq<char>) -> Seq<CommandView> {
    seq![
        CommandView {
            program: in_.source_docker_cli@.program,
            arguments: in_.source_docker_cli@.arguments + seq!["save"@, "--"@, image],
            current_folder: in_.source_docker_cli@.current_folder,
        },
    ] + (if in_.compress.len() == 0 {
        Seq::empty()
    } else {
        seq![
            CommandView {
                program: in_.compress.deep_view()[0],
                arguments: in_.compress.deep_view().skip(1),
                current_folder: None,
            },
        ]
    }) + seq![
        CommandView {
            program: in_.docker_cli@.program,
            arguments: in_.docker_cli@.arguments + seq!["load"@],
            current_folder: in_.docker_cli@.current_folder,
        },
    ]
}

/// Every transfer saves the image from the source host and loads it into the destination
/// host, compressed or not: the pipeline starts with the source's command followed by
/// `save -- image` and ends with the destination's command followed by `load`; only
/// whether there is a stage in between depends on the compression command.
pub proof fn lemma_transfer_ends(in_: In, other: In, image: Seq<char>)
    requires
        other.source_docker_cli@ == in_.source_docker_cli@,
        other.docker_cli@ == in_.docker_cli@,
    ensures
        transfer_pipeline(in_, image).len() == if in_.compress.len() == 0 {
            2int
        } else {
            3int
        },
        transfer_pipeline(in_, image)[0] == (CommandView {
            program: in_.source_docker_cli@.program,
            arguments: in_.source_docker_cli@.arguments + seq!["save"@, "--"@, image],
            current_folder: in_.source_docker_cli@.current_folder,
        }),
        transfer_pipeline(in_, image).last() == (CommandView {
            program: in_.docker_cli@.program,
            arguments: in_.docker_cli@.arguments + seq!["load"@],
            current_folder: in_.docker_cli@.current_folder,
        }),
        transfer_pipeline(other, image)[0] == transfer_pipeline(in_, image)[0],
        transfer_pipeline(other, image).last() == transfer_pipeline(in_, image).last(),
{
}

/// What becomes of `image`, given the images present on the destination (none are
/// checked when forced): skipped if present, else transferred unless this is a dry run.
pub fn go(in_: &In, available: &Vec<String>, image: &String) -> (step: ImageStep)
    ensures
        !in_.force && available.deep_view().contains(image@) ==> step is Skip,
        !(!in_.force && available.deep_view().contains(image@)) && in_.dry_run ==> step is WouldTransfer,
        !(!in_.force && available.deep_view().contains(image@)) && !in_.dry_run ==> (step matches ImageStep::Transfer(p) && p@.map_values(|c: CommandLine| c@)
            == transfer_pipeline(*in_, image@)),
{
    let present = if in_.force {
        false
    } else {
        crate::subcommand::deploy::deploy_locally::contains_string(available, image)
    };
    if present {
        ImageStep::Skip
    } else if in_.dry_run {
        ImageStep::WouldTransfer
    } else {
        let mut save_arguments = crate::subcommand::deploy::deploy_locally::strings(&["save", "--"]);
        let ghost s = save_arguments.deep_view();
        assert(s == seq!["save"@, "--"@]);
        save_arguments.push(image.clone());
        assert(save_arguments.deep_view() == s.push(image@));
        assert(save_arguments.deep_view() == seq!["save"@, "--"@, image@]);
        let save = with_arguments(&in_.source_docker_cli, &save_arguments);
        let load_arguments = crate::subcommand::deploy::deploy_locally::strings(&["load"]);
        assert(load_arguments.deep_view() == seq!["load"@]);
        let load = with_arguments(&in_.docker_cli, &load_arguments);
        let mut pipeline: Vec<CommandLine> = Vec::new();
        pipeline.push(save);
        match optional_command(&in_.compress) {
            Some(compress) => pipeline.push(compress),
            None => {},
        }
        pipeline.push(load);
        assert(pipeline@.map_values(|c: CommandLine| c@) == transfer_pipeline(*in_, image@));
        ImageStep::Transfer(pipeline)
    }
}

} // verus!
