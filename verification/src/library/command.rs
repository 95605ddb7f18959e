use crate::string_map::{entries_map, lemma_entries_map_concat, StringMap};
use crate::text::copy_strings;
use vstd::prelude::*;

verus! {

/// A program to run with its arguments, in an optional working folder.
pub struct CommandLine {
    pub program: String,
    pub arguments: Vec<String>,
    pub current_folder: Option<String>,
}

/// The value of a `CommandLine`.
pub struct CommandView {
    pub program: Seq<char>,
    pub arguments: Seq<Seq<char>>,
    pub current_folder: Option<Seq<char>>,
}

/// The value of an optional string.
pub open spec fn optional_view(text: Option<String>) -> Option<Seq<char>> {
    match text {
        Some(t) => Some(t@),
        None => None,
    }
}

impl View for CommandLine {
    type V = CommandView;

    open spec fn view(&self) -> CommandView {
        CommandView {
            program: self.program@,
            arguments: self.arguments.deep_view(),
            current_folder: optional_view(self.current_folder),
        }
    }
}

impl CommandLine {
    /// `program` with `arguments`, run in the current folder.
    pub fn new(program: &str, arguments: Vec<String>) -> (command: Self)
        ensures
            command@ == (CommandView {
                program: program@,
                arguments: arguments.deep_view(),
                current_folder: None,
            }),
    {
        CommandLine { program: program.to_owned(), arguments, current_folder: None }
    }
}

/// `base` with `extra` added after its arguments.
pub fn with_arguments(base: &CommandLine, extra: &Vec<String>) -> (command: CommandLine)
    ensures
        command@ == (CommandView {
            program: base@.program,
            arguments: base@.arguments + extra.deep_view(),
            current_folder: base@.current_folder,
        }),
{
    let mut arguments = copy_strings(&base.arguments);
    let ghost start = arguments.deep_view();
    let mut i: usize = 0;
    while i < extra.len()
        invariant
            i <= extra.len(),
            start == base.arguments.deep_view(),
            arguments.deep_view() == start + extra.deep_view().take(i as int),
        decreases extra.len() - i,
    {
        let ghost before = arguments.deep_view();
        arguments.push(extra[i].clone());
        assert(arguments.deep_view() == before.push(extra[i as int]@));
        assert(extra.deep_view().take(i + 1) == extra.deep_view().take(i as int).push(
            extra[i as int]@,
        ));
        i = i + 1;
    }
    assert(extra.deep_view().take(extra.len() as int) == extra.deep_view());
    CommandLine {
        program: base.program.clone(),
        arguments,
        current_folder: copy_optional(&base.current_folder),
    }
}

/// A command with the environment variables that it gets on top of those of the process,
/// set in order (a later one for a name wins).
pub struct Launch {
    pub command: CommandLine,
    pub environment: Vec<(String, String)>,
}

/// Appends copies of `entries` to `environment`.
fn push_entries(environment: &mut Vec<(String, String)>, entries: &Vec<(String, String)>)
    ensures
        final(environment)@ == old(environment)@ + entries@,
        entries_map(final(environment)@) == entries_map(old(environment)@).union_prefer_right(
            entries_map(entries@),
        ),
{
    let ghost start = environment@;
    let mut i: usize = 0;
    assert(start + entries@.take(0) == start);
    while i < entries.len()
        invariant
            i <= entries.len(),
            environment@ == start + entries@.take(i as int),
        decreases entries.len() - i,
    {
        environment.push((entries[i].0.clone(), entries[i].1.clone()));
        assert(start + entries@.take(i + 1) == (start + entries@.take(i as int)).push(
            entries@[i as int],
        ));
        i = i + 1;
    }
    assert(entries@.take(entries.len() as int) == entries@);
    proof {
        lemma_entries_map_concat(start, entries@);
    }
}

/// The variables of `first` followed by those of `second`, in the order that they were
/// inserted, so that setting them in order gives `second` precedence.
pub fn environment_of(first: &StringMap<String>, second: &StringMap<String>) -> (environment: Vec<
    (String, String),
>)
    ensures
        entries_map(environment@) == first@.union_prefer_right(second@),
{
    let mut environment: Vec<(String, String)> = Vec::new();
    push_entries(&mut environment, first.entries());
    assert(entries_map(Seq::<(String, String)>::empty()).union_prefer_right(first@) =~= first@);
    push_entries(&mut environment, second.entries());
    environment
}

/// A copy of an optional string.
pub fn copy_optional(text: &Option<String>) -> (copy: Option<String>)
    ensures
        optional_view(copy) == optional_view(*text),
{
    match text {
        Some(t) => Some(t.clone()),
        None => None,
    }
}

/// A copy of `command`.
pub fn copy_command(command: &CommandLine) -> (copy: CommandLine)
    ensures
        copy@ == command@,
{
    CommandLine {
        program: command.program.clone(),
        arguments: copy_strings(&command.arguments),
        current_folder: copy_optional(&command.current_folder),
    }
}

/// How a command run with a time limit ended.
#[derive(Clone, Copy, Debug, PartialEq, Eq, Structural)]
pub enum StatusWithinTime {
    Failure,
    Success,
    Timeout,
}

/// What an exit code says when it answers a yes-or-no question: code 0 means `false`, code
/// 1 means `true`, and any other code (or none, as after a signal) is an error (`None`).
pub fn status_bit(code: Option<i32>) -> (answer: Option<bool>)
    ensures
        answer == (match code {
            Some(0) => Some(false),
            Some(1) => Some(true),
            _ => None::<bool>,
        }),
{
    match code {
        Some(0) => Some(false),
        Some(1) => Some(true),
        _ => None,
    }
}

/// Whether a command that ended with `code` succeeded: only code 0 is success.
pub fn status_ok(code: Option<i32>) -> (ok: bool)
    ensures
        ok == (code == Some(0i32)),
{
    match code {
        Some(0) => true,
        _ => false,
    }
}

/// How a command run with a time limit ended: `None` if it was still running when the time
/// was up, else whether its exit code was 0.
pub fn status_within_time(code: Option<Option<i32>>) -> (status: StatusWithinTime)
    ensures
        status == (match code {
            None => StatusWithinTime::Timeout,
            Some(Some(0)) => StatusWithinTime::Success,
            Some(_) => StatusWithinTime::Failure,
        }),
{
    match code {
        None => StatusWithinTime::Timeout,
        Some(c) => if status_ok(c) {
            StatusWithinTime::Success
        } else {
            StatusWithinTime::Failure
        },
    }
}

/// The standard output of a command, if it ended with code 0.
pub fn stdout_raw(code: Option<i32>, stdout: Vec<u8>) -> (output: Option<Vec<u8>>)
    ensures
        output == (if code == Some(0i32) {
            Some(stdout)
        } else {
            None::<Vec<u8>>
        }),
{
    if status_ok(code) {
        Some(stdout)
    } else {
        None
    }
}

} // verus!
