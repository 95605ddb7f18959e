use crate::library::command::optional_view;
use crate::text::{chars_of, concatenate, slice, split, split_exec, string_of, suffix};
use vstd::prelude::*;

verus! {

/// `base` with `name` adjoined as `Path::join` does on Unix: an absolute `name` replaces
/// `base`; otherwise a `/` separates the two unless `base` is empty or already ends in one.
pub open spec fn joined(base: Seq<char>, name: Seq<char>) -> Seq<char> {
    if name.len() > 0 && name[0] == '/' {
        name
    } else if base.len() == 0 || base.last() == '/' {
        base + name
    } else {
        base + seq!['/'] + name
    }
}

/// `base` with `name` adjoined.
pub fn join(base: &str, name: &str) -> (path: String)
    ensures
        path@ == joined(base@, name@),
{
    let b = chars_of(base);
    let n = chars_of(name);
    if n.len() > 0 && n[0] == '/' {
        name.to_owned()
    } else if b.len() == 0 || b[b.len() - 1] == '/' {
        concatenate(base, name)
    } else {
        let with_separator = concatenate(base, "/");
        proof {
            reveal_strlit("/");
        }
        assert(with_separator@ == base@ + seq!['/']);
        concatenate(with_separator.as_str(), name)
    }
}

/// Index of the last `.` in `name`.
pub open spec fn last_dot(name: Seq<char>) -> Option<int>
    decreases name.len(),
{
    if name.len() == 0 {
        None
    } else if name.last() == '.' {
        Some(name.len() - 1)
    } else {
        last_dot(name.drop_last())
    }
}

proof fn lemma_last_dot(name: Seq<char>)
    ensures
        match last_dot(name) {
            Some(k) => 0 <= k < name.len() && name[k] == '.' && forall|j: int|
                k < j < name.len() ==> name[j] != '.',
            None => forall|j: int| 0 <= j < name.len() ==> name[j] != '.',
        },
    decreases name.len(),
{
    if name.len() > 0 && name.last() != '.' {
        lemma_last_dot(name.drop_last());
        assert forall|j: int| 0 <= j < name.len() - 1 implies name[j] == name.drop_last()[j] by {}
    }
}

/// Whether `name` is `..`.
pub open spec fn is_parent(name: Seq<char>) -> bool {
    name == seq!['.', '.']
}

/// The extension of a file name, as `Path::extension` gives it: what follows the last
/// `.`, unless there is none, the name is `..` or its only `.` is its first character.
pub open spec fn extension(name: Seq<char>) -> Option<Seq<char>> {
    if is_parent(name) {
        None
    } else {
        match last_dot(name) {
            None => None,
            Some(k) => if k == 0 {
                None
            } else {
                Some(name.skip(k + 1))
            },
        }
    }
}

/// The stem of a file name, as `Path::file_stem` gives it: what precedes the last `.`,
/// or the whole name where `extension` finds none.
pub open spec fn stem(name: Seq<char>) -> Seq<char> {
    if is_parent(name) {
        name
    } else {
        match last_dot(name) {
            None => name,
            Some(k) => if k == 0 {
                name
            } else {
                name.take(k)
            },
        }
    }
}

/// Index of the last `.` in `name`.
fn find_last_dot(name: &Vec<char>) -> (index: Option<usize>)
    ensures
        match index {
            Some(k) => last_dot(name@) == Some(k as int),
            None => last_dot(name@) is None,
        },
{
    let mut i = name.len();
    assert(name@.take(i as int) == name@);
    while i > 0
        invariant
            i <= name.len(),
            last_dot(name@) == last_dot(name@.take(i as int)),
        decreases i,
    {
        assert(name@.take(i as int).drop_last() == name@.take(i - 1));
        if name[i - 1] == '.' {
            return Some(i - 1);
        }
        i = i - 1;
    }
    None
}

/// Whether `name` is `..`.
fn is_parent_exec(name: &Vec<char>) -> (r: bool)
    ensures
        r == is_parent(name@),
{
    let r = name.len() == 2 && name[0] == '.' && name[1] == '.';
    assert(r ==> name@ == seq!['.', '.']);
    r
}

/// The extension of the file name `name`, if it has one.
pub fn extension_of(name: &str) -> (r: Option<String>)
    ensures
        match r {
            Some(e) => extension(name@) == Some(e@),
            None => extension(name@) is None,
        },
{
    let chars = chars_of(name);
    if is_parent_exec(&chars) {
        return None;
    }
    proof {
        lemma_last_dot(name@);
    }
    match find_last_dot(&chars) {
        None => None,
        Some(k) => if k == 0 {
            None
        } else {
            Some(string_of(&suffix(&chars, k + 1)))
        },
    }
}

/// The stem of the file name `name`.
pub fn stem_of(name: &str) -> (r: String)
    ensures
        r@ == stem(name@),
{
    let chars = chars_of(name);
    if is_parent_exec(&chars) {
        return name.to_owned();
    }
    match find_last_dot(&chars) {
        None => name.to_owned(),
        Some(k) => if k == 0 {
            name.to_owned()
        } else {
            proof {
                lemma_last_dot(name@);
            }
            string_of(&slice(&chars, 0, k))
        },
    }
}


/// Whether a part of a path between `/` names something: it is neither empty nor `.`.
pub open spec fn names_something(part: Seq<char>) -> bool {
    part.len() > 0 && part != seq!['.']
}

/// The parts among `parts` that name something, in order.
pub open spec fn named(parts: Seq<Seq<char>>) -> Seq<Seq<char>> {
    parts.filter(|part: Seq<char>| names_something(part))
}

/// The components of the path `path` that name something: its parts between `/`, without
/// the empty ones and those that are `.`.
pub open spec fn named_components(path: Seq<char>) -> Seq<Seq<char>> {
    named(split(path, '/'))
}

/// The final component of the path `path`, as `Path::file_name` gives it on Unix: the last
/// of its named components, unless it has none (an empty path, `.` or a root) or the last
/// is `..`.
pub open spec fn path_file_name(path: Seq<char>) -> Option<Seq<char>> {
    let parts = named_components(path);
    if parts.len() == 0 || is_parent(parts.last()) {
        None
    } else {
        Some(parts.last())
    }
}

/// Whether `part` names something.
fn names_something_exec(part: &String) -> (r: bool)
    ensures
        r == names_something(part@),
{
    let chars = chars_of(part.as_str());
    let is_dot = chars.len() == 1 && chars[0] == '.';
    if is_dot {
        assert(chars@ =~= seq!['.']);
    }
    chars.len() > 0 && !is_dot
}

/// The final component of `path`, as `Path::file_name` gives it on Unix, if it has one.
pub fn file_name_of(path: &str) -> (name: Option<String>)
    ensures
        optional_view(name) == path_file_name(path@),
{
    let parts = split_exec(&path.to_owned(), '/');
    let mut last: Option<String> = None;
    let mut i: usize = 0;
    assert(parts.deep_view().take(0) == Seq::<Seq<char>>::empty());
    proof {
        reveal(Seq::filter);
    }
    while i < parts.len()
        invariant
            i <= parts.len(),
            optional_view(last) == (if named(parts.deep_view().take(i as int)).len() == 0 {
                None
            } else {
                Some(named(parts.deep_view().take(i as int)).last())
            }),
        decreases parts.len() - i,
    {
        let ghost done = parts.deep_view().take(i as int);
        let ghost next = parts.deep_view().take(i + 1);
        proof {
            reveal(Seq::filter);
            assert(next.drop_last() == done);
            assert(next.last() == parts[i as int]@);
        }
        if names_something_exec(&parts[i]) {
            last = Some(parts[i].clone());
        }
        i = i + 1;
    }
    assert(parts.deep_view().take(parts.len() as int) == parts.deep_view());
    match last {
        None => None,
        Some(name) => {
            let chars = chars_of(name.as_str());
            let parent = chars.len() == 2 && chars[0] == '.' && chars[1] == '.';
            if parent {
                assert(chars@ =~= seq!['.', '.']);
                None
            } else {
                Some(name)
            }
        },
    }
}

} // verus!
