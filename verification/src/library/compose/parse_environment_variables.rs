use crate::string_map::StringMap;
use crate::text::{chars_of, first_index_of, lemma_first_index_of, lines, lines_exec, slice, string_of, suffix};
use vstd::prelude::*;

verus! {

/// The variables that the lines of an environment file set: a line that is empty or starts
/// with `#` sets nothing; `KEY=VALUE` (split at the first `=`) sets `KEY` to `VALUE`;
/// a line without `=` names a variable that is unset (`None`). A later line for a key
/// wins.
pub open spec fn environment_map(lines: Seq<Seq<char>>) -> Map<Seq<char>, Option<Seq<char>>>
    decreases lines.len(),
{
    if lines.len() == 0 {
        Map::empty()
    } else {
        let earlier = environment_map(lines.drop_last());
        let line = lines.last();
        if line.len() == 0 || line[0] == '#' {
            earlier
        } else {
            match first_index_of(line, '=') {
                None => earlier.insert(line, None),
                Some(k) => earlier.insert(line.take(k), Some(line.skip(k + 1))),
            }
        }
    }
}

/// Each line acts on the variables that the lines before it set: a line that is empty or
/// starts with `#` leaves them as they are; a line whose first `=` is at `k` sets the
/// variable named by what precedes it to exactly what follows it, whatever characters
/// (`#` and `=` among them) that holds; a line without `=` unsets the variable it names.
pub proof fn lemma_line_effect(earlier: Seq<Seq<char>>, line: Seq<char>)
    ensures
        (line.len() == 0 || line[0] == '#') ==> environment_map(earlier.push(line))
            == environment_map(earlier),
        forall|k: int|
            0 <= k < line.len() && line[0] != '#' && #[trigger] line[k] == '=' && (forall|j: int|
                0 <= j < k ==> line[j] != '=') ==> environment_map(earlier.push(line))
                == environment_map(earlier).insert(
                line.subrange(0, k),
                Some(line.subrange(k + 1, line.len() as int)),
            ),
        (line.len() > 0 && line[0] != '#' && forall|j: int| 0 <= j < line.len() ==> line[j] != '=')
            ==> environment_map(earlier.push(line)) == environment_map(earlier).insert(line, None),
{
    let all = earlier.push(line);
    assert(all.drop_last() == earlier);
    assert(all.last() == line);
    assert forall|k: int|
        0 <= k < line.len() && line[0] != '#' && #[trigger] line[k] == '=' && (forall|j: int|
            0 <= j < k ==> line[j] != '=') implies environment_map(all) == environment_map(
        earlier,
    ).insert(line.subrange(0, k), Some(line.subrange(k + 1, line.len() as int))) by {
        crate::text::lemma_first_index_is(line, '=', k);
        assert(line.take(k) == line.subrange(0, k));
        assert(line.skip(k + 1) == line.subrange(k + 1, line.len() as int));
    }
    if line.len() > 0 && line[0] != '#' && forall|j: int| 0 <= j < line.len() ==> line[j] != '=' {
        crate::text::lemma_first_index_none(line, '=');
    }
}

/// The variables that the environment file `environment_file` sets.
pub fn go(environment_file: &str) -> (variables: StringMap<Option<String>>)
    ensures
        variables@ == environment_map(lines(environment_file@)),
{
    let all_lines = lines_exec(environment_file);
    let mut variables: StringMap<Option<String>> = StringMap::new();
    let mut i: usize = 0;
    assert(all_lines.deep_view().take(0) == Seq::<Seq<char>>::empty());
    while i < all_lines.len()
        invariant
            i <= all_lines.len(),
            variables@ == environment_map(all_lines.deep_view().take(i as int)),
        decreases all_lines.len() - i,
    {
        let line = chars_of(all_lines[i].as_str());
        proof {
            let taken = all_lines.deep_view().take(i + 1);
            assert(taken.drop_last() == all_lines.deep_view().take(i as int));
            assert(taken.last() == line@);
            lemma_first_index_of(line@, '=');
        }
        if !(line.len() == 0 || line[0] == '#') {
            let mut k: usize = 0;
            while k < line.len() && line[k] != '='
                invariant
                    k <= line.len(),
                    forall|j: int| 0 <= j < k ==> line@[j] != '=',
                decreases line.len() - k,
            {
                k = k + 1;
            }
            if k == line.len() {
                proof {
                    crate::text::lemma_first_index_none(line@, '=');
                }
                variables.insert(string_of(&line), None);
            } else {
                proof {
                    crate::text::lemma_first_index_is(line@, '=', k as int);
                    assert(line@.subrange(0, k as int) == line@.take(k as int));
                }
                let key = string_of(&slice(&line, 0, k));
                let value = string_of(&suffix(&line, k + 1));
                variables.insert(key, Some(value));
            }
        }
        i = i + 1;
    }
    assert(all_lines.deep_view().take(all_lines.len() as int) == all_lines.deep_view());
    variables
}

} // verus!
