use vstd::prelude::*;

verus! {

/// The characters of `text`, in order.
pub fn chars_of(text: &str) -> (chars: Vec<char>)
    ensures
        chars@ == text@,
{
    broadcast use vstd::string::group_string_axioms;

    let mut chars: Vec<char> = Vec::new();
    for c in iter: text.chars()
        invariant
            chars@ == iter.seq().take(iter.index() as int),
    {
        chars.push(c);
    }
    chars
}

/// `String::push`: appends one character.
#[verifier::external_body]
fn push_char(text: &mut String, c: char)
    ensures
        final(text)@ == old(text)@.push(c),
{
    text.push(c);
}

/// `head` followed by `tail`.
pub fn concatenate(head: &str, tail: &str) -> (text: String)
    ensures
        text@ == head@ + tail@,
{
    let mut text = head.to_owned();
    text.append(tail);
    text
}

/// Whether `a` and `b` hold the same strings in the same order.
pub fn same_strings(a: &Vec<String>, b: &Vec<String>) -> (r: bool)
    ensures
        r == (a.deep_view() == b.deep_view()),
{
    if a.len() != b.len() {
        assert(a.deep_view().len() != b.deep_view().len());
        return false;
    }
    let mut i: usize = 0;
    while i < a.len()
        invariant
            i <= a.len(),
            a.len() == b.len(),
            forall|k: int| 0 <= k < i ==> a.deep_view()[k] == b.deep_view()[k],
        decreases a.len() - i,
    {
        if a[i] != b[i] {
            assert(a.deep_view()[i as int] != b.deep_view()[i as int]);
            return false;
        }
        i = i + 1;
    }
    assert(a.deep_view() =~= b.deep_view());
    true
}

/// A copy of every string of `strings`, in order.
pub fn copy_strings(strings: &Vec<String>) -> (copy: Vec<String>)
    ensures
        copy.deep_view() == strings.deep_view(),
{
    let mut copy: Vec<String> = Vec::new();
    let mut i: usize = 0;
    while i < strings.len()
        invariant
            i <= strings.len(),
            copy.deep_view() == strings.deep_view().take(i as int),
        decreases strings.len() - i,
    {
        copy.push(strings[i].clone());
        assert(strings.deep_view().take(i + 1) == strings.deep_view().take(i as int).push(
            strings[i as int]@,
        ));
        assert(copy.deep_view() == strings.deep_view().take(i + 1));
        i = i + 1;
    }
    assert(strings.deep_view().take(strings.len() as int) == strings.deep_view());
    copy
}

/// Whether `a` comes before `b` or equals it, comparing character by character (by code
/// point), a proper prefix first.
pub open spec fn lex_le(a: Seq<char>, b: Seq<char>) -> bool
    decreases a.len(),
{
    if a.len() == 0 {
        true
    } else if b.len() == 0 {
        false
    } else if a[0] != b[0] {
        a[0] < b[0]
    } else {
        lex_le(a.drop_first(), b.drop_first())
    }
}

/// Of two strings, one comes first.
pub proof fn lemma_lex_total(a: Seq<char>, b: Seq<char>)
    ensures
        lex_le(a, b) || lex_le(b, a),
    decreases a.len(),
{
    if a.len() > 0 && b.len() > 0 && a[0] == b[0] {
        lemma_lex_total(a.drop_first(), b.drop_first());
    }
}

/// The order is transitive.
pub proof fn lemma_lex_transitive(a: Seq<char>, b: Seq<char>, c: Seq<char>)
    requires
        lex_le(a, b),
        lex_le(b, c),
    ensures
        lex_le(a, c),
    decreases a.len(),
{
    if a.len() > 0 && b.len() > 0 && c.len() > 0 && a[0] == b[0] && b[0] == c[0] {
        lemma_lex_transitive(a.drop_first(), b.drop_first(), c.drop_first());
    }
}

/// The order is antisymmetric.
pub proof fn lemma_lex_antisymmetric(a: Seq<char>, b: Seq<char>)
    requires
        lex_le(a, b),
        lex_le(b, a),
    ensures
        a == b,
    decreases a.len(),
{
    if a.len() > 0 && b.len() > 0 {
        lemma_lex_antisymmetric(a.drop_first(), b.drop_first());
        assert(a == seq![a[0]] + a.drop_first());
        assert(b == seq![b[0]] + b.drop_first());
    }
}

/// Whether `a` comes before `b` or equals it.
pub fn lex_le_exec(a: &String, b: &String) -> (r: bool)
    ensures
        r == lex_le(a@, b@),
{
    let x = chars_of(a.as_str());
    let y = chars_of(b.as_str());
    let mut i: usize = 0;
    assert(a@.skip(0) == a@ && b@.skip(0) == b@);
    while i < x.len() && i < y.len()
        invariant
            i <= x.len(),
            i <= y.len(),
            x@ == a@,
            y@ == b@,
            x@.take(i as int) == y@.take(i as int),
            lex_le(a@, b@) == lex_le(a@.skip(i as int), b@.skip(i as int)),
        decreases x.len() - i,
    {
        let ghost (p, q) = (a@.skip(i as int), b@.skip(i as int));
        assert(p[0] == x@[i as int] && q[0] == y@[i as int]);
        if x[i] != y[i] {
            return x[i] < y[i];
        }
        assert(p.drop_first() == a@.skip(i + 1));
        assert(q.drop_first() == b@.skip(i + 1));
        assert(x@.take(i + 1) == x@.take(i as int).push(x@[i as int]));
        assert(y@.take(i + 1) == y@.take(i as int).push(y@[i as int]));
        i = i + 1;
    }
    i == x.len()
}

/// The fields of `s` between the occurrences of `separator`, as `str::split` yields them:
/// an empty string gives one empty field.
pub open spec fn split(s: Seq<char>, separator: char) -> Seq<Seq<char>>
    decreases s.len(),
{
    match first_index_of(s, separator) {
        None => seq![s],
        Some(k) => {
            proof {
                lemma_first_index_of(s, separator);
            }
            seq![s.take(k)] + split(s.skip(k + 1), separator)
        },
    }
}

/// `parts` with `separator` between each two of them.
pub open spec fn joined_with(parts: Seq<Seq<char>>, separator: char) -> Seq<char>
    decreases parts.len(),
{
    if parts.len() == 0 {
        Seq::empty()
    } else if parts.len() == 1 {
        parts[0]
    } else {
        parts[0] + seq![separator] + joined_with(parts.drop_first(), separator)
    }
}

/// How often `c` occurs in `s`.
pub open spec fn count_char(s: Seq<char>, c: char) -> nat
    decreases s.len(),
{
    if s.len() == 0 {
        0
    } else {
        (if s[0] == c {
            1nat
        } else {
            0nat
        }) + count_char(s.drop_first(), c)
    }
}

/// Occurrences add up over a concatenation.
proof fn lemma_count_concat(a: Seq<char>, b: Seq<char>, c: char)
    ensures
        count_char(a + b, c) == count_char(a, c) + count_char(b, c),
    decreases a.len(),
{
    if a.len() > 0 {
        assert((a + b).drop_first() == a.drop_first() + b);
        lemma_count_concat(a.drop_first(), b, c);
    } else {
        assert(a + b == b);
    }
}

/// A text without `c` holds it nowhere.
proof fn lemma_count_none(s: Seq<char>, c: char)
    requires
        forall|j: int| 0 <= j < s.len() ==> s[j] != c,
    ensures
        count_char(s, c) == 0,
    decreases s.len(),
{
    if s.len() > 0 {
        assert forall|j: int| 0 <= j < s.len() - 1 implies s.drop_first()[j] != c by {
            assert(s.drop_first()[j] == s[j + 1]);
        }
        lemma_count_none(s.drop_first(), c);
    }
}

/// Splitting `s` at `separator` and joining the parts with it gives `s` back, and there is
/// one part more than there are separators.
pub proof fn lemma_split_join(s: Seq<char>, separator: char)
    ensures
        joined_with(split(s, separator), separator) == s,
        split(s, separator).len() == count_char(s, separator) + 1,
    decreases s.len(),
{
    lemma_first_index_of(s, separator);
    match first_index_of(s, separator) {
        None => {
            lemma_count_none(s, separator);
        },
        Some(k) => {
            let rest = s.skip(k + 1);
            lemma_split_join(rest, separator);
            let parts = split(s, separator);
            assert(parts == seq![s.take(k)] + split(rest, separator));
            assert(parts.drop_first() == split(rest, separator));
            assert(parts[0] == s.take(k));
            assert(s == s.take(k) + seq![separator] + rest);
            lemma_count_none(s.take(k), separator);
            lemma_count_concat(s.take(k), seq![separator] + rest, separator);
            lemma_count_concat(seq![separator], rest, separator);
            assert(count_char(seq![separator], separator) == 1) by {
                let one = seq![separator];
                assert(one.drop_first() == Seq::<char>::empty());
                assert(count_char(one.drop_first(), separator) == 0);
                assert(one[0] == separator);
            }
            assert(s.take(k) + seq![separator] + rest == s.take(k) + (seq![separator] + rest));
        },
    }
}

/// `first_index_of` finds `k` when `c` is at `k` and nowhere before.
pub proof fn lemma_first_index_is(s: Seq<char>, c: char, k: int)
    requires
        0 <= k < s.len(),
        s[k] == c,
        forall|j: int| 0 <= j < k ==> s[j] != c,
    ensures
        first_index_of(s, c) == Some(k),
{
    lemma_first_index_of(s, c);
    match first_index_of(s, c) {
        Some(m) => {
            if m < k {
                assert(s[m] != c);
            }
            if m > k {
                assert(s[k] != c);
            }
        },
        None => {
            assert(s[k] != c);
        },
    }
}

/// `first_index_of` finds nothing when `c` does not occur.
pub proof fn lemma_first_index_none(s: Seq<char>, c: char)
    requires
        forall|j: int| 0 <= j < s.len() ==> s[j] != c,
    ensures
        first_index_of(s, c) is None,
{
    lemma_first_index_of(s, c);
    if let Some(m) = first_index_of(s, c) {
        assert(s[m] != c);
    }
}

/// The fields of `text` between the occurrences of `separator`.
pub fn split_exec(text: &String, separator: char) -> (fields: Vec<String>)
    ensures
        fields.deep_view() == split(text@, separator),
{
    let chars = chars_of(text.as_str());
    let ghost s = text@;
    let mut fields: Vec<String> = Vec::new();
    let mut start: usize = 0;
    let mut i: usize = 0;
    assert(s.skip(0) == s);
    while i < chars.len()
        invariant
            chars@ == s,
            start <= i <= chars.len(),
            forall|j: int| start <= j < i ==> s[j] != separator,
            fields.deep_view() + split(s.skip(start as int), separator) == split(s, separator),
        decreases chars.len() - i,
    {
        if chars[i] == separator {
            let field = slice(&chars, start, i);
            proof {
                let rest = s.skip(start as int);
                assert forall|j: int| 0 <= j < i - start implies rest[j] != separator by {
                    assert(rest[j] == s[start + j]);
                }
                lemma_first_index_is(rest, separator, i - start);
                assert(rest.take(i - start) == s.subrange(start as int, i as int));
                assert(rest.skip(i - start + 1) == s.skip(i + 1));
            }
            let ghost before = fields.deep_view();
            fields.push(string_of(&field));
            proof {
                assert(fields.deep_view() == before.push(s.subrange(start as int, i as int)));
                assert(fields.deep_view() + split(s.skip(i + 1), separator) == before + split(
                    s.skip(start as int),
                    separator,
                ));
            }
            start = i + 1;
        }
        i = i + 1;
    }
    let last = suffix(&chars, start);
    proof {
        let rest = s.skip(start as int);
        assert forall|j: int| 0 <= j < rest.len() implies rest[j] != separator by {
            assert(rest[j] == s[start + j]);
        }
        lemma_first_index_none(rest, separator);
    }
    let ghost before = fields.deep_view();
    fields.push(string_of(&last));
    assert(fields.deep_view() == before.push(s.skip(start as int)));
    fields
}

/// `line` without one trailing `\r`, if it has one.
fn without_carriage_return_exec(line: Vec<char>) -> (r: String)
    ensures
        r@ == without_carriage_return(line@),
{
    if line.len() > 0 && line[line.len() - 1] == '\r' {
        string_of(&slice(&line, 0, line.len() - 1))
    } else {
        string_of(&line)
    }
}

/// The lines of `text`, as `str::lines` yields them.
pub fn lines_exec(text: &str) -> (result: Vec<String>)
    ensures
        result.deep_view() == lines(text@),
{
    let chars = chars_of(text);
    let ghost s = text@;
    let mut result: Vec<String> = Vec::new();
    let mut start: usize = 0;
    let mut i: usize = 0;
    assert(s.skip(0) == s);
    while i < chars.len()
        invariant
            chars@ == s,
            start <= i <= chars.len(),
            forall|j: int| start <= j < i ==> s[j] != '\n',
            result.deep_view() + lines(s.skip(start as int)) == lines(s),
        decreases chars.len() - i,
    {
        if chars[i] == '\n' {
            let line = slice(&chars, start, i);
            proof {
                let rest = s.skip(start as int);
                assert forall|j: int| 0 <= j < i - start implies rest[j] != '\n' by {
                    assert(rest[j] == s[start + j]);
                }
                lemma_first_index_is(rest, '\n', i - start);
                assert(rest.take(i - start) == s.subrange(start as int, i as int));
                assert(rest.skip(i - start + 1) == s.skip(i + 1));
            }
            let ghost before = result.deep_view();
            result.push(without_carriage_return_exec(line));
            proof {
                assert(result.deep_view() == before.push(
                    without_carriage_return(s.subrange(start as int, i as int)),
                ));
                assert(result.deep_view() + lines(s.skip(i + 1)) == before + lines(
                    s.skip(start as int),
                ));
            }
            start = i + 1;
        }
        i = i + 1;
    }
    if start < chars.len() {
        let last = suffix(&chars, start);
        proof {
            let rest = s.skip(start as int);
            assert forall|j: int| 0 <= j < rest.len() implies rest[j] != '\n' by {
                assert(rest[j] == s[start + j]);
            }
            lemma_first_index_none(rest, '\n');
        }
        let ghost before = result.deep_view();
        result.push(string_of(&last));
        assert(result.deep_view() == before.push(s.skip(start as int)));
    } else {
        assert(s.skip(start as int) == Seq::<char>::empty());
        assert(result.deep_view() + Seq::<Seq<char>>::empty() == result.deep_view());
    }
    result
}

/// Whether `c` has the Unicode property White_Space, as `char::is_whitespace` tests.
pub open spec fn is_whitespace(c: char) -> bool {
    ||| ('\t' <= c && c <= '\r')
    ||| c == ' '
    ||| c == '\u{85}'
    ||| c == '\u{a0}'
    ||| c == '\u{1680}'
    ||| ('\u{2000}' <= c && c <= '\u{200a}')
    ||| c == '\u{2028}'
    ||| c == '\u{2029}'
    ||| c == '\u{202f}'
    ||| c == '\u{205f}'
    ||| c == '\u{3000}'
}

/// Whether `c` has the Unicode property White_Space.
pub fn is_whitespace_exec(c: char) -> (r: bool)
    ensures
        r == is_whitespace(c),
{
    ('\t' <= c && c <= '\r') || c == ' ' || c == '\u{85}' || c == '\u{a0}' || c == '\u{1680}'
        || ('\u{2000}' <= c && c <= '\u{200a}') || c == '\u{2028}' || c == '\u{2029}' || c
        == '\u{202f}' || c == '\u{205f}' || c == '\u{3000}'
}

/// `s` without its trailing whitespace, as `str::trim_end` gives it.
pub open spec fn trimmed_end(s: Seq<char>) -> Seq<char>
    decreases s.len(),
{
    if s.len() > 0 && is_whitespace(s.last()) {
        trimmed_end(s.drop_last())
    } else {
        s
    }
}

/// `text` without its trailing whitespace.
pub fn trim_end(text: &str) -> (r: String)
    ensures
        r@ == trimmed_end(text@),
{
    let chars = chars_of(text);
    let mut end = chars.len();
    assert(chars@.take(end as int) == chars@);
    while end > 0 && is_whitespace_exec(chars[end - 1])
        invariant
            end <= chars.len(),
            trimmed_end(chars@) == trimmed_end(chars@.take(end as int)),
        decreases end,
    {
        assert(chars@.take(end as int).drop_last() == chars@.take(end - 1));
        end = end - 1;
    }
    assert(chars@.subrange(0, end as int) == chars@.take(end as int));
    string_of(&slice(&chars, 0, end))
}

/// `s` with `prefix` removed from its front if it begins with it, else `s`.
pub open spec fn without_prefix(s: Seq<char>, prefix: Seq<char>) -> Seq<char> {
    match strip_prefix(s, prefix) {
        Some(rest) => rest,
        None => s,
    }
}

/// `text` with `prefix` removed from its front if it begins with it.
pub fn remove_prefix(text: &str, prefix: &str) -> (r: String)
    ensures
        r@ == without_prefix(text@, prefix@),
{
    let chars = chars_of(text);
    let p = chars_of(prefix);
    if starts_with(&chars, &p) {
        string_of(&suffix(&chars, p.len()))
    } else {
        text.to_owned()
    }
}

/// How `format!("{:?}", ..)` writes a string: quoted, with special characters escaped.
pub uninterp spec fn debug_text(s: Seq<char>) -> Seq<char>;

/// `format!("{:?}", text)`: the string quoted as Rust's `Debug` writes it. What that is
/// is named, not stated.
#[verifier::external_body]
pub fn debug_quote(text: &str) -> (quoted: String)
    ensures
        quoted@ == debug_text(text@),
{
    format!("{:?}", text)
}

/// How `format!("{:?}", ..)` writes a path.
pub uninterp spec fn debug_path_text(path: Seq<char>) -> Seq<char>;

/// `format!("{:?}", std::path::Path::new(path))`: the path quoted as Rust's `Debug` writes
/// it. What that is is named, not stated.
#[verifier::external_body]
pub fn debug_quote_path(path: &str) -> (quoted: String)
    ensures
        quoted@ == debug_path_text(path@),
{
    format!("{:?}", std::path::Path::new(path))
}

/// The string made of `chars`, in order.
pub fn string_of(chars: &Vec<char>) -> (text: String)
    ensures
        text@ == chars@,
{
    let mut text = String::new();
    let mut i: usize = 0;
    while i < chars.len()
        invariant
            i <= chars.len(),
            text@ == chars@.take(i as int),
        decreases chars.len() - i,
    {
        push_char(&mut text, chars[i]);
        assert(chars@.take(i + 1) == chars@.take(i as int).push(chars@[i as int]));
        i = i + 1;
    }
    assert(chars@.take(chars.len() as int) == chars@);
    text
}

/// Whether `prefix` is a prefix of `s`.
pub open spec fn is_prefix(prefix: Seq<char>, s: Seq<char>) -> bool {
    prefix.len() <= s.len() && s.take(prefix.len() as int) == prefix
}

/// Whether `s` begins with `prefix`.
pub fn starts_with(s: &Vec<char>, prefix: &Vec<char>) -> (r: bool)
    ensures
        r == is_prefix(prefix@, s@),
{
    if prefix.len() > s.len() {
        return false;
    }
    let mut i: usize = 0;
    while i < prefix.len()
        invariant
            prefix.len() <= s.len(),
            i <= prefix.len(),
            s@.take(i as int) == prefix@.take(i as int),
        decreases prefix.len() - i,
    {
        if s[i] != prefix[i] {
            assert(s@.take(prefix.len() as int)[i as int] != prefix@[i as int]);
            return false;
        }
        assert(s@.take(i + 1) == s@.take(i as int).push(s@[i as int]));
        assert(prefix@.take(i + 1) == prefix@.take(i as int).push(prefix@[i as int]));
        i = i + 1;
    }
    assert(prefix@.take(prefix.len() as int) == prefix@);
    true
}

/// `s` with `prefix` removed from its front, if it begins with `prefix`.
pub open spec fn strip_prefix(s: Seq<char>, prefix: Seq<char>) -> Option<Seq<char>> {
    if is_prefix(prefix, s) {
        Some(s.skip(prefix.len() as int))
    } else {
        None
    }
}

/// The characters of `s` from index `start` on.
pub fn suffix(s: &Vec<char>, start: usize) -> (r: Vec<char>)
    requires
        start <= s.len(),
    ensures
        r@ == s@.skip(start as int),
{
    slice(s, start, s.len())
}

/// The characters of `s` from index `start` up to, not including, index `end`.
pub fn slice(s: &Vec<char>, start: usize, end: usize) -> (r: Vec<char>)
    requires
        start <= end <= s.len(),
    ensures
        r@ == s@.subrange(start as int, end as int),
{
    let mut r: Vec<char> = Vec::new();
    let mut i = start;
    while i < end
        invariant
            start <= i <= end <= s.len(),
            r@ == s@.subrange(start as int, i as int),
        decreases end - i,
    {
        r.push(s[i]);
        assert(s@.subrange(start as int, i + 1) == s@.subrange(start as int, i as int).push(
            s@[i as int],
        ));
        i = i + 1;
    }
    r
}

/// Lines of `s` as `str::lines` yields them: split at each `\n`, a `\r` right before the
/// `\n` removed, no final empty line after a final `\n`.
pub open spec fn lines(s: Seq<char>) -> Seq<Seq<char>>
    decreases s.len(),
{
    if s.len() == 0 {
        Seq::empty()
    } else {
        match first_index_of(s, '\n') {
            None => seq![s],
            Some(k) => {
                proof {
                    lemma_first_index_of(s, '\n');
                }
                seq![without_carriage_return(s.take(k))] + lines(s.skip(k + 1))
            },
        }
    }
}

/// `line` without one trailing `\r`, if it has one.
pub open spec fn without_carriage_return(line: Seq<char>) -> Seq<char> {
    if line.len() > 0 && line.last() == '\r' {
        line.drop_last()
    } else {
        line
    }
}

/// Index of the first occurrence of `c` in `s`.
pub open spec fn first_index_of(s: Seq<char>, c: char) -> Option<int>
    decreases s.len(),
{
    if s.len() == 0 {
        None
    } else if s[0] == c {
        Some(0)
    } else {
        match first_index_of(s.drop_first(), c) {
            Some(k) => Some(k + 1),
            None => None,
        }
    }
}

/// What `first_index_of` finds: the first position of `c`, or that `c` does not occur.
pub proof fn lemma_first_index_of(s: Seq<char>, c: char)
    ensures
        match first_index_of(s, c) {
            Some(k) => 0 <= k < s.len() && s[k] == c && forall|j: int| 0 <= j < k ==> s[j] != c,
            None => forall|j: int| 0 <= j < s.len() ==> s[j] != c,
        },
    decreases s.len(),
{
    if s.len() > 0 && s[0] != c {
        lemma_first_index_of(s.drop_first(), c);
        assert forall|j: int| 1 <= j < s.len() implies s[j] == s.drop_first()[j - 1] by {}
    }
}

} // verus!
