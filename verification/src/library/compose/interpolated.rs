use super::interpolate;
use super::interpolate::{
    append_names, escape, find_unset_variables, interpolation, scope_of, unset_variables, EnvironmentValue,
    Failure, InterpolationError,
};
use super::yaml::{entry_models, lemma_entry_models_len, lemma_models_len, models, Yaml, YamlModel};
use crate::string_map::StringMap;
use crate::text::{chars_of, string_of};
use vstd::prelude::*;

verus! {

/// A parsed Compose document with the variables that its strings are interpolated with.
pub struct Source {
    /// The document as parsed from YAML or TOML.
    pub contents: Yaml,
    /// Variables that take precedence over the environment; `None` means unset.
    pub variable_overrides: StringMap<Option<String>>,
    /// The process environment.
    pub environment: StringMap<EnvironmentValue>,
}

/// A function from strings to strings, or to a failure.
pub trait StringFunction {
    /// What the function gives for `s`.
    spec fn spec_apply(&self, s: Seq<char>) -> Result<Seq<char>, Failure>;

    /// The function applied to `s`.
    fn apply(&self, s: &String) -> (r: Result<String, InterpolationError>)
        ensures
            match r {
                Ok(t) => self.spec_apply(s@) == Ok::<Seq<char>, Failure>(t@),
                Err(e) => self.spec_apply(s@) == Err::<Seq<char>, Failure>(e@),
            },
    ;
}

/// Interpolation of variable references.
pub struct Interpolation<'a> {
    /// Variables that take precedence over the environment; `None` means unset.
    pub overrides: &'a StringMap<Option<String>>,
    /// The process environment.
    pub environment: &'a StringMap<EnvironmentValue>,
}

impl<'a> StringFunction for Interpolation<'a> {
    open spec fn spec_apply(&self, s: Seq<char>) -> Result<Seq<char>, Failure> {
        interpolation(s, scope_of(self.overrides, self.environment))
    }

    fn apply(&self, s: &String) -> (r: Result<String, InterpolationError>) {
        interpolate::go(s.as_str(), self.overrides, self.environment)
    }
}

/// Doubling of every `$`.
pub struct Escaping;

impl StringFunction for Escaping {
    open spec fn spec_apply(&self, s: Seq<char>) -> Result<Seq<char>, Failure> {
        Ok(escape(s))
    }

    fn apply(&self, s: &String) -> (r: Result<String, InterpolationError>) {
        Ok(escape_text(s))
    }
}

/// `text` with every `$` replaced by `$$`.
pub fn escape_text(text: &String) -> (r: String)
    ensures
        r@ == escape(text@),
{
    let chars = chars_of(text.as_str());
    let mut escaped: Vec<char> = Vec::new();
    let ghost whole = chars@;
    let mut j: usize = 0;
    assert(whole.skip(0) == whole);
    assert(escaped@ + escape(whole) == escape(whole));
    while j < chars.len()
        invariant
            j <= chars.len(),
            chars@ == whole,
            escape(whole) == escaped@ + escape(whole.skip(j as int)),
        decreases chars.len() - j,
    {
        let ghost rest = whole.skip(j as int);
        assert(rest.drop_first() == whole.skip(j + 1));
        let ghost before = escaped@;
        if chars[j] == '$' {
            escaped.push('$');
            escaped.push('$');
            assert(escaped@ == before + seq!['$', '$']);
        } else {
            escaped.push(chars[j]);
            assert(escaped@ == before + seq![chars@[j as int]]);
        }
        assert(escape(rest) == (if rest[0] == '$' {
            seq!['$', '$']
        } else {
            seq![rest[0]]
        }) + escape(whole.skip(j + 1)));
        j = j + 1;
    }
    assert(whole.skip(j as int) == Seq::<char>::empty());
    assert(escaped@ + Seq::<char>::empty() == escaped@);
    string_of(&escaped)
}


/// `value` with `f` applied to every string value (not to mapping keys); the first failure
/// in document order wins.
pub open spec fn mapped<F: StringFunction>(value: YamlModel, f: &F) -> Result<YamlModel, Failure>
    decreases value,
{
    match value {
        YamlModel::Mapping(entries) => match mapped_entries(entries, f) {
            Ok(e) => Ok(YamlModel::Mapping(e)),
            Err(x) => Err(x),
        },
        YamlModel::Sequence(items) => match mapped_items(items, f) {
            Ok(e) => Ok(YamlModel::Sequence(e)),
            Err(x) => Err(x),
        },
        YamlModel::String(text) => match f.spec_apply(text) {
            Ok(t) => Ok(YamlModel::String(t)),
            Err(x) => Err(x),
        },
        other => Ok(other),
    }
}

/// The items of a sequence with `f` applied to their string values; the first failure wins.
pub open spec fn mapped_items<F: StringFunction>(items: Seq<YamlModel>, f: &F) -> Result<
    Seq<YamlModel>,
    Failure,
>
    decreases items,
{
    if items.len() == 0 {
        Ok(Seq::empty())
    } else {
        match mapped_items(items.drop_last(), f) {
            Err(x) => Err(x),
            Ok(prefix) => match mapped(items.last(), f) {
                Err(x) => Err(x),
                Ok(y) => Ok(prefix.push(y)),
            },
        }
    }
}

/// The entries of a mapping with `f` applied to the string values of their values (not of
/// their keys); the first failure wins.
pub open spec fn mapped_entries<F: StringFunction>(
    entries: Seq<(YamlModel, YamlModel)>,
    f: &F,
) -> Result<Seq<(YamlModel, YamlModel)>, Failure>
    decreases entries,
{
    if entries.len() == 0 {
        Ok(Seq::empty())
    } else {
        match mapped_entries(entries.drop_last(), f) {
            Err(x) => Err(x),
            Ok(prefix) => match mapped(entries.last().1, f) {
                Err(x) => Err(x),
                Ok(y) => Ok(prefix.push((entries.last().0, y))),
            },
        }
    }
}

/// Once mapping a prefix of the items fails, mapping all of them fails the same way.
proof fn lemma_mapped_items_error<F: StringFunction>(items: Seq<YamlModel>, i: int, f: &F)
    requires
        0 <= i <= items.len(),
        mapped_items(items.take(i), f) is Err,
    ensures
        mapped_items(items, f) == mapped_items(items.take(i), f),
    decreases items.len() - i,
{
    if i < items.len() {
        assert(items.drop_last().take(i) == items.take(i));
        lemma_mapped_items_error(items.drop_last(), i, f);
    } else {
        assert(items.take(i) == items);
    }
}

/// Once mapping a prefix of the entries fails, mapping all of them fails the same way.
proof fn lemma_mapped_entries_error<F: StringFunction>(
    entries: Seq<(YamlModel, YamlModel)>,
    i: int,
    f: &F,
)
    requires
        0 <= i <= entries.len(),
        mapped_entries(entries.take(i), f) is Err,
    ensures
        mapped_entries(entries, f) == mapped_entries(entries.take(i), f),
    decreases entries.len() - i,
{
    if i < entries.len() {
        assert(entries.drop_last().take(i) == entries.take(i));
        lemma_mapped_entries_error(entries.drop_last(), i, f);
    } else {
        assert(entries.take(i) == entries);
    }
}

/// The value of a result of mapping.
pub open spec fn mapped_view(r: Result<Yaml, InterpolationError>) -> Result<YamlModel, Failure> {
    match r {
        Ok(y) => Ok(y@),
        Err(e) => Err(e@),
    }
}

/// Applies `function` to every string value in `value`, leaving keys, numbers, booleans,
/// null and tagged values as they are.
#[verifier::rlimit(30)]
pub fn map_string_values<F: StringFunction>(value: &Yaml, function: &F) -> (r: Result<
    Yaml,
    InterpolationError,
>)
    ensures
        mapped_view(r) == mapped(value@, function),
    decreases value,
{
    match value {
        Yaml::Mapping(v) => {
            let mut r: Vec<(Yaml, Yaml)> = Vec::new();
            let mut i: usize = 0;
            assert(v@.take(0) == Seq::<(Yaml, Yaml)>::empty());
            while i < v.len()
                invariant
                    *value == Yaml::Mapping(*v),
                    i <= v.len(),
                    mapped_entries(entry_models(v@.take(i as int)), function) == Ok::<
                        Seq<(YamlModel, YamlModel)>,
                        Failure,
                    >(entry_models(r@)),
                decreases v.len() - i,
            {
                proof {
                    assert(decreases_to!(*value => (*value)->Mapping_0));
                    assert(decreases_to!((*value)->Mapping_0 => (*value)->Mapping_0@));
                    assert(decreases_to!((*value)->Mapping_0@ => (*value)->Mapping_0@[i as int]));
                    assert(decreases_to!((*value)->Mapping_0@[i as int] => (*value)->Mapping_0@[i as int].1));
                }
                let ghost before = r@;
                let ghost done = entry_models(v@.take(i as int));
                let ghost next = entry_models(v@.take(i + 1));
                proof {
                    assert(v@.take(i + 1).drop_last() == v@.take(i as int));
                    assert(v@.take(i + 1).last() == v@[i as int]);
                    assert(next == done.push((v@[i as int].0@, v@[i as int].1@)));
                    assert(next.drop_last() == done);
                    assert(next.last() == (v@[i as int].0@, v@[i as int].1@));
                }
                match map_string_values(&v[i].1, function) {
                    Err(e) => {
                        proof {
                            assert(mapped_entries(next, function) == Err::<
                                Seq<(YamlModel, YamlModel)>,
                                Failure,
                            >(e@));
                            lemma_entry_models_len(v@);
                            lemma_entry_models_len(v@.take(i + 1));
                            assert(entry_models(v@).take(i + 1) == next);
                            lemma_mapped_entries_error(entry_models(v@), i + 1, function);
                        }
                        return Err(e);
                    },
                    Ok(x) => {
                        let k = super::yaml::copy(&v[i].0);
                        r.push((k, x));
                        proof {
                            assert(r@.drop_last() == before);
                            assert(entry_models(r@) == entry_models(before).push((k@, x@)));
                            assert(mapped_entries(next, function) == Ok::<
                                Seq<(YamlModel, YamlModel)>,
                                Failure,
                            >(entry_models(before).push((v@[i as int].0@, x@))));
                        }
                    },
                }
                i = i + 1;
            }
            assert(v@.take(v.len() as int) == v@);
            Ok(Yaml::Mapping(r))
        },
        Yaml::Sequence(v) => {
            let mut r: Vec<Yaml> = Vec::new();
            let mut i: usize = 0;
            assert(v@.take(0) == Seq::<Yaml>::empty());
            while i < v.len()
                invariant
                    *value == Yaml::Sequence(*v),
                    i <= v.len(),
                    mapped_items(models(v@.take(i as int)), function) == Ok::<
                        Seq<YamlModel>,
                        Failure,
                    >(models(r@)),
                decreases v.len() - i,
            {
                proof {
                    assert(decreases_to!(*value => (*value)->Sequence_0));
                    assert(decreases_to!((*value)->Sequence_0 => (*value)->Sequence_0@));
                    assert(decreases_to!((*value)->Sequence_0@ => (*value)->Sequence_0@[i as int]));
                }
                let ghost before = r@;
                let ghost done = models(v@.take(i as int));
                let ghost next = models(v@.take(i + 1));
                proof {
                    assert(v@.take(i + 1).drop_last() == v@.take(i as int));
                    assert(v@.take(i + 1).last() == v@[i as int]);
                    assert(next == done.push(v@[i as int]@));
                    assert(next.drop_last() == done);
                    assert(next.last() == v@[i as int]@);
                }
                match map_string_values(&v[i], function) {
                    Err(e) => {
                        proof {
                            assert(mapped_items(next, function) == Err::<Seq<YamlModel>, Failure>(
                                e@,
                            ));
                            lemma_models_len(v@);
                            lemma_models_len(v@.take(i + 1));
                            assert(models(v@).take(i + 1) == next);
                            lemma_mapped_items_error(models(v@), i + 1, function);
                        }
                        return Err(e);
                    },
                    Ok(x) => {
                        r.push(x);
                        proof {
                            assert(r@.drop_last() == before);
                            assert(models(r@) == models(before).push(x@));
                            assert(mapped_items(next, function) == Ok::<Seq<YamlModel>, Failure>(
                                models(before).push(x@),
                            ));
                        }
                    },
                }
                i = i + 1;
            }
            assert(v@.take(v.len() as int) == v@);
            Ok(Yaml::Sequence(r))
        },
        Yaml::String(text) => match function.apply(text) {
            Ok(t) => Ok(Yaml::String(t)),
            Err(e) => Err(e),
        },
        Yaml::Null => Ok(Yaml::Null),
        Yaml::Bool(b) => Ok(Yaml::Bool(*b)),
        Yaml::Number(n) => Ok(Yaml::Number(n.clone())),
        Yaml::Tagged(tag, inner) => Ok(Yaml::Tagged(tag.clone(), Box::new(super::yaml::copy(inner)))),
    }
}

/// The unset variables that interpolating the string values of `value` substitutes with
/// the empty string, in document order; none after the first failure.
pub open spec fn document_unset(value: YamlModel, f: &Interpolation) -> Seq<Seq<char>>
    decreases value,
{
    match value {
        YamlModel::Mapping(entries) => entries_unset(entries, f),
        YamlModel::Sequence(items) => items_unset_in(items, f),
        YamlModel::String(text) => unset_variables(text, scope_of(f.overrides, f.environment)),
        _ => Seq::empty(),
    }
}

/// The unset variables met in the values of `entries`, in order; none after the first
/// failure.
pub open spec fn entries_unset(entries: Seq<(YamlModel, YamlModel)>, f: &Interpolation) -> Seq<
    Seq<char>,
>
    decreases entries,
{
    if entries.len() == 0 {
        Seq::empty()
    } else if mapped_entries(entries.drop_last(), f) is Err {
        entries_unset(entries.drop_last(), f)
    } else {
        entries_unset(entries.drop_last(), f) + document_unset(entries.last().1, f)
    }
}

/// The unset variables met in `items`, in order; none after the first failure.
pub open spec fn items_unset_in(items: Seq<YamlModel>, f: &Interpolation) -> Seq<Seq<char>>
    decreases items,
{
    if items.len() == 0 {
        Seq::empty()
    } else if mapped_items(items.drop_last(), f) is Err {
        items_unset_in(items.drop_last(), f)
    } else {
        items_unset_in(items.drop_last(), f) + document_unset(items.last(), f)
    }
}

/// Once mapping a prefix of the entries fails, no later entry adds an unset variable.
proof fn lemma_entries_unset_stops(entries: Seq<(YamlModel, YamlModel)>, i: int, f: &Interpolation)
    requires
        0 <= i <= entries.len(),
        mapped_entries(entries.take(i), f) is Err,
    ensures
        entries_unset(entries, f) == entries_unset(entries.take(i), f),
    decreases entries.len() - i,
{
    if i < entries.len() {
        assert(entries.drop_last().take(i) == entries.take(i));
        lemma_mapped_entries_error(entries.drop_last(), i, f);
        lemma_entries_unset_stops(entries.drop_last(), i, f);
    } else {
        assert(entries.take(i) == entries);
    }
}

/// Once mapping a prefix of the items fails, no later item adds an unset variable.
proof fn lemma_items_unset_stops(items: Seq<YamlModel>, i: int, f: &Interpolation)
    requires
        0 <= i <= items.len(),
        mapped_items(items.take(i), f) is Err,
    ensures
        items_unset_in(items, f) == items_unset_in(items.take(i), f),
    decreases items.len() - i,
{
    if i < items.len() {
        assert(items.drop_last().take(i) == items.take(i));
        lemma_mapped_items_error(items.drop_last(), i, f);
        lemma_items_unset_stops(items.drop_last(), i, f);
    } else {
        assert(items.take(i) == items);
    }
}

/// The unset variables that interpolating the string values of `value` substitutes with
/// the empty string, in document order; none after the first failure. Each is worth a
/// warning.
#[verifier::rlimit(30)]
pub fn find_unset_variables_in(value: &Yaml, function: &Interpolation) -> (names: Vec<String>)
    ensures
        names.deep_view() == document_unset(value@, function),
    decreases value,
{
    let mut names: Vec<String> = Vec::new();
    match value {
        Yaml::Mapping(v) => {
            let mut i: usize = 0;
            assert(v@.take(0) == Seq::<(Yaml, Yaml)>::empty());
            assert(entry_models(v@.take(0)) == Seq::<(YamlModel, YamlModel)>::empty());
            while i < v.len()
                invariant
                    *value == Yaml::Mapping(*v),
                    i <= v.len(),
                    mapped_entries(entry_models(v@.take(i as int)), function) is Ok,
                    names.deep_view() == entries_unset(entry_models(v@.take(i as int)), function),
                decreases v.len() - i,
            {
                proof {
                    assert(decreases_to!(*value => (*value)->Mapping_0));
                    assert(decreases_to!((*value)->Mapping_0 => (*value)->Mapping_0@));
                    assert(decreases_to!((*value)->Mapping_0@ => (*value)->Mapping_0@[i as int]));
                    assert(decreases_to!((*value)->Mapping_0@[i as int] => (*value)->Mapping_0@[i as int].1));
                }
                let ghost done = entry_models(v@.take(i as int));
                let ghost next = entry_models(v@.take(i + 1));
                proof {
                    assert(v@.take(i + 1).drop_last() == v@.take(i as int));
                    assert(v@.take(i + 1).last() == v@[i as int]);
                    assert(next == done.push((v@[i as int].0@, v@[i as int].1@)));
                    assert(next.drop_last() == done);
                    assert(next.last() == (v@[i as int].0@, v@[i as int].1@));
                }
                let found = find_unset_variables_in(&v[i].1, function);
                append_names(&mut names, found);
                assert(names.deep_view() == entries_unset(next, function));
                if map_string_values(&v[i].1, function).is_err() {
                    proof {
                        assert(mapped_entries(next, function) is Err);
                        lemma_entry_models_len(v@);
                        lemma_entry_models_len(v@.take(i + 1));
                        assert(entry_models(v@).take(i + 1) == next);
                        lemma_entries_unset_stops(entry_models(v@), i + 1, function);
                    }
                    return names;
                }
                i = i + 1;
            }
            assert(v@.take(v.len() as int) == v@);
            names
        },
        Yaml::Sequence(v) => {
            let mut i: usize = 0;
            assert(v@.take(0) == Seq::<Yaml>::empty());
            assert(models(v@.take(0)) == Seq::<YamlModel>::empty());
            while i < v.len()
                invariant
                    *value == Yaml::Sequence(*v),
                    i <= v.len(),
                    mapped_items(models(v@.take(i as int)), function) is Ok,
                    names.deep_view() == items_unset_in(models(v@.take(i as int)), function),
                decreases v.len() - i,
            {
                proof {
                    assert(decreases_to!(*value => (*value)->Sequence_0));
                    assert(decreases_to!((*value)->Sequence_0 => (*value)->Sequence_0@));
                    assert(decreases_to!((*value)->Sequence_0@ => (*value)->Sequence_0@[i as int]));
                }
                let ghost done = models(v@.take(i as int));
                let ghost next = models(v@.take(i + 1));
                proof {
                    assert(v@.take(i + 1).drop_last() == v@.take(i as int));
                    assert(v@.take(i + 1).last() == v@[i as int]);
                    assert(next == done.push(v@[i as int]@));
                    assert(next.drop_last() == done);
                    assert(next.last() == v@[i as int]@);
                }
                let found = find_unset_variables_in(&v[i], function);
                append_names(&mut names, found);
                assert(names.deep_view() == items_unset_in(next, function));
                if map_string_values(&v[i], function).is_err() {
                    proof {
                        assert(mapped_items(next, function) is Err);
                        lemma_models_len(v@);
                        lemma_models_len(v@.take(i + 1));
                        assert(models(v@).take(i + 1) == next);
                        lemma_items_unset_stops(models(v@), i + 1, function);
                    }
                    return names;
                }
                i = i + 1;
            }
            assert(v@.take(v.len() as int) == v@);
            names
        },
        Yaml::String(text) => find_unset_variables(text.as_str(), function.overrides, function.environment),
        _ => {
            assert(names.deep_view() == Seq::<Seq<char>>::empty());
            names
        },
    }
}

/// Interpolates every string value of the document in `source`.
pub fn deserialize(source: &Source) -> (r: Result<Yaml, InterpolationError>)
    ensures
        mapped_view(r) == mapped(
            source.contents@,
            &Interpolation { overrides: &source.variable_overrides, environment: &source.environment },
        ),
{
    let function = Interpolation {
        overrides: &source.variable_overrides,
        environment: &source.environment,
    };
    map_string_values(&source.contents, &function)
}

/// `value` with every `$` in its string values doubled, ready to be written out as a
/// Compose file.
pub fn serialize(value: &Yaml) -> (r: Yaml)
    ensures
        mapped(value@, &Escaping) == Ok::<YamlModel, Failure>(r@),
{
    match map_string_values(value, &Escaping) {
        Ok(r) => r,
        Err(e) => {
            assert(false) by {
                lemma_escaping_infallible(value@);
            }
            Yaml::Null
        },
    }
}

/// Escaping every string value of a document and then interpolating them gives the
/// document back, whatever variables are set: every `$` that escaping doubles is read back
/// as one, and no variable is substituted.
pub proof fn lemma_document_round_trip(value: YamlModel, f: &Interpolation)
    ensures
        mapped(value, &Escaping) is Ok,
        mapped(mapped(value, &Escaping)->Ok_0, f) == Ok::<YamlModel, Failure>(value),
    decreases value,
{
    lemma_escaping_infallible(value);
    match value {
        YamlModel::Mapping(entries) => lemma_entries_round_trip(entries, f),
        YamlModel::Sequence(items) => lemma_items_round_trip(items, f),
        YamlModel::String(text) => {
            interpolate::lemma_escape_round_trip(text, scope_of(f.overrides, f.environment));
        },
        _ => {},
    }
}

/// Escaping the items of a sequence, then interpolating them, gives them back.
proof fn lemma_items_round_trip(items: Seq<YamlModel>, f: &Interpolation)
    ensures
        mapped_items(items, &Escaping) is Ok,
        mapped_items(mapped_items(items, &Escaping)->Ok_0, f) == Ok::<Seq<YamlModel>, Failure>(
            items,
        ),
    decreases items,
{
    lemma_escaping_items(items);
    if items.len() > 0 {
        let rest = items.drop_last();
        lemma_items_round_trip(rest, f);
        lemma_document_round_trip(items.last(), f);
        let prefix = mapped_items(rest, &Escaping)->Ok_0;
        let y = mapped(items.last(), &Escaping)->Ok_0;
        let escaped = prefix.push(y);
        assert(escaped.drop_last() == prefix);
        assert(escaped.last() == y);
        assert(mapped_items(items, &Escaping) == Ok::<Seq<YamlModel>, Failure>(escaped));
        assert(mapped_items(escaped, f) == Ok::<Seq<YamlModel>, Failure>(rest.push(items.last())));
        assert(rest.push(items.last()) == items);
    } else {
        assert(items == Seq::<YamlModel>::empty());
    }
}

/// Escaping the values of a mapping, then interpolating them, gives them back.
proof fn lemma_entries_round_trip(entries: Seq<(YamlModel, YamlModel)>, f: &Interpolation)
    ensures
        mapped_entries(entries, &Escaping) is Ok,
        mapped_entries(mapped_entries(entries, &Escaping)->Ok_0, f) == Ok::<
            Seq<(YamlModel, YamlModel)>,
            Failure,
        >(entries),
    decreases entries,
{
    lemma_escaping_entries(entries);
    if entries.len() > 0 {
        let rest = entries.drop_last();
        lemma_entries_round_trip(rest, f);
        lemma_document_round_trip(entries.last().1, f);
        let prefix = mapped_entries(rest, &Escaping)->Ok_0;
        let y = mapped(entries.last().1, &Escaping)->Ok_0;
        let escaped = prefix.push((entries.last().0, y));
        assert(escaped.drop_last() == prefix);
        assert(escaped.last() == (entries.last().0, y));
        assert(mapped_entries(entries, &Escaping) == Ok::<Seq<(YamlModel, YamlModel)>, Failure>(
            escaped,
        ));
        assert(mapped_entries(escaped, f) == Ok::<Seq<(YamlModel, YamlModel)>, Failure>(
            rest.push((entries.last().0, entries.last().1)),
        ));
        assert(rest.push((entries.last().0, entries.last().1)) == entries);
    } else {
        assert(entries == Seq::<(YamlModel, YamlModel)>::empty());
    }
}

/// Escaping never fails.
proof fn lemma_escaping_infallible(value: YamlModel)
    ensures
        mapped(value, &Escaping) is Ok,
    decreases value,
{
    match value {
        YamlModel::Mapping(entries) => lemma_escaping_entries(entries),
        YamlModel::Sequence(items) => lemma_escaping_items(items),
        _ => {},
    }
}

/// Escaping the items of a sequence never fails.
proof fn lemma_escaping_items(items: Seq<YamlModel>)
    ensures
        mapped_items(items, &Escaping) is Ok,
    decreases items,
{
    if items.len() > 0 {
        lemma_escaping_items(items.drop_last());
        lemma_escaping_infallible(items.last());
    }
}

/// Escaping the entries of a mapping never fails.
proof fn lemma_escaping_entries(entries: Seq<(YamlModel, YamlModel)>)
    ensures
        mapped_entries(entries, &Escaping) is Ok,
    decreases entries,
{
    if entries.len() > 0 {
        lemma_escaping_entries(entries.drop_last());
        lemma_escaping_infallible(entries.last().1);
    }
}

} // verus!
