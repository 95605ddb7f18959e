use crate::string_map::StringMap;
use crate::text::{chars_of, slice, string_of};
use vstd::prelude::*;

verus! {

/// How a variable reference treats a variable that is unset or empty.
#[derive(Clone, Copy, PartialEq, Eq, Structural)]
pub enum VariableRequirement {
    /// `${VAR:-default}`: an unset or empty variable gives the default.
    OptionalNotEmpty,
    /// `${VAR-default}`: an unset variable gives the default.
    OptionalSet,
    /// `$VAR` or `${VAR}`: an unset variable gives the empty string.
    Recommended,
    /// `${VAR:?message}`: an unset or empty variable is an error.
    RequiredNotEmpty,
    /// `${VAR?message}`: an unset variable is an error.
    RequiredSet,
}

/// Why interpolation failed.
pub enum InterpolationError {
    /// A required variable was unset (or empty, where that counts), with the message that
    /// the reference gave for it.
    Missing { identifier: String, context: String },
    /// A referenced variable of the environment has a value that is not Unicode, shown
    /// as `value`.
    NotUnicode { identifier: String, value: String },
}

/// The mathematical value of an `InterpolationError`.
pub enum Failure {
    Missing { identifier: Seq<char>, context: Seq<char> },
    NotUnicode { identifier: Seq<char>, value: Seq<char> },
}

impl View for InterpolationError {
    type V = Failure;

    open spec fn view(&self) -> Failure {
        match self {
            InterpolationError::Missing { identifier, context } => Failure::Missing {
                identifier: identifier@,
                context: context@,
            },
            InterpolationError::NotUnicode { identifier, value } => Failure::NotUnicode {
                identifier: identifier@,
                value: value@,
            },
        }
    }
}

/// The value of a variable of the process environment: Unicode text, or a value that is
/// not, shown as text.
pub enum EnvironmentValue {
    Unicode(String),
    NotUnicode(String),
}

/// The mathematical value of an `EnvironmentValue`.
pub enum EnvironmentValueView {
    Unicode(Seq<char>),
    NotUnicode(Seq<char>),
}

impl DeepView for EnvironmentValue {
    type V = EnvironmentValueView;

    open spec fn deep_view(&self) -> EnvironmentValueView {
        match self {
            EnvironmentValue::Unicode(v) => EnvironmentValueView::Unicode(v@),
            EnvironmentValue::NotUnicode(v) => EnvironmentValueView::NotUnicode(v@),
        }
    }
}

/// What interpolating some text gives: the text, or the first failure.
pub type Outcome = Result<Seq<char>, Failure>;

/// The variables that references are looked up in: explicit overrides first (where an
/// override of `None` means unset), then the process environment.
pub struct Scope {
    pub overrides: Map<Seq<char>, Option<Seq<char>>>,
    pub environment: Map<Seq<char>, EnvironmentValueView>,
}

/// The scope of the overrides `overrides` and the environment `environment`.
pub open spec fn scope_of(
    overrides: &StringMap<Option<String>>,
    environment: &StringMap<EnvironmentValue>,
) -> Scope {
    Scope { overrides: overrides@, environment: environment@ }
}

/// Characters that an identifier starts with: ASCII letters and `_`.
pub open spec fn is_identifier_start(c: char) -> bool {
    ('a' <= c && c <= 'z') || ('A' <= c && c <= 'Z') || c == '_'
}

/// Characters that an identifier continues with: ASCII letters, digits and `_`.
pub open spec fn is_identifier_char(c: char) -> bool {
    is_identifier_start(c) || ('0' <= c && c <= '9')
}

/// Characters that a literal run of text consists of.
pub open spec fn is_literal_char(c: char) -> bool {
    c != '$' && c != '}'
}

/// Length of the longest prefix of `t` made of identifier characters.
pub open spec fn identifier_chars_len(t: Seq<char>) -> nat
    decreases t.len(),
{
    if t.len() > 0 && is_identifier_char(t[0]) {
        1 + identifier_chars_len(t.drop_first())
    } else {
        0
    }
}

/// Length of the longest prefix of `t` made of literal characters.
pub open spec fn literal_len(t: Seq<char>) -> nat
    decreases t.len(),
{
    if t.len() > 0 && is_literal_char(t[0]) {
        1 + literal_len(t.drop_first())
    } else {
        0
    }
}

/// Length of the identifier that `t` begins with: a letter or `_`, then letters, digits
/// and `_`, as many as there are.
pub open spec fn identifier_len(t: Seq<char>) -> Option<nat> {
    if t.len() > 0 && is_identifier_start(t[0]) {
        Some(1 + identifier_chars_len(t.drop_first()))
    } else {
        None
    }
}

/// The operator that `t` begins with, and its length; alternatives tried in this order:
/// `-`, `:-`, `:?`, `?`.
pub open spec fn operator(t: Seq<char>) -> Option<(VariableRequirement, nat)> {
    if t.len() >= 1 && t[0] == '-' {
        Some((VariableRequirement::OptionalSet, 1))
    } else if t.len() >= 2 && t[0] == ':' && t[1] == '-' {
        Some((VariableRequirement::OptionalNotEmpty, 2))
    } else if t.len() >= 2 && t[0] == ':' && t[1] == '?' {
        Some((VariableRequirement::RequiredNotEmpty, 2))
    } else if t.len() >= 1 && t[0] == '?' {
        Some((VariableRequirement::RequiredSet, 1))
    } else {
        None
    }
}

/// The value of variable `identifier`, `None` if it is unset: an override if there is one,
/// else the environment, where a value that is not Unicode is a failure.
pub open spec fn lookup(scope: Scope, identifier: Seq<char>) -> Result<Option<Seq<char>>, Failure> {
    if scope.overrides.contains_key(identifier) {
        Ok(scope.overrides[identifier])
    } else if scope.environment.contains_key(identifier) {
        match scope.environment[identifier] {
            EnvironmentValueView::Unicode(v) => Ok(Some(v)),
            EnvironmentValueView::NotUnicode(v) => Err(
                Failure::NotUnicode { identifier, value: v },
            ),
        }
    } else {
        Ok(None)
    }
}

/// The value of a variable reference, given what its argument (default or message)
/// evaluates to.
pub open spec fn substitute(
    scope: Scope,
    identifier: Seq<char>,
    requirement: VariableRequirement,
    argument: Outcome,
) -> Outcome {
    match lookup(scope, identifier) {
        Err(e) => Err(e),
        Ok(found) => {
            let value = if (requirement == VariableRequirement::OptionalNotEmpty || requirement
                == VariableRequirement::RequiredNotEmpty) && found == Some(Seq::<char>::empty()) {
                None
            } else {
                found
            };
            match value {
                Some(v) => Ok(v),
                None => if requirement == VariableRequirement::RequiredNotEmpty || requirement
                    == VariableRequirement::RequiredSet {
                    match argument {
                        Ok(a) => Err(Failure::Missing { identifier, context: a }),
                        Err(e) => Err(e),
                    }
                } else {
                    argument
                },
            }
        },
    }
}

/// The concatenation of two outcomes; the first error wins.
pub open spec fn join(first: Outcome, second: Outcome) -> Outcome {
    match first {
        Err(e) => Err(e),
        Ok(a) => match second {
            Err(e) => Err(e),
            Ok(b) => Ok(a + b),
        },
    }
}

/// One item of an expression at the front of `t`: `$$`, a literal run, or a variable
/// reference; its length and value.
pub open spec fn item(t: Seq<char>, scope: Scope) -> Option<(nat, Outcome)>
    decreases t.len(), 0nat,
{
    if t.len() == 0 {
        None
    } else if t.len() >= 2 && t[0] == '$' && t[1] == '$' {
        Some((2, Ok(seq!['$'])))
    } else if is_literal_char(t[0]) {
        let n = literal_len(t);
        Some((n, Ok(t.take(n as int))))
    } else if t[0] == '$' {
        match identifier_len(t.skip(1)) {
            Some(n) => Some(
                (
                    1 + n,
                    substitute(
                        scope,
                        t.subrange(1, 1 + n as int),
                        VariableRequirement::Recommended,
                        Ok(Seq::empty()),
                    ),
                ),
            ),
            None => if t.len() >= 2 && t[1] == '{' {
                match identifier_len(t.skip(2)) {
                    None => None,
                    Some(n) => {
                        let n = n as int;
                        let identifier = t.subrange(2, 2 + n);
                        if t.len() > 2 + n && t[2 + n] == '}' {
                            Some(
                                (
                                    (3 + n) as nat,
                                    substitute(
                                        scope,
                                        identifier,
                                        VariableRequirement::Recommended,
                                        Ok(Seq::empty()),
                                    ),
                                ),
                            )
                        } else if t.len() > 2 + n {
                            match operator(t.skip(2 + n)) {
                                None => None,
                                Some((requirement, m)) => {
                                    let k = 2 + n + m as int;
                                    if k < t.len() {
                                        let (p, argument) = match expression(t.skip(k), scope) {
                                            Some((p, o)) => (p as int, o),
                                            None => (0int, Ok(Seq::empty())),
                                        };
                                        if k + p < t.len() && t[k + p] == '}' {
                                            Some(
                                                (
                                                    (k + p + 1) as nat,
                                                    substitute(
                                                        scope,
                                                        identifier,
                                                        requirement,
                                                        argument,
                                                    ),
                                                ),
                                            )
                                        } else {
                                            None
                                        }
                                    } else {
                                        None
                                    }
                                },
                            }
                        } else {
                            None
                        }
                    },
                }
            } else {
                None
            },
        }
    } else {
        None
    }
}

/// As many items as follow one another at the front of `t`: their total length and value.
pub open spec fn items(t: Seq<char>, scope: Scope) -> (nat, Outcome)
    decreases t.len(), 1nat,
{
    match item(t, scope) {
        Some((n, o)) => if 0 < n <= t.len() {
            let (m, rest) = items(t.skip(n as int), scope);
            (n + m, join(o, rest))
        } else {
            (0, Ok(Seq::empty()))
        },
        None => (0, Ok(Seq::empty())),
    }
}

/// An expression at the front of `t`: one item or more.
pub open spec fn expression(t: Seq<char>, scope: Scope) -> Option<(nat, Outcome)>
    decreases t.len(), 2nat,
{
    let (n, o) = items(t, scope);
    if n > 0 {
        Some((n, o))
    } else {
        None
    }
}

/// The interpolation of `t`: expressions, and any character where no expression starts
/// taken as it is.
pub open spec fn interpolation(t: Seq<char>, scope: Scope) -> Outcome
    decreases t.len(),
{
    if t.len() == 0 {
        Ok(Seq::empty())
    } else {
        match expression(t, scope) {
            Some((n, o)) => if 0 < n <= t.len() {
                join(o, interpolation(t.skip(n as int), scope))
            } else {
                join(Ok(seq![t[0]]), interpolation(t.skip(1), scope))
            },
            None => join(Ok(seq![t[0]]), interpolation(t.skip(1), scope)),
        }
    }
}


/// Whether a reference to `identifier` with `requirement` takes its argument: the variable
/// is unset (or empty, where that counts) and looking it up did not fail.
pub open spec fn takes_argument(scope: Scope, identifier: Seq<char>, requirement: VariableRequirement) -> bool {
    match lookup(scope, identifier) {
        Err(_) => false,
        Ok(None) => true,
        Ok(Some(v)) => v.len() == 0 && (requirement == VariableRequirement::OptionalNotEmpty
            || requirement == VariableRequirement::RequiredNotEmpty),
    }
}

/// The unset variables that the item at the front of `t` substitutes with the empty
/// string, in the order in which it evaluates them: a `$VAR` or `${VAR}` whose variable is
/// unset, or those of the argument of a reference that takes its argument. An argument is
/// evaluated only where its reference takes it.
pub open spec fn item_unset(t: Seq<char>, scope: Scope) -> Seq<Seq<char>>
    decreases t.len(), 0nat,
{
    if t.len() == 0 || (t.len() >= 2 && t[0] == '$' && t[1] == '$') || is_literal_char(t[0])
        || t[0] != '$' {
        Seq::empty()
    } else {
        match identifier_len(t.skip(1)) {
            Some(n) => {
                let identifier = t.subrange(1, 1 + n as int);
                if takes_argument(scope, identifier, VariableRequirement::Recommended) {
                    seq![identifier]
                } else {
                    Seq::empty()
                }
            },
            None => if t.len() >= 2 && t[1] == '{' {
                match identifier_len(t.skip(2)) {
                    None => Seq::empty(),
                    Some(n) => {
                        let n = n as int;
                        let identifier = t.subrange(2, 2 + n);
                        if t.len() > 2 + n && t[2 + n] == '}' {
                            if takes_argument(scope, identifier, VariableRequirement::Recommended) {
                                seq![identifier]
                            } else {
                                Seq::empty()
                            }
                        } else if t.len() > 2 + n {
                            match operator(t.skip(2 + n)) {
                                None => Seq::empty(),
                                Some((requirement, m)) => {
                                    let k = 2 + n + m as int;
                                    if k < t.len() {
                                        let p = match expression(t.skip(k), scope) {
                                            Some((p, _)) => p as int,
                                            None => 0int,
                                        };
                                        if k + p < t.len() && t[k + p] == '}' && takes_argument(
                                            scope,
                                            identifier,
                                            requirement,
                                        ) {
                                            items_unset(t.skip(k), scope)
                                        } else {
                                            Seq::empty()
                                        }
                                    } else {
                                        Seq::empty()
                                    }
                                },
                            }
                        } else {
                            Seq::empty()
                        }
                    },
                }
            } else {
                Seq::empty()
            },
        }
    }
}

/// The unset variables that the items at the front of `t` substitute with the empty
/// string; evaluation stops at the first item that fails.
pub open spec fn items_unset(t: Seq<char>, scope: Scope) -> Seq<Seq<char>>
    decreases t.len(), 1nat,
{
    match item(t, scope) {
        Some((n, o)) => if 0 < n <= t.len() {
            item_unset(t, scope) + if o is Err {
                Seq::empty()
            } else {
                items_unset(t.skip(n as int), scope)
            }
        } else {
            Seq::empty()
        },
        None => Seq::empty(),
    }
}

/// The unset variables that interpolating `t` substitutes with the empty string, in
/// order; evaluation stops at the first failure.
pub open spec fn unset_variables(t: Seq<char>, scope: Scope) -> Seq<Seq<char>>
    decreases t.len(),
{
    if t.len() == 0 {
        Seq::empty()
    } else {
        match expression(t, scope) {
            Some((n, o)) => if 0 < n <= t.len() {
                items_unset(t, scope) + if o is Err {
                    Seq::empty()
                } else {
                    unset_variables(t.skip(n as int), scope)
                }
            } else {
                unset_variables(t.skip(1), scope)
            },
            None => unset_variables(t.skip(1), scope),
        }
    }
}

/// An item is never empty and never longer than the text; nor is an expression.
pub proof fn lemma_item_length(t: Seq<char>, scope: Scope)
    ensures
        item(t, scope) matches Some((n, _)) ==> 0 < n <= t.len(),
        items(t, scope).0 <= t.len(),
        expression(t, scope) matches Some((n, _)) ==> 0 < n <= t.len(),
    decreases t.len(),
{
    lemma_literal_len(t);
    if t.len() > 0 {
        lemma_identifier_chars_len(t.skip(1).drop_first());
        lemma_identifier_chars_len(t.skip(2).drop_first());
    }
    if t.len() > 3 {
        assert forall|k: int| 3 <= k < t.len() implies (#[trigger] expression(t.skip(k), scope) matches Some(
            (p, _),
        ) ==> 0 < p <= t.skip(k).len()) by {
            lemma_item_length(t.skip(k), scope);
        }
    }
    match item(t, scope) {
        Some((n, o)) => {
            if 0 < n <= t.len() {
                lemma_item_length(t.skip(n as int), scope);
            }
        },
        None => {},
    }
}

/// A literal run lies within the text, holds only literal characters and is as long as it
/// can be.
proof fn lemma_literal_len(t: Seq<char>)
    ensures
        literal_len(t) <= t.len(),
        forall|j: int| 0 <= j < literal_len(t) ==> is_literal_char(#[trigger] t[j]),
        literal_len(t) < t.len() ==> !is_literal_char(t[literal_len(t) as int]),
    decreases t.len(),
{
    if t.len() > 0 && is_literal_char(t[0]) {
        lemma_literal_len(t.drop_first());
        assert forall|j: int| 0 <= j < literal_len(t) implies is_literal_char(#[trigger] t[j]) by {
            if j > 0 {
                assert(t[j] == t.drop_first()[j - 1]);
            }
        }
    }
}

/// A run of identifier characters lies within the text, holds only identifier characters
/// and is as long as it can be.
proof fn lemma_identifier_chars_len(t: Seq<char>)
    ensures
        identifier_chars_len(t) <= t.len(),
        forall|j: int| 0 <= j < identifier_chars_len(t) ==> is_identifier_char(#[trigger] t[j]),
        identifier_chars_len(t) < t.len() ==> !is_identifier_char(t[identifier_chars_len(t) as int]),
    decreases t.len(),
{
    if t.len() > 0 && is_identifier_char(t[0]) {
        lemma_identifier_chars_len(t.drop_first());
        assert forall|j: int| 0 <= j < identifier_chars_len(t) implies is_identifier_char(
            #[trigger] t[j],
        ) by {
            if j > 0 {
                assert(t[j] == t.drop_first()[j - 1]);
            }
        }
    }
}


/// The value of an executable outcome.
pub open spec fn outcome_of(r: Result<Vec<char>, InterpolationError>) -> Outcome {
    match r {
        Ok(v) => Ok(v@),
        Err(e) => Err(e@),
    }
}

/// The value of an optional character vector.
pub open spec fn chars_option(o: Option<Vec<char>>) -> Option<Seq<char>> {
    match o {
        Some(v) => Some(v@),
        None => None,
    }
}

/// Whether `c` starts an identifier.
fn is_identifier_start_exec(c: char) -> (r: bool)
    ensures
        r == is_identifier_start(c),
{
    ('a' <= c && c <= 'z') || ('A' <= c && c <= 'Z') || c == '_'
}

/// Whether `c` continues an identifier.
fn is_identifier_char_exec(c: char) -> (r: bool)
    ensures
        r == is_identifier_char(c),
{
    is_identifier_start_exec(c) || ('0' <= c && c <= '9')
}

/// End of the run of identifier characters in `t` that starts at `start`.
fn identifier_chars_end(t: &Vec<char>, start: usize) -> (end: usize)
    requires
        start <= t.len(),
    ensures
        start <= end <= t.len(),
        end - start == identifier_chars_len(t@.skip(start as int)),
{
    let mut end = start;
    while end < t.len() && is_identifier_char_exec(t[end])
        invariant
            start <= end <= t.len(),
            identifier_chars_len(t@.skip(start as int)) == (end - start) + identifier_chars_len(
                t@.skip(end as int),
            ),
        decreases t.len() - end,
    {
        assert(t@.skip(end as int).drop_first() == t@.skip(end + 1));
        end = end + 1;
    }
    end
}

/// End of the literal run in `t` that starts at `start`.
fn literal_end(t: &Vec<char>, start: usize) -> (end: usize)
    requires
        start <= t.len(),
    ensures
        start <= end <= t.len(),
        end - start == literal_len(t@.skip(start as int)),
{
    let mut end = start;
    while end < t.len() && t[end] != '$' && t[end] != '}'
        invariant
            start <= end <= t.len(),
            literal_len(t@.skip(start as int)) == (end - start) + literal_len(t@.skip(end as int)),
        decreases t.len() - end,
    {
        assert(t@.skip(end as int).drop_first() == t@.skip(end + 1));
        end = end + 1;
    }
    end
}

/// The operator of a variable reference at `start` in `t`, and its length.
fn operator_exec(t: &Vec<char>, start: usize) -> (r: Option<(VariableRequirement, usize)>)
    requires
        start <= t.len(),
    ensures
        match r {
            Some((requirement, m)) => operator(t@.skip(start as int)) == Some(
                (requirement, m as nat),
            ) && start + m <= t.len(),
            None => operator(t@.skip(start as int)) is None,
        },
{
    let len = t.len();
    if start < len && t[start] == '-' {
        Some((VariableRequirement::OptionalSet, 1))
    } else if len - start >= 2 && t[start] == ':' && t[start + 1] == '-' {
        Some((VariableRequirement::OptionalNotEmpty, 2))
    } else if len - start >= 2 && t[start] == ':' && t[start + 1] == '?' {
        Some((VariableRequirement::RequiredNotEmpty, 2))
    } else if start < len && t[start] == '?' {
        Some((VariableRequirement::RequiredSet, 1))
    } else {
        None
    }
}

/// The concatenation of two results; the first error wins.
fn join_exec(first: Result<Vec<char>, InterpolationError>, second: Result<Vec<char>, InterpolationError>) -> (r: Result<Vec<char>, InterpolationError>)
    ensures
        outcome_of(r) == join(outcome_of(first), outcome_of(second)),
{
    match first {
        Err(e) => Err(e),
        Ok(mut a) => match second {
            Err(e) => Err(e),
            Ok(mut b) => {
                a.append(&mut b);
                Ok(a)
            },
        },
    }
}

/// The value of the variable `identifier`.
fn lookup_exec(
    overrides: &StringMap<Option<String>>,
    environment: &StringMap<EnvironmentValue>,
    identifier: &Vec<char>,
) -> (value: Result<Option<Vec<char>>, InterpolationError>)
    ensures
        match value {
            Ok(v) => lookup(scope_of(overrides, environment), identifier@) == Ok::<
                Option<Seq<char>>,
                Failure,
            >(chars_option(v)),
            Err(e) => lookup(scope_of(overrides, environment), identifier@) == Err::<
                Option<Seq<char>>,
                Failure,
            >(e@),
        },
{
    let key = string_of(identifier);
    match overrides.get(&key) {
        Some(value) => match value {
            Some(v) => Ok(Some(chars_of(v.as_str()))),
            None => Ok(None),
        },
        None => match environment.get(&key) {
            Some(EnvironmentValue::Unicode(v)) => Ok(Some(chars_of(v.as_str()))),
            Some(EnvironmentValue::NotUnicode(v)) => Err(
                InterpolationError::NotUnicode { identifier: key.clone(), value: v.clone() },
            ),
            None => Ok(None),
        },
    }
}

/// The value of a variable reference, given what its argument evaluates to.
fn substitute_exec(
    overrides: &StringMap<Option<String>>,
    environment: &StringMap<EnvironmentValue>,
    identifier: Vec<char>,
    requirement: VariableRequirement,
    argument: Result<Vec<char>, InterpolationError>,
) -> (r: Result<Vec<char>, InterpolationError>)
    ensures
        outcome_of(r) == substitute(
            scope_of(overrides, environment),
            identifier@,
            requirement,
            outcome_of(argument),
        ),
{
    let found = match lookup_exec(overrides, environment, &identifier) {
        Ok(found) => found,
        Err(e) => return Err(e),
    };
    let value = match found {
        Some(v) => {
            if v.len() == 0 {
                assert(v@ =~= Seq::<char>::empty());
            }
            if (requirement == VariableRequirement::OptionalNotEmpty || requirement
                == VariableRequirement::RequiredNotEmpty) && v.len() == 0 {
                None
            } else {
                Some(v)
            }
        },
        None => None,
    };
    match value {
        Some(v) => Ok(v),
        None => if requirement == VariableRequirement::RequiredNotEmpty || requirement
            == VariableRequirement::RequiredSet {
            match argument {
                Ok(a) => Err(
                    InterpolationError::Missing {
                        identifier: string_of(&identifier),
                        context: string_of(&a),
                    },
                ),
                Err(e) => Err(e),
            }
        } else {
            argument
        },
    }
}


/// The outcomes `outcomes` evaluated in turn: the concatenation of their texts if all
/// succeed, else the first failure; none gives the empty text.
pub open spec fn join_all(outcomes: Seq<Outcome>) -> Outcome
    decreases outcomes.len(),
{
    if outcomes.len() == 0 {
        Ok(Seq::empty())
    } else {
        join(outcomes[0], join_all(outcomes.drop_first()))
    }
}

/// The texts `values` one after the other.
pub open spec fn concat_all(values: Seq<Seq<char>>) -> Seq<char>
    decreases values.len(),
{
    if values.len() == 0 {
        Seq::empty()
    } else {
        values[0] + concat_all(values.drop_first())
    }
}

/// The outcomes of the items that follow one another at the front of `t`, in order.
pub open spec fn item_outcomes(t: Seq<char>, scope: Scope) -> Seq<Outcome>
    decreases t.len(),
{
    match item(t, scope) {
        Some((n, o)) => if 0 < n <= t.len() {
            seq![o] + item_outcomes(t.skip(n as int), scope)
        } else {
            Seq::empty()
        },
        None => Seq::empty(),
    }
}

/// The outcomes of the pieces of `t` in order: each expression, and each character where
/// no expression starts.
pub open spec fn piece_outcomes(t: Seq<char>, scope: Scope) -> Seq<Outcome>
    decreases t.len(),
{
    if t.len() == 0 {
        Seq::empty()
    } else {
        match expression(t, scope) {
            Some((n, o)) => if 0 < n <= t.len() {
                seq![o] + piece_outcomes(t.skip(n as int), scope)
            } else {
                seq![Ok(seq![t[0]])] + piece_outcomes(t.skip(1), scope)
            },
            None => seq![Ok(seq![t[0]])] + piece_outcomes(t.skip(1), scope),
        }
    }
}

/// Evaluating a sequence of outcomes: with no outcome it gives the empty text; if all
/// succeed, the concatenation of their texts; otherwise the first failure, whatever
/// follows it.
pub proof fn lemma_join_all(outcomes: Seq<Outcome>)
    ensures
        outcomes.len() == 0 ==> join_all(outcomes) == Ok::<Seq<char>, Failure>(Seq::empty()),
        (forall|i: int| 0 <= i < outcomes.len() ==> #[trigger] outcomes[i] is Ok) ==> join_all(
            outcomes,
        ) == Ok::<Seq<char>, Failure>(
            concat_all(Seq::new(outcomes.len(), |i: int| outcomes[i]->Ok_0)),
        ),
        forall|k: int|
            0 <= k < outcomes.len() && #[trigger] outcomes[k] is Err && (forall|i: int|
                0 <= i < k ==> outcomes[i] is Ok) ==> join_all(outcomes) == outcomes[k],
    decreases outcomes.len(),
{
    if outcomes.len() > 0 {
        let rest = outcomes.drop_first();
        lemma_join_all(rest);
        let values = Seq::new(outcomes.len(), |i: int| outcomes[i]->Ok_0);
        assert(values.drop_first() =~= Seq::new(rest.len(), |i: int| rest[i]->Ok_0));
        assert forall|k: int|
            0 <= k < outcomes.len() && #[trigger] outcomes[k] is Err && (forall|i: int|
                0 <= i < k ==> outcomes[i] is Ok) implies join_all(outcomes) == outcomes[k] by {
            if k > 0 {
                assert(outcomes[0] is Ok);
                assert(rest[k - 1] == outcomes[k]);
                assert forall|i: int| 0 <= i < k - 1 implies rest[i] is Ok by {
                    assert(rest[i] == outcomes[i + 1]);
                }
            }
        }
        if forall|i: int| 0 <= i < outcomes.len() ==> #[trigger] outcomes[i] is Ok {
            assert forall|i: int| 0 <= i < rest.len() implies #[trigger] rest[i] is Ok by {
                assert(rest[i] == outcomes[i + 1]);
            }
            assert(outcomes[0] is Ok);
        }
    }
}

/// The items at the front of `t` give, together, the evaluation of their outcomes in turn.
pub proof fn lemma_items_join(t: Seq<char>, scope: Scope)
    ensures
        items(t, scope).1 == join_all(item_outcomes(t, scope)),
    decreases t.len(),
{
    match item(t, scope) {
        Some((n, o)) => if 0 < n <= t.len() {
            lemma_items_join(t.skip(n as int), scope);
            let outcomes = item_outcomes(t, scope);
            assert(outcomes[0] == o);
            assert(outcomes.drop_first() == item_outcomes(t.skip(n as int), scope));
        },
        None => {},
    }
}

/// A run of literal text is one item that gives itself.
pub proof fn lemma_literal_item(t: Seq<char>, scope: Scope)
    requires
        t.len() > 0,
        forall|j: int| 0 <= j < t.len() ==> is_literal_char(#[trigger] t[j]),
    ensures
        item_outcomes(t, scope) == seq![Ok::<Seq<char>, Failure>(t)],
{
    lemma_literal_len(t);
    assert(literal_len(t) == t.len());
    assert(t.take(t.len() as int) == t);
    assert(t.skip(t.len() as int).len() == 0);
    assert(item_outcomes(t.skip(t.len() as int), scope) == Seq::<Outcome>::empty());
    assert(seq![Ok::<Seq<char>, Failure>(t)] + Seq::<Outcome>::empty() == seq![
        Ok::<Seq<char>, Failure>(t),
    ]);
}

/// Interpolating `t` evaluates its pieces in turn.
pub proof fn lemma_interpolation_join(t: Seq<char>, scope: Scope)
    ensures
        interpolation(t, scope) == join_all(piece_outcomes(t, scope)),
    decreases t.len(),
{
    if t.len() > 0 {
        let pieces = piece_outcomes(t, scope);
        match expression(t, scope) {
            Some((n, o)) => if 0 < n <= t.len() {
                lemma_interpolation_join(t.skip(n as int), scope);
                assert(pieces[0] == o);
                assert(pieces.drop_first() == piece_outcomes(t.skip(n as int), scope));
            } else {
                lemma_interpolation_join(t.skip(1), scope);
                assert(pieces.drop_first() == piece_outcomes(t.skip(1), scope));
            },
            None => {
                lemma_interpolation_join(t.skip(1), scope);
                assert(pieces.drop_first() == piece_outcomes(t.skip(1), scope));
            },
        }
    }
}

/// Whether `c` is an ASCII letter, an ASCII digit or `_`.
pub open spec fn is_name_char(c: char) -> bool {
    ('a' <= c && c <= 'z') || ('A' <= c && c <= 'Z') || ('0' <= c && c <= '9') || c == '_'
}

/// Whether `name` is a variable name: a letter or `_`, then letters, digits and `_`.
pub open spec fn is_variable_name(name: Seq<char>) -> bool {
    &&& name.len() > 0
    &&& name[0] != '0' && name[0] != '1' && name[0] != '2' && name[0] != '3' && name[0] != '4'
    &&& name[0] != '5' && name[0] != '6' && name[0] != '7' && name[0] != '8' && name[0] != '9'
    &&& forall|j: int| 0 <= j < name.len() ==> is_name_char(#[trigger] name[j])
}

/// What a plain reference to the variable `name` gives: its override if it has one (the
/// empty text for an override that unsets it), else its value in the environment, where a
/// value that is not Unicode fails, else the empty text.
pub open spec fn plain_reference_value(scope: Scope, name: Seq<char>) -> Outcome {
    if scope.overrides.contains_key(name) {
        match scope.overrides[name] {
            Some(v) => Ok(v),
            None => Ok(Seq::empty()),
        }
    } else if scope.environment.contains_key(name) {
        match scope.environment[name] {
            EnvironmentValueView::Unicode(v) => Ok(v),
            EnvironmentValueView::NotUnicode(v) => Err(Failure::NotUnicode { identifier: name, value: v }),
        }
    } else {
        Ok(Seq::empty())
    }
}

/// A run of name characters is read whole, up to the first character that is not one.
proof fn lemma_name_chars(name: Seq<char>, tail: Seq<char>)
    requires
        forall|j: int| 0 <= j < name.len() ==> is_name_char(#[trigger] name[j]),
        tail.len() == 0 || !is_name_char(tail[0]),
    ensures
        identifier_chars_len(name + tail) == name.len(),
    decreases name.len(),
{
    if name.len() > 0 {
        assert((name + tail).drop_first() == name.drop_first() + tail);
        assert(is_name_char(name[0]));
        assert forall|j: int| 0 <= j < name.drop_first().len() implies is_name_char(
            #[trigger] name.drop_first()[j],
        ) by {
            assert(name.drop_first()[j] == name[j + 1]);
        }
        lemma_name_chars(name.drop_first(), tail);
    } else {
        assert(name + tail == tail);
    }
}

/// `$name` and `${name}`, for every variable name, digits included, give the value of
/// exactly that variable.
pub proof fn lemma_variable_reference(name: Seq<char>, scope: Scope)
    requires
        is_variable_name(name),
    ensures
        interpolation(seq!['$'] + name, scope) == plain_reference_value(scope, name),
        interpolation(seq!['$', '{'] + name + seq!['}'], scope) == plain_reference_value(scope, name),
{
    let n = name.len();
    assert(is_name_char(name[0]));
    assert(is_identifier_start(name[0]));
    // `$name`
    let t = seq!['$'] + name;
    assert(t.skip(1) == name);
    assert(name.drop_first() == name.drop_first() + Seq::<char>::empty());
    assert forall|j: int| 0 <= j < name.drop_first().len() implies is_name_char(
        #[trigger] name.drop_first()[j],
    ) by {
        assert(name.drop_first()[j] == name[j + 1]);
    }
    lemma_name_chars(name.drop_first(), Seq::empty());
    assert(identifier_len(t.skip(1)) == Some(n));
    assert(t.subrange(1, 1 + n as int) == name);
    assert(!(t.len() >= 2 && t[0] == '$' && t[1] == '$'));
    let o = substitute(scope, name, VariableRequirement::Recommended, Ok(Seq::empty()));
    assert(o == plain_reference_value(scope, name));
    assert(item(t, scope) == Some(((1 + n) as nat, o)));
    assert(t.skip(1 + n as int).len() == 0);
    assert(item(t.skip(1 + n as int), scope) is None);
    assert(items(t, scope) == ((1 + n) as nat, join(o, Ok(Seq::empty()))));
    lemma_join_empty(o);
    assert(interpolation(t.skip(1 + n as int), scope) == Ok::<Seq<char>, Failure>(Seq::empty()));
    assert(interpolation(t, scope) == join(o, Ok(Seq::empty())));
    // `${name}`
    let u = seq!['$', '{'] + name + seq!['}'];
    assert(u.skip(1)[0] == '{');
    assert(identifier_len(u.skip(1)) is None);
    assert(u.skip(2) == name + seq!['}']);
    assert(u.skip(2).drop_first() == name.drop_first() + seq!['}']);
    lemma_name_chars(name.drop_first(), seq!['}']);
    assert(identifier_len(u.skip(2)) == Some(n));
    assert(u.subrange(2, 2 + n as int) == name);
    assert(u[2 + n as int] == '}');
    assert(item(u, scope) == Some(((3 + n) as nat, o)));
    assert(u.skip(3 + n as int).len() == 0);
    assert(item(u.skip(3 + n as int), scope) is None);
    assert(items(u, scope) == ((3 + n) as nat, join(o, Ok(Seq::empty()))));
    assert(interpolation(u.skip(3 + n as int), scope) == Ok::<Seq<char>, Failure>(Seq::empty()));
    assert(interpolation(u, scope) == join(o, Ok(Seq::empty())));
}

/// Concatenating outcomes is associative.
pub proof fn lemma_join_associative(a: Outcome, b: Outcome, c: Outcome)
    ensures
        join(join(a, b), c) == join(a, join(b, c)),
{
    if let (Ok(x), Ok(y), Ok(z)) = (a, b, c) {
        assert(x + y + z =~= x + (y + z));
    }
}

/// The empty outcome is neutral on the right.
pub proof fn lemma_join_empty(a: Outcome)
    ensures
        join(a, Ok(Seq::empty())) == a,
{
    if let Ok(x) = a {
        assert(x + Seq::<char>::empty() =~= x);
    }
}

#[verifier::rlimit(40)]
fn item_exec(
    t: &Vec<char>,
    i: usize,
    overrides: &StringMap<Option<String>>,
    environment: &StringMap<EnvironmentValue>,
) -> (r: Option<(usize, Result<Vec<char>, InterpolationError>)>)
    requires
        i <= t.len(),
    ensures
        r is Some ==> i < r->Some_0.0 <= t.len() && item(
            t@.skip(i as int),
            scope_of(overrides, environment),
        ) == Some(((r->Some_0.0 - i) as nat, outcome_of(r->Some_0.1))),
        r is None ==> item(t@.skip(i as int), scope_of(overrides, environment)) is None,
    decreases t.len() - i, 0usize,
{
    let ghost scope = scope_of(overrides, environment);
    let ghost u = t@.skip(i as int);
    proof {
        lemma_item_length(u, scope);
    }
    let len = t.len();
    if i == len {
        return None;
    }
    if len - i >= 2 && t[i] == '$' && t[i + 1] == '$' {
        let r = vec!['$'];
        assert(r@ == seq!['$']);
        return Some((i + 2, Ok(r)));
    }
    if t[i] != '$' && t[i] != '}' {
        let end = literal_end(t, i);
        let value = slice(t, i, end);
        assert(value@ == u.take((end - i) as int));
        return Some((end, Ok(value)));
    }
    if t[i] != '$' {
        return None;
    }
    assert(u.skip(1) == t@.skip(i + 1));
    if len - i >= 2 && is_identifier_start_exec(t[i + 1]) {
        assert(u.skip(1).drop_first() == t@.skip(i + 2));
        let end = identifier_chars_end(t, i + 2);
        let identifier = slice(t, i + 1, end);
        assert(identifier@ == u.subrange(1, (end - i) as int));
        let value = substitute_exec(
            overrides,
            environment,
            identifier,
            VariableRequirement::Recommended,
            Ok(Vec::new()),
        );
        return Some((end, value));
    }
    if !(len - i >= 2 && t[i + 1] == '{') {
        return None;
    }
    assert(u.skip(2) == t@.skip(i + 2));
    if !(len - i >= 3 && is_identifier_start_exec(t[i + 2])) {
        return None;
    }
    assert(u.skip(2).drop_first() == t@.skip(i + 3));
    let end = identifier_chars_end(t, i + 3);
    let identifier = slice(t, i + 2, end);
    assert(identifier@ == u.subrange(2, (end - i) as int));
    if end < len && t[end] == '}' {
        let value = substitute_exec(
            overrides,
            environment,
            identifier,
            VariableRequirement::Recommended,
            Ok(Vec::new()),
        );
        return Some((end + 1, value));
    }
    if end >= len {
        return None;
    }
    assert(u.skip((end - i) as int) == t@.skip(end as int));
    let (requirement, m) = match operator_exec(t, end) {
        None => {
            return None;
        },
        Some(found) => found,
    };
    let k = end + m;
    if k >= len {
        return None;
    }
    assert(u.skip((k - i) as int) == t@.skip(k as int));
    let (argument_end, argument) = match expression_exec(t, k, overrides, environment) {
        Some(found) => found,
        None => (k, Ok(Vec::new())),
    };
    if argument_end < len && t[argument_end] == '}' {
        let value = substitute_exec(overrides, environment, identifier, requirement, argument);
        Some((argument_end + 1, value))
    } else {
        None
    }
}

/// As many items as follow one another at `start` in `t`: their end and value.
fn items_exec(
    t: &Vec<char>,
    i: usize,
    overrides: &StringMap<Option<String>>,
    environment: &StringMap<EnvironmentValue>,
) -> (r: (usize, Result<Vec<char>, InterpolationError>))
    requires
        i <= t.len(),
    ensures
        i <= r.0 <= t.len(),
        items(t@.skip(i as int), scope_of(overrides, environment)) == (
            (r.0 - i) as nat,
            outcome_of(r.1),
        ),
    decreases t.len() - i, 1usize,
{
    let ghost scope = scope_of(overrides, environment);
    let mut position = i;
    let mut value: Result<Vec<char>, InterpolationError> = Ok(Vec::new());
    proof {
        lemma_join_empty(items(t@.skip(i as int), scope).1);
        assert(Seq::<char>::empty() + items(t@.skip(i as int), scope).1->Ok_0 =~= items(
            t@.skip(i as int),
            scope,
        ).1->Ok_0);
    }
    loop
        invariant
            scope == scope_of(overrides, environment),
            i <= position <= t.len(),
            items(t@.skip(i as int), scope).0 == (position - i) + items(
                t@.skip(position as int),
                scope,
            ).0,
            items(t@.skip(i as int), scope).1 == join(
                outcome_of(value),
                items(t@.skip(position as int), scope).1,
            ),
        decreases t.len() - position,
    {
        match item_exec(t, position, overrides, environment) {
            Some((end, o)) => {
                proof {
                    let u = t@.skip(position as int);
                    assert(u.skip((end - position) as int) == t@.skip(end as int));
                    lemma_join_associative(
                        outcome_of(value),
                        outcome_of(o),
                        items(t@.skip(end as int), scope).1,
                    );
                }
                value = join_exec(value, o);
                position = end;
            },
            None => {
                proof {
                    lemma_join_empty(outcome_of(value));
                    assert(items(t@.skip(position as int), scope) == (
                        0nat,
                        Ok::<Seq<char>, Failure>(Seq::empty()),
                    ));
                }
                return (position, value);
            },
        }
    }
}

/// An expression at `start` in `t`, if one starts there: its end and value.
fn expression_exec(
    t: &Vec<char>,
    i: usize,
    overrides: &StringMap<Option<String>>,
    environment: &StringMap<EnvironmentValue>,
) -> (r: Option<(usize, Result<Vec<char>, InterpolationError>)>)
    requires
        i <= t.len(),
    ensures
        r is Some ==> i < r->Some_0.0 <= t.len() && expression(
            t@.skip(i as int),
            scope_of(overrides, environment),
        ) == Some(((r->Some_0.0 - i) as nat, outcome_of(r->Some_0.1))),
        r is None ==> expression(t@.skip(i as int), scope_of(overrides, environment)) is None,
    decreases t.len() - i, 2usize,
{
    let (end, value) = items_exec(t, i, overrides, environment);
    if end > i {
        Some((end, value))
    } else {
        None
    }
}

/// The interpolation of the characters `t`.
fn interpolate_chars(
    t: &Vec<char>,
    overrides: &StringMap<Option<String>>,
    environment: &StringMap<EnvironmentValue>,
) -> (r: Result<Vec<char>, InterpolationError>)
    ensures
        outcome_of(r) == interpolation(t@, scope_of(overrides, environment)),
{
    let ghost scope = scope_of(overrides, environment);
    let mut position: usize = 0;
    let mut value: Vec<char> = Vec::new();
    assert(t@.skip(0) == t@);
    proof {
        lemma_join_empty(interpolation(t@, scope));
        if let Ok(x) = interpolation(t@, scope) {
            assert(Seq::<char>::empty() + x =~= x);
        }
    }
    while position < t.len()
        invariant
            scope == scope_of(overrides, environment),
            position <= t.len(),
            interpolation(t@, scope) == join(
                Ok(value@),
                interpolation(t@.skip(position as int), scope),
            ),
        decreases t.len() - position,
    {
        let ghost u = t@.skip(position as int);
        match expression_exec(t, position, overrides, environment) {
            Some((end, o)) => {
                assert(u.skip((end - position) as int) == t@.skip(end as int));
                assert(interpolation(u, scope) == join(
                    outcome_of(o),
                    interpolation(t@.skip(end as int), scope),
                ));
                match o {
                    Err(e) => {
                        return Err(e);
                    },
                    Ok(mut more) => {
                        proof {
                            lemma_join_associative(
                                Ok(value@),
                                Ok(more@),
                                interpolation(t@.skip(end as int), scope),
                            );
                        }
                        let ghost before = value@;
                        let ghost added = more@;
                        value.append(&mut more);
                        assert(value@ == before + added);
                        position = end;
                    },
                }
            },
            None => {
                assert(u.skip(1) == t@.skip(position + 1));
                assert(u[0] == t@[position as int]);
                assert(interpolation(u, scope) == join(
                    Ok(seq![t@[position as int]]),
                    interpolation(t@.skip(position + 1), scope),
                ));
                proof {
                    lemma_join_associative(
                        Ok(value@),
                        Ok(seq![t@[position as int]]),
                        interpolation(t@.skip(position + 1), scope),
                    );
                }
                let ghost before = value@;
                value.push(t[position]);
                assert(value@ == before + seq![t@[position as int]]);
                position = position + 1;
            },
        }
    }
    proof {
        lemma_join_empty(Ok(value@));
    }
    Ok(value)
}

/// Whether a reference to `identifier` with `requirement` takes its argument.
fn takes_argument_exec(
    overrides: &StringMap<Option<String>>,
    environment: &StringMap<EnvironmentValue>,
    identifier: &Vec<char>,
    requirement: VariableRequirement,
) -> (r: bool)
    ensures
        r == takes_argument(scope_of(overrides, environment), identifier@, requirement),
{
    match lookup_exec(overrides, environment, identifier) {
        Err(_) => false,
        Ok(None) => true,
        Ok(Some(v)) => v.len() == 0 && (requirement == VariableRequirement::OptionalNotEmpty
            || requirement == VariableRequirement::RequiredNotEmpty),
    }
}

/// `names` followed by `more`.
pub fn append_names(names: &mut Vec<String>, more: Vec<String>)
    ensures
        final(names).deep_view() == old(names).deep_view() + more.deep_view(),
{
    let ghost start = names.deep_view();
    let mut j: usize = 0;
    while j < more.len()
        invariant
            j <= more.len(),
            names.deep_view() == start + more.deep_view().take(j as int),
        decreases more.len() - j,
    {
        let ghost before = names.deep_view();
        names.push(more[j].clone());
        assert(names.deep_view() == before.push(more[j as int]@));
        assert(more.deep_view().take(j + 1) == more.deep_view().take(j as int).push(more[j as int]@));
        assert(start + more.deep_view().take(j + 1) == (start + more.deep_view().take(j as int)).push(
            more[j as int]@,
        ));
        j = j + 1;
    }
    assert(more.deep_view().take(more.len() as int) == more.deep_view());
}

/// The unset variables that the item at `i` in `t` substitutes with the empty string.
#[verifier::rlimit(100)]
fn item_unset_exec(
    t: &Vec<char>,
    i: usize,
    overrides: &StringMap<Option<String>>,
    environment: &StringMap<EnvironmentValue>,
) -> (r: Vec<String>)
    requires
        i <= t.len(),
    ensures
        r.deep_view() == item_unset(t@.skip(i as int), scope_of(overrides, environment)),
    decreases t.len() - i, 0usize,
{
    let ghost scope = scope_of(overrides, environment);
    let ghost u = t@.skip(i as int);
    proof {
        lemma_item_length(u, scope);
    }
    let none: Vec<String> = Vec::new();
    assert(none.deep_view() == Seq::<Seq<char>>::empty());
    let len = t.len();
    if i == len {
        return none;
    }
    if len - i >= 2 && t[i] == '$' && t[i + 1] == '$' {
        return none;
    }
    if t[i] != '$' {
        return none;
    }
    assert(u.skip(1) == t@.skip(i + 1));
    if len - i >= 2 && is_identifier_start_exec(t[i + 1]) {
        assert(u.skip(1).drop_first() == t@.skip(i + 2));
        let end = identifier_chars_end(t, i + 2);
        let identifier = slice(t, i + 1, end);
        assert(identifier@ == u.subrange(1, (end - i) as int));
        if takes_argument_exec(overrides, environment, &identifier, VariableRequirement::Recommended) {
            let name = string_of(&identifier);
            let found = vec![name];
            assert(found.deep_view() == seq![identifier@]);
            return found;
        }
        return none;
    }
    if !(len - i >= 2 && t[i + 1] == '{') {
        return none;
    }
    assert(u.skip(2) == t@.skip(i + 2));
    if !(len - i >= 3 && is_identifier_start_exec(t[i + 2])) {
        return none;
    }
    assert(u.skip(2).drop_first() == t@.skip(i + 3));
    let end = identifier_chars_end(t, i + 3);
    let identifier = slice(t, i + 2, end);
    assert(identifier@ == u.subrange(2, (end - i) as int));
    if end < len && t[end] == '}' {
        if takes_argument_exec(overrides, environment, &identifier, VariableRequirement::Recommended) {
            let name = string_of(&identifier);
            let found = vec![name];
            assert(found.deep_view() == seq![identifier@]);
            return found;
        }
        return none;
    }
    if end >= len {
        return none;
    }
    assert(u.skip((end - i) as int) == t@.skip(end as int));
    let (requirement, m) = match operator_exec(t, end) {
        None => {
            return none;
        },
        Some(found) => found,
    };
    let k = end + m;
    if k >= len {
        return none;
    }
    assert(u.skip((k - i) as int) == t@.skip(k as int));
    let argument_end = match expression_exec(t, k, overrides, environment) {
        Some((e, _)) => e,
        None => k,
    };
    if argument_end < len && t[argument_end] == '}' && takes_argument_exec(
        overrides,
        environment,
        &identifier,
        requirement,
    ) {
        items_unset_exec(t, k, overrides, environment)
    } else {
        none
    }
}

/// The unset variables that the items at `i` in `t` substitute with the empty string.
fn items_unset_exec(
    t: &Vec<char>,
    i: usize,
    overrides: &StringMap<Option<String>>,
    environment: &StringMap<EnvironmentValue>,
) -> (r: Vec<String>)
    requires
        i <= t.len(),
    ensures
        r.deep_view() == items_unset(t@.skip(i as int), scope_of(overrides, environment)),
    decreases t.len() - i, 1usize,
{
    let ghost scope = scope_of(overrides, environment);
    let mut position = i;
    let mut names: Vec<String> = Vec::new();
    assert(names.deep_view() + items_unset(t@.skip(i as int), scope) =~= items_unset(
        t@.skip(i as int),
        scope,
    ));
    loop
        invariant
            scope == scope_of(overrides, environment),
            i <= position <= t.len(),
            items_unset(t@.skip(i as int), scope) == names.deep_view() + items_unset(
                t@.skip(position as int),
                scope,
            ),
        decreases t.len() - position,
    {
        let ghost u = t@.skip(position as int);
        match item_exec(t, position, overrides, environment) {
            Some((end, o)) => {
                let found = item_unset_exec(t, position, overrides, environment);
                assert(u.skip((end - position) as int) == t@.skip(end as int));
                let ghost before = names.deep_view();
                let ghost rest = if o is Err {
                    Seq::<Seq<char>>::empty()
                } else {
                    items_unset(t@.skip(end as int), scope)
                };
                assert(items_unset(u, scope) == found.deep_view() + rest);
                append_names(&mut names, found);
                assert(before + (item_unset(u, scope) + rest) =~= names.deep_view() + rest);
                if o.is_err() {
                    assert(names.deep_view() + rest =~= names.deep_view());
                    return names;
                }
                position = end;
            },
            None => {
                assert(items_unset(u, scope) == Seq::<Seq<char>>::empty());
                assert(names.deep_view() + Seq::<Seq<char>>::empty() =~= names.deep_view());
                return names;
            },
        }
    }
}

/// The unset variables that interpolating `input` substitutes with the empty string, in
/// the order in which it meets them; none after the first failure. Each is worth a warning.
pub fn find_unset_variables(
    input: &str,
    extra_variables: &StringMap<Option<String>>,
    environment: &StringMap<EnvironmentValue>,
) -> (names: Vec<String>)
    ensures
        names.deep_view() == unset_variables(input@, scope_of(extra_variables, environment)),
{
    let ghost scope = scope_of(extra_variables, environment);
    let t = chars_of(input);
    let mut position: usize = 0;
    let mut names: Vec<String> = Vec::new();
    assert(t@.skip(0) == t@);
    assert(names.deep_view() + unset_variables(t@, scope) =~= unset_variables(t@, scope));
    while position < t.len()
        invariant
            scope == scope_of(extra_variables, environment),
            position <= t.len(),
            t@ == input@,
            unset_variables(t@, scope) == names.deep_view() + unset_variables(
                t@.skip(position as int),
                scope,
            ),
        decreases t.len() - position,
    {
        let ghost u = t@.skip(position as int);
        match expression_exec(&t, position, extra_variables, environment) {
            Some((end, o)) => {
                let found = items_unset_exec(&t, position, extra_variables, environment);
                assert(u.skip((end - position) as int) == t@.skip(end as int));
                let ghost before = names.deep_view();
                let ghost rest = if o is Err {
                    Seq::<Seq<char>>::empty()
                } else {
                    unset_variables(t@.skip(end as int), scope)
                };
                assert(unset_variables(u, scope) == found.deep_view() + rest);
                append_names(&mut names, found);
                assert(before + (items_unset(u, scope) + rest) =~= names.deep_view() + rest);
                if o.is_err() {
                    assert(names.deep_view() + rest =~= names.deep_view());
                    return names;
                }
                position = end;
            },
            None => {
                assert(u.skip(1) == t@.skip(position + 1));
                assert(unset_variables(u, scope) == unset_variables(t@.skip(position + 1), scope));
                position = position + 1;
            },
        }
    }
    assert(unset_variables(t@.skip(position as int), scope) == Seq::<Seq<char>>::empty());
    assert(names.deep_view() + Seq::<Seq<char>>::empty() =~= names.deep_view());
    names
}

/// Substitutes the variable references in `input`, as Docker Compose does: `$VAR` and
/// `${VAR}` give the value of `VAR`, or the empty string if it is unset; `${VAR:-default}`
/// and `${VAR-default}` give `default` where `VAR` is unset or empty, or unset;
/// `${VAR:?message}` and `${VAR?message}` fail where `VAR` is unset or empty, or unset;
/// `$$` gives `$`. Variables are looked up in `extra_variables` first, then in
/// `environment`, where a value that is not Unicode fails the reference.
pub fn go(
    input: &str,
    extra_variables: &StringMap<Option<String>>,
    environment: &StringMap<EnvironmentValue>,
) -> (r: Result<String, InterpolationError>)
    ensures
        match r {
            Ok(text) => interpolation(input@, scope_of(extra_variables, environment)) == Ok::<
                Seq<char>,
                Failure,
            >(text@),
            Err(e) => interpolation(input@, scope_of(extra_variables, environment)) == Err::<
                Seq<char>,
                Failure,
            >(e@),
        },
{
    let t = chars_of(input);
    match interpolate_chars(&t, extra_variables, environment) {
        Ok(value) => Ok(string_of(&value)),
        Err(e) => Err(e),
    }
}


/// `s` with every `$` doubled, so that interpolation gives `s` back.
pub open spec fn escape(s: Seq<char>) -> Seq<char>
    decreases s.len(),
{
    if s.len() == 0 {
        Seq::empty()
    } else {
        (if s[0] == '$' {
            seq!['$', '$']
        } else {
            seq![s[0]]
        }) + escape(s.drop_first())
    }
}

/// Length of the longest prefix of `s` without `}`.
pub open spec fn brace_free_len(s: Seq<char>) -> nat
    decreases s.len(),
{
    if s.len() > 0 && s[0] != '}' {
        1 + brace_free_len(s.drop_first())
    } else {
        0
    }
}

/// Escaping distributes over concatenation.
proof fn lemma_escape_concat(a: Seq<char>, b: Seq<char>)
    ensures
        escape(a + b) == escape(a) + escape(b),
    decreases a.len(),
{
    if a.len() == 0 {
        assert(a + b == b);
        assert(escape(a) + escape(b) == escape(b));
    } else {
        lemma_escape_concat(a.drop_first(), b);
        assert((a + b).drop_first() == a.drop_first() + b);
        let head = if a[0] == '$' {
            seq!['$', '$']
        } else {
            seq![a[0]]
        };
        assert(head + (escape(a.drop_first()) + escape(b)) == (head + escape(a.drop_first()))
            + escape(b));
    }
}

/// Text without `$` escapes to itself.
proof fn lemma_escape_identity(s: Seq<char>)
    requires
        forall|j: int| 0 <= j < s.len() ==> s[j] != '$',
    ensures
        escape(s) == s,
    decreases s.len(),
{
    if s.len() > 0 {
        lemma_escape_identity(s.drop_first());
        assert(seq![s[0]] + s.drop_first() == s);
    }
}

/// Escaping never shortens text.
proof fn lemma_escape_len(s: Seq<char>)
    ensures
        escape(s).len() >= s.len(),
    decreases s.len(),
{
    if s.len() > 0 {
        lemma_escape_len(s.drop_first());
    }
}

/// A literal run over text whose first part is literal spans that part and goes on into
/// the second.
proof fn lemma_literal_len_concat(x: Seq<char>, y: Seq<char>)
    requires
        forall|j: int| 0 <= j < x.len() ==> is_literal_char(x[j]),
    ensures
        literal_len(x + y) == x.len() + literal_len(y),
    decreases x.len(),
{
    if x.len() == 0 {
        assert(x + y == y);
    } else {
        lemma_literal_len_concat(x.drop_first(), y);
        assert((x + y).drop_first() == x.drop_first() + y);
    }
}

/// The brace-free prefix lies within the text and ends at a `}` if anything follows it.
proof fn lemma_brace_free_len(s: Seq<char>)
    ensures
        brace_free_len(s) <= s.len(),
        brace_free_len(s) < s.len() ==> s[brace_free_len(s) as int] == '}',
    decreases s.len(),
{
    if s.len() > 0 && s[0] != '}' {
        lemma_brace_free_len(s.drop_first());
    }
}

/// On escaped text, the items at the front take the escaped form of everything up to the
/// first `}` and give it back unescaped.
#[verifier::rlimit(30)]
proof fn lemma_items_of_escaped(s: Seq<char>, scope: Scope)
    ensures
        items(escape(s), scope) == (
            escape(s.take(brace_free_len(s) as int)).len(),
            Ok::<Seq<char>, Failure>(s.take(brace_free_len(s) as int)),
        ),
    decreases s.len(),
{
    let t = escape(s);
    if s.len() == 0 {
        assert(s.take(0) == Seq::<char>::empty());
    } else if s[0] == '}' {
        assert(t[0] == '}');
        assert(s.take(0) == Seq::<char>::empty());
        assert(item(t, scope) is None);
        assert(items(escape(s), scope) == (
            escape(s.take(brace_free_len(s) as int)).len(),
            Ok::<Seq<char>, Failure>(s.take(brace_free_len(s) as int)),
        ));
    } else if s[0] == '$' {
        let rest = s.drop_first();
        lemma_items_of_escaped(rest, scope);
        assert(t == seq!['$', '$'] + escape(rest));
        assert(t.skip(2) == escape(rest));
        let k = brace_free_len(rest) as int;
        lemma_brace_free_len(rest);
        assert(s.take(k + 1).drop_first() =~= rest.take(k));
        assert(s.take(k + 1) =~= seq!['$'] + rest.take(k));
        assert(escape(s.take(k + 1)) == seq!['$', '$'] + escape(rest.take(k)));
        assert(items(escape(s), scope) == (
            escape(s.take(brace_free_len(s) as int)).len(),
            Ok::<Seq<char>, Failure>(s.take(brace_free_len(s) as int)),
        ));
    } else {
        let l = literal_len(s) as int;
        lemma_literal_len(s);
        let head = s.take(l);
        let tail = s.skip(l);
        assert(s == head + tail);
        assert forall|j: int| 0 <= j < head.len() implies head[j] != '$' && is_literal_char(
            head[j],
        ) by {
            assert(head[j] == s[j]);
        }
        lemma_escape_identity(head);
        lemma_escape_concat(head, tail);
        assert(t == head + escape(tail));
        lemma_literal_len_concat(head, escape(tail));
        if tail.len() > 0 {
            assert(tail[0] == s[l]);
            assert(escape(tail)[0] == '$' || escape(tail)[0] == '}');
        }
        assert(literal_len(t) == l);
        assert(t.take(l) == head);
        assert(t.skip(l) == escape(tail));
        lemma_items_of_escaped(tail, scope);
        lemma_brace_free_len(tail);
        let k = brace_free_len(tail) as int;
        assert(brace_free_len(s) == l + k) by {
            lemma_brace_free_split(s, l);
        }
        assert(s.take(l + k) == head + tail.take(k));
        lemma_escape_concat(head, tail.take(k));
        lemma_literal_len(t);
        assert(item(t, scope) == Some((l as nat, Ok::<Seq<char>, Failure>(head))));
        assert(items(escape(s), scope) == (
            escape(s.take(brace_free_len(s) as int)).len(),
            Ok::<Seq<char>, Failure>(s.take(brace_free_len(s) as int)),
        ));
    }
}

/// The brace-free prefix of text that starts without `}` spans that start.
proof fn lemma_brace_free_split(s: Seq<char>, l: int)
    requires
        0 <= l <= s.len(),
        forall|j: int| 0 <= j < l ==> s[j] != '}',
    ensures
        brace_free_len(s) == l + brace_free_len(s.skip(l)),
    decreases l,
{
    if l > 0 {
        lemma_brace_free_split(s.drop_first(), l - 1);
        assert(s.drop_first().skip(l - 1) == s.skip(l));
    } else {
        assert(s.skip(0) == s);
    }
}

/// Interpolating escaped text gives the text back, whatever the variables: this is what
/// makes writing a Compose file with `$` doubled safe to read again.
#[verifier::rlimit(50)]
#[verifier::spinoff_prover]
pub proof fn lemma_escape_round_trip(s: Seq<char>, scope: Scope)
    ensures
        interpolation(escape(s), scope) == Ok::<Seq<char>, Failure>(s),
    decreases s.len(),
{
    let t = escape(s);
    if s.len() > 0 {
        lemma_items_of_escaped(s, scope);
        lemma_brace_free_len(s);
        let k = brace_free_len(s) as int;
        if k == 0 {
            assert(s.take(0) =~= Seq::<char>::empty());
            assert(escape(Seq::<char>::empty()) =~= Seq::<char>::empty());
            assert(expression(t, scope) is None);
            assert(t == seq![s[0]] + escape(s.drop_first()));
            assert(t.skip(1) == escape(s.drop_first()));
            lemma_escape_round_trip(s.drop_first(), scope);
            assert(seq![s[0]] + s.drop_first() == s);
            assert(interpolation(t, scope) == join(
                Ok(seq![t[0]]),
                interpolation(t.skip(1), scope),
            ));
            assert(interpolation(escape(s), scope) == Ok::<Seq<char>, Failure>(s));
        } else {
            lemma_escape_concat(s.take(k), s.skip(k));
            assert(s.take(k) + s.skip(k) == s);
            let n = escape(s.take(k)).len();
            lemma_escape_len(s.take(k));
            assert(t.skip(n as int) == escape(s.skip(k)));
            assert(n > 0);
            assert(expression(t, scope) == Some((n, Ok::<Seq<char>, Failure>(s.take(k)))));
            lemma_escape_round_trip(s.skip(k), scope);
            assert(interpolation(t, scope) == join(
                Ok(s.take(k)),
                interpolation(t.skip(n as int), scope),
            ));
            assert(interpolation(escape(s), scope) == Ok::<Seq<char>, Failure>(s));
        }
    } else {
        assert(s =~= Seq::<char>::empty());
        assert(t =~= Seq::<char>::empty());
    }
}

/// Text without `$` interpolates to itself, whatever the variables.
pub proof fn lemma_plain_text_unchanged(t: Seq<char>, scope: Scope)
    requires
        forall|j: int| 0 <= j < t.len() ==> t[j] != '$',
    ensures
        interpolation(t, scope) == Ok::<Seq<char>, Failure>(t),
{
    lemma_escape_identity(t);
    lemma_escape_round_trip(t, scope);
}

} // verus!
