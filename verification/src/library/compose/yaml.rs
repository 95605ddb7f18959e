use vstd::prelude::*;

verus! {

/// A YAML (or TOML) document as the Compose logic reads it.
///
/// Numbers are kept in their textual form; a mapping keeps its entries in order.
pub enum Yaml {
    Null,
    Bool(bool),
    Number(String),
    String(String),
    Sequence(Vec<Yaml>),
    Mapping(Vec<(Yaml, Yaml)>),
    Tagged(String, Box<Yaml>),
}

/// The mathematical value of a `Yaml` document.
pub enum YamlModel {
    Null,
    Bool(bool),
    Number(Seq<char>),
    String(Seq<char>),
    Sequence(Seq<YamlModel>),
    Mapping(Seq<(YamlModel, YamlModel)>),
    Tagged(Seq<char>, Box<YamlModel>),
}

impl Yaml {
    /// The value of the document.
    pub open spec fn model(&self) -> YamlModel
        decreases self,
    {
        match self {
            Yaml::Null => YamlModel::Null,
            Yaml::Bool(b) => YamlModel::Bool(*b),
            Yaml::Number(n) => YamlModel::Number(n@),
            Yaml::String(s) => YamlModel::String(s@),
            Yaml::Sequence(v) => YamlModel::Sequence(models(v@)),
            Yaml::Mapping(v) => YamlModel::Mapping(entry_models(v@)),
            Yaml::Tagged(tag, value) => YamlModel::Tagged(tag@, Box::new(value.model())),
        }
    }
}

/// The values of a sequence of documents.
pub open spec fn models(s: Seq<Yaml>) -> Seq<YamlModel>
    decreases s,
{
    if s.len() == 0 {
        Seq::empty()
    } else {
        models(s.drop_last()).push(s.last().model())
    }
}

/// The values of the entries of a mapping.
pub open spec fn entry_models(s: Seq<(Yaml, Yaml)>) -> Seq<(YamlModel, YamlModel)>
    decreases s,
{
    if s.len() == 0 {
        Seq::empty()
    } else {
        entry_models(s.drop_last()).push((s.last().0.model(), s.last().1.model()))
    }
}

impl View for Yaml {
    type V = YamlModel;

    open spec fn view(&self) -> YamlModel {
        self.model()
    }
}

/// The values of a sequence of documents are as many as the documents, each in its place.
pub proof fn lemma_models_len(s: Seq<Yaml>)
    ensures
        models(s).len() == s.len(),
        forall|i: int| 0 <= i < s.len() ==> #[trigger] models(s)[i] == s[i].model(),
    decreases s.len(),
{
    if s.len() > 0 {
        lemma_models_len(s.drop_last());
        assert forall|i: int| 0 <= i < s.len() implies #[trigger] models(s)[i] == s[i].model() by {
            if i < s.len() - 1 {
                assert(s.drop_last()[i] == s[i]);
            }
        }
    }
}

/// The values of the entries of a mapping are as many as the entries, each in its place.
pub proof fn lemma_entry_models_len(s: Seq<(Yaml, Yaml)>)
    ensures
        entry_models(s).len() == s.len(),
        forall|i: int|
            0 <= i < s.len() ==> #[trigger] entry_models(s)[i] == (s[i].0.model(), s[i].1.model()),
    decreases s.len(),
{
    if s.len() > 0 {
        lemma_entry_models_len(s.drop_last());
        assert forall|i: int| 0 <= i < s.len() implies #[trigger] entry_models(s)[i] == (
            s[i].0.model(),
            s[i].1.model(),
        ) by {
            if i < s.len() - 1 {
                assert(s.drop_last()[i] == s[i]);
            }
        }
    }
}

/// Appends the entry `key: value` to `entries`.
pub fn push_entry(entries: &mut Vec<(Yaml, Yaml)>, key: Yaml, value: Yaml)
    ensures
        entry_models(final(entries)@) == entry_models(old(entries)@).push((key@, value@)),
{
    let ghost before = entries@;
    entries.push((key, value));
    assert(entries@.drop_last() == before);
}

/// Appends `item` to `items`.
pub fn push_item(items: &mut Vec<Yaml>, item: Yaml)
    ensures
        models(final(items)@) == models(old(items)@).push(item@),
{
    let ghost before = items@;
    items.push(item);
    assert(items@.drop_last() == before);
}

/// The string value `text`.
pub fn text(s: &str) -> (value: Yaml)
    ensures
        value@ == YamlModel::String(s@),
{
    Yaml::String(s.to_owned())
}

/// `value` without the tags around it.
pub open spec fn untag(value: YamlModel) -> YamlModel
    decreases value,
{
    match value {
        YamlModel::Tagged(_, inner) => untag(*inner),
        other => other,
    }
}

/// `value` without the tags around it.
pub fn untagged(value: &Yaml) -> (inner: &Yaml)
    ensures
        inner@ == untag(value@),
    decreases value,
{
    match value {
        Yaml::Tagged(_, inner) => untagged(inner),
        other => other,
    }
}

/// A copy of `value`.
pub fn copy(value: &Yaml) -> (r: Yaml)
    ensures
        r@ == value@,
    decreases value,
{
    match value {
        Yaml::Null => Yaml::Null,
        Yaml::Bool(b) => Yaml::Bool(*b),
        Yaml::Number(n) => Yaml::Number(n.clone()),
        Yaml::String(s) => Yaml::String(s.clone()),
        Yaml::Sequence(v) => {
            let mut r: Vec<Yaml> = Vec::new();
            let mut i: usize = 0;
            while i < v.len()
                invariant
                    *value == Yaml::Sequence(*v),
                    i <= v.len(),
                    models(r@) == models(v@.take(i as int)),
                decreases v.len() - i,
            {
                proof {
                    assert(decreases_to!(*value => (*value)->Sequence_0));
                    assert(decreases_to!((*value)->Sequence_0 => (*value)->Sequence_0@));
                    assert(decreases_to!((*value)->Sequence_0@ => (*value)->Sequence_0@[i as int]));
                }
                let x = copy(&v[i]);
                let ghost before = r@;
                r.push(x);
                assert(r@.drop_last() == before);
                assert(v@.take(i + 1).drop_last() == v@.take(i as int));
                i = i + 1;
            }
            assert(v@.take(v.len() as int) == v@);
            Yaml::Sequence(r)
        },
        Yaml::Mapping(v) => {
            let mut r: Vec<(Yaml, Yaml)> = Vec::new();
            let mut i: usize = 0;
            while i < v.len()
                invariant
                    *value == Yaml::Mapping(*v),
                    i <= v.len(),
                    entry_models(r@) == entry_models(v@.take(i as int)),
                decreases v.len() - i,
            {
                proof {
                    assert(decreases_to!(*value => (*value)->Mapping_0));
                    assert(decreases_to!((*value)->Mapping_0 => (*value)->Mapping_0@));
                    assert(decreases_to!((*value)->Mapping_0@ => (*value)->Mapping_0@[i as int]));
                    assert(decreases_to!((*value)->Mapping_0@[i as int] => (*value)->Mapping_0@[i as int].0));
                    assert(decreases_to!((*value)->Mapping_0@[i as int] => (*value)->Mapping_0@[i as int].1));
                }
                let k = copy(&v[i].0);
                let x = copy(&v[i].1);
                let ghost before = r@;
                r.push((k, x));
                assert(r@.drop_last() == before);
                assert(v@.take(i + 1).drop_last() == v@.take(i as int));
                i = i + 1;
            }
            assert(v@.take(v.len() as int) == v@);
            Yaml::Mapping(r)
        },
        Yaml::Tagged(tag, inner) => Yaml::Tagged(tag.clone(), Box::new(copy(inner))),
    }
}

} // verus!
