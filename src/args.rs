//! Template argument values and the named argument set of one rendering.

use crate::text::str_eq;
use vstd::prelude::*;

verus! {

/// What an argument value is, as a mathematical value.
pub enum ArgModel {
    Scalar(Seq<char>),
    Array(Seq<ArgModel>),
    Other(Seq<char>),
}

/// A template argument: a string, an ordered list of arguments, or any other
/// value (a number, a boolean, null, a map), held as its JSON text and never trimmed.
#[derive(Debug)]
pub enum ArgValue {
    Scalar(String),
    Array(Vec<ArgValue>),
    Other(String),
}

impl ArgValue {
    pub open spec fn view(self) -> ArgModel
        decreases self,
    {
        match self {
            ArgValue::Scalar(s) => ArgModel::Scalar(s@),
            ArgValue::Array(vs) => ArgModel::Array(
                Seq::new(
                    vs@.len(),
                    |i: int|
                        if 0 <= i < vs@.len() {
                            vs@[i].view()
                        } else {
                            ArgModel::Other(Seq::empty())
                        },
                ),
            ),
            ArgValue::Other(s) => ArgModel::Other(s@),
        }
    }

    /// Whether this is a string with nothing in it.
    pub fn is_empty_scalar(&self) -> (r: bool)
        ensures
            r == is_empty_scalar(self@),
    {
        match self {
            ArgValue::Scalar(s) => s.as_str().is_empty(),
            _ => false,
        }
    }
}

/// The models of a list of values.
pub open spec fn views(vs: Seq<ArgValue>) -> Seq<ArgModel> {
    Seq::new(vs.len(), |i: int| vs[i]@)
}

/// The model of a list value is the list of its elements' models.
pub proof fn lemma_array_view(vs: Vec<ArgValue>)
    ensures
        ArgValue::Array(vs)@ == ArgModel::Array(views(vs@)),
{
    let a = ArgValue::Array(vs)@;
    assert(a->Array_0 =~= views(vs@));
}

/// Whether a value is an empty string.
pub open spec fn is_empty_scalar(v: ArgModel) -> bool {
    match v {
        ArgModel::Scalar(s) => s.len() == 0,
        _ => false,
    }
}

/// The elements of `vs` that are not empty strings, in order.
pub open spec fn drop_empty(vs: Seq<ArgModel>) -> Seq<ArgModel>
    decreases vs.len(),
{
    if vs.len() == 0 {
        Seq::empty()
    } else if is_empty_scalar(vs[0]) {
        drop_empty(vs.drop_first())
    } else {
        seq![vs[0]] + drop_empty(vs.drop_first())
    }
}

/// The named arguments of one rendering, each name once, in insertion order.
#[derive(Debug)]
pub struct TemplateArgs {
    entries: Vec<(String, ArgValue)>,
}

/// The name and value model of each entry.
pub open spec fn entry_views(es: Seq<(String, ArgValue)>) -> Seq<(Seq<char>, ArgModel)> {
    Seq::new(es.len(), |i: int| (es[i].0@, es[i].1@))
}

/// Whether no name occurs twice.
pub open spec fn names_unique(es: Seq<(Seq<char>, ArgModel)>) -> bool {
    forall|i: int, j: int| 0 <= i < j < es.len() ==> #[trigger] es[i].0 != #[trigger] es[j].0
}

/// Where `name` stands among the entries, if anywhere.
pub open spec fn position_of(es: Seq<(Seq<char>, ArgModel)>, name: Seq<char>) -> Option<int> {
    if exists|i: int| 0 <= i < es.len() && #[trigger] es[i].0 == name {
        Some(choose|i: int| 0 <= i < es.len() && #[trigger] es[i].0 == name)
    } else {
        None
    }
}

/// With unique names, the entry at `i` is the one named by its name.
pub proof fn lemma_position_of_unique(es: Seq<(Seq<char>, ArgModel)>, name: Seq<char>, i: int)
    requires
        names_unique(es),
        0 <= i < es.len(),
        es[i].0 == name,
    ensures
        position_of(es, name) == Some(i),
{
    let j = choose|j: int| 0 <= j < es.len() && #[trigger] es[j].0 == name;
    if j < i {
        assert(es[j].0 != es[i].0);
    } else if i < j {
        assert(es[i].0 != es[j].0);
    }
}

impl TemplateArgs {
    pub closed spec fn view(&self) -> Seq<(Seq<char>, ArgModel)> {
        entry_views(self.entries@)
    }

    pub open spec fn wf(&self) -> bool {
        names_unique(self@)
    }

    /// No arguments.
    pub fn new() -> (r: Self)
        ensures
            r.wf(),
            r@.len() == 0,
    {
        let r = TemplateArgs { entries: Vec::new() };
        assert(r@ =~= Seq::<(Seq<char>, ArgModel)>::empty());
        r
    }

    /// The index of the entry named `name`, if there is one.
    pub fn find(&self, name: &str) -> (r: Option<usize>)
        requires
            self.wf(),
        ensures
            match r {
                Some(i) => i < self@.len() && self@[i as int].0 == name@,
                None => forall|i: int| 0 <= i < self@.len() ==> #[trigger] self@[i].0 != name@,
            },
    {
        let mut i: usize = 0;
        while i < self.entries.len()
            invariant
                0 <= i <= self.entries.len(),
                self@ == entry_views(self.entries@),
                forall|j: int| 0 <= j < i ==> #[trigger] self@[j].0 != name@,
            decreases self.entries.len() - i,
        {
            if str_eq(self.entries[i].0.as_str(), name) {
                return Some(i);
            }
            i = i + 1;
        }
        None
    }

    /// The value at `i`.
    pub fn value_at(&self, i: usize) -> (r: &ArgValue)
        requires
            i < self@.len(),
        ensures
            r@ == self@[i as int].1,
    {
        &self.entries[i].1
    }

    /// The value named `name`, if there is one.
    pub fn get(&self, name: &str) -> (r: Option<&ArgValue>)
        requires
            self.wf(),
        ensures
            match r {
                Some(v) => exists|i: int|
                    0 <= i < self@.len() && #[trigger] self@[i].0 == name@ && self@[i].1 == v@,
                None => forall|i: int| 0 <= i < self@.len() ==> #[trigger] self@[i].0 != name@,
            },
    {
        match self.find(name) {
            Some(i) => Some(&self.entries[i].1),
            None => None,
        }
    }

    /// Set the value named `name`: in place where the name is present, at the end otherwise.
    pub fn insert(&mut self, name: String, value: ArgValue)
        requires
            old(self).wf(),
        ensures
            final(self).wf(),
            match position_of(old(self)@, name@) {
                Some(i) => final(self)@ == old(self)@.update(i, (name@, value@)),
                None => final(self)@ == old(self)@.push((name@, value@)),
            },
    {
        let ghost before = self@;
        match self.find(name.as_str()) {
            Some(i) => {
                let ghost nv = (name@, value@);
                self.entries.set(i, (name, value));
                assert(self@ =~= before.update(i as int, nv));
                assert(position_of(before, nv.0) == Some(i as int)) by {
                    let j = choose|j: int| 0 <= j < before.len() && #[trigger] before[j].0 == nv.0;
                    assert(before[i as int].0 == nv.0);
                }
            },
            None => {
                let ghost nv = (name@, value@);
                self.entries.push((name, value));
                assert(self@ =~= before.push(nv));
            },
        }
    }

    /// The entries, in order.
    pub fn entries(&self) -> (r: &Vec<(String, ArgValue)>)
        ensures
            entry_views(r@) == self@,
    {
        &self.entries
    }

    /// Take the value at `i` out, leaving an empty string in its place.
    pub(crate) fn take_at(&mut self, i: usize) -> (r: ArgValue)
        requires
            old(self).wf(),
            i < old(self)@.len(),
        ensures
            final(self).wf(),
            r@ == old(self)@[i as int].1,
            final(self)@ == old(self)@.update(i as int, (old(self)@[i as int].0, ArgModel::Scalar(Seq::empty()))),
    {
        let ghost before = self@;
        let (name, value) = self.entries.remove(i);
        self.entries.insert(i, (name, ArgValue::Scalar(String::new())));
        assert(self@ =~= before.update(i as int, (before[i as int].0, ArgModel::Scalar(Seq::empty()))));
        value
    }

    /// Put `value` at `i`, keeping the name there.
    pub(crate) fn put_at(&mut self, i: usize, value: ArgValue)
        requires
            old(self).wf(),
            i < old(self)@.len(),
        ensures
            final(self).wf(),
            final(self)@ == old(self)@.update(i as int, (old(self)@[i as int].0, value@)),
    {
        let ghost before = self@;
        let (name, _) = self.entries.remove(i);
        self.entries.insert(i, (name, value));
        assert(self@ =~= before.update(i as int, (before[i as int].0, value@)));
    }
}

} // verus!
