//! Instances: the values that a document shows.

use crate::text::{index_of, lemma_index_found, lemma_index_of, lemma_index_stable};
use vstd::prelude::*;
use vstd::string::*;

verus! {

/// A value of a configuration type.
#[derive(Debug, PartialEq, Eq)]
pub enum Value {
    /// A value of a plain type, as the text that a document shows for it.
    Scalar(String),
    /// A value of a compound type: its fields, each under its name.
    Record(Vec<(String, Value)>),
}

/// The view of `Value`: the same value over sequences of characters.
pub enum ValueView {
    Scalar(Seq<char>),
    Record(Seq<(Seq<char>, ValueView)>),
}

/// The view of a value: its text, or the views of its fields under their
/// names.
pub open spec fn value_view(v: Value) -> ValueView
    decreases v,
{
    match v {
        Value::Scalar(text) => ValueView::Scalar(text@),
        Value::Record(fields) => ValueView::Record(
            Seq::new(
                fields.len() as nat,
                |i: int|
                    if 0 <= i < fields.len() {
                        (fields[i].0@, value_view(fields[i].1))
                    } else {
                        (Seq::empty(), ValueView::Scalar(Seq::empty()))
                    },
            ),
        ),
    }
}

impl View for Value {
    type V = ValueView;

    open spec fn view(&self) -> ValueView {
        value_view(*self)
    }
}

/// The views of values under their names, one for one.
pub open spec fn named_values(fields: Seq<(String, Value)>) -> Seq<(Seq<char>, ValueView)> {
    Seq::new(fields.len(), |i: int| (fields[i].0@, fields[i].1@))
}

/// The view of a record holds the views of its fields, one for one.
pub proof fn lemma_record_view(v: Value)
    requires
        v is Record,
    ensures
        v@ is Record,
        v@->Record_0.len() == v->Record_0.len(),
        forall|j: int|
            0 <= j < v->Record_0.len() ==> (#[trigger] v@->Record_0[j]) == (
                v->Record_0[j].0@,
                v->Record_0[j].1@,
            ),
{
    let fields = v->Record_0;
    let shown = Seq::new(
        fields.len() as nat,
        |i: int|
            if 0 <= i < fields.len() {
                (fields[i].0@, fields[i].1@)
            } else {
                (Seq::empty(), ValueView::Scalar(Seq::empty()))
            },
    );
    assert(v@->Record_0 =~= shown);
}

/// The names that values stand under, one for one.
pub open spec fn names_of(fields: Seq<(Seq<char>, ValueView)>) -> Seq<Seq<char>> {
    Seq::new(fields.len(), |i: int| fields[i].0)
}

/// The value that `fields` holds under `name`: the first one, if there is any.
pub open spec fn entry(fields: Seq<(Seq<char>, ValueView)>, name: Seq<char>) -> Option<
    ValueView,
> {
    match index_of(names_of(fields), name) {
        Some(k) => Some(fields[k].1),
        None => None,
    }
}

/// A value that is found under a name stays the one found when another
/// value is added at the end.
pub proof fn lemma_entry_stable(
    fields: Seq<(Seq<char>, ValueView)>,
    added: (Seq<char>, ValueView),
    name: Seq<char>,
)
    requires
        entry(fields, name) is Some,
    ensures
        entry(fields.push(added), name) == entry(fields, name),
{
    assert(names_of(fields.push(added)) == names_of(fields).push(added.0));
    lemma_index_stable(names_of(fields), added.0, name);
    lemma_index_of(names_of(fields), name);
}

impl ValueView {
    /// The field `name` of a record. A scalar has no fields.
    pub open spec fn field(self, name: Seq<char>) -> Option<ValueView> {
        match self {
            ValueView::Scalar(_) => None,
            ValueView::Record(fields) => entry(fields, name),
        }
    }

    /// The text of a scalar. A record has no text.
    pub open spec fn scalar(self) -> Option<Seq<char>> {
        match self {
            ValueView::Scalar(text) => Some(text),
            ValueView::Record(_) => None,
        }
    }
}

/// The view of an optional value.
pub open spec fn value_of(value: Option<&Value>) -> Option<ValueView> {
    match value {
        Some(v) => Some(v@),
        None => None,
    }
}

/// The value that `list` holds under `name`: the first one, if there is any.
pub fn lookup<'a>(list: &'a Vec<(String, Value)>, name: &String) -> (found: Option<&'a Value>)
    ensures
        value_of(found) == entry(named_values(list@), name@),
{
    let ghost names = names_of(named_values(list@));
    let mut k: usize = 0;
    while k < list.len()
        invariant
            k <= list.len(),
            names == names_of(named_values(list@)),
            forall|j: int| 0 <= j < k ==> #[trigger] names[j] != name@,
        decreases list.len() - k,
    {
        if list[k].0 == *name {
            proof {
                lemma_index_found(names, name@, k as int);
            }
            return Some(&list[k].1);
        }
        k += 1;
    }
    proof {
        lemma_index_of(names, name@);
    }
    None
}

impl Value {
    /// The field `name` of a record.
    pub fn field(&self, name: &String) -> (found: Option<&Value>)
        ensures
            value_of(found) == self@.field(name@),
    {
        match self {
            Value::Scalar(_) => None,
            Value::Record(fields) => {
                proof {
                    lemma_record_view(*self);
                    assert(self@->Record_0 == named_values(fields@));
                }
                lookup(fields, name)
            },
        }
    }
}

} // verus!
