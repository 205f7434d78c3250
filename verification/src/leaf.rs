//! Plain types: the types whose value fits on one line.

use crate::line::{Line, LineView};
use crate::shape::views;
use crate::text::texts;
use vstd::prelude::*;
use vstd::string::*;

verus! {

/// How the values of a plain type are written: a comment that says what kind
/// of value is meant, then the value under its key.
#[derive(Clone, Debug, PartialEq, Eq)]
pub struct Leaf {
    /// The kind of value, as the comment names it.
    pub description: String,
    /// Whether a value stands between double quotes.
    pub quoted: bool,
}

/// The view of `Leaf`: the same value over sequences of characters.
pub struct LeafView {
    pub description: Seq<char>,
    pub quoted: bool,
}

impl View for Leaf {
    type V = LeafView;

    open spec fn view(&self) -> LeafView {
        LeafView { description: self.description@, quoted: self.quoted }
    }
}

/// The characters of an optional string.
pub open spec fn string_of(text: Option<&String>) -> Option<Seq<char>> {
    match text {
        Some(s) => Some(s@),
        None => None,
    }
}

/// The two lines of a plain value: the comment, then the value under `key`,
/// or a placeholder where there is no value.
pub open spec fn leaf_lines(leaf: LeafView, key: Seq<char>, text: Option<Seq<char>>) -> Seq<
    LineView,
> {
    seq![
        LineView::Comment(leaf.description),
        match text {
            Some(t) => LineView::Value { key, text: t, quoted: leaf.quoted },
            None => LineView::Placeholder(key),
        },
    ]
}

impl Leaf {
    /// Strings: quoted values.
    pub fn text() -> (leaf: Leaf)
        ensures
            leaf@ == (LeafView { description: "a string"@, quoted: true }),
    {
        Leaf { description: String::from_str("a string"), quoted: true }
    }

    /// Real numbers: bare values.
    pub fn real_number() -> (leaf: Leaf)
        ensures
            leaf@ == (LeafView { description: "a real number"@, quoted: false }),
    {
        Leaf { description: String::from_str("a real number"), quoted: false }
    }

    /// Appends the lines of a value of this type. The key is the last segment
    /// of `path`.
    pub fn write(&self, w: &mut Vec<Line>, path: &Vec<String>, text: Option<&String>)
        requires
            path.len() > 0,
        ensures
            views(final(w)@) == views(old(w)@) + leaf_lines(
                self@,
                texts(path@).last(),
                string_of(text),
            ),
    {
        let ghost before = views(w@);
        let key = path[path.len() - 1].clone();
        let head = Line::Comment(self.description.clone());
        let value = match text {
            Some(t) => Line::Value { key, text: t.clone(), quoted: self.quoted },
            None => Line::Placeholder(key),
        };
        proof {
            assert(views(w@.push(head)) == before.push(head@));
            assert(views(w@.push(head).push(value)) == before.push(head@).push(value@));
            assert(before.push(head@).push(value@) == before + seq![head@, value@]);
        }
        w.push(head);
        w.push(value);
    }
}

} // verus!
