//! The contract of a type that documents itself.

use crate::leaf::{leaf_lines, Leaf, LeafView};
use crate::line::{comment_lines, write_comments, Line, LineView};
use crate::shape::views;
use crate::text::{copy_texts, lemma_texts_push, texts};
use vstd::prelude::*;
use vstd::string::*;

verus! {

/// The value behind an optional reference.
pub open spec fn instance<T>(def: Option<&T>) -> Option<T> {
    match def {
        Some(value) => Some(*value),
        None => None,
    }
}

/// A type that can be the type of a field of a configuration.
///
/// An implementation states with `plain` and `document` what its two
/// methods return and write. One that states neither is taken as a compound
/// type that writes no line.
pub trait DocConfig: Sized {
    /// Whether a value of this type fits on one line. A type that is not
    /// plain has a structure of its own, and a field of that type starts a
    /// section.
    open spec fn plain() -> bool {
        false
    }

    /// The lines of a value of this type at `path`: of `def` where it is
    /// given, and else of what the type shows without an instance.
    open spec fn document(path: Seq<Seq<char>>, def: Option<Self>) -> Seq<LineView> {
        Seq::empty()
    }

    /// Whether this type is plain.
    fn is_plain() -> (plain: bool)
        ensures
            plain == Self::plain(),
    ;

    /// Appends to `w` the document of this type, for a value at `path` from
    /// the root of the document. A plain type writes under the last segment
    /// of the path.
    fn write_doc_config(w: &mut Vec<Line>, path: &Vec<String>, def: Option<&Self>)
        requires
            Self::plain() ==> path.len() > 0,
        ensures
            views(final(w)@) == views(old(w)@) + Self::document(texts(path@), instance(def)),
    ;
}

/// The text of an optional string.
pub open spec fn shown_text(def: Option<String>) -> Option<Seq<char>> {
    match def {
        Some(s) => Some(s@),
        None => None,
    }
}

impl DocConfig for String {
    open spec fn plain() -> bool {
        true
    }

    open spec fn document(path: Seq<Seq<char>>, def: Option<String>) -> Seq<LineView> {
        leaf_lines(
            LeafView { description: "a string"@, quoted: true },
            path.last(),
            shown_text(def),
        )
    }

    fn is_plain() -> (plain: bool) {
        true
    }

    fn write_doc_config(w: &mut Vec<Line>, path: &Vec<String>, def: Option<&String>) {
        Leaf::text().write(w, path, def);
    }
}

/// The head of the section at `path`, for a type that is not plain.
pub open spec fn section_head<T: DocConfig>(path: Seq<Seq<char>>) -> Seq<LineView> {
    if T::plain() {
        Seq::empty()
    } else {
        seq![LineView::Section(path)]
    }
}

/// The lines of a member `name` of type `T` of a value at `path`.
pub open spec fn member_document<T: DocConfig>(
    path: Seq<Seq<char>>,
    name: Seq<char>,
    comments: Seq<Seq<char>>,
    value: Option<T>,
) -> Seq<LineView> {
    comment_lines(comments) + section_head::<T>(path.push(name)) + T::document(
        path.push(name),
        value,
    )
}

/// Appends the lines of one member of a value at `path`: its comments, the
/// head of a section unless its type is plain, and the document of its type,
/// written at the path of the member. The path is the same after the call.
pub fn write_member<T: DocConfig>(
    w: &mut Vec<Line>,
    path: &mut Vec<String>,
    name: &str,
    comments: &Vec<String>,
    value: Option<&T>,
)
    ensures
        views(final(w)@) == views(old(w)@) + member_document::<T>(
            texts(old(path)@),
            name@,
            texts(comments@),
            instance(value),
        ),
        final(path)@ == old(path)@,
{
    let ghost before = views(w@);
    let ghost saved = path@;
    write_comments(w, comments);
    let segment = name.to_owned();
    proof {
        lemma_texts_push(path@, segment);
    }
    path.push(segment);
    if !T::is_plain() {
        let copy = copy_texts(path);
        let head = Line::Section(copy);
        assert(views(w@.push(head)) == views(w@) + section_head::<T>(texts(path@)));
        w.push(head);
    } else {
        assert(views(w@) == views(w@) + section_head::<T>(texts(path@)));
    }
    T::write_doc_config(w, path, value);
    path.pop();
    assert(path@ == saved);
    assert(views(w@) == before + member_document::<T>(
        texts(saved),
        name@,
        texts(comments@),
        instance(value),
    ));
}

} // verus!
