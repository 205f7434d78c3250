//! The outline of a document: its section heads and its keys, in order.

use crate::emitter::{BodyView, FieldEmitterView, SectionEmitterView};
use crate::line::{comment_lines, LineView};
use crate::registry::{resolve, DocumentableView, RegistryView};
use crate::value::ValueView;
use vstd::prelude::*;

verus! {

/// What a line adds to the outline of a document.
pub enum Mark {
    /// The head of the section at a path.
    Section(Seq<Seq<char>>),
    /// A key, with a value or as a placeholder.
    Key(Seq<char>),
}

/// The mark of a line. A comment has none.
pub open spec fn marks_of(line: LineView) -> Seq<Mark> {
    match line {
        LineView::Comment(_) => Seq::empty(),
        LineView::Section(path) => seq![Mark::Section(path)],
        LineView::Value { key, text, quoted } => seq![Mark::Key(key)],
        LineView::Placeholder(key) => seq![Mark::Key(key)],
    }
}

/// The marks of the lines of a document, in order.
pub open spec fn outline(lines: Seq<LineView>) -> Seq<Mark>
    decreases lines.len(),
{
    if lines.len() == 0 {
        Seq::empty()
    } else {
        outline(lines.drop_last()) + marks_of(lines.last())
    }
}

impl RegistryView {
    /// The outline that the declaration of the type at `idx` asks for, at
    /// `path`: the key of a plain type; for a compound type, member by
    /// member in the order of declaration, the head of a section for each
    /// member that is not plain, at the path of that member, and then the
    /// outline of the member's type.
    pub open spec fn type_outline(self, idx: int, path: Seq<Seq<char>>) -> Seq<Mark>
        decreases idx, 3int, 0int,
    {
        if 0 <= idx < self.types.len() {
            match self.types[idx].documentable {
                DocumentableView::Plain(_) => seq![Mark::Key(path.last())],
                DocumentableView::Compound(e) => match e.body {
                    BodyView::Fields(fs) => self.fields_outline(idx, fs, path),
                    BodyView::Sections(ss) => self.sections_outline(idx, ss, path),
                },
            }
        } else {
            Seq::empty()
        }
    }

    /// The outline of the variants of an externally tagged enum: for each
    /// variant the head of its section, at the path that ends in the name of
    /// the variant, then the outline of its fields.
    pub open spec fn sections_outline(
        self,
        bound: int,
        ss: Seq<SectionEmitterView>,
        path: Seq<Seq<char>>,
    ) -> Seq<Mark>
        decreases bound, 2int, ss.len(),
    {
        if ss.len() == 0 {
            Seq::empty()
        } else {
            let here = path.push(ss[0].name);
            seq![Mark::Section(here)] + self.fields_outline(bound, ss[0].fields, here)
                + self.sections_outline(bound, ss.drop_first(), path)
        }
    }

    /// The outline of fields, in the order of declaration.
    pub open spec fn fields_outline(
        self,
        bound: int,
        fs: Seq<FieldEmitterView>,
        path: Seq<Seq<char>>,
    ) -> Seq<Mark>
        decreases bound, 1int, fs.len(),
    {
        if fs.len() == 0 {
            Seq::empty()
        } else {
            self.fields_outline(bound, fs.drop_last(), path) + self.field_outline(
                bound,
                fs.last(),
                path,
            )
        }
    }

    /// The outline of one field: the head of a section at the path of the
    /// field unless its type is plain, then the outline of its type.
    pub open spec fn field_outline(self, bound: int, f: FieldEmitterView, path: Seq<Seq<char>>)
        -> Seq<Mark>
        decreases bound, 0int, 0int,
    {
        match resolve(self.types, f.referenced_type) {
            Some(target) => if 0 <= target < bound {
                let head = if self.plain(target) {
                    Seq::empty()
                } else {
                    seq![Mark::Section(path.push(f.name))]
                };
                head + self.type_outline(target, path.push(f.name))
            } else {
                Seq::empty()
            },
            None => Seq::empty(),
        }
    }
}

/// The outline of two runs of lines is the outline of the first, then that
/// of the second.
pub proof fn lemma_outline_concat(a: Seq<LineView>, b: Seq<LineView>)
    ensures
        outline(a + b) == outline(a) + outline(b),
    decreases b.len(),
{
    if b.len() == 0 {
        assert(a + b == a);
        assert(outline(a) + outline(b) == outline(a));
    } else {
        assert((a + b).drop_last() == a + b.drop_last());
        assert((a + b).last() == b.last());
        lemma_outline_concat(a, b.drop_last());
        assert((outline(a) + outline(b.drop_last())) + marks_of(b.last()) == outline(a) + (
            outline(b.drop_last()) + marks_of(b.last())));
    }
}

/// Comments leave no mark.
pub proof fn lemma_outline_comments(comments: Seq<Seq<char>>)
    ensures
        outline(comment_lines(comments)) == Seq::<Mark>::empty(),
    decreases comments.len(),
{
    if comments.len() > 0 {
        assert(comment_lines(comments).drop_last() == comment_lines(comments.drop_last()));
        lemma_outline_comments(comments.drop_last());
        assert(outline(comment_lines(comments)) == Seq::<Mark>::empty() + Seq::<Mark>::empty());
    }
}

proof fn lemma_outline_single(line: LineView)
    ensures
        outline(seq![line]) == marks_of(line),
{
    reveal_with_fuel(outline, 2);
    assert(seq![line].drop_last() == Seq::<LineView>::empty());
    assert(Seq::<Mark>::empty() + marks_of(line) == marks_of(line));
}

proof fn lemma_outline_pair(first: LineView, second: LineView)
    ensures
        outline(seq![first, second]) == marks_of(first) + marks_of(second),
{
    let both = seq![first, second];
    assert(both.drop_last() == seq![first]);
    lemma_outline_single(first);
}

/// The outline of the document of a type is the outline that its
/// declaration asks for, whatever instance the document is written for: one
/// section head for each member that is not plain, at the path of that
/// member, and every head and key in the order of declaration.
pub proof fn lemma_document_outline(
    reg: RegistryView,
    idx: int,
    path: Seq<Seq<char>>,
    inst: Option<ValueView>,
)
    ensures
        outline(reg.type_document(idx, path, inst)) == reg.type_outline(idx, path),
    decreases idx, 3int, 0int,
{
    if 0 <= idx < reg.types.len() {
        match reg.types[idx].documentable {
            DocumentableView::Plain(leaf) => {
                let lines = reg.type_document(idx, path, inst);
                lemma_outline_pair(lines[0], lines[1]);
                assert(lines == seq![lines[0], lines[1]]);
                assert(marks_of(lines[0]) + marks_of(lines[1]) == seq![Mark::Key(path.last())]);
            },
            DocumentableView::Compound(e) => {
                lemma_outline_comments(e.comments);
                match e.body {
                    BodyView::Fields(fs) => {
                        lemma_fields_outline(reg, idx, fs, path, inst);
                        lemma_outline_concat(
                            comment_lines(e.comments),
                            reg.fields_document(idx, fs, path, inst),
                        );
                        assert(Seq::<Mark>::empty() + reg.fields_outline(idx, fs, path)
                            == reg.fields_outline(idx, fs, path));
                    },
                    BodyView::Sections(ss) => {
                        lemma_sections_outline(reg, idx, ss, path, inst);
                        lemma_outline_concat(
                            comment_lines(e.comments),
                            reg.sections_document(idx, ss, path, inst),
                        );
                        assert(Seq::<Mark>::empty() + reg.sections_outline(idx, ss, path)
                            == reg.sections_outline(idx, ss, path));
                    },
                }
            },
        }
    }
}

/// The outline of the sections of an externally tagged enum: one section
/// head for each variant, in the order of declaration, each at the path that
/// ends in the name of its variant and followed by the outline of the fields
/// of the variant.
pub proof fn lemma_sections_outline(
    reg: RegistryView,
    bound: int,
    ss: Seq<SectionEmitterView>,
    path: Seq<Seq<char>>,
    inst: Option<ValueView>,
)
    ensures
        outline(reg.sections_document(bound, ss, path, inst)) == reg.sections_outline(
            bound,
            ss,
            path,
        ),
    decreases bound, 2int, ss.len(),
{
    if ss.len() > 0 {
        let s = ss[0];
        let here = path.push(s.name);
        let given = crate::registry::supplied(inst, s.name);
        let comments = comment_lines(s.comments);
        let heads = seq![
            LineView::Comment(crate::registry::only_one_text()),
            LineView::Section(here),
        ];
        let fields = reg.fields_document(bound, s.fields, here, given);
        let rest = reg.sections_document(bound, ss.drop_first(), path, inst);
        lemma_outline_comments(s.comments);
        lemma_outline_pair(heads[0], heads[1]);
        lemma_fields_outline(reg, bound, s.fields, here, given);
        lemma_sections_outline(reg, bound, ss.drop_first(), path, inst);
        lemma_outline_concat(comments, heads);
        lemma_outline_concat(comments + heads, fields);
        lemma_outline_concat(comments + heads + fields, rest);
        assert(heads == seq![heads[0], heads[1]]);
        assert(marks_of(heads[0]) + marks_of(heads[1]) == seq![Mark::Section(here)]);
        assert(outline(comments + heads) == seq![Mark::Section(here)]);
        let block = reg.section_document(bound, s, here, inst);
        assert(block == comments + heads + fields);
        assert(reg.sections_document(bound, ss, path, inst) == block + rest);
        assert(outline(block + rest) == seq![Mark::Section(here)] + reg.fields_outline(
            bound,
            s.fields,
            here,
        ) + reg.sections_outline(bound, ss.drop_first(), path));
    }
}

/// The outline of the lines of fields is the outline of each field in turn.
pub proof fn lemma_fields_outline(
    reg: RegistryView,
    bound: int,
    fs: Seq<FieldEmitterView>,
    path: Seq<Seq<char>>,
    inst: Option<ValueView>,
)
    ensures
        outline(reg.fields_document(bound, fs, path, inst)) == reg.fields_outline(
            bound,
            fs,
            path,
        ),
    decreases bound, 1int, fs.len(),
{
    if fs.len() > 0 {
        lemma_fields_outline(reg, bound, fs.drop_last(), path, inst);
        lemma_field_outline(reg, bound, fs.last(), path, inst);
        lemma_outline_concat(
            reg.fields_document(bound, fs.drop_last(), path, inst),
            reg.field_document(bound, fs.last(), path, inst),
        );
    }
}

/// The outline of the lines of one field: one section head at the path of
/// the field if its type is not plain, and none if it is plain; then the
/// outline of the type.
pub proof fn lemma_field_outline(
    reg: RegistryView,
    bound: int,
    f: FieldEmitterView,
    path: Seq<Seq<char>>,
    inst: Option<ValueView>,
)
    ensures
        outline(reg.field_document(bound, f, path, inst)) == reg.field_outline(bound, f, path),
    decreases bound, 0int, 0int,
{
    lemma_outline_comments(f.comments);
    let comments = comment_lines(f.comments);
    match resolve(reg.types, f.referenced_type) {
        Some(target) => {
            if 0 <= target < bound {
                let here = path.push(f.name);
                let head = reg.header(target, here);
                let body = reg.type_document(target, here, reg.member_instance(f, inst));
                lemma_document_outline(reg, target, here, reg.member_instance(f, inst));
                lemma_outline_concat(head, body);
                lemma_outline_concat(comments, head + body);
                if !reg.plain(target) {
                    lemma_outline_single(LineView::Section(here));
                }
                assert(Seq::<Mark>::empty() + outline(head + body) == outline(head + body));
            } else {
                assert(comments + Seq::<LineView>::empty() == comments);
            }
        },
        None => {
            assert(comments + Seq::<LineView>::empty() == comments);
        },
    }
}

} // verus!
