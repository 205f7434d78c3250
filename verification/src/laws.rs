//! What holds of the document of every registered type.

use crate::emitter::{BodyView, FieldEmitterView, SectionEmitterView};
use crate::leaf::leaf_lines;
use crate::line::{comment_lines, LineView};
use crate::registry::{
    default_known, fields_defaults_known, fields_resolve, only_one_text, resolve, scalar_of,
    supplied, type_names, DocumentableView, RegistryView,
};
use crate::text::lemma_index_of;
use crate::shape::DefaultPolicyView;
use crate::value::{entry, ValueView};
use vstd::prelude::*;

verus! {

/// Whether the type of `f` is the registered type at `target`, one of the
/// first `bound` types.
pub open spec fn field_targets(reg: RegistryView, bound: int, f: FieldEmitterView, target: int)
    -> bool {
    &&& resolve(reg.types, f.referenced_type) == Some(target)
    &&& 0 <= target < bound
    &&& bound <= reg.types.len()
}

/// Whether `f` is a field of the compound type at `idx`, in its body or in
/// one of its sections.
pub open spec fn is_field_of(reg: RegistryView, idx: int, f: FieldEmitterView) -> bool {
    &&& 0 <= idx < reg.types.len()
    &&& match reg.types[idx].documentable {
        DocumentableView::Plain(_) => false,
        DocumentableView::Compound(e) => match e.body {
            BodyView::Fields(fs) => fs.contains(f),
            BodyView::Sections(ss) => exists|k: int|
                0 <= k < ss.len() && (#[trigger] ss[k]).fields.contains(f),
        },
    }
}

/// In a well-formed registry the type of every field of a registered type
/// was registered before that type, and the default that the field asks for
/// was supplied.
pub proof fn lemma_registered_field_is_resolved(reg: RegistryView, idx: int, f: FieldEmitterView)
    requires
        reg.wf(),
        is_field_of(reg, idx, f),
    ensures
        exists|target: int| field_targets(reg, idx, f, target),
        default_known(reg.defaults, reg.producers, f),
{
    let e = reg.types[idx].documentable->Compound_0;
    let fs = match e.body {
        BodyView::Fields(fs) => fs,
        BodyView::Sections(ss) => {
            let k = choose|k: int| 0 <= k < ss.len() && (#[trigger] ss[k]).fields.contains(f);
            assert(fields_resolve(reg.types, ss[k].fields, idx));
            assert(fields_defaults_known(reg.defaults, reg.producers, ss[k].fields));
            ss[k].fields
        },
    };
    assert(fs.contains(f));
    let i = choose|i: int| 0 <= i < fs.len() && fs[i] == f;
    assert(fs[i] == f);
    assert(resolve(reg.types, fs[i].referenced_type) is Some);
    let target = resolve(reg.types, f.referenced_type)->0;
    lemma_index_of(type_names(reg.types), f.referenced_type);
    assert(field_targets(reg, idx, f, target));
}

/// In a well-formed registry a field that has a default is never written
/// without a value: where the instance holds none for it, the default value
/// of its type or the value of its producer is there.
pub proof fn lemma_default_is_never_missing(
    reg: RegistryView,
    idx: int,
    f: FieldEmitterView,
    inst: Option<ValueView>,
)
    requires
        reg.wf(),
        is_field_of(reg, idx, f),
        !(f.default_policy is NoDefault),
    ensures
        reg.member_instance(f, inst) is Some,
{
    lemma_registered_field_is_resolved(reg, idx, f);
}

/// The document of a plain type is two lines: the comment that names the
/// kind of value, and the value or its placeholder under the last segment
/// of the path. None of them is the head of a section.
pub proof fn lemma_plain_type_writes_no_section(
    reg: RegistryView,
    idx: int,
    path: Seq<Seq<char>>,
    inst: Option<ValueView>,
)
    requires
        0 <= idx < reg.types.len(),
        reg.plain(idx),
    ensures
        reg.type_document(idx, path, inst) == leaf_lines(
            reg.types[idx].documentable->Plain_0,
            path.last(),
            scalar_of(inst),
        ),
        reg.type_document(idx, path, inst).len() == 2,
        forall|i: int|
            0 <= i < 2 ==> !((#[trigger] reg.type_document(idx, path, inst)[i]) is Section),
{
}

/// The lines of a field are its comments, then the head of one section at
/// the path of the field if the type of the field is compound, and no such
/// head if that type is plain, then the document of that type, written at
/// the path of the field.
pub proof fn lemma_field_starts_one_section(
    reg: RegistryView,
    bound: int,
    f: FieldEmitterView,
    target: int,
    path: Seq<Seq<char>>,
    inst: Option<ValueView>,
)
    requires
        field_targets(reg, bound, f, target),
    ensures
        reg.field_document(bound, f, path, inst) == comment_lines(f.comments) + (if reg.plain(
            target,
        ) {
            Seq::<LineView>::empty()
        } else {
            seq![LineView::Section(path.push(f.name))]
        }) + reg.type_document(target, path.push(f.name), reg.member_instance(f, inst)),
{
    let head = reg.header(target, path.push(f.name));
    let body = reg.type_document(target, path.push(f.name), reg.member_instance(f, inst));
    assert(comment_lines(f.comments) + (head + body) == comment_lines(f.comments) + head + body);
}

/// The lines of fields follow each other in the order of the fields: the
/// lines of a run of fields are the lines of its first part, then the lines
/// of the rest.
pub proof fn lemma_fields_keep_their_order(
    reg: RegistryView,
    bound: int,
    first: Seq<FieldEmitterView>,
    rest: Seq<FieldEmitterView>,
    path: Seq<Seq<char>>,
    inst: Option<ValueView>,
)
    ensures
        reg.fields_document(bound, first + rest, path, inst) == reg.fields_document(
            bound,
            first,
            path,
            inst,
        ) + reg.fields_document(bound, rest, path, inst),
    decreases rest.len(),
{
    let a = reg.fields_document(bound, first, path, inst);
    if rest.len() == 0 {
        assert(first + rest == first);
        assert(a + Seq::<LineView>::empty() == a);
    } else {
        let b = reg.fields_document(bound, rest.drop_last(), path, inst);
        let c = reg.field_document(bound, rest.last(), path, inst);
        assert((first + rest).drop_last() == first + rest.drop_last());
        assert((first + rest).last() == rest.last());
        lemma_fields_keep_their_order(reg, bound, first, rest.drop_last(), path, inst);
        assert((a + b) + c == a + (b + c));
    }
}

/// Where the instance holds a value for a field, the field is written with
/// that value, whatever its default policy.
pub proof fn lemma_instance_value_wins(
    reg: RegistryView,
    f: FieldEmitterView,
    inst: Option<ValueView>,
)
    requires
        supplied(inst, f.name) is Some,
    ensures
        reg.member_instance(f, inst) == supplied(inst, f.name),
{
}

/// Where no instance holds a value for a field, the default policy of the
/// field decides: no value without a default, the default value of the
/// field's type, or the value of the named producer.
pub proof fn lemma_default_policy_decides(
    reg: RegistryView,
    f: FieldEmitterView,
    inst: Option<ValueView>,
)
    requires
        supplied(inst, f.name) is None,
    ensures
        reg.member_instance(f, inst) == (match f.default_policy {
            DefaultPolicyView::NoDefault => None,
            DefaultPolicyView::TypeDefault => entry(reg.defaults, f.referenced_type),
            DefaultPolicyView::CustomDefault(producer) => entry(reg.producers, producer),
        }),
{
}

/// The lines of a field of a plain type: its comments, the comment of the
/// type, and one line under the name of the field, with the text of the
/// value that the field is written with, or a placeholder where there is
/// none.
pub proof fn lemma_plain_field_lines(
    reg: RegistryView,
    bound: int,
    f: FieldEmitterView,
    target: int,
    path: Seq<Seq<char>>,
    inst: Option<ValueView>,
)
    requires
        field_targets(reg, bound, f, target),
        reg.plain(target),
    ensures
        reg.field_document(bound, f, path, inst) == comment_lines(f.comments) + leaf_lines(
            reg.types[target].documentable->Plain_0,
            f.name,
            scalar_of(reg.member_instance(f, inst)),
        ),
{
    let here = path.push(f.name);
    assert(here.last() == f.name);
    let body = reg.type_document(target, here, reg.member_instance(f, inst));
    assert(Seq::<LineView>::empty() + body == body);
}

/// The value line of a field of a plain type shows the value that the
/// instance holds for the field, not a default.
pub proof fn lemma_supplied_value_is_shown(
    reg: RegistryView,
    bound: int,
    f: FieldEmitterView,
    target: int,
    path: Seq<Seq<char>>,
    inst: Option<ValueView>,
    text: Seq<char>,
)
    requires
        field_targets(reg, bound, f, target),
        reg.plain(target),
        supplied(inst, f.name) == Some(ValueView::Scalar(text)),
    ensures
        reg.field_document(bound, f, path, inst).last() == (LineView::Value {
            key: f.name,
            text,
            quoted: reg.types[target].documentable->Plain_0.quoted,
        }),
{
    lemma_plain_field_lines(reg, bound, f, target, path, inst);
}

/// Without a value from an instance, a field of a plain type that has no
/// default is shown as a placeholder.
pub proof fn lemma_no_default_is_a_placeholder(
    reg: RegistryView,
    bound: int,
    f: FieldEmitterView,
    target: int,
    path: Seq<Seq<char>>,
    inst: Option<ValueView>,
)
    requires
        field_targets(reg, bound, f, target),
        reg.plain(target),
        supplied(inst, f.name) is None,
        f.default_policy is NoDefault,
    ensures
        reg.field_document(bound, f, path, inst).last() == LineView::Placeholder(f.name),
{
    lemma_plain_field_lines(reg, bound, f, target, path, inst);
}

/// Without a value from an instance, a field of a plain type with the type's
/// default shows the default value of its type.
pub proof fn lemma_type_default_is_shown(
    reg: RegistryView,
    bound: int,
    f: FieldEmitterView,
    target: int,
    path: Seq<Seq<char>>,
    inst: Option<ValueView>,
    text: Seq<char>,
)
    requires
        field_targets(reg, bound, f, target),
        reg.plain(target),
        supplied(inst, f.name) is None,
        f.default_policy is TypeDefault,
        entry(reg.defaults, f.referenced_type) == Some(ValueView::Scalar(text)),
    ensures
        reg.field_document(bound, f, path, inst).last() == (LineView::Value {
            key: f.name,
            text,
            quoted: reg.types[target].documentable->Plain_0.quoted,
        }),
{
    lemma_plain_field_lines(reg, bound, f, target, path, inst);
}

/// Without a value from an instance, a field of a plain type with a custom
/// default shows the value of the producer that the field names.
pub proof fn lemma_custom_default_is_shown(
    reg: RegistryView,
    bound: int,
    f: FieldEmitterView,
    target: int,
    path: Seq<Seq<char>>,
    inst: Option<ValueView>,
    text: Seq<char>,
)
    requires
        field_targets(reg, bound, f, target),
        reg.plain(target),
        supplied(inst, f.name) is None,
        f.default_policy matches DefaultPolicyView::CustomDefault(producer) && entry(
            reg.producers,
            producer,
        ) == Some(ValueView::Scalar(text)),
    ensures
        reg.field_document(bound, f, path, inst).last() == (LineView::Value {
            key: f.name,
            text,
            quoted: reg.types[target].documentable->Plain_0.quoted,
        }),
{
    lemma_plain_field_lines(reg, bound, f, target, path, inst);
}

/// The section of a variant starts with the comments of the variant; then
/// come the comment that only one variant can be set and the head of the
/// section, at the path that ends in the name of the variant; then the
/// fields of the variant, written for what the instance holds under the
/// name of the variant.
pub proof fn lemma_variant_section_lines(
    reg: RegistryView,
    bound: int,
    s: SectionEmitterView,
    path: Seq<Seq<char>>,
    inst: Option<ValueView>,
)
    ensures
        reg.sections_document(bound, seq![s], path, inst) == comment_lines(s.comments) + seq![
            LineView::Comment(only_one_text()),
            LineView::Section(path.push(s.name)),
        ] + reg.fields_document(bound, s.fields, path.push(s.name), supplied(inst, s.name)),
{
    let here = path.push(s.name);
    let block = reg.section_document(bound, s, here, inst);
    assert(seq![s].drop_first() == Seq::<SectionEmitterView>::empty());
    assert(reg.sections_document(bound, seq![s].drop_first(), path, inst) == Seq::<
        LineView,
    >::empty());
    assert(block + Seq::<LineView>::empty() == block);
}

/// The sections of variants follow each other in the order of the variants,
/// and each is written at the path of the enum with the name of its own
/// variant: the lines of a run of variants are the lines of its first part,
/// then the lines of the rest, both at the same path.
pub proof fn lemma_sections_keep_their_order(
    reg: RegistryView,
    bound: int,
    first: Seq<SectionEmitterView>,
    rest: Seq<SectionEmitterView>,
    path: Seq<Seq<char>>,
    inst: Option<ValueView>,
)
    ensures
        reg.sections_document(bound, first + rest, path, inst) == reg.sections_document(
            bound,
            first,
            path,
            inst,
        ) + reg.sections_document(bound, rest, path, inst),
    decreases first.len(),
{
    let b = reg.sections_document(bound, rest, path, inst);
    if first.len() == 0 {
        assert(first + rest == rest);
        assert(Seq::<LineView>::empty() + b == b);
    } else {
        let head = reg.section_document(bound, first[0], path.push(first[0].name), inst);
        let a = reg.sections_document(bound, first.drop_first(), path, inst);
        assert((first + rest)[0] == first[0]);
        assert((first + rest).drop_first() == first.drop_first() + rest);
        lemma_sections_keep_their_order(reg, bound, first.drop_first(), rest, path, inst);
        assert(head + (a + b) == (head + a) + b);
    }
}

/// The section of the variant at `i` is written at the path of the enum
/// with the name of that variant, whatever variants stand before it.
pub proof fn lemma_section_at_the_path_of_its_variant(
    reg: RegistryView,
    bound: int,
    ss: Seq<SectionEmitterView>,
    i: int,
    path: Seq<Seq<char>>,
    inst: Option<ValueView>,
)
    requires
        0 <= i < ss.len(),
    ensures
        reg.sections_document(bound, ss, path, inst) == reg.sections_document(
            bound,
            ss.take(i),
            path,
            inst,
        ) + comment_lines(ss[i].comments) + seq![
            LineView::Comment(only_one_text()),
            LineView::Section(path.push(ss[i].name)),
        ] + reg.fields_document(
            bound,
            ss[i].fields,
            path.push(ss[i].name),
            supplied(inst, ss[i].name),
        ) + reg.sections_document(bound, ss.skip(i + 1), path, inst),
{
    let before = ss.take(i);
    let one = seq![ss[i]];
    let after = ss.skip(i + 1);
    assert(ss == before + (one + after));
    lemma_sections_keep_their_order(reg, bound, before, one + after, path, inst);
    lemma_sections_keep_their_order(reg, bound, one, after, path, inst);
    lemma_variant_section_lines(reg, bound, ss[i], path, inst);
    let a = reg.sections_document(bound, before, path, inst);
    let b = reg.sections_document(bound, one, path, inst);
    let c = reg.sections_document(bound, after, path, inst);
    let comments = comment_lines(ss[i].comments);
    let heads = seq![
        LineView::Comment(only_one_text()),
        LineView::Section(path.push(ss[i].name)),
    ];
    let fields = reg.fields_document(
        bound,
        ss[i].fields,
        path.push(ss[i].name),
        supplied(inst, ss[i].name),
    );
    assert(a + (b + c) == a + comments + heads + fields + c);
}

} // verus!
