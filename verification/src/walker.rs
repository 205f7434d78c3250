//! Generation: from the shape of a type to its emitter.

use crate::doc::{get_doc, normalized};
use crate::emitter::{
    Body, BodyView, Emitter, EmitterView, FieldEmitter, FieldEmitterView, SectionEmitter,
    SectionEmitterView,
};
use crate::error::{diagnostics, report_errors, GenError, Site};
use crate::shape::{
    views, Member, MemberName, MemberView, Shape, ShapeView, TagStrategy, TagStrategyView,
    TypeRef, TypeShape, TypeShapeView, Variant, VariantView,
};
use crate::text::{index_of, lemma_index_found, lemma_index_of, lemma_texts_push, texts};
use vstd::prelude::*;
use vstd::string::*;

verus! {

/// What is wrong with one member.
pub open spec fn member_errors(m: MemberView, site: Site) -> Seq<GenError> {
    let unnamed = if m.name is None {
        seq![GenError::UnnamedMember(site)]
    } else {
        Seq::empty()
    };
    let unresolvable = if m.referenced_type is None {
        seq![GenError::UnresolvableType(site)]
    } else {
        Seq::empty()
    };
    unnamed + unresolvable
}

/// What is wrong with the members of a struct or of one variant, in the order
/// of their declaration.
pub open spec fn members_errors(ms: Seq<MemberView>, variant: Option<usize>) -> Seq<GenError>
    decreases ms.len(),
{
    if ms.len() == 0 {
        Seq::empty()
    } else {
        members_errors(ms.drop_last(), variant) + member_errors(
            ms.last(),
            Site { variant, member: (ms.len() - 1) as usize },
        )
    }
}

/// What is wrong with the members of the variants of an enum.
pub open spec fn variants_errors(vs: Seq<VariantView>) -> Seq<GenError>
    decreases vs.len(),
{
    if vs.len() == 0 {
        Seq::empty()
    } else {
        variants_errors(vs.drop_last()) + members_errors(
            vs.last().fields,
            Some((vs.len() - 1) as usize),
        )
    }
}

/// Everything that is wrong with a type: its generic parameters first, then
/// its members.
pub open spec fn shape_errors(t: TypeShapeView) -> Seq<GenError> {
    let generic = if t.generic_params > 0 {
        seq![GenError::UnsupportedShape]
    } else {
        Seq::empty()
    };
    generic + match t.shape {
        ShapeView::Struct(ms) => members_errors(ms, None),
        ShapeView::Enum(vs, _) => variants_errors(vs),
    }
}

/// No line, or the one line of a note.
pub open spec fn note_lines(note: Option<Seq<char>>) -> Seq<Seq<char>> {
    match note {
        Some(text) => seq![text],
        None => Seq::empty(),
    }
}

/// The emitter of a sound member: its normalised documentation, then the note.
pub open spec fn field_of(m: MemberView, note: Option<Seq<char>>) -> FieldEmitterView {
    FieldEmitterView {
        name: match m.name {
            Some(name) => name,
            None => Seq::empty(),
        },
        referenced_type: match m.referenced_type {
            Some(name) => name,
            None => Seq::empty(),
        },
        comments: normalized(m.raw_doc) + note_lines(note),
        default_policy: m.default_policy,
    }
}

/// The emitters of sound members, in the order of their declaration.
pub open spec fn fields_of(ms: Seq<MemberView>, note: Option<Seq<char>>) -> Seq<
    FieldEmitterView,
> {
    Seq::new(ms.len(), |i: int| field_of(ms[i], note))
}

/// The characters of an optional text.
pub open spec fn text_of(note: Option<&str>) -> Option<Seq<char>> {
    match note {
        Some(text) => Some(text@),
        None => None,
    }
}

proof fn lemma_views_push<T: View>(v: Seq<T>, x: T)
    ensures
        views(v.push(x)) == views(v).push(x@),
{
    assert(views(v.push(x)) =~= views(v).push(x@));
}

/// Generates the emitters of the members of a struct or of one variant, each
/// with `note` as its last comment where there is one. Fails if any member
/// has no name or a type that cannot be named, with all such defects.
pub fn expand_members(members: &Vec<Member>, variant: Option<usize>, note: Option<&str>) -> (r:
    Result<Vec<FieldEmitter>, Vec<GenError>>)
    ensures
        match r {
            Ok(fields) => {
                &&& members_errors(views(members@), variant).len() == 0
                &&& views(fields@) == fields_of(views(members@), text_of(note))
            },
            Err(errors) => {
                &&& errors@.len() > 0
                &&& errors@ == members_errors(views(members@), variant)
            },
        },
{
    let mut fields: Vec<FieldEmitter> = Vec::new();
    let mut errors: Vec<GenError> = Vec::new();
    let ghost ms = views(members@);
    let ghost all = fields_of(ms, text_of(note));
    let mut i: usize = 0;
    assert(ms.take(0) == Seq::<MemberView>::empty());
    assert(all.take(0) == views(fields@));
    while i < members.len()
        invariant
            i <= members.len(),
            ms == views(members@),
            all == fields_of(ms, text_of(note)),
            errors@ == members_errors(ms.take(i as int), variant),
            errors@.len() == 0 ==> views(fields@) == all.take(i as int),
        decreases members.len() - i,
    {
        let member = &members[i];
        let site = Site { variant, member: i };
        proof {
            assert(ms.take(i + 1).drop_last() == ms.take(i as int));
            assert(ms.take(i + 1).last() == member@);
        }
        match (&member.name, &member.referenced_type) {
            (MemberName::Named(name), TypeRef::Path(referenced)) => {
                if errors.len() == 0 {
                    let mut comments = get_doc(&member.raw_doc);
                    let ghost doc = texts(comments@);
                    match note {
                        Some(text) => {
                            let line = text.to_owned();
                            proof {
                                lemma_texts_push(comments@, line);
                                assert(doc.push(line@) == doc + seq![line@]);
                            }
                            comments.push(line);
                        },
                        None => {
                            assert(doc == doc + Seq::<Seq<char>>::empty());
                        },
                    }
                    let field = FieldEmitter {
                        name: name.clone(),
                        referenced_type: referenced.clone(),
                        comments,
                        default_policy: member.default_policy.duplicate(),
                    };
                    proof {
                        lemma_views_push(fields@, field);
                        assert(field@ == field_of(member@, text_of(note)));
                        assert(all.take(i + 1) == all.take(i as int).push(field@));
                    }
                    fields.push(field);
                }
            },
            (MemberName::Positional, TypeRef::Path(_)) => {
                errors.push(GenError::UnnamedMember(site));
            },
            (MemberName::Named(_), TypeRef::Other) => {
                errors.push(GenError::UnresolvableType(site));
            },
            (MemberName::Positional, TypeRef::Other) => {
                errors.push(GenError::UnnamedMember(site));
                errors.push(GenError::UnresolvableType(site));
            },
        }
        i += 1;
    }
    assert(ms.take(members.len() as int) == ms);
    assert(all.take(members.len() as int) == all);
    if errors.len() == 0 {
        Ok(fields)
    } else {
        Err(errors)
    }
}

/// The comment that says for which variant a field counts.
pub open spec fn condition(tag: Seq<char>, discriminant: Seq<char>, nested: bool) -> Seq<char> {
    let head = "only meaningful if "@ + tag + " == \""@ + discriminant + "\""@;
    if nested {
        head + " in the upper level"@
    } else {
        head
    }
}

/// The note on the fields of a variant: its condition where the enum has a
/// tag, nothing where it has none.
pub open spec fn variant_note(tag: Option<Seq<char>>, discriminant: Seq<char>, nested: bool)
    -> Option<Seq<char>> {
    match tag {
        Some(name) => Some(condition(name, discriminant, nested)),
        None => None,
    }
}

/// The emitters of the fields of all variants, in the order of declaration,
/// before fields of one name are taken together.
pub open spec fn declared_fields(vs: Seq<VariantView>, tag: Option<Seq<char>>, nested: bool)
    -> Seq<FieldEmitterView>
    decreases vs.len(),
{
    if vs.len() == 0 {
        Seq::empty()
    } else {
        declared_fields(vs.drop_last(), tag, nested) + fields_of(
            vs.last().fields,
            variant_note(tag, vs.last().discriminant_name, nested),
        )
    }
}

/// The names of fields, one for one.
pub open spec fn field_names(fields: Seq<FieldEmitterView>) -> Seq<Seq<char>> {
    Seq::new(fields.len(), |i: int| fields[i].name)
}

/// The first place in `fields` with the name `name`, if there is one.
pub open spec fn position(fields: Seq<FieldEmitterView>, name: Seq<char>) -> Option<int> {
    index_of(field_names(fields), name)
}

/// `fields` with `field` taken in: it replaces the field of its name, where
/// there is one, and else comes last.
pub open spec fn merged(fields: Seq<FieldEmitterView>, field: FieldEmitterView) -> Seq<
    FieldEmitterView,
> {
    match position(fields, field.name) {
        Some(k) => fields.update(k, field),
        None => fields.push(field),
    }
}

/// `base` with each field of `extra` taken in, in order.
pub open spec fn merged_all(base: Seq<FieldEmitterView>, extra: Seq<FieldEmitterView>) -> Seq<
    FieldEmitterView,
>
    decreases extra.len(),
{
    if extra.len() == 0 {
        base
    } else {
        merged(merged_all(base, extra.drop_last()), extra.last())
    }
}

/// The fields of all variants as one list in which each name occurs once: a
/// field stands where its name was first declared, and is as its name was
/// last declared. It is a list and no hash map, so that the fields come in
/// an order that the declaration fixes.
pub open spec fn union(declared: Seq<FieldEmitterView>) -> Seq<FieldEmitterView> {
    merged_all(Seq::empty(), declared)
}

/// The name of the tag field of an enum, where it has one.
pub open spec fn tag_name(tag: TagStrategyView) -> Option<Seq<char>> {
    match tag {
        TagStrategyView::InternalTag(name) => Some(name),
        TagStrategyView::AdjacentTag(name, _) => Some(name),
        TagStrategyView::Untagged => None,
        TagStrategyView::ExternalTag => None,
    }
}

/// The emitter of one variant of an externally tagged enum.
pub open spec fn section_of(v: VariantView) -> SectionEmitterView {
    SectionEmitterView {
        name: v.name,
        comments: normalized(v.raw_doc),
        fields: fields_of(v.fields, None),
    }
}

/// The emitters of the variants of an externally tagged enum.
pub open spec fn sections_of(vs: Seq<VariantView>) -> Seq<SectionEmitterView> {
    Seq::new(vs.len(), |i: int| section_of(vs[i]))
}

/// What follows the comments of a sound type.
pub open spec fn body_of(shape: ShapeView) -> BodyView {
    match shape {
        ShapeView::Struct(ms) => BodyView::Fields(fields_of(ms, None)),
        ShapeView::Enum(vs, tag) => match tag {
            TagStrategyView::ExternalTag => BodyView::Sections(sections_of(vs)),
            _ => BodyView::Fields(
                union(declared_fields(vs, tag_name(tag), tag is AdjacentTag)),
            ),
        },
    }
}

/// The emitter of a sound type.
pub open spec fn emitter_of(t: TypeShapeView) -> EmitterView {
    EmitterView { comments: normalized(t.raw_doc), body: body_of(t.shape) }
}

/// What generation gives for a type: its emitter if nothing is wrong with the
/// type, and else everything that is wrong with it.
pub open spec fn expanded(t: TypeShapeView) -> Result<EmitterView, Seq<GenError>> {
    if shape_errors(t).len() == 0 {
        Ok(emitter_of(t))
    } else {
        Err(shape_errors(t))
    }
}

proof fn lemma_merged_all_concat(
    base: Seq<FieldEmitterView>,
    a: Seq<FieldEmitterView>,
    b: Seq<FieldEmitterView>,
)
    ensures
        merged_all(base, a + b) == merged_all(merged_all(base, a), b),
    decreases b.len(),
{
    if b.len() == 0 {
        assert(a + b == a);
    } else {
        assert((a + b).drop_last() == a + b.drop_last());
        assert((a + b).last() == b.last());
        lemma_merged_all_concat(base, a, b.drop_last());
    }
}

/// Writes the condition under which the fields of a variant count.
fn condition_text(tag: &str, discriminant: &str, nested: bool) -> (text: String)
    ensures
        text@ == condition(tag@, discriminant@, nested),
{
    let mut text = String::from_str("only meaningful if ");
    text.append(tag);
    text.append(" == \"");
    text.append(discriminant);
    text.append("\"");
    if nested {
        text.append(" in the upper level");
    }
    text
}

/// Takes `field` into `out`, in the place of the field of its name if there
/// is one.
fn merge_field(out: &mut Vec<FieldEmitter>, field: FieldEmitter)
    ensures
        views(final(out)@) == merged(views(old(out)@), field@),
{
    let ghost before = views(out@);
    let ghost names = field_names(before);
    let mut k: usize = 0;
    while k < out.len()
        invariant
            k <= out.len(),
            before == views(out@),
            before == views(old(out)@),
            names == field_names(before),
            forall|j: int| 0 <= j < k ==> #[trigger] names[j] != field@.name,
        decreases out.len() - k,
    {
        if out[k].name == field.name {
            proof {
                lemma_index_found(names, field@.name, k as int);
            }
            out.set(k, field);
            assert(views(out@) == before.update(k as int, field@));
            return ;
        }
        k += 1;
    }
    proof {
        lemma_views_push(out@, field);
        lemma_index_of(names, field@.name);
    }
    out.push(field);
}

/// Takes each of `fields` into `out`, in order.
fn merge_fields(out: &mut Vec<FieldEmitter>, fields: Vec<FieldEmitter>)
    ensures
        views(final(out)@) == merged_all(views(old(out)@), views(fields@)),
{
    let mut rest = fields;
    let ghost base = views(out@);
    let ghost all = views(rest@);
    let ghost mut done: int = 0;
    assert(all.take(0) == Seq::<FieldEmitterView>::empty());
    assert(all.skip(0) == all);
    while rest.len() > 0
        invariant
            0 <= done <= all.len(),
            views(rest@) == all.skip(done),
            views(out@) == merged_all(base, all.take(done)),
        decreases rest.len(),
    {
        let ghost shown = views(rest@);
        assert(shown.len() == all.len() - done);
        let field = rest.remove(0);
        proof {
            assert(field@ == shown[0]);
            assert(views(rest@) == shown.remove(0));
            assert(shown.remove(0) == all.skip(done + 1));
            assert(all.take(done + 1).drop_last() == all.take(done));
            assert(all.take(done + 1).last() == field@);
            done = done + 1;
        }
        merge_field(out, field);
    }
    assert(all.take(done) == all);
}

/// Generates the emitters of the fields of an enum whose variants are not
/// sections of their own. Fields of one name, in whichever variants, are one
/// field. Each field says, where the enum has a tag, for which value of the
/// tag it counts; `nested` adds that the tag stands one level up.
pub fn expand_untagged_enum(variants: &Vec<Variant>, tag: Option<&str>, nested: bool) -> (r:
    Result<Vec<FieldEmitter>, Vec<GenError>>)
    ensures
        match r {
            Ok(fields) => {
                &&& variants_errors(views(variants@)).len() == 0
                &&& views(fields@) == union(
                    declared_fields(views(variants@), text_of(tag), nested),
                )
            },
            Err(errors) => {
                &&& errors@.len() > 0
                &&& errors@ == variants_errors(views(variants@))
            },
        },
{
    let mut out: Vec<FieldEmitter> = Vec::new();
    let mut errors: Vec<GenError> = Vec::new();
    let ghost vs = views(variants@);
    let mut i: usize = 0;
    assert(vs.take(0) == Seq::<VariantView>::empty());
    assert(views(out@) == Seq::<FieldEmitterView>::empty());
    while i < variants.len()
        invariant
            i <= variants.len(),
            vs == views(variants@),
            errors@ == variants_errors(vs.take(i as int)),
            errors@.len() == 0 ==> views(out@) == union(
                declared_fields(vs.take(i as int), text_of(tag), nested),
            ),
        decreases variants.len() - i,
    {
        let variant = &variants[i];
        proof {
            assert(vs.take(i + 1).drop_last() == vs.take(i as int));
            assert(vs.take(i + 1).last() == variant@);
        }
        let note: Option<String> = match tag {
            Some(name) => Some(condition_text(name, variant.discriminant_name.as_str(), nested)),
            None => None,
        };
        let note_text: Option<&str> = match &note {
            Some(text) => Some(text.as_str()),
            None => None,
        };
        assert(text_of(note_text) == variant_note(
            text_of(tag),
            variant@.discriminant_name,
            nested,
        ));
        match expand_members(&variant.fields, Some(i), note_text) {
            Ok(fields) => {
                if errors.len() == 0 {
                    proof {
                        lemma_merged_all_concat(
                            Seq::empty(),
                            declared_fields(vs.take(i as int), text_of(tag), nested),
                            views(fields@),
                        );
                    }
                    merge_fields(&mut out, fields);
                }
            },
            Err(found) => {
                let mut found = found;
                errors.append(&mut found);
            },
        }
        i += 1;
    }
    assert(vs.take(variants.len() as int) == vs);
    if errors.len() == 0 {
        Ok(out)
    } else {
        Err(errors)
    }
}

/// Generates the emitters of the variants of an externally tagged enum: each
/// variant with its normalised documentation and the emitters of its fields.
pub fn expand_sections(variants: &Vec<Variant>) -> (r: Result<
    Vec<SectionEmitter>,
    Vec<GenError>,
>)
    ensures
        match r {
            Ok(sections) => {
                &&& variants_errors(views(variants@)).len() == 0
                &&& views(sections@) == sections_of(views(variants@))
            },
            Err(errors) => {
                &&& errors@.len() > 0
                &&& errors@ == variants_errors(views(variants@))
            },
        },
{
    let mut out: Vec<SectionEmitter> = Vec::new();
    let mut errors: Vec<GenError> = Vec::new();
    let ghost vs = views(variants@);
    let ghost all = sections_of(vs);
    let mut i: usize = 0;
    assert(vs.take(0) == Seq::<VariantView>::empty());
    assert(views(out@) == all.take(0));
    while i < variants.len()
        invariant
            i <= variants.len(),
            vs == views(variants@),
            all == sections_of(vs),
            errors@ == variants_errors(vs.take(i as int)),
            errors@.len() == 0 ==> views(out@) == all.take(i as int),
        decreases variants.len() - i,
    {
        let variant = &variants[i];
        proof {
            assert(vs.take(i + 1).drop_last() == vs.take(i as int));
            assert(vs.take(i + 1).last() == variant@);
        }
        match expand_members(&variant.fields, Some(i), None) {
            Ok(fields) => {
                if errors.len() == 0 {
                    let section = SectionEmitter {
                        name: variant.name.clone(),
                        comments: get_doc(&variant.raw_doc),
                        fields,
                    };
                    proof {
                        lemma_views_push(out@, section);
                        assert(section@ == section_of(variant@));
                        assert(all.take(i + 1) == all.take(i as int).push(section@));
                    }
                    out.push(section);
                }
            },
            Err(found) => {
                let mut found = found;
                errors.append(&mut found);
            },
        }
        i += 1;
    }
    assert(vs.take(variants.len() as int) == vs);
    assert(all.take(variants.len() as int) == all);
    if errors.len() == 0 {
        Ok(out)
    } else {
        Err(errors)
    }
}

/// Generates the emitter of a type. A struct gives its fields in the order
/// of their declaration. An externally tagged enum gives one section for each
/// variant; any other enum gives the fields of all its variants as one list.
/// Fails, with everything that is wrong, if the type has generic parameters,
/// or any member has no name or a type that cannot be named.
pub fn expand(input: &TypeShape) -> (r: Result<Emitter, Vec<GenError>>)
    ensures
        match r {
            Ok(emitter) => expanded(input@) == Ok::<EmitterView, Seq<GenError>>(emitter@),
            Err(errors) => expanded(input@) == Err::<EmitterView, Seq<GenError>>(errors@),
        },
{
    let mut errors: Vec<GenError> = Vec::new();
    if input.generic_params > 0 {
        errors.push(GenError::UnsupportedShape);
    }
    let body = match &input.shape {
        Shape::Struct(members) => match expand_members(members, None, None) {
            Ok(fields) => Ok(Body::Fields(fields)),
            Err(found) => Err(found),
        },
        Shape::Enum(variants, tag) => match tag {
            TagStrategy::ExternalTag => match expand_sections(variants) {
                Ok(sections) => Ok(Body::Sections(sections)),
                Err(found) => Err(found),
            },
            TagStrategy::Untagged => match expand_untagged_enum(variants, None, false) {
                Ok(fields) => Ok(Body::Fields(fields)),
                Err(found) => Err(found),
            },
            TagStrategy::InternalTag(name) => match expand_untagged_enum(
                variants,
                Some(name.as_str()),
                false,
            ) {
                Ok(fields) => Ok(Body::Fields(fields)),
                Err(found) => Err(found),
            },
            TagStrategy::AdjacentTag(name, _) => match expand_untagged_enum(
                variants,
                Some(name.as_str()),
                true,
            ) {
                Ok(fields) => Ok(Body::Fields(fields)),
                Err(found) => Err(found),
            },
        },
    };
    match body {
        Ok(body) => {
            if errors.len() == 0 {
                Ok(Emitter { comments: get_doc(&input.raw_doc), body })
            } else {
                Err(errors)
            }
        },
        Err(found) => {
            let mut found = found;
            errors.append(&mut found);
            Err(errors)
        },
    }
}

/// A type with a generic parameter is refused, and the first error says so:
/// no emitter is generated for it.
pub proof fn lemma_generic_type_is_refused(t: TypeShapeView)
    requires
        t.generic_params > 0,
    ensures
        expanded(t) is Err,
        expanded(t)->Err_0[0] == GenError::UnsupportedShape,
{
}

/// A type is refused if and only if something is wrong with it, and then
/// every defect is reported.
pub proof fn lemma_refused_with_every_defect(t: TypeShapeView)
    ensures
        expanded(t) is Err <==> shape_errors(t).len() > 0,
        expanded(t) is Err ==> expanded(t)->Err_0 == shape_errors(t),
{
}

/// The fields of a struct are in the emitter in the order of their
/// declaration, each under its own name.
pub proof fn lemma_struct_fields_in_declaration_order(t: TypeShapeView)
    requires
        t.shape is Struct,
        shape_errors(t).len() == 0,
    ensures
        expanded(t) is Ok,
        expanded(t)->Ok_0.body is Fields,
        expanded(t)->Ok_0.body->Fields_0.len() == t.shape->Struct_0.len(),
        forall|i: int|
            0 <= i < t.shape->Struct_0.len() ==> (#[trigger] expanded(
                t,
            )->Ok_0.body->Fields_0[i]) == field_of(t.shape->Struct_0[i], None),
{
}

/// An externally tagged enum gives one section for each variant, in the
/// order of declaration, under the name of the variant.
pub proof fn lemma_external_tag_gives_a_section_per_variant(t: TypeShapeView)
    requires
        t.shape matches ShapeView::Enum(_, tag) && tag is ExternalTag,
        shape_errors(t).len() == 0,
    ensures
        expanded(t) is Ok,
        expanded(t)->Ok_0.body is Sections,
        expanded(t)->Ok_0.body->Sections_0.len() == t.shape->Enum_0.len(),
        forall|i: int|
            0 <= i < t.shape->Enum_0.len() ==> (#[trigger] expanded(
                t,
            )->Ok_0.body->Sections_0[i]) == section_of(t.shape->Enum_0[i]),
{
}

/// Whether the field at `i` is the last one of its name in `declared`.
pub open spec fn last_declared(declared: Seq<FieldEmitterView>, i: int) -> bool {
    &&& 0 <= i < declared.len()
    &&& forall|j: int| i < j < declared.len() ==> (#[trigger] declared[j]).name != declared[i].name
}

/// Whether no two fields have the same name.
pub open spec fn distinct_names(fields: Seq<FieldEmitterView>) -> bool {
    forall|a: int, b: int|
        0 <= a < b < fields.len() ==> (#[trigger] fields[a]).name != (#[trigger] fields[b]).name
}

/// Whether a field of `fields` has the name `name`.
pub open spec fn has_name(fields: Seq<FieldEmitterView>, name: Seq<char>) -> bool {
    exists|k: int| 0 <= k < fields.len() && (#[trigger] fields[k]).name == name
}

/// Whether `field` is the field at `i` of `declared`, and the last one of
/// its name there.
pub open spec fn stands_for(field: FieldEmitterView, declared: Seq<FieldEmitterView>, i: int)
    -> bool {
    last_declared(declared, i) && field == declared[i]
}

/// Whether `field` is, in `declared`, the last field of its name.
pub open spec fn is_last_declaration(field: FieldEmitterView, declared: Seq<FieldEmitterView>)
    -> bool {
    exists|i: int| stands_for(field, declared, i)
}

proof fn lemma_position(fields: Seq<FieldEmitterView>, name: Seq<char>)
    ensures
        match position(fields, name) {
            Some(k) => 0 <= k < fields.len() && fields[k].name == name,
            None => forall|j: int| 0 <= j < fields.len() ==> (#[trigger] fields[j]).name != name,
        },
{
    let names = field_names(fields);
    lemma_index_of(names, name);
    if position(fields, name) is None {
        assert forall|j: int| 0 <= j < fields.len() implies (#[trigger] fields[j]).name
            != name by {
            assert(names[j] != name);
        }
    }
}

/// Taking the fields of all variants together keeps each name once: no two
/// fields of the result have the same name, every declared name is in the
/// result, and each field of the result is the last declared field of its
/// name.
pub proof fn lemma_union_keeps_each_name_once(declared: Seq<FieldEmitterView>)
    ensures
        distinct_names(union(declared)),
        forall|i: int|
            0 <= i < declared.len() ==> has_name(union(declared), (#[trigger] declared[i]).name),
        forall|k: int|
            0 <= k < union(declared).len() ==> is_last_declaration(
                (#[trigger] union(declared)[k]),
                declared,
            ),
        forall|k: int|
            0 <= k < union(declared).len() ==> has_name(
                declared,
                (#[trigger] union(declared)[k]).name,
            ),
    decreases declared.len(),
{
    if declared.len() > 0 {
        let front = declared.drop_last();
        let f = declared.last();
        let u = union(front);
        let all = union(declared);
        lemma_union_keeps_each_name_once(front);
        lemma_position(u, f.name);
        assert(all == merged(u, f));
        let last = declared.len() - 1;
        assert(last_declared(declared, last));
        assert(stands_for(f, declared, last));
        match position(u, f.name) {
            Some(p) => {
                assert(all == u.update(p, f));
                assert forall|a: int, b: int| 0 <= a < b < all.len() implies (#[trigger] all[a]).name
                    != (#[trigger] all[b]).name by {
                    assert(all[a].name == u[a].name);
                    assert(all[b].name == u[b].name);
                }
                assert forall|k: int| 0 <= k < all.len() implies is_last_declaration(
                    (#[trigger] all[k]),
                    declared,
                ) by {
                    if k == p {
                        assert(stands_for(all[k], declared, last));
                    } else {
                        assert(is_last_declaration(u[k], front));
                        let i = choose|i: int| stands_for(u[k], front, i);
                        assert(u[k].name != u[p].name);
                        assert(front[i] == declared[i]);
                        assert forall|j: int| i < j < declared.len() implies (
                        #[trigger] declared[j]).name != declared[i].name by {
                            if j < last {
                                assert(front[j] == declared[j]);
                            }
                        }
                        assert(stands_for(all[k], declared, i));
                    }
                }
            },
            None => {
                assert(all == u.push(f));
                assert forall|a: int, b: int| 0 <= a < b < all.len() implies (#[trigger] all[a]).name
                    != (#[trigger] all[b]).name by {
                    if b < u.len() {
                        assert(all[a] == u[a]);
                        assert(all[b] == u[b]);
                    } else {
                        assert(all[a] == u[a]);
                    }
                }
                assert forall|k: int| 0 <= k < all.len() implies is_last_declaration(
                    (#[trigger] all[k]),
                    declared,
                ) by {
                    if k == u.len() {
                        assert(stands_for(all[k], declared, last));
                    } else {
                        assert(is_last_declaration(u[k], front));
                        let i = choose|i: int| stands_for(u[k], front, i);
                        assert(u[k].name != f.name);
                        assert(front[i] == declared[i]);
                        assert forall|j: int| i < j < declared.len() implies (
                        #[trigger] declared[j]).name != declared[i].name by {
                            if j < last {
                                assert(front[j] == declared[j]);
                            }
                        }
                        assert(stands_for(all[k], declared, i));
                    }
                }
            },
        }
        assert forall|i: int| 0 <= i < declared.len() implies has_name(
            all,
            (#[trigger] declared[i]).name,
        ) by {
            if i < last {
                assert(front[i] == declared[i]);
                assert(has_name(u, front[i].name));
                let k = choose|k: int| 0 <= k < u.len() && (#[trigger] u[k]).name == front[i].name;
                assert(all[k].name == u[k].name);
            } else {
                match position(u, f.name) {
                    Some(p) => {
                        assert(all[p].name == f.name);
                    },
                    None => {
                        assert(all[u.len() as int].name == f.name);
                    },
                }
            }
        }
        assert forall|k: int| 0 <= k < all.len() implies has_name(
            declared,
            (#[trigger] all[k]).name,
        ) by {
            assert(is_last_declaration(all[k], declared));
            let i = choose|i: int| stands_for(all[k], declared, i);
            assert(declared[i].name == all[k].name);
        }
    }
}

/// Whether `field` is the emitter of the member at `mi` of the variant at
/// `vi`, with the note of that variant.
pub open spec fn declares(
    vs: Seq<VariantView>,
    tag: Option<Seq<char>>,
    nested: bool,
    vi: int,
    mi: int,
    field: FieldEmitterView,
) -> bool {
    &&& 0 <= vi < vs.len()
    &&& 0 <= mi < vs[vi].fields.len()
    &&& field == field_of(vs[vi].fields[mi], variant_note(tag, vs[vi].discriminant_name, nested))
}

/// Whether `field` is the emitter of a member of a variant, with the note
/// of that variant.
pub open spec fn comes_from_variant(
    vs: Seq<VariantView>,
    tag: Option<Seq<char>>,
    nested: bool,
    field: FieldEmitterView,
) -> bool {
    exists|vi: int, mi: int| declares(vs, tag, nested, vi, mi, field)
}

/// Whether the last comment of `field` is the condition that names `tag`
/// and the discriminant of a variant that declares the field.
pub open spec fn names_its_variant(
    vs: Seq<VariantView>,
    tag: Seq<char>,
    nested: bool,
    field: FieldEmitterView,
) -> bool {
    exists|vi: int, mi: int|
        {
            &&& #[trigger] declares(vs, Some(tag), nested, vi, mi, field)
            &&& field.comments.last() == condition(tag, vs[vi].discriminant_name, nested)
        }
}

/// Whether the comments of `field` are the normalised documentation of a
/// member that declares it, and nothing more.
pub open spec fn has_only_its_documentation(
    vs: Seq<VariantView>,
    nested: bool,
    field: FieldEmitterView,
) -> bool {
    exists|vi: int, mi: int|
        {
            &&& #[trigger] declares(vs, None, nested, vi, mi, field)
            &&& field.comments == normalized(vs[vi].fields[mi].raw_doc)
        }
}

/// Every declared field is the emitter of a member of a variant, with the
/// note of that variant.
pub proof fn lemma_declared_fields_come_from_variants(
    vs: Seq<VariantView>,
    tag: Option<Seq<char>>,
    nested: bool,
)
    ensures
        forall|i: int|
            0 <= i < declared_fields(vs, tag, nested).len() ==> comes_from_variant(
                vs,
                tag,
                nested,
                (#[trigger] declared_fields(vs, tag, nested)[i]),
            ),
    decreases vs.len(),
{
    if vs.len() > 0 {
        let front = vs.drop_last();
        let first = declared_fields(front, tag, nested);
        let all = declared_fields(vs, tag, nested);
        lemma_declared_fields_come_from_variants(front, tag, nested);
        assert forall|i: int| 0 <= i < all.len() implies comes_from_variant(
            vs,
            tag,
            nested,
            (#[trigger] all[i]),
        ) by {
            if i < first.len() {
                assert(all[i] == first[i]);
                assert(comes_from_variant(front, tag, nested, first[i]));
                let (vi, mi) = choose|vi: int, mi: int|
                    declares(front, tag, nested, vi, mi, first[i]);
                assert(front[vi] == vs[vi]);
                assert(declares(vs, tag, nested, vi, mi, all[i]));
            } else {
                assert(declares(vs, tag, nested, vs.len() - 1, i - first.len(), all[i]));
            }
        }
    }
}

/// In an enum with a tag that is not externally tagged, the last comment of
/// every field is the condition that names the tag and the discriminant of
/// a variant that declares the field: of the last variant that does.
pub proof fn lemma_tagged_fields_name_their_variant(
    vs: Seq<VariantView>,
    tag: Seq<char>,
    nested: bool,
)
    ensures
        forall|k: int|
            0 <= k < union(declared_fields(vs, Some(tag), nested)).len() ==> {
                &&& names_its_variant(
                    vs,
                    tag,
                    nested,
                    (#[trigger] union(declared_fields(vs, Some(tag), nested))[k]),
                )
                &&& is_last_declaration(
                    union(declared_fields(vs, Some(tag), nested))[k],
                    declared_fields(vs, Some(tag), nested),
                )
            },
{
    let declared = declared_fields(vs, Some(tag), nested);
    let all = union(declared);
    lemma_union_keeps_each_name_once(declared);
    lemma_declared_fields_come_from_variants(vs, Some(tag), nested);
    assert forall|k: int| 0 <= k < all.len() implies names_its_variant(
        vs,
        tag,
        nested,
        (#[trigger] all[k]),
    ) by {
        assert(is_last_declaration(all[k], declared));
        let i = choose|i: int| stands_for(all[k], declared, i);
        assert(comes_from_variant(vs, Some(tag), nested, declared[i]));
        let (vi, mi) = choose|vi: int, mi: int|
            declares(vs, Some(tag), nested, vi, mi, declared[i]);
        assert(declares(vs, Some(tag), nested, vi, mi, all[k]));
    }
}

/// In an enum without a tag, no condition is added: the comments of every
/// field are the normalised documentation of a member that declares it.
pub proof fn lemma_untagged_fields_have_no_condition(vs: Seq<VariantView>, nested: bool)
    ensures
        forall|k: int|
            0 <= k < union(declared_fields(vs, None, nested)).len() ==> has_only_its_documentation(
                vs,
                nested,
                (#[trigger] union(declared_fields(vs, None, nested))[k]),
            ),
{
    let declared = declared_fields(vs, None, nested);
    let all = union(declared);
    lemma_union_keeps_each_name_once(declared);
    lemma_declared_fields_come_from_variants(vs, None, nested);
    assert forall|k: int| 0 <= k < all.len() implies has_only_its_documentation(
        vs,
        nested,
        (#[trigger] all[k]),
    ) by {
        assert(is_last_declaration(all[k], declared));
        let i = choose|i: int| stands_for(all[k], declared, i);
        assert(comes_from_variant(vs, None, nested, declared[i]));
        let (vi, mi) = choose|vi: int, mi: int| declares(vs, None, nested, vi, mi, declared[i]);
        assert(declares(vs, None, nested, vi, mi, all[k]));
        assert(normalized(vs[vi].fields[mi].raw_doc) + Seq::<Seq<char>>::empty() == normalized(
            vs[vi].fields[mi].raw_doc,
        ));
    }
}

/// Generates the emitter of a type, or else the diagnostics of everything
/// that is wrong with the type.
pub fn derive_docconfig(item: &TypeShape) -> (r: Result<Emitter, Vec<String>>)
    ensures
        match r {
            Ok(emitter) => expanded(item@) == Ok::<EmitterView, Seq<GenError>>(emitter@),
            Err(report) => {
                &&& expanded(item@) is Err
                &&& texts(report@) == diagnostics(expanded(item@)->Err_0)
            },
        },
{
    match expand(item) {
        Ok(emitter) => Ok(emitter),
        Err(errors) => Err(report_errors(&errors)),
    }
}

} // verus!
