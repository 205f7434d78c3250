//! Documentables: the types that can document themselves, and the documents
//! that they write.

use crate::emitter::{
    Body, BodyView, Emitter, EmitterView, FieldEmitter, FieldEmitterView, SectionEmitter,
    SectionEmitterView,
};
use crate::error::{GenError, Site};
use crate::leaf::{leaf_lines, string_of, Leaf, LeafView};
use crate::line::{comment_lines, write_comments, Line, LineView};
use crate::shape::{views, DefaultPolicy, DefaultPolicyView};
use crate::text::{
    copy_texts, index_of, lemma_index_found, lemma_index_of, lemma_index_stable,
    lemma_texts_push, texts,
};
use crate::value::{
    entry, lemma_entry_stable, lookup, named_values, value_of, Value, ValueView,
};
use vstd::prelude::*;
use vstd::string::*;

verus! {

/// How a type documents itself.
#[derive(Debug, PartialEq, Eq)]
pub enum Documentable {
    /// A plain type: a value fits on one line.
    Plain(Leaf),
    /// A compound type: a value has fields or variants of its own.
    Compound(Emitter),
}

/// The view of `Documentable`: the same value over sequences of characters.
pub enum DocumentableView {
    Plain(LeafView),
    Compound(EmitterView),
}

impl View for Documentable {
    type V = DocumentableView;

    open spec fn view(&self) -> DocumentableView {
        match self {
            Documentable::Plain(leaf) => DocumentableView::Plain(leaf@),
            Documentable::Compound(emitter) => DocumentableView::Compound(emitter@),
        }
    }
}

/// A type that can be the type of a field: its name and how it documents
/// itself.
#[derive(Debug, PartialEq, Eq)]
pub struct TypeEntry {
    pub name: String,
    pub documentable: Documentable,
}

/// The view of `TypeEntry`: the same value over sequences of characters.
pub struct TypeEntryView {
    pub name: Seq<char>,
    pub documentable: DocumentableView,
}

impl View for TypeEntry {
    type V = TypeEntryView;

    open spec fn view(&self) -> TypeEntryView {
        TypeEntryView { name: self.name@, documentable: self.documentable@ }
    }
}

/// The types that can be the type of a field, in the order in which they
/// were registered, the default values of the types that have one, and the
/// values of the producers of custom defaults.
pub struct Registry {
    types: Vec<TypeEntry>,
    defaults: Vec<(String, Value)>,
    producers: Vec<(String, Value)>,
}

/// The view of `Registry`: the same value over sequences of characters.
pub struct RegistryView {
    pub types: Seq<TypeEntryView>,
    /// The default values of types, each under the name of its type.
    pub defaults: Seq<(Seq<char>, ValueView)>,
    /// The values of producers, each under the name of its producer.
    pub producers: Seq<(Seq<char>, ValueView)>,
}

/// The names of types, one for one.
pub open spec fn type_names(types: Seq<TypeEntryView>) -> Seq<Seq<char>> {
    Seq::new(types.len(), |i: int| types[i].name)
}

/// The place of the type with the name `name`: the first one, if there is any.
pub open spec fn resolve(types: Seq<TypeEntryView>, name: Seq<char>) -> Option<int> {
    index_of(type_names(types), name)
}

/// Whether the type of each field is one of the first `bound` types.
pub open spec fn fields_resolve(types: Seq<TypeEntryView>, fs: Seq<FieldEmitterView>, bound: int)
    -> bool {
    forall|i: int|
        0 <= i < fs.len() ==> {
            &&& resolve(types, (#[trigger] fs[i]).referenced_type) is Some
            &&& resolve(types, fs[i].referenced_type)->0 < bound
        }
}

/// Whether the type of each field of each section is one of the first
/// `bound` types.
pub open spec fn sections_resolve(
    types: Seq<TypeEntryView>,
    ss: Seq<SectionEmitterView>,
    bound: int,
) -> bool {
    forall|i: int| 0 <= i < ss.len() ==> fields_resolve(types, (#[trigger] ss[i]).fields, bound)
}

/// Whether the type of each field of a body is one of the first `bound`
/// types.
pub open spec fn body_resolves(types: Seq<TypeEntryView>, body: BodyView, bound: int) -> bool {
    match body {
        BodyView::Fields(fs) => fields_resolve(types, fs, bound),
        BodyView::Sections(ss) => sections_resolve(types, ss, bound),
    }
}

/// Whether the default that a field asks for was supplied: the default
/// value of its type, or the value of the producer that it names.
pub open spec fn default_known(
    defaults: Seq<(Seq<char>, ValueView)>,
    producers: Seq<(Seq<char>, ValueView)>,
    f: FieldEmitterView,
) -> bool {
    match f.default_policy {
        DefaultPolicyView::NoDefault => true,
        DefaultPolicyView::TypeDefault => entry(defaults, f.referenced_type) is Some,
        DefaultPolicyView::CustomDefault(producer) => entry(producers, producer) is Some,
    }
}

/// Whether the default that each field asks for was supplied.
pub open spec fn fields_defaults_known(
    defaults: Seq<(Seq<char>, ValueView)>,
    producers: Seq<(Seq<char>, ValueView)>,
    fs: Seq<FieldEmitterView>,
) -> bool {
    forall|i: int| 0 <= i < fs.len() ==> default_known(defaults, producers, #[trigger] fs[i])
}

/// Whether the default that each field of each section asks for was
/// supplied.
pub open spec fn sections_defaults_known(
    defaults: Seq<(Seq<char>, ValueView)>,
    producers: Seq<(Seq<char>, ValueView)>,
    ss: Seq<SectionEmitterView>,
) -> bool {
    forall|i: int|
        0 <= i < ss.len() ==> fields_defaults_known(defaults, producers, (#[trigger] ss[i]).fields)
}

/// Whether the default that each field of a body asks for was supplied.
pub open spec fn body_defaults_known(
    defaults: Seq<(Seq<char>, ValueView)>,
    producers: Seq<(Seq<char>, ValueView)>,
    body: BodyView,
) -> bool {
    match body {
        BodyView::Fields(fs) => fields_defaults_known(defaults, producers, fs),
        BodyView::Sections(ss) => sections_defaults_known(defaults, producers, ss),
    }
}

/// What keeps one field from being registered: a type that is not
/// registered, and a default that was not supplied.
pub open spec fn field_defects(reg: RegistryView, f: FieldEmitterView, site: Site) -> Seq<
    GenError,
> {
    let unresolved = if resolve(reg.types, f.referenced_type) is None {
        seq![GenError::UnresolvableType(site)]
    } else {
        Seq::empty()
    };
    let unknown = if default_known(reg.defaults, reg.producers, f) {
        Seq::empty()
    } else {
        seq![GenError::UnresolvableDefault(site)]
    };
    unresolved + unknown
}

/// What keeps fields from being registered, in the order of the fields.
pub open spec fn unresolved_fields(
    reg: RegistryView,
    fs: Seq<FieldEmitterView>,
    variant: Option<usize>,
) -> Seq<GenError>
    decreases fs.len(),
{
    if fs.len() == 0 {
        Seq::empty()
    } else {
        unresolved_fields(reg, fs.drop_last(), variant) + field_defects(
            reg,
            fs.last(),
            Site { variant, member: (fs.len() - 1) as usize },
        )
    }
}

/// What keeps the fields of sections from being registered.
pub open spec fn unresolved_sections(reg: RegistryView, ss: Seq<SectionEmitterView>) -> Seq<
    GenError,
>
    decreases ss.len(),
{
    if ss.len() == 0 {
        Seq::empty()
    } else {
        unresolved_sections(reg, ss.drop_last()) + unresolved_fields(
            reg,
            ss.last().fields,
            Some((ss.len() - 1) as usize),
        )
    }
}

/// What keeps a body from being registered.
pub open spec fn unresolved(reg: RegistryView, body: BodyView) -> Seq<GenError> {
    match body {
        BodyView::Fields(fs) => unresolved_fields(reg, fs, None),
        BodyView::Sections(ss) => unresolved_sections(reg, ss),
    }
}

/// Whether a type can be registered: a plain type always, a compound type
/// if the type of each of its fields is registered and the default that
/// each of its fields asks for was supplied.
pub open spec fn registrable(reg: RegistryView, documentable: DocumentableView) -> bool {
    match documentable {
        DocumentableView::Plain(_) => true,
        DocumentableView::Compound(e) => unresolved(reg, e.body).len() == 0,
    }
}

/// The text of the comment above the section of a variant.
pub open spec fn only_one_text() -> Seq<char> {
    "one and only one of the following can be set"@
}

/// The value of a field of an instance, where there is an instance and it
/// has the field.
pub open spec fn supplied(inst: Option<ValueView>, name: Seq<char>) -> Option<ValueView> {
    match inst {
        Some(v) => v.field(name),
        None => None,
    }
}

/// The text of a value, where there is a value and it has a text.
pub open spec fn scalar_of(inst: Option<ValueView>) -> Option<Seq<char>> {
    match inst {
        Some(v) => v.scalar(),
        None => None,
    }
}

impl RegistryView {
    /// A registry is well formed if every field of every compound type has a
    /// type that was registered before that compound type, and the default
    /// that it asks for was supplied.
    pub open spec fn wf(self) -> bool {
        forall|i: int|
            0 <= i < self.types.len() ==> match (#[trigger] self.types[i]).documentable {
                DocumentableView::Plain(_) => true,
                DocumentableView::Compound(e) => {
                    &&& body_resolves(self.types, e.body, i)
                    &&& body_defaults_known(self.defaults, self.producers, e.body)
                },
            }
    }

    /// This registry with one more type.
    pub open spec fn with_type(self, added: TypeEntryView) -> RegistryView {
        RegistryView { types: self.types.push(added), ..self }
    }

    /// This registry with one more default value of a type.
    pub open spec fn with_default(self, name: Seq<char>, value: ValueView) -> RegistryView {
        RegistryView { defaults: self.defaults.push((name, value)), ..self }
    }

    /// This registry with one more producer.
    pub open spec fn with_producer(self, name: Seq<char>, value: ValueView) -> RegistryView {
        RegistryView { producers: self.producers.push((name, value)), ..self }
    }

    /// Whether the type `name` can be written at a path of the given length:
    /// it is registered, and a plain type has a key to be written under.
    pub open spec fn writable(self, name: Seq<char>, depth: nat) -> bool {
        match resolve(self.types, name) {
            Some(k) => self.plain(k) ==> depth > 0,
            None => false,
        }
    }

    /// Whether the type at `idx` is plain.
    pub open spec fn plain(self, idx: int) -> bool {
        self.types[idx].documentable is Plain
    }

    /// The value that a field is written with: the value that the instance
    /// has for it, where there is one, and else what the default policy of
    /// the field gives: no value, the default value of the field's type, or
    /// the value of the producer that the field names.
    pub open spec fn member_instance(self, field: FieldEmitterView, inst: Option<ValueView>)
        -> Option<ValueView> {
        match supplied(inst, field.name) {
            Some(v) => Some(v),
            None => match field.default_policy {
                DefaultPolicyView::NoDefault => None,
                DefaultPolicyView::TypeDefault => entry(self.defaults, field.referenced_type),
                DefaultPolicyView::CustomDefault(producer) => entry(self.producers, producer),
            },
        }
    }

    /// The head of the section at `path`, if the type at `target` is compound.
    pub open spec fn header(self, target: int, path: Seq<Seq<char>>) -> Seq<LineView> {
        if self.plain(target) {
            Seq::empty()
        } else {
            seq![LineView::Section(path)]
        }
    }

    /// The document of the type at `idx`, written at `path` for `inst`.
    pub open spec fn type_document(
        self,
        idx: int,
        path: Seq<Seq<char>>,
        inst: Option<ValueView>,
    ) -> Seq<LineView>
        decreases idx, 3int, 0int,
    {
        if 0 <= idx < self.types.len() {
            match self.types[idx].documentable {
                DocumentableView::Plain(leaf) => leaf_lines(leaf, path.last(), scalar_of(inst)),
                DocumentableView::Compound(e) => comment_lines(e.comments) + match e.body {
                    BodyView::Fields(fs) => self.fields_document(idx, fs, path, inst),
                    BodyView::Sections(ss) => self.sections_document(idx, ss, path, inst),
                },
            }
        } else {
            Seq::empty()
        }
    }

    /// The lines of the variants of an externally tagged enum, one section
    /// after the other, each at the path that ends in the name of its
    /// variant.
    pub open spec fn sections_document(
        self,
        bound: int,
        ss: Seq<SectionEmitterView>,
        path: Seq<Seq<char>>,
        inst: Option<ValueView>,
    ) -> Seq<LineView>
        decreases bound, 2int, ss.len(),
    {
        if ss.len() == 0 {
            Seq::empty()
        } else {
            self.section_document(bound, ss[0], path.push(ss[0].name), inst)
                + self.sections_document(bound, ss.drop_first(), path, inst)
        }
    }

    /// The lines of one variant, whose section is at `here`: its comments,
    /// the comment that only one variant can be set, the head of the
    /// section, and the fields of the variant.
    pub open spec fn section_document(
        self,
        bound: int,
        s: SectionEmitterView,
        here: Seq<Seq<char>>,
        inst: Option<ValueView>,
    ) -> Seq<LineView>
        decreases bound, 1int, s.fields.len() + 1,
    {
        comment_lines(s.comments) + seq![
            LineView::Comment(only_one_text()),
            LineView::Section(here),
        ] + self.fields_document(bound, s.fields, here, supplied(inst, s.name))
    }

    /// The lines of fields, in order.
    pub open spec fn fields_document(
        self,
        bound: int,
        fs: Seq<FieldEmitterView>,
        path: Seq<Seq<char>>,
        inst: Option<ValueView>,
    ) -> Seq<LineView>
        decreases bound, 1int, fs.len(),
    {
        if fs.len() == 0 {
            Seq::empty()
        } else {
            self.fields_document(bound, fs.drop_last(), path, inst) + self.field_document(
                bound,
                fs.last(),
                path,
                inst,
            )
        }
    }

    /// The lines of one field of a value at `path`: its comments, the head
    /// of a section if its type is compound, and the document of its type,
    /// written at the path of the field.
    pub open spec fn field_document(
        self,
        bound: int,
        f: FieldEmitterView,
        path: Seq<Seq<char>>,
        inst: Option<ValueView>,
    ) -> Seq<LineView>
        decreases bound, 0int, 0int,
    {
        comment_lines(f.comments) + match resolve(self.types, f.referenced_type) {
            Some(target) => if 0 <= target < bound {
                self.header(target, path.push(f.name)) + self.type_document(
                    target,
                    path.push(f.name),
                    self.member_instance(f, inst),
                )
            } else {
                Seq::empty()
            },
            None => Seq::empty(),
        }
    }
}

impl View for Registry {
    type V = RegistryView;

    closed spec fn view(&self) -> RegistryView {
        RegistryView {
            types: views(self.types@),
            defaults: named_values(self.defaults@),
            producers: named_values(self.producers@),
        }
    }
}

proof fn lemma_resolve_in_range(types: Seq<TypeEntryView>, name: Seq<char>)
    ensures
        resolve(types, name) matches Some(k) ==> 0 <= k < types.len(),
{
    lemma_index_of(type_names(types), name);
}

/// A name that is registered keeps its place when another type is added.
proof fn lemma_resolve_stable(types: Seq<TypeEntryView>, added: TypeEntryView, name: Seq<char>)
    requires
        resolve(types, name) is Some,
    ensures
        resolve(types.push(added), name) == resolve(types, name),
{
    assert(type_names(types.push(added)) == type_names(types).push(added.name));
    lemma_index_stable(type_names(types), added.name, name);
}

proof fn lemma_fields_resolve_stable(
    types: Seq<TypeEntryView>,
    added: TypeEntryView,
    fs: Seq<FieldEmitterView>,
    bound: int,
)
    requires
        fields_resolve(types, fs, bound),
    ensures
        fields_resolve(types.push(added), fs, bound),
{
    assert forall|i: int| 0 <= i < fs.len() implies {
        &&& resolve(types.push(added), (#[trigger] fs[i]).referenced_type) is Some
        &&& resolve(types.push(added), fs[i].referenced_type)->0 < bound
    } by {
        lemma_resolve_stable(types, added, fs[i].referenced_type);
    }
}

proof fn lemma_body_resolves_stable(
    types: Seq<TypeEntryView>,
    added: TypeEntryView,
    body: BodyView,
    bound: int,
)
    requires
        body_resolves(types, body, bound),
    ensures
        body_resolves(types.push(added), body, bound),
{
    match body {
        BodyView::Fields(fs) => {
            lemma_fields_resolve_stable(types, added, fs, bound);
        },
        BodyView::Sections(ss) => {
            assert forall|i: int| 0 <= i < ss.len() implies fields_resolve(
                types.push(added),
                (#[trigger] ss[i]).fields,
                bound,
            ) by {
                lemma_fields_resolve_stable(types, added, ss[i].fields, bound);
            }
        },
    }
}

proof fn lemma_no_unresolved_fields(
    reg: RegistryView,
    fs: Seq<FieldEmitterView>,
    variant: Option<usize>,
)
    requires
        unresolved_fields(reg, fs, variant).len() == 0,
    ensures
        fields_resolve(reg.types, fs, reg.types.len() as int),
        fields_defaults_known(reg.defaults, reg.producers, fs),
    decreases fs.len(),
{
    if fs.len() > 0 {
        lemma_no_unresolved_fields(reg, fs.drop_last(), variant);
        lemma_resolve_in_range(reg.types, fs.last().referenced_type);
        assert forall|i: int| 0 <= i < fs.len() implies {
            &&& resolve(reg.types, (#[trigger] fs[i]).referenced_type) is Some
            &&& resolve(reg.types, fs[i].referenced_type)->0 < reg.types.len()
            &&& default_known(reg.defaults, reg.producers, fs[i])
        } by {
            if i < fs.len() - 1 {
                assert(fs[i] == fs.drop_last()[i]);
            }
        }
    }
}

proof fn lemma_no_unresolved_sections(reg: RegistryView, ss: Seq<SectionEmitterView>)
    requires
        unresolved_sections(reg, ss).len() == 0,
    ensures
        sections_resolve(reg.types, ss, reg.types.len() as int),
        sections_defaults_known(reg.defaults, reg.producers, ss),
    decreases ss.len(),
{
    if ss.len() > 0 {
        lemma_no_unresolved_sections(reg, ss.drop_last());
        lemma_no_unresolved_fields(reg, ss.last().fields, Some((ss.len() - 1) as usize));
        assert forall|i: int| 0 <= i < ss.len() implies {
            &&& fields_resolve(reg.types, (#[trigger] ss[i]).fields, reg.types.len() as int)
            &&& fields_defaults_known(reg.defaults, reg.producers, ss[i].fields)
        } by {
            if i < ss.len() - 1 {
                assert(ss[i] == ss.drop_last()[i]);
            }
        }
    }
}

/// A well-formed registry stays well formed when a type is added that can be
/// registered.
pub proof fn lemma_wf_with_type(reg: RegistryView, added: TypeEntryView)
    requires
        reg.wf(),
        registrable(reg, added.documentable),
    ensures
        reg.with_type(added).wf(),
{
    let more = reg.with_type(added);
    assert forall|i: int| 0 <= i < more.types.len() implies match (#[trigger] more.types[i]).documentable {
        DocumentableView::Plain(_) => true,
        DocumentableView::Compound(e) => {
            &&& body_resolves(more.types, e.body, i)
            &&& body_defaults_known(more.defaults, more.producers, e.body)
        },
    } by {
        match more.types[i].documentable {
            DocumentableView::Plain(_) => {},
            DocumentableView::Compound(e) => {
                if i < reg.types.len() {
                    assert(more.types[i] == reg.types[i]);
                    lemma_body_resolves_stable(reg.types, added, e.body, i);
                } else {
                    match e.body {
                        BodyView::Fields(fs) => {
                            lemma_no_unresolved_fields(reg, fs, None);
                        },
                        BodyView::Sections(ss) => {
                            lemma_no_unresolved_sections(reg, ss);
                        },
                    }
                    lemma_body_resolves_stable(reg.types, added, e.body, i);
                }
            },
        }
    }
}

proof fn lemma_fields_defaults_stable(
    defaults: Seq<(Seq<char>, ValueView)>,
    producers: Seq<(Seq<char>, ValueView)>,
    more_defaults: Seq<(Seq<char>, ValueView)>,
    more_producers: Seq<(Seq<char>, ValueView)>,
    fs: Seq<FieldEmitterView>,
)
    requires
        fields_defaults_known(defaults, producers, fs),
        forall|name: Seq<char>| #[trigger]
            entry(defaults, name) is Some ==> entry(more_defaults, name) is Some,
        forall|name: Seq<char>| #[trigger]
            entry(producers, name) is Some ==> entry(more_producers, name) is Some,
    ensures
        fields_defaults_known(more_defaults, more_producers, fs),
{
    assert forall|i: int| 0 <= i < fs.len() implies default_known(
        more_defaults,
        more_producers,
        #[trigger] fs[i],
    ) by {
        assert(default_known(defaults, producers, fs[i]));
    }
}

/// A well-formed registry stays well formed when default values or
/// producers are added: what was supplied stays supplied.
proof fn lemma_wf_with_values(reg: RegistryView, more: RegistryView)
    requires
        reg.wf(),
        more.types == reg.types,
        forall|name: Seq<char>| #[trigger]
            entry(reg.defaults, name) is Some ==> entry(more.defaults, name) is Some,
        forall|name: Seq<char>| #[trigger]
            entry(reg.producers, name) is Some ==> entry(more.producers, name) is Some,
    ensures
        more.wf(),
{
    assert forall|i: int| 0 <= i < more.types.len() implies match (#[trigger] more.types[i]).documentable {
        DocumentableView::Plain(_) => true,
        DocumentableView::Compound(e) => {
            &&& body_resolves(more.types, e.body, i)
            &&& body_defaults_known(more.defaults, more.producers, e.body)
        },
    } by {
        match reg.types[i].documentable {
            DocumentableView::Plain(_) => {},
            DocumentableView::Compound(e) => {
                match e.body {
                    BodyView::Fields(fs) => {
                        lemma_fields_defaults_stable(
                            reg.defaults,
                            reg.producers,
                            more.defaults,
                            more.producers,
                            fs,
                        );
                    },
                    BodyView::Sections(ss) => {
                        assert forall|k: int| 0 <= k < ss.len() implies fields_defaults_known(
                            more.defaults,
                            more.producers,
                            (#[trigger] ss[k]).fields,
                        ) by {
                            lemma_fields_defaults_stable(
                                reg.defaults,
                                reg.producers,
                                more.defaults,
                                more.producers,
                                ss[k].fields,
                            );
                        }
                    },
                }
            },
        }
    }
}

proof fn lemma_entries_stay(list: Seq<(Seq<char>, ValueView)>, added: (Seq<char>, ValueView))
    ensures
        forall|name: Seq<char>| #[trigger]
            entry(list, name) is Some ==> entry(list.push(added), name) is Some,
{
    assert forall|name: Seq<char>| #[trigger] entry(list, name) is Some implies entry(
        list.push(added),
        name,
    ) is Some by {
        lemma_entry_stable(list, added, name);
    }
}

/// The string of a scalar.
fn scalar_text(inst: Option<&Value>) -> (text: Option<&String>)
    ensures
        string_of(text) == scalar_of(value_of(inst)),
{
    match inst {
        Some(Value::Scalar(text)) => Some(text),
        _ => None,
    }
}

impl Registry {
    /// Whether every field of every compound type has a type that was
    /// registered before, and the default that it asks for.
    pub open spec fn wf(&self) -> bool {
        self@.wf()
    }

    /// A registry without types and without producers.
    pub fn new() -> (registry: Registry)
        ensures
            registry.wf(),
            registry@.types.len() == 0,
            registry@.defaults.len() == 0,
            registry@.producers.len() == 0,
    {
        Registry { types: Vec::new(), defaults: Vec::new(), producers: Vec::new() }
    }

    /// The place of the type with the given name.
    pub fn find(&self, name: &String) -> (found: Option<usize>)
        ensures
            match found {
                Some(k) => resolve(self@.types, name@) == Some(k as int),
                None => resolve(self@.types, name@) is None,
            },
    {
        let ghost names = type_names(self@.types);
        let mut k: usize = 0;
        while k < self.types.len()
            invariant
                k <= self.types.len(),
                names == type_names(views(self.types@)),
                forall|j: int| 0 <= j < k ==> #[trigger] names[j] != name@,
            decreases self.types.len() - k,
        {
            if self.types[k].name == *name {
                proof {
                    lemma_index_found(names, name@, k as int);
                }
                return Some(k);
            }
            k += 1;
        }
        proof {
            lemma_index_of(names, name@);
        }
        None
    }

    /// The value that a field is written with.
    fn member_value<'a>(&'a self, field: &FieldEmitter, inst: Option<&'a Value>) -> (value:
        Option<&'a Value>)
        ensures
            value_of(value) == self@.member_instance(field@, value_of(inst)),
    {
        let given = match inst {
            Some(v) => v.field(&field.name),
            None => None,
        };
        match given {
            Some(v) => Some(v),
            None => match &field.default_policy {
                DefaultPolicy::NoDefault => None,
                DefaultPolicy::TypeDefault => lookup(&self.defaults, &field.referenced_type),
                DefaultPolicy::CustomDefault(producer) => lookup(&self.producers, producer),
            },
        }
    }

    /// Whether the default that a field asks for was supplied.
    fn knows_default(&self, field: &FieldEmitter) -> (known: bool)
        ensures
            known == default_known(self@.defaults, self@.producers, field@),
    {
        match &field.default_policy {
            DefaultPolicy::NoDefault => true,
            DefaultPolicy::TypeDefault => lookup(&self.defaults, &field.referenced_type).is_some(),
            DefaultPolicy::CustomDefault(producer) => lookup(&self.producers, producer).is_some(),
        }
    }

    /// Finds what keeps fields from being registered.
    fn check_fields(
        &self,
        fields: &Vec<FieldEmitter>,
        variant: Option<usize>,
        errors: &mut Vec<GenError>,
    )
        ensures
            final(errors)@ == old(errors)@ + unresolved_fields(self@, views(fields@), variant),
    {
        let ghost before = errors@;
        let ghost fs = views(fields@);
        let mut i: usize = 0;
        assert(fs.take(0) == Seq::<FieldEmitterView>::empty());
        assert(before + Seq::<GenError>::empty() == before);
        while i < fields.len()
            invariant
                i <= fields.len(),
                fs == views(fields@),
                errors@ == before + unresolved_fields(self@, fs.take(i as int), variant),
            decreases fields.len() - i,
        {
            proof {
                assert(fs.take(i + 1).drop_last() == fs.take(i as int));
                assert(fs.take(i + 1).last() == fields[i as int]@);
            }
            let ghost so_far = unresolved_fields(self@, fs.take(i as int), variant);
            let site = Site { variant, member: i };
            let ghost found = field_defects(self@, fields[i as int]@, site);
            let ghost shown = errors@;
            if self.find(&fields[i].referenced_type).is_none() {
                errors.push(GenError::UnresolvableType(site));
            }
            if !self.knows_default(&fields[i]) {
                errors.push(GenError::UnresolvableDefault(site));
            }
            assert(errors@ == shown + found);
            assert((before + so_far) + found == before + (so_far + found));
            i += 1;
        }
        assert(fs.take(fields.len() as int) == fs);
    }

    /// Finds what keeps the fields of sections from being registered.
    fn check_sections(&self, sections: &Vec<SectionEmitter>, errors: &mut Vec<GenError>)
        ensures
            final(errors)@ == old(errors)@ + unresolved_sections(self@, views(sections@)),
    {
        let ghost before = errors@;
        let ghost ss = views(sections@);
        let mut i: usize = 0;
        assert(ss.take(0) == Seq::<SectionEmitterView>::empty());
        assert(before + Seq::<GenError>::empty() == before);
        while i < sections.len()
            invariant
                i <= sections.len(),
                ss == views(sections@),
                errors@ == before + unresolved_sections(self@, ss.take(i as int)),
            decreases sections.len() - i,
        {
            proof {
                assert(ss.take(i + 1).drop_last() == ss.take(i as int));
                assert(ss.take(i + 1).last() == sections[i as int]@);
            }
            let ghost so_far = unresolved_sections(self@, ss.take(i as int));
            let ghost next = unresolved_fields(
                self@,
                views(sections[i as int].fields@),
                Some(i),
            );
            assert((before + so_far) + next == before + (so_far + next));
            self.check_fields(&sections[i].fields, Some(i), errors);
            i += 1;
        }
        assert(ss.take(sections.len() as int) == ss);
    }

    /// Registers a plain type under `name`. A name that is registered
    /// already keeps its first meaning.
    pub fn register_plain(&mut self, name: String, leaf: Leaf)
        requires
            old(self).wf(),
        ensures
            final(self).wf(),
            final(self)@ == old(self)@.with_type(
                TypeEntryView { name: name@, documentable: DocumentableView::Plain(leaf@) },
            ),
    {
        let added = TypeEntry { name, documentable: Documentable::Plain(leaf) };
        proof {
            lemma_wf_with_type(self@, added@);
            assert(views(self.types@.push(added)) == views(self.types@).push(added@));
        }
        self.types.push(added);
    }

    /// Registers a compound type under `name`, with its emitter. Fails, and
    /// leaves the registry as it is, if the type of any field is not
    /// registered yet, or a field asks for a default that was not supplied
    /// yet: with one error for each such defect.
    pub fn register(&mut self, name: String, emitter: Emitter) -> (r: Result<(), Vec<GenError>>)
        requires
            old(self).wf(),
        ensures
            final(self).wf(),
            match r {
                Ok(_) => {
                    &&& unresolved(old(self)@, emitter@.body).len() == 0
                    &&& final(self)@ == old(self)@.with_type(
                        TypeEntryView {
                            name: name@,
                            documentable: DocumentableView::Compound(emitter@),
                        },
                    )
                },
                Err(errors) => {
                    &&& errors@.len() > 0
                    &&& errors@ == unresolved(old(self)@, emitter@.body)
                    &&& final(self)@ == old(self)@
                },
            },
    {
        let mut errors: Vec<GenError> = Vec::new();
        match &emitter.body {
            Body::Fields(fields) => {
                self.check_fields(fields, None, &mut errors);
            },
            Body::Sections(sections) => {
                self.check_sections(sections, &mut errors);
            },
        }
        assert(errors@ == Seq::<GenError>::empty() + unresolved(self@, emitter@.body));
        assert(errors@ == unresolved(self@, emitter@.body));
        if errors.len() > 0 {
            return Err(errors);
        }
        let added = TypeEntry { name, documentable: Documentable::Compound(emitter) };
        proof {
            lemma_wf_with_type(self@, added@);
            assert(views(self.types@.push(added)) == views(self.types@).push(added@));
        }
        self.types.push(added);
        Ok(())
    }

    /// Registers the default value of the type `name`. A type whose default
    /// value is registered already keeps it.
    pub fn register_default(&mut self, name: String, value: Value)
        requires
            old(self).wf(),
        ensures
            final(self).wf(),
            final(self)@ == old(self)@.with_default(name@, value@),
    {
        proof {
            assert(named_values(self.defaults@.push((name, value))) == named_values(
                self.defaults@,
            ).push((name@, value@)));
            lemma_entries_stay(self@.defaults, (name@, value@));
            lemma_wf_with_values(self@, self@.with_default(name@, value@));
        }
        self.defaults.push((name, value));
    }

    /// Registers the value that the producer `name` gives. A name that is
    /// registered already keeps its first value.
    pub fn register_producer(&mut self, name: String, value: Value)
        requires
            old(self).wf(),
        ensures
            final(self).wf(),
            final(self)@ == old(self)@.with_producer(name@, value@),
    {
        proof {
            assert(named_values(self.producers@.push((name, value))) == named_values(
                self.producers@,
            ).push((name@, value@)));
            lemma_entries_stay(self@.producers, (name@, value@));
            lemma_wf_with_values(self@, self@.with_producer(name@, value@));
        }
        self.producers.push((name, value));
    }

    /// Whether the type `name` is plain, if it is registered.
    pub fn is_plain(&self, name: &String) -> (plain: Option<bool>)
        ensures
            match resolve(self@.types, name@) {
                Some(k) => plain == Some(self@.plain(k)),
                None => plain is None,
            },
    {
        match self.find(name) {
            Some(k) => {
                assert(self@.types[k as int] == self.types[k as int]@);
                match &self.types[k].documentable {
                    Documentable::Plain(_) => Some(true),
                    Documentable::Compound(_) => Some(false),
                }
            },
            None => None,
        }
    }

    /// Appends to `w` the document of the type `name`, for a value at `path`
    /// from the root of the document. Where `def` holds an instance, its
    /// fields are shown; a field that it does not hold is shown as its
    /// default policy says. Writes nothing and returns `false` if the type
    /// is not registered, or is plain while the path is empty.
    pub fn write_doc_config(
        &self,
        name: &String,
        w: &mut Vec<Line>,
        path: &Vec<String>,
        def: Option<&Value>,
    ) -> (written: bool)
        requires
            self.wf(),
        ensures
            written == self@.writable(name@, path@.len()),
            written ==> views(final(w)@) == views(old(w)@) + self@.type_document(
                resolve(self@.types, name@)->0,
                texts(path@),
                value_of(def),
            ),
            !written ==> final(w)@ == old(w)@,
    {
        match self.find(name) {
            Some(k) => {
                assert(self@.types[k as int] == self.types[k as int]@);
                let keyed = match &self.types[k].documentable {
                    Documentable::Plain(_) => path.len() > 0,
                    Documentable::Compound(_) => true,
                };
                if keyed {
                    self.write_type(k, w, path, def);
                }
                keyed
            },
            None => false,
        }
    }

    /// Appends the document of the type at `idx`.
    fn write_type(&self, idx: usize, w: &mut Vec<Line>, path: &Vec<String>, inst: Option<&Value>)
        requires
            self.wf(),
            idx < self@.types.len(),
            self@.plain(idx as int) ==> path.len() > 0,
        ensures
            views(final(w)@) == views(old(w)@) + self@.type_document(
                idx as int,
                texts(path@),
                value_of(inst),
            ),
        decreases idx, 3int, 0int,
    {
        assert(self@.types[idx as int] == self.types[idx as int]@);
        match &self.types[idx].documentable {
            Documentable::Plain(leaf) => {
                leaf.write(w, path, scalar_text(inst));
            },
            Documentable::Compound(emitter) => {
                let ghost before = views(w@);
                write_comments(w, &emitter.comments);
                let mut local = copy_texts(path);
                match &emitter.body {
                    Body::Fields(fields) => {
                        self.write_fields(idx, fields, w, &mut local, inst);
                    },
                    Body::Sections(sections) => {
                        self.write_sections(idx, sections, w, &mut local, inst);
                    },
                }
                assert(views(w@) == before + self@.type_document(
                    idx as int,
                    texts(path@),
                    value_of(inst),
                ));
            },
        }
    }

    /// Appends the lines of the variants of an externally tagged enum.
    fn write_sections(
        &self,
        bound: usize,
        sections: &Vec<SectionEmitter>,
        w: &mut Vec<Line>,
        path: &mut Vec<String>,
        inst: Option<&Value>,
    )
        requires
            self.wf(),
            bound <= self@.types.len(),
            sections_resolve(self@.types, views(sections@), bound as int),
        ensures
            views(final(w)@) == views(old(w)@) + self@.sections_document(
                bound as int,
                views(sections@),
                texts(old(path)@),
                value_of(inst),
            ),
            texts(final(path)@) == texts(old(path)@),
        decreases bound, 2int, 0int,
    {
        let ghost before = views(w@);
        let ghost ss = views(sections@);
        let ghost start = texts(path@);
        let ghost total = self@.sections_document(bound as int, ss, start, value_of(inst));
        let mut i: usize = 0;
        assert(ss.skip(0) == ss);
        assert(views(w@) + total == before + total);
        while i < sections.len()
            invariant
                i <= sections.len(),
                self.wf(),
                bound <= self@.types.len(),
                ss == views(sections@),
                start == texts(path@),
                sections_resolve(self@.types, ss, bound as int),
                views(w@) + self@.sections_document(
                    bound as int,
                    ss.skip(i as int),
                    start,
                    value_of(inst),
                ) == before + total,
            decreases sections.len() - i,
        {
            let section = &sections[i];
            let ghost shown = views(w@);
            let ghost rest = ss.skip(i as int);
            let ghost saved = path@;
            proof {
                assert(rest[0] == section@);
                assert(rest.drop_first() == ss.skip(i + 1));
                assert(ss[i as int] == section@);
                assert(fields_resolve(self@.types, ss[i as int].fields, bound as int));
                lemma_texts_push(path@, section.name);
            }
            write_comments(w, &section.comments);
            path.push(section.name.clone());
            let ghost here = texts(path@);
            let only = Line::Comment(String::from_str("one and only one of the following can be set"));
            let head = Line::Section(copy_texts(path));
            proof {
                assert(views(w@.push(only)) == views(w@).push(only@));
                assert(views(w@.push(only).push(head)) == views(w@).push(only@).push(head@));
            }
            w.push(only);
            w.push(head);
            let ghost mid = views(w@);
            let given = match inst {
                Some(v) => v.field(&section.name),
                None => None,
            };
            self.write_fields(bound, &section.fields, w, path, given);
            let ghost full = path@;
            path.pop();
            proof {
                assert(texts(full.drop_last()) == texts(full).drop_last());
                assert(texts(saved).push(section.name@).drop_last() == texts(saved));
                let block = self@.section_document(bound as int, section@, here, value_of(inst));
                assert(mid == shown + comment_lines(section@.comments) + seq![only@, head@]);
                assert(views(w@) == shown + block);
                let tail = self@.sections_document(
                    bound as int,
                    ss.skip(i + 1),
                    start,
                    value_of(inst),
                );
                assert(self@.sections_document(bound as int, rest, start, value_of(inst))
                    == block + tail);
                assert((shown + block) + tail == shown + (block + tail));
            }
            i += 1;
        }
        assert(ss.skip(sections.len() as int) == Seq::<SectionEmitterView>::empty());
        assert(views(w@) + Seq::<LineView>::empty() == views(w@));
    }

    /// Appends the lines of fields, in order.
    fn write_fields(
        &self,
        bound: usize,
        fields: &Vec<FieldEmitter>,
        w: &mut Vec<Line>,
        path: &mut Vec<String>,
        inst: Option<&Value>,
    )
        requires
            self.wf(),
            bound <= self@.types.len(),
            fields_resolve(self@.types, views(fields@), bound as int),
        ensures
            views(final(w)@) == views(old(w)@) + self@.fields_document(
                bound as int,
                views(fields@),
                texts(old(path)@),
                value_of(inst),
            ),
            texts(final(path)@) == texts(old(path)@),
        decreases bound, 1int, 0int,
    {
        let ghost before = views(w@);
        let ghost fs = views(fields@);
        let ghost at = texts(path@);
        let mut i: usize = 0;
        assert(fs.take(0) == Seq::<FieldEmitterView>::empty());
        assert(before + Seq::<LineView>::empty() == before);
        while i < fields.len()
            invariant
                i <= fields.len(),
                self.wf(),
                bound <= self@.types.len(),
                fs == views(fields@),
                at == texts(path@),
                fields_resolve(self@.types, fs, bound as int),
                views(w@) == before + self@.fields_document(
                    bound as int,
                    fs.take(i as int),
                    at,
                    value_of(inst),
                ),
            decreases fields.len() - i,
        {
            let field = &fields[i];
            let ghost shown = views(w@);
            proof {
                assert(fs[i as int] == field@);
                assert(fs.take(i + 1).drop_last() == fs.take(i as int));
                assert(fs.take(i + 1).last() == field@);
                lemma_texts_push(path@, field.name);
            }
            write_comments(w, &field.comments);
            let found = self.find(&field.referenced_type);
            let target = found.unwrap();
            let ghost saved = path@;
            path.push(field.name.clone());
            assert(self@.types[target as int] == self.types[target as int]@);
            match &self.types[target].documentable {
                Documentable::Plain(_) => {
                    assert(views(w@) + self@.header(target as int, texts(path@)) == views(w@));
                },
                Documentable::Compound(_) => {
                    let head = Line::Section(copy_texts(path));
                    assert(views(w@.push(head)) == views(w@) + self@.header(
                        target as int,
                        texts(path@),
                    ));
                    w.push(head);
                },
            }
            let value = self.member_value(field, inst);
            self.write_type(target, w, path, value);
            path.pop();
            proof {
                assert(path@ == saved);
                let block = self@.field_document(bound as int, field@, at, value_of(inst));
                assert(views(w@) == shown + block);
                assert((before + self@.fields_document(
                    bound as int,
                    fs.take(i as int),
                    at,
                    value_of(inst),
                )) + block == before + (self@.fields_document(
                    bound as int,
                    fs.take(i as int),
                    at,
                    value_of(inst),
                ) + block));
            }
            i += 1;
        }
        assert(fs.take(fields.len() as int) == fs);
    }
}

} // verus!
