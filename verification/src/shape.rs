//! The shape of a configuration type, as a schema provider describes it.

use crate::text::texts;
use vstd::prelude::*;

verus! {

/// The views of a sequence of values, one for one.
pub open spec fn views<T: View>(v: Seq<T>) -> Seq<T::V> {
    Seq::new(v.len(), |i: int| v[i]@)
}

/// How a member is identified inside its type.
#[derive(Clone, Debug, PartialEq, Eq)]
pub enum MemberName {
    /// An identifier.
    Named(String),
    /// The member has no name, only a position.
    Positional,
}

impl View for MemberName {
    type V = Option<Seq<char>>;

    /// The identifier, if there is one.
    open spec fn view(&self) -> Option<Seq<char>> {
        match self {
            MemberName::Named(name) => Some(name@),
            MemberName::Positional => None,
        }
    }
}

/// The declared type of a member.
#[derive(Clone, Debug, PartialEq, Eq)]
pub enum TypeRef {
    /// A type that can be named, and so can be asked to document itself.
    Path(String),
    /// Anything else: a tuple, a reference, an array and the like.
    Other,
}

impl View for TypeRef {
    type V = Option<Seq<char>>;

    /// The name of the type, if it has one.
    open spec fn view(&self) -> Option<Seq<char>> {
        match self {
            TypeRef::Path(name) => Some(name@),
            TypeRef::Other => None,
        }
    }
}

/// Where the value of a member comes from when no instance supplies it.
#[derive(Clone, Debug, PartialEq, Eq)]
pub enum DefaultPolicy {
    /// The member has no default and is shown as a placeholder.
    NoDefault,
    /// The default value of the member's type.
    TypeDefault,
    /// The value that the named producer gives.
    CustomDefault(String),
}

/// The view of `DefaultPolicy`: the same value over sequences of characters.
pub enum DefaultPolicyView {
    NoDefault,
    TypeDefault,
    CustomDefault(Seq<char>),
}

impl View for DefaultPolicy {
    type V = DefaultPolicyView;

    open spec fn view(&self) -> DefaultPolicyView {
        match self {
            DefaultPolicy::NoDefault => DefaultPolicyView::NoDefault,
            DefaultPolicy::TypeDefault => DefaultPolicyView::TypeDefault,
            DefaultPolicy::CustomDefault(producer) => DefaultPolicyView::CustomDefault(producer@),
        }
    }
}

impl DefaultPolicy {
    /// A copy of this policy.
    pub fn duplicate(&self) -> (copy: DefaultPolicy)
        ensures
            copy@ == self@,
    {
        match self {
            DefaultPolicy::NoDefault => DefaultPolicy::NoDefault,
            DefaultPolicy::TypeDefault => DefaultPolicy::TypeDefault,
            DefaultPolicy::CustomDefault(producer) => DefaultPolicy::CustomDefault(
                producer.clone(),
            ),
        }
    }
}

/// A member of a struct or of an enum variant.
#[derive(Clone, Debug, PartialEq, Eq)]
pub struct Member {
    pub name: MemberName,
    pub referenced_type: TypeRef,
    /// The documentation attached to the member, one element per source line.
    pub raw_doc: Vec<String>,
    pub default_policy: DefaultPolicy,
}

/// The view of `Member`: the same value over sequences of characters.
pub struct MemberView {
    pub name: Option<Seq<char>>,
    pub referenced_type: Option<Seq<char>>,
    pub raw_doc: Seq<Seq<char>>,
    pub default_policy: DefaultPolicyView,
}

impl View for Member {
    type V = MemberView;

    open spec fn view(&self) -> MemberView {
        MemberView {
            name: self.name@,
            referenced_type: self.referenced_type@,
            raw_doc: texts(self.raw_doc@),
            default_policy: self.default_policy@,
        }
    }
}

/// A variant of an enum.
#[derive(Clone, Debug, PartialEq, Eq)]
pub struct Variant {
    pub name: String,
    /// The name of the variant as it is written in a configuration file.
    pub discriminant_name: String,
    pub fields: Vec<Member>,
    pub raw_doc: Vec<String>,
}

/// The view of `Variant`: the same value over sequences of characters.
pub struct VariantView {
    pub name: Seq<char>,
    pub discriminant_name: Seq<char>,
    pub fields: Seq<MemberView>,
    pub raw_doc: Seq<Seq<char>>,
}

impl View for Variant {
    type V = VariantView;

    open spec fn view(&self) -> VariantView {
        VariantView {
            name: self.name@,
            discriminant_name: self.discriminant_name@,
            fields: views(self.fields@),
            raw_doc: texts(self.raw_doc@),
        }
    }
}

/// How a configuration file records which variant of an enum is meant.
#[derive(Clone, Debug, PartialEq, Eq)]
pub enum TagStrategy {
    /// Nothing records it.
    Untagged,
    /// A field of this name, beside the fields of the variant.
    InternalTag(String),
    /// A tag field and a content field, side by side one level up.
    AdjacentTag(String, String),
    /// Each variant is a section of its own, and only one of them may be set.
    ExternalTag,
}

/// The view of `TagStrategy`: the same value over sequences of characters.
pub enum TagStrategyView {
    Untagged,
    InternalTag(Seq<char>),
    AdjacentTag(Seq<char>, Seq<char>),
    ExternalTag,
}

impl View for TagStrategy {
    type V = TagStrategyView;

    open spec fn view(&self) -> TagStrategyView {
        match self {
            TagStrategy::Untagged => TagStrategyView::Untagged,
            TagStrategy::InternalTag(tag) => TagStrategyView::InternalTag(tag@),
            TagStrategy::AdjacentTag(tag, content) => TagStrategyView::AdjacentTag(
                tag@,
                content@,
            ),
            TagStrategy::ExternalTag => TagStrategyView::ExternalTag,
        }
    }
}

/// The members of a struct, or the variants of an enum with its tag strategy.
#[derive(Clone, Debug, PartialEq, Eq)]
pub enum Shape {
    Struct(Vec<Member>),
    Enum(Vec<Variant>, TagStrategy),
}

/// The view of `Shape`: the same value over sequences of characters.
pub enum ShapeView {
    Struct(Seq<MemberView>),
    Enum(Seq<VariantView>, TagStrategyView),
}

impl View for Shape {
    type V = ShapeView;

    open spec fn view(&self) -> ShapeView {
        match self {
            Shape::Struct(members) => ShapeView::Struct(views(members@)),
            Shape::Enum(variants, tag) => ShapeView::Enum(views(variants@), tag@),
        }
    }
}

/// A configuration type: what generation starts from.
#[derive(Clone, Debug, PartialEq, Eq)]
pub struct TypeShape {
    /// How many generic parameters the type declares.
    pub generic_params: usize,
    /// The documentation attached to the type itself.
    pub raw_doc: Vec<String>,
    pub shape: Shape,
}

/// The view of `TypeShape`: the same value over sequences of characters.
pub struct TypeShapeView {
    pub generic_params: nat,
    pub raw_doc: Seq<Seq<char>>,
    pub shape: ShapeView,
}

impl View for TypeShape {
    type V = TypeShapeView;

    open spec fn view(&self) -> TypeShapeView {
        TypeShapeView {
            generic_params: self.generic_params as nat,
            raw_doc: texts(self.raw_doc@),
            shape: self.shape@,
        }
    }
}

} // verus!
