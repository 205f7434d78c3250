//! Emitters: what generation produces for a compound type.

use crate::shape::{views, DefaultPolicy, DefaultPolicyView};
use crate::text::texts;
use vstd::prelude::*;

verus! {

/// How one field is written: its comments, then its value, which the
/// documentable of its type writes under the field's name.
#[derive(Clone, Debug, PartialEq, Eq)]
pub struct FieldEmitter {
    pub name: String,
    pub referenced_type: String,
    /// The texts of the comment lines that stand before the field.
    pub comments: Vec<String>,
    pub default_policy: DefaultPolicy,
}

/// The view of `FieldEmitter`: the same value over sequences of characters.
pub struct FieldEmitterView {
    pub name: Seq<char>,
    pub referenced_type: Seq<char>,
    pub comments: Seq<Seq<char>>,
    pub default_policy: DefaultPolicyView,
}

impl View for FieldEmitter {
    type V = FieldEmitterView;

    open spec fn view(&self) -> FieldEmitterView {
        FieldEmitterView {
            name: self.name@,
            referenced_type: self.referenced_type@,
            comments: texts(self.comments@),
            default_policy: self.default_policy@,
        }
    }
}

/// How one variant of an externally tagged enum is written: its comments, a
/// section of its own, and its fields under that section.
#[derive(Clone, Debug, PartialEq, Eq)]
pub struct SectionEmitter {
    pub name: String,
    pub comments: Vec<String>,
    pub fields: Vec<FieldEmitter>,
}

/// The view of `SectionEmitter`: the same value over sequences of characters.
pub struct SectionEmitterView {
    pub name: Seq<char>,
    pub comments: Seq<Seq<char>>,
    pub fields: Seq<FieldEmitterView>,
}

impl View for SectionEmitter {
    type V = SectionEmitterView;

    open spec fn view(&self) -> SectionEmitterView {
        SectionEmitterView {
            name: self.name@,
            comments: texts(self.comments@),
            fields: views(self.fields@),
        }
    }
}

/// What follows the comments of a compound type.
#[derive(Clone, Debug, PartialEq, Eq)]
pub enum Body {
    /// Fields, one after the other.
    Fields(Vec<FieldEmitter>),
    /// Sections, one for each variant.
    Sections(Vec<SectionEmitter>),
}

/// The view of `Body`: the same value over sequences of characters.
pub enum BodyView {
    Fields(Seq<FieldEmitterView>),
    Sections(Seq<SectionEmitterView>),
}

impl View for Body {
    type V = BodyView;

    open spec fn view(&self) -> BodyView {
        match self {
            Body::Fields(fields) => BodyView::Fields(views(fields@)),
            Body::Sections(sections) => BodyView::Sections(views(sections@)),
        }
    }
}

/// The emitter of a compound type.
#[derive(Clone, Debug, PartialEq, Eq)]
pub struct Emitter {
    /// The texts of the comment lines that the document starts with.
    pub comments: Vec<String>,
    pub body: Body,
}

/// The view of `Emitter`: the same value over sequences of characters.
pub struct EmitterView {
    pub comments: Seq<Seq<char>>,
    pub body: BodyView,
}

impl View for Emitter {
    type V = EmitterView;

    open spec fn view(&self) -> EmitterView {
        EmitterView { comments: texts(self.comments@), body: self.body@ }
    }
}

} // verus!
