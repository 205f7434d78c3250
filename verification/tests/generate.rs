use docconfig::derive_docconfig;
use docconfig::emitter::{Body, Emitter, FieldEmitter, SectionEmitter};
use docconfig::error::{report_errors, GenError, Site};
use docconfig::shape::{
    DefaultPolicy, Member, MemberName, Shape, TagStrategy, TypeRef, TypeShape, Variant,
};
use docconfig::walker::{expand, expand_members, expand_sections, expand_untagged_enum};

fn named(name: &str, ty: &str, doc: &[&str], default_policy: DefaultPolicy) -> Member {
    Member {
        name: MemberName::Named(name.to_string()),
        referenced_type: TypeRef::Path(ty.to_string()),
        raw_doc: doc.iter().map(|s| s.to_string()).collect(),
        default_policy,
    }
}

fn positional(ty: TypeRef) -> Member {
    Member {
        name: MemberName::Positional,
        referenced_type: ty,
        raw_doc: vec![],
        default_policy: DefaultPolicy::NoDefault,
    }
}

fn field(name: &str, ty: &str, comments: &[&str], default_policy: DefaultPolicy) -> FieldEmitter {
    FieldEmitter {
        name: name.to_string(),
        referenced_type: ty.to_string(),
        comments: comments.iter().map(|s| s.to_string()).collect(),
        default_policy,
    }
}

fn variant(name: &str, discriminant: &str, doc: &[&str], fields: Vec<Member>) -> Variant {
    Variant {
        name: name.to_string(),
        discriminant_name: discriminant.to_string(),
        fields,
        raw_doc: doc.iter().map(|s| s.to_string()).collect(),
    }
}

fn shape_of(shape: Shape) -> TypeShape {
    TypeShape { generic_params: 0, raw_doc: vec![" the type".to_string()], shape }
}

fn circle_and_square() -> Vec<Variant> {
    vec![
        variant(
            "Circle",
            "circle",
            &[" a circle"],
            vec![
                named("radius", "f32", &[" the radius"], DefaultPolicy::NoDefault),
                named("label", "String", &[" label of a circle"], DefaultPolicy::NoDefault),
            ],
        ),
        variant(
            "Square",
            "square",
            &[" a square"],
            vec![
                named("side", "f32", &[" the side"], DefaultPolicy::TypeDefault),
                named("label", "String", &[" label of a square"], DefaultPolicy::TypeDefault),
            ],
        ),
    ]
}

#[test]
fn a_struct_gives_its_fields_in_declaration_order() {
    let shape = shape_of(Shape::Struct(vec![
        named("zeta", "f32", &[" last letter"], DefaultPolicy::NoDefault),
        named("alpha", "String", &[" first letter\n\n * starred"], DefaultPolicy::TypeDefault),
        named("mid", "Inner", &[], DefaultPolicy::CustomDefault("make_mid".to_string())),
    ]));
    let expected = Emitter {
        comments: vec!["the type".to_string()],
        body: Body::Fields(vec![
            field("zeta", "f32", &["last letter"], DefaultPolicy::NoDefault),
            field("alpha", "String", &["first letter", "", "* starred"], DefaultPolicy::TypeDefault),
            field("mid", "Inner", &[], DefaultPolicy::CustomDefault("make_mid".to_string())),
        ]),
    };
    assert_eq!(expand(&shape), Ok(expected));
}

#[test]
fn a_generic_type_is_refused() {
    let mut shape = shape_of(Shape::Struct(vec![named("a", "f32", &[], DefaultPolicy::NoDefault)]));
    shape.generic_params = 1;
    assert_eq!(expand(&shape), Err(vec![GenError::UnsupportedShape]));
    assert_eq!(derive_docconfig(&shape), Err(vec!["Generic type is not supported".to_string()]));
}

#[test]
fn a_positional_member_is_refused() {
    let shape = shape_of(Shape::Struct(vec![
        named("a", "f32", &[], DefaultPolicy::NoDefault),
        positional(TypeRef::Path("f32".to_string())),
    ]));
    let site = Site { variant: None, member: 1 };
    assert_eq!(expand(&shape), Err(vec![GenError::UnnamedMember(site)]));
    assert_eq!(derive_docconfig(&shape), Err(vec!["Unnamed member not supported".to_string()]));
}

#[test]
fn a_member_of_a_type_without_name_is_refused() {
    let mut member = named("pair", "", &[], DefaultPolicy::NoDefault);
    member.referenced_type = TypeRef::Other;
    let shape = shape_of(Shape::Struct(vec![member]));
    let site = Site { variant: None, member: 0 };
    assert_eq!(expand(&shape), Err(vec![GenError::UnresolvableType(site)]));
    assert_eq!(derive_docconfig(&shape), Err(vec!["Unsupported member type".to_string()]));
}

#[test]
fn every_defect_is_reported_at_once() {
    let mut bad_type = named("pair", "", &[], DefaultPolicy::NoDefault);
    bad_type.referenced_type = TypeRef::Other;
    let mut shape = shape_of(Shape::Struct(vec![
        positional(TypeRef::Other),
        named("fine", "f32", &[], DefaultPolicy::NoDefault),
        bad_type,
    ]));
    shape.generic_params = 2;
    let errors = vec![
        GenError::UnsupportedShape,
        GenError::UnnamedMember(Site { variant: None, member: 0 }),
        GenError::UnresolvableType(Site { variant: None, member: 0 }),
        GenError::UnresolvableType(Site { variant: None, member: 2 }),
    ];
    assert_eq!(expand(&shape), Err(errors.clone()));
    assert_eq!(
        report_errors(&errors),
        vec![
            "Generic type is not supported",
            "Unnamed member not supported",
            "Unsupported member type",
            "Unsupported member type"
        ]
    );
    let site = Site { variant: Some(2), member: 3 };
    assert_eq!(GenError::UnresolvableDefault(site).message(), "Unknown member default");
}

#[test]
fn defects_in_variants_name_their_variant() {
    let variants = vec![
        variant("Fine", "fine", &[], vec![named("a", "f32", &[], DefaultPolicy::NoDefault)]),
        variant("Tuple", "tuple", &[], vec![positional(TypeRef::Path("f32".to_string()))]),
    ];
    let errors = vec![GenError::UnnamedMember(Site { variant: Some(1), member: 0 })];
    for tag in [
        TagStrategy::Untagged,
        TagStrategy::ExternalTag,
        TagStrategy::InternalTag("kind".to_string()),
        TagStrategy::AdjacentTag("kind".to_string(), "content".to_string()),
    ] {
        let shape = shape_of(Shape::Enum(variants.clone(), tag));
        assert_eq!(expand(&shape), Err(errors.clone()));
    }
    assert_eq!(expand_untagged_enum(&variants, None, false), Err(errors.clone()));
    assert_eq!(expand_sections(&variants), Err(errors));
}

#[test]
fn members_get_the_note_as_their_last_comment() {
    let members = vec![named("a", "f32", &[" doc of a"], DefaultPolicy::NoDefault)];
    assert_eq!(
        expand_members(&members, None, Some("a note")),
        Ok(vec![field("a", "f32", &["doc of a", "a note"], DefaultPolicy::NoDefault)])
    );
    assert_eq!(
        expand_members(&members, None, None),
        Ok(vec![field("a", "f32", &["doc of a"], DefaultPolicy::NoDefault)])
    );
}

#[test]
fn an_untagged_enum_takes_the_fields_of_its_variants_together() {
    let shape = shape_of(Shape::Enum(circle_and_square(), TagStrategy::Untagged));
    let expected = Emitter {
        comments: vec!["the type".to_string()],
        body: Body::Fields(vec![
            field("radius", "f32", &["the radius"], DefaultPolicy::NoDefault),
            field("label", "String", &["label of a square"], DefaultPolicy::TypeDefault),
            field("side", "f32", &["the side"], DefaultPolicy::TypeDefault),
        ]),
    };
    assert_eq!(expand(&shape), Ok(expected));
}

#[test]
fn an_internally_tagged_enum_names_the_variant_of_each_field() {
    let shape =
        shape_of(Shape::Enum(circle_and_square(), TagStrategy::InternalTag("kind".to_string())));
    let expected = Emitter {
        comments: vec!["the type".to_string()],
        body: Body::Fields(vec![
            field(
                "radius",
                "f32",
                &["the radius", "only meaningful if kind == \"circle\""],
                DefaultPolicy::NoDefault,
            ),
            field(
                "label",
                "String",
                &["label of a square", "only meaningful if kind == \"square\""],
                DefaultPolicy::TypeDefault,
            ),
            field(
                "side",
                "f32",
                &["the side", "only meaningful if kind == \"square\""],
                DefaultPolicy::TypeDefault,
            ),
        ]),
    };
    assert_eq!(expand(&shape), Ok(expected));
}

#[test]
fn an_adjacently_tagged_enum_points_to_the_upper_level() {
    let shape = shape_of(Shape::Enum(
        circle_and_square(),
        TagStrategy::AdjacentTag("t".to_string(), "c".to_string()),
    ));
    let emitter = expand(&shape).unwrap();
    let fields = match emitter.body {
        Body::Fields(fields) => fields,
        Body::Sections(_) => panic!("an adjacently tagged enum has no sections"),
    };
    let last: Vec<&str> = fields.iter().map(|f| f.comments.last().unwrap().as_str()).collect();
    assert_eq!(
        last,
        vec![
            "only meaningful if t == \"circle\" in the upper level",
            "only meaningful if t == \"square\" in the upper level",
            "only meaningful if t == \"square\" in the upper level"
        ]
    );
}

#[test]
fn an_externally_tagged_enum_gives_a_section_for_each_variant() {
    let shape = shape_of(Shape::Enum(circle_and_square(), TagStrategy::ExternalTag));
    let expected = Emitter {
        comments: vec!["the type".to_string()],
        body: Body::Sections(vec![
            SectionEmitter {
                name: "Circle".to_string(),
                comments: vec!["a circle".to_string()],
                fields: vec![
                    field("radius", "f32", &["the radius"], DefaultPolicy::NoDefault),
                    field("label", "String", &["label of a circle"], DefaultPolicy::NoDefault),
                ],
            },
            SectionEmitter {
                name: "Square".to_string(),
                comments: vec!["a square".to_string()],
                fields: vec![
                    field("side", "f32", &["the side"], DefaultPolicy::TypeDefault),
                    field("label", "String", &["label of a square"], DefaultPolicy::TypeDefault),
                ],
            },
        ]),
    };
    assert_eq!(expand(&shape), Ok(expected));
}

#[test]
fn a_type_without_members_gives_only_its_comments() {
    let shape = shape_of(Shape::Struct(vec![]));
    let expected = Emitter { comments: vec!["the type".to_string()], body: Body::Fields(vec![]) };
    assert_eq!(derive_docconfig(&shape), Ok(expected));
    let shape = shape_of(Shape::Enum(vec![], TagStrategy::ExternalTag));
    let expected = Emitter { comments: vec!["the type".to_string()], body: Body::Sections(vec![]) };
    assert_eq!(derive_docconfig(&shape), Ok(expected));
}
