use docconfig::derive_docconfig;
use docconfig::error::{GenError, Site};
use docconfig::leaf::Leaf;
use docconfig::line::{join_path, render_document, render_lines, write_comments, Line};
use docconfig::registry::Registry;
use docconfig::shape::{
    DefaultPolicy, Member, MemberName, Shape, TagStrategy, TypeRef, TypeShape, Variant,
};
use docconfig::value::Value;

fn text(s: &str) -> Value {
    Value::Scalar(s.to_string())
}

fn record(fields: &[(&str, Value)]) -> Value {
    let mut out = Vec::new();
    for (name, value) in fields {
        out.push((name.to_string(), copy_of(value)));
    }
    Value::Record(out)
}

fn copy_of(value: &Value) -> Value {
    match value {
        Value::Scalar(s) => Value::Scalar(s.clone()),
        Value::Record(fields) => {
            Value::Record(fields.iter().map(|(n, v)| (n.clone(), copy_of(v))).collect())
        }
    }
}

fn member(name: &str, ty: &str, doc: &str, default_policy: DefaultPolicy) -> Member {
    Member {
        name: MemberName::Named(name.to_string()),
        referenced_type: TypeRef::Path(ty.to_string()),
        raw_doc: vec![doc.to_string()],
        default_policy,
    }
}

fn structure(doc: &str, members: Vec<Member>) -> TypeShape {
    TypeShape { generic_params: 0, raw_doc: vec![doc.to_string()], shape: Shape::Struct(members) }
}

fn leaves() -> Registry {
    let mut registry = Registry::new();
    registry.register_plain("f32".to_string(), Leaf::real_number());
    registry.register_plain("String".to_string(), Leaf::text());
    registry.register_default("f32".to_string(), text("0"));
    registry.register_default("String".to_string(), text(""));
    registry.register_producer("default_name".to_string(), text("nobody"));
    registry.register_producer("default_scale".to_string(), text("2.5"));
    registry
}

fn add(registry: &mut Registry, name: &str, shape: &TypeShape) {
    let emitter = derive_docconfig(shape).unwrap();
    registry.register(name.to_string(), emitter).unwrap();
}

fn server_registry() -> Registry {
    let mut registry = leaves();
    let limits = structure(
        " Limits of one connection",
        vec![
            member("rate", "f32", " requests per second", DefaultPolicy::TypeDefault),
            member("owner", "String", " who pays", DefaultPolicy::CustomDefault("default_name".to_string())),
        ],
    );
    add(&mut registry, "Limits", &limits);
    registry.register_default(
        "Limits".to_string(),
        record(&[("rate", text("7")), ("owner", text("root"))]),
    );
    let server = structure(
        " A server",
        vec![
            member("name", "String", " its name", DefaultPolicy::NoDefault),
            member("limits", "Limits", " its limits", DefaultPolicy::NoDefault),
            member("fallback", "Limits", " limits of last resort", DefaultPolicy::TypeDefault),
            member("scale", "f32", " a factor", DefaultPolicy::CustomDefault("default_scale".to_string())),
        ],
    );
    add(&mut registry, "Server", &server);
    registry
}

fn written(registry: &Registry, name: &str, path: &[&str], def: Option<&Value>) -> Vec<String> {
    let mut lines: Vec<Line> = Vec::new();
    let path: Vec<String> = path.iter().map(|s| s.to_string()).collect();
    assert!(registry.write_doc_config(&name.to_string(), &mut lines, &path, def));
    render_lines(&lines)
}

#[test]
fn a_struct_with_one_plain_field_and_no_default() {
    let mut registry = leaves();
    add(
        &mut registry,
        "A",
        &TypeShape {
            generic_params: 0,
            raw_doc: vec![],
            shape: Shape::Struct(vec![member("a", "f32", " test", DefaultPolicy::NoDefault)]),
        },
    );
    assert_eq!(written(&registry, "A", &[], None), vec!["## test", "## a real number", "# a = ..."]);
}

#[test]
fn a_struct_with_a_compound_field() {
    let mut registry = leaves();
    add(
        &mut registry,
        "A",
        &TypeShape {
            generic_params: 0,
            raw_doc: vec![],
            shape: Shape::Struct(vec![member("a", "f32", " test", DefaultPolicy::NoDefault)]),
        },
    );
    add(
        &mut registry,
        "B",
        &structure(" overall doc", vec![member("a", "A", " inner", DefaultPolicy::NoDefault)]),
    );
    assert_eq!(
        written(&registry, "B", &[], None),
        vec!["## overall doc", "## inner", "[a]", "## test", "## a real number", "# a = ..."]
    );
}

#[test]
fn plain_types_are_plain_and_compound_types_are_not() {
    let registry = server_registry();
    assert_eq!(registry.is_plain(&"f32".to_string()), Some(true));
    assert_eq!(registry.is_plain(&"String".to_string()), Some(true));
    assert_eq!(registry.is_plain(&"Limits".to_string()), Some(false));
    assert_eq!(registry.is_plain(&"Server".to_string()), Some(false));
    assert_eq!(registry.is_plain(&"Unknown".to_string()), None);
}

#[test]
fn a_plain_type_writes_a_comment_and_a_value() {
    let registry = leaves();
    assert_eq!(
        written(&registry, "String", &["a", "b"], Some(&text("hello"))),
        vec!["## a string", "b = \"hello\""]
    );
    assert_eq!(
        written(&registry, "f32", &["x"], Some(&text("1.5"))),
        vec!["## a real number", "x = 1.5"]
    );
    assert_eq!(written(&registry, "String", &["k"], None), vec!["## a string", "# k = ..."]);
}

#[test]
fn nothing_is_written_for_an_unknown_type_or_a_plain_type_without_key() {
    let registry = leaves();
    let mut lines = vec![Line::Comment("kept".to_string())];
    assert!(!registry.write_doc_config(&"Unknown".to_string(), &mut lines, &vec![], None));
    assert!(!registry.write_doc_config(&"f32".to_string(), &mut lines, &vec![], None));
    assert_eq!(lines, vec![Line::Comment("kept".to_string())]);
}

#[test]
fn without_an_instance_the_default_policies_decide() {
    let registry = server_registry();
    assert_eq!(
        written(&registry, "Server", &[], None),
        vec![
            "## A server",
            "## its name",
            "## a string",
            "# name = ...",
            "## its limits",
            "[limits]",
            "## Limits of one connection",
            "## requests per second",
            "## a real number",
            "rate = 0",
            "## who pays",
            "## a string",
            "owner = \"nobody\"",
            "## limits of last resort",
            "[fallback]",
            "## Limits of one connection",
            "## requests per second",
            "## a real number",
            "rate = 7",
            "## who pays",
            "## a string",
            "owner = \"root\"",
            "## a factor",
            "## a real number",
            "scale = 2.5",
        ]
    );
}

#[test]
fn the_values_of_an_instance_win_over_every_default() {
    let registry = server_registry();
    let instance = record(&[
        ("name", text("alpha")),
        ("limits", record(&[("rate", text("10")), ("owner", text("me"))])),
        ("fallback", record(&[("rate", text("1")), ("owner", text("you"))])),
        ("scale", text("3")),
    ]);
    assert_eq!(
        written(&registry, "Server", &["servers", "first"], Some(&instance)),
        vec![
            "## A server",
            "## its name",
            "## a string",
            "name = \"alpha\"",
            "## its limits",
            "[servers.first.limits]",
            "## Limits of one connection",
            "## requests per second",
            "## a real number",
            "rate = 10",
            "## who pays",
            "## a string",
            "owner = \"me\"",
            "## limits of last resort",
            "[servers.first.fallback]",
            "## Limits of one connection",
            "## requests per second",
            "## a real number",
            "rate = 1",
            "## who pays",
            "## a string",
            "owner = \"you\"",
            "## a factor",
            "## a real number",
            "scale = 3",
        ]
    );
}

#[test]
fn a_field_that_the_instance_lacks_falls_back_to_its_policy() {
    let registry = server_registry();
    let instance = record(&[("owner", text("me"))]);
    assert_eq!(
        written(&registry, "Limits", &[], Some(&instance)),
        vec![
            "## Limits of one connection",
            "## requests per second",
            "## a real number",
            "rate = 0",
            "## who pays",
            "## a string",
            "owner = \"me\"",
        ]
    );
}

#[test]
fn a_field_cannot_ask_for_a_producer_that_was_never_registered() {
    let mut registry = leaves();
    let shape = structure(
        " doc",
        vec![
            member("a", "f32", " fine", DefaultPolicy::CustomDefault("default_scale".to_string())),
            member("b", "f32", " field", DefaultPolicy::CustomDefault("missing".to_string())),
        ],
    );
    let emitter = derive_docconfig(&shape).unwrap();
    assert_eq!(
        registry.register("T".to_string(), emitter),
        Err(vec![GenError::UnresolvableDefault(Site { variant: None, member: 1 })])
    );
    assert_eq!(registry.is_plain(&"T".to_string()), None);
    registry.register_producer("missing".to_string(), text("9"));
    add(&mut registry, "T", &shape);
    assert_eq!(
        written(&registry, "T", &[], None),
        vec![
            "## doc",
            "## fine",
            "## a real number",
            "a = 2.5",
            "## field",
            "## a real number",
            "b = 9",
        ]
    );
}

#[test]
fn a_field_cannot_ask_for_the_default_of_a_type_that_has_none() {
    let mut registry = Registry::new();
    registry.register_plain("f32".to_string(), Leaf::real_number());
    let inner = structure(" inner", vec![member("x", "f32", " x", DefaultPolicy::TypeDefault)]);
    let emitter = derive_docconfig(&inner).unwrap();
    assert_eq!(
        registry.register("Inner".to_string(), emitter),
        Err(vec![GenError::UnresolvableDefault(Site { variant: None, member: 0 })])
    );
    registry.register_default("f32".to_string(), text("0"));
    add(&mut registry, "Inner", &inner);
    let outer = structure(
        " outer",
        vec![
            member("i", "Inner", " i", DefaultPolicy::TypeDefault),
            member("u", "Unknown", " u", DefaultPolicy::TypeDefault),
        ],
    );
    let emitter = derive_docconfig(&outer).unwrap();
    assert_eq!(
        registry.register("Outer".to_string(), emitter),
        Err(vec![
            GenError::UnresolvableDefault(Site { variant: None, member: 0 }),
            GenError::UnresolvableType(Site { variant: None, member: 1 }),
            GenError::UnresolvableDefault(Site { variant: None, member: 1 }),
        ])
    );
}

#[test]
fn defects_in_sections_name_their_variant() {
    let mut registry = Registry::new();
    registry.register_plain("f32".to_string(), Leaf::real_number());
    let shape = TypeShape {
        generic_params: 0,
        raw_doc: vec![],
        shape: Shape::Enum(shapes(), TagStrategy::ExternalTag),
    };
    let emitter = derive_docconfig(&shape).unwrap();
    assert_eq!(
        registry.register("Figure".to_string(), emitter),
        Err(vec![
            GenError::UnresolvableDefault(Site { variant: Some(1), member: 0 }),
            GenError::UnresolvableType(Site { variant: Some(1), member: 1 }),
        ])
    );
}

#[test]
fn the_same_shape_and_instance_give_the_same_document() {
    let first = written(&server_registry(), "Server", &["s"], None);
    let second = written(&server_registry(), "Server", &["s"], None);
    assert_eq!(first, second);
}

#[test]
fn a_type_is_registered_after_the_types_of_its_fields() {
    let mut registry = leaves();
    let shape = structure(
        " doc",
        vec![
            member("a", "f32", " fine", DefaultPolicy::NoDefault),
            member("b", "Later", " too early", DefaultPolicy::NoDefault),
            member("c", "Never", " unknown", DefaultPolicy::NoDefault),
        ],
    );
    let emitter = derive_docconfig(&shape).unwrap();
    assert_eq!(
        registry.register("T".to_string(), emitter),
        Err(vec![
            GenError::UnresolvableType(Site { variant: None, member: 1 }),
            GenError::UnresolvableType(Site { variant: None, member: 2 }),
        ])
    );
    assert_eq!(registry.is_plain(&"T".to_string()), None);
    assert_eq!(registry.find(&"String".to_string()), Some(1));
    assert_eq!(registry.find(&"T".to_string()), None);
}

#[test]
fn the_first_registration_of_a_name_counts() {
    let mut registry = leaves();
    registry.register_plain("f32".to_string(), Leaf::text());
    registry.register_default("String".to_string(), text("shadowed"));
    registry.register_producer("default_name".to_string(), text("somebody else"));
    assert_eq!(
        written(&registry, "f32", &["x"], Some(&text("1"))),
        vec!["## a real number", "x = 1"]
    );
    let shape = structure(
        " doc",
        vec![
            member("n", "String", " name", DefaultPolicy::CustomDefault("default_name".to_string())),
            member("m", "String", " other", DefaultPolicy::TypeDefault),
        ],
    );
    add(&mut registry, "T", &shape);
    assert_eq!(
        written(&registry, "T", &[], None),
        vec![
            "## doc",
            "## name",
            "## a string",
            "n = \"nobody\"",
            "## other",
            "## a string",
            "m = \"\"",
        ]
    );
}

fn shapes() -> Vec<Variant> {
    vec![
        Variant {
            name: "Circle".to_string(),
            discriminant_name: "circle".to_string(),
            fields: vec![member("radius", "f32", " the radius", DefaultPolicy::NoDefault)],
            raw_doc: vec![" a circle".to_string()],
        },
        Variant {
            name: "Rect".to_string(),
            discriminant_name: "rect".to_string(),
            fields: vec![
                member("width", "f32", " the width", DefaultPolicy::TypeDefault),
                member("limits", "Limits", " nested", DefaultPolicy::NoDefault),
            ],
            raw_doc: vec![" a rectangle".to_string()],
        },
    ]
}

fn figure(tag: TagStrategy) -> Registry {
    let mut registry = server_registry();
    let shape = TypeShape {
        generic_params: 0,
        raw_doc: vec![" A figure".to_string()],
        shape: Shape::Enum(shapes(), tag),
    };
    add(&mut registry, "Figure", &shape);
    registry
}

#[test]
fn an_externally_tagged_enum_writes_a_section_for_each_variant() {
    let registry = figure(TagStrategy::ExternalTag);
    assert_eq!(
        written(&registry, "Figure", &["fig"], None),
        vec![
            "## A figure",
            "## a circle",
            "## one and only one of the following can be set",
            "[fig.Circle]",
            "## the radius",
            "## a real number",
            "# radius = ...",
            "## a rectangle",
            "## one and only one of the following can be set",
            "[fig.Rect]",
            "## the width",
            "## a real number",
            "width = 0",
            "## nested",
            "[fig.Rect.limits]",
            "## Limits of one connection",
            "## requests per second",
            "## a real number",
            "rate = 0",
            "## who pays",
            "## a string",
            "owner = \"nobody\"",
        ]
    );
}

#[test]
fn an_externally_tagged_instance_fills_the_section_of_its_variant() {
    let registry = figure(TagStrategy::ExternalTag);
    let instance = record(&[("Circle", record(&[("radius", text("2"))]))]);
    let lines = written(&registry, "Figure", &[], Some(&instance));
    assert_eq!(lines[3], "[Circle]");
    assert_eq!(lines[6], "radius = 2");
    assert_eq!(lines[9], "[Rect]");
    assert_eq!(lines[12], "width = 0");
    assert_eq!(lines[14], "[Rect.limits]");
}

#[test]
fn an_internally_tagged_enum_writes_the_condition_of_each_field() {
    let registry = figure(TagStrategy::InternalTag("kind".to_string()));
    assert_eq!(
        written(&registry, "Figure", &[], None),
        vec![
            "## A figure",
            "## the radius",
            "## only meaningful if kind == \"circle\"",
            "## a real number",
            "# radius = ...",
            "## the width",
            "## only meaningful if kind == \"rect\"",
            "## a real number",
            "width = 0",
            "## nested",
            "## only meaningful if kind == \"rect\"",
            "[limits]",
            "## Limits of one connection",
            "## requests per second",
            "## a real number",
            "rate = 0",
            "## who pays",
            "## a string",
            "owner = \"nobody\"",
        ]
    );
}

#[test]
fn an_adjacently_tagged_enum_writes_where_the_tag_stands() {
    let registry = figure(TagStrategy::AdjacentTag("t".to_string(), "c".to_string()));
    let lines = written(&registry, "Figure", &[], None);
    assert_eq!(lines[2], "## only meaningful if t == \"circle\" in the upper level");
    assert_eq!(lines[6], "## only meaningful if t == \"rect\" in the upper level");
}

#[test]
fn an_untagged_enum_writes_no_condition() {
    let registry = figure(TagStrategy::Untagged);
    let instance = record(&[("radius", text("4"))]);
    assert_eq!(
        written(&registry, "Figure", &[], Some(&instance))[..9],
        [
            "## A figure",
            "## the radius",
            "## a real number",
            "radius = 4",
            "## the width",
            "## a real number",
            "width = 0",
            "## nested",
            "[limits]",
        ]
    );
}

#[test]
fn lines_are_rendered_in_their_format() {
    assert_eq!(Line::Comment("text".to_string()).render(), "## text");
    assert_eq!(Line::Comment(String::new()).render(), "## ");
    assert_eq!(Line::Section(vec!["a".to_string(), "b".to_string(), "c".to_string()]).render(), "[a.b.c]");
    assert_eq!(Line::Section(vec![]).render(), "[]");
    assert_eq!(
        Line::Value { key: "k".to_string(), text: "v".to_string(), quoted: true }.render(),
        "k = \"v\""
    );
    assert_eq!(
        Line::Value { key: "k".to_string(), text: "1.5".to_string(), quoted: false }.render(),
        "k = 1.5"
    );
    assert_eq!(Line::Placeholder("k".to_string()).render(), "# k = ...");
}

#[test]
fn a_path_is_joined_with_dots() {
    assert_eq!(join_path(&vec![]), "");
    assert_eq!(join_path(&vec!["one".to_string()]), "one");
    assert_eq!(join_path(&vec!["one".to_string(), "two".to_string()]), "one.two");
}

#[test]
fn comments_are_appended_in_order() {
    let mut lines = vec![Line::Placeholder("k".to_string())];
    write_comments(&mut lines, &vec!["first".to_string(), "second".to_string()]);
    assert_eq!(render_lines(&lines), vec!["# k = ...", "## first", "## second"]);
}

#[test]
fn a_record_is_searched_by_name() {
    let value = record(&[("a", text("1")), ("b", text("2")), ("a", text("3"))]);
    assert_eq!(value.field(&"a".to_string()), Some(&text("1")));
    assert_eq!(value.field(&"b".to_string()), Some(&text("2")));
    assert_eq!(value.field(&"c".to_string()), None);
    assert_eq!(text("x").field(&"a".to_string()), None);
}

#[test]
fn a_document_is_its_lines_with_line_breaks() {
    let mut registry = leaves();
    add(
        &mut registry,
        "A",
        &structure(" doc", vec![member("a", "String", " test", DefaultPolicy::TypeDefault)]),
    );
    let mut lines: Vec<Line> = Vec::new();
    assert!(registry.write_doc_config(&"A".to_string(), &mut lines, &vec![], None));
    assert_eq!(render_document(&lines), "## doc\n## test\n## a string\na = \"\"\n");
    assert_eq!(render_document(&vec![]), "");
}

#[test]
fn the_section_of_a_variant_does_not_hold_the_names_of_other_variants() {
    let mut registry = Registry::new();
    let variants = ["V0", "V1", "V2"]
        .iter()
        .map(|name| Variant {
            name: name.to_string(),
            discriminant_name: name.to_string(),
            fields: vec![],
            raw_doc: vec![],
        })
        .collect();
    let shape = TypeShape {
        generic_params: 0,
        raw_doc: vec![],
        shape: Shape::Enum(variants, TagStrategy::ExternalTag),
    };
    add(&mut registry, "E", &shape);
    let only = "## one and only one of the following can be set";
    assert_eq!(
        written(&registry, "E", &["p"], None),
        vec![only, "[p.V0]", only, "[p.V1]", only, "[p.V2]"]
    );
}
