use docconfig::derive_docconfig;
use docconfig::leaf::Leaf;
use docconfig::line::{render_lines, Line};
use docconfig::registry::Registry;
use docconfig::shape::{DefaultPolicy, Member, MemberName, Shape, TypeRef, TypeShape};

fn member(name: &str, ty: &str, doc: &str) -> Member {
    Member {
        name: MemberName::Named(name.to_string()),
        referenced_type: TypeRef::Path(ty.to_string()),
        raw_doc: vec![doc.to_string()],
        default_policy: DefaultPolicy::NoDefault,
    }
}

fn registry_of_a_and_b() -> Registry {
    let mut registry = Registry::new();
    registry.register_plain("f32".to_string(), Leaf::real_number());
    let a = TypeShape {
        generic_params: 0,
        raw_doc: vec![],
        shape: Shape::Struct(vec![member("a", "f32", " test")]),
    };
    let b = TypeShape {
        generic_params: 0,
        raw_doc: vec![" overall doc".to_string()],
        shape: Shape::Struct(vec![member("a", "A", " inner")]),
    };
    let emitter = derive_docconfig(&a).unwrap();
    registry.register("A".to_string(), emitter).unwrap();
    let emitter = derive_docconfig(&b).unwrap();
    registry.register("B".to_string(), emitter).unwrap();
    registry
}

fn document(registry: &Registry, name: &str) -> Vec<String> {
    let mut lines: Vec<Line> = Vec::new();
    assert!(registry.write_doc_config(&name.to_string(), &mut lines, &vec![], None));
    render_lines(&lines)
}

#[test]
fn test() {
    let registry = registry_of_a_and_b();
    assert_eq!(document(&registry, "A"), vec!["## test", "## a real number", "# a = ..."]);
    assert_eq!(
        document(&registry, "B"),
        vec!["## overall doc", "## inner", "[a]", "## test", "## a real number", "# a = ..."]
    );
}
