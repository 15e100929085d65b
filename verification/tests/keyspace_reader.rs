use graph_specs::anchors::{AnchorKind, CfdbAnchorResolver};
use graph_specs::graph::ConceptNode;
use graph_specs::keyspace::{FactEdge, FactNode, PropValue};
use graph_specs::keyspace_reader::{
    keyspace_concept_rung_items, keyspace_concepts, keyspace_pub_fns, keyspace_relationships,
};
use graph_specs::model::{ContextDecl, LocationKind, OwnedUnit, ReaderError, Source, SpecFormat};
use graph_specs::surface::DeclaredSurface;

const ROOT: &str = "/ws";
const KEYSPACE: &str = "keyspace.json";

fn s(v: &str) -> PropValue {
    PropValue::Str(v.to_owned())
}

fn node(id: &str, label: &str, props: Vec<(&str, PropValue)>) -> FactNode {
    FactNode {
        id: id.to_owned(),
        label: label.to_owned(),
        props: props.into_iter().map(|(k, v)| (k.to_owned(), v)).collect(),
    }
}

fn edge(src: &str, dst: &str, label: &str) -> FactEdge {
    FactEdge { src: src.to_owned(), dst: dst.to_owned(), label: label.to_owned() }
}

fn rust_item(name: &str, kind: &str, file: &str, crate_name: &str, mq: &str) -> FactNode {
    node(
        &format!("item:{name}"),
        "Item",
        vec![
            ("name", s(name)),
            ("qname", s(&format!("{crate_name}::{name}"))),
            ("kind", s(kind)),
            ("crate", s(crate_name)),
            ("bounded_context", s(crate_name)),
            ("module_qpath", s(mq)),
            ("file", s(&format!("{ROOT}/{file}"))),
            ("visibility", s("pub")),
            ("is_test", PropValue::Bool(false)),
            ("line", PropValue::Int(7)),
        ],
    )
}

fn load(nodes: Vec<FactNode>) -> Vec<ConceptNode> {
    keyspace_concepts(KEYSPACE, &DeclaredSurface::empty(), &nodes, &Vec::new(), ROOT)
        .expect("load fixture keyspace")
}

#[test]
fn struct_schema_version_deserializes() {
    let facts = load(Vec::new());
    assert!(facts.is_empty());
}

#[test]
fn stub_without_file_is_filtered() {
    let stub = node(
        "item:Stub",
        "Item",
        vec![
            ("name", s("Stub")),
            ("kind", s("struct")),
            ("crate", s("domain")),
            ("module_qpath", s("domain")),
            ("visibility", s("pub")),
            ("is_test", PropValue::Bool(false)),
        ],
    );
    let real = rust_item("Real", "struct", "domain/src/lib.rs", "domain", "domain");
    let facts = load(vec![stub, real]);
    assert_eq!(facts.len(), 1);
    assert_eq!(facts[0].name, "Real");
}

#[test]
fn unit_is_dir_path_not_package_name() {
    let item = rust_item(
        "Edge",
        "struct",
        "adapters/rust/src/edges.rs",
        "adapter-rust",
        "adapter_rust::edges",
    );
    let facts = load(vec![item]);
    assert_eq!(facts.len(), 1);
    assert_eq!(facts[0].unit(), Some("adapters/rust"));
    assert_eq!(facts[0].module(), Some("adapters/rust::edges"));
}

#[test]
fn crate_root_collapses_to_unit() {
    let item = rust_item("Foo", "struct", "domain/src/lib.rs", "domain", "domain");
    let facts = load(vec![item]);
    assert_eq!(facts[0].module(), Some("domain"));
    assert_eq!(facts[0].unit(), Some("domain"));
}

#[test]
fn inline_mod_item_is_filtered() {
    let item = rust_item("Inner", "struct", "domain/src/lib.rs", "domain", "domain::inner");
    assert!(load(vec![item]).is_empty());
}

#[test]
fn bin_target_item_is_top_level() {
    let item = rust_item("Cmd", "struct", "mycrate/src/bin/captain.rs", "mycrate", "mycrate::captain");
    let facts = load(vec![item]);
    assert_eq!(facts.len(), 1);
    assert_eq!(facts[0].unit(), Some("mycrate"));
    assert_eq!(facts[0].module(), Some("mycrate::bin::captain"));
}

#[test]
fn item_in_excluded_dir_is_filtered() {
    let item =
        rust_item("Fixture", "struct", "application/tests/cli.rs", "application", "application::cli");
    assert!(load(vec![item]).is_empty());
}

#[test]
fn non_concept_kinds_are_filtered() {
    let f = rust_item("do_it", "fn", "domain/src/lib.rs", "domain", "domain");
    assert!(load(vec![f]).is_empty());
}

#[test]
fn non_pub_item_is_filtered() {
    let item = node(
        "item:Priv",
        "Item",
        vec![
            ("name", s("Priv")),
            ("kind", s("struct")),
            ("crate", s("domain")),
            ("module_qpath", s("domain")),
            ("file", s("/ws/domain/src/lib.rs")),
            ("visibility", s("inherited")),
            ("is_test", PropValue::Bool(false)),
        ],
    );
    assert!(load(vec![item]).is_empty());
}

#[test]
fn a_rust_concept_keeps_its_file_line_and_context() {
    let item = rust_item("Foo", "enum", "domain/src/diff.rs", "domain", "domain::diff");
    let facts = load(vec![item]);
    assert_eq!(facts.len(), 1);
    match &facts[0].source {
        Source::Code { path, line, provenance, location } => {
            assert_eq!(path, "/ws/domain/src/diff.rs");
            assert_eq!(*line, 7);
            assert_eq!(provenance.context.as_deref(), Some("domain"));
            assert_eq!(provenance.module.as_deref(), Some("domain::diff"));
            assert_eq!(*location, LocationKind::Path);
        }
        other => panic!("expected a code source, got {other:?}"),
    }
}

// The PHP keyspace of the edge-traversal fixture.

fn php_item(qname: &str, name: &str, kind: &str, construct: &str, line: i64) -> FactNode {
    node(
        &format!("item:{qname}"),
        "Item",
        vec![
            ("kind", s(kind)),
            ("line", PropValue::Int(line)),
            ("name", s(name)),
            ("php_construct", s(construct)),
            ("qname", s(qname)),
        ],
    )
}

fn php_keyspace() -> (Vec<FactNode>, Vec<FactEdge>) {
    let nodes = vec![
        node("crate:php-workspace", "Crate", vec![("name", s("php-workspace"))]),
        node("module:App\\Catalogue\\Domain", "Module", vec![("name", s("App\\Catalogue\\Domain"))]),
        node("module:App\\Marketing", "Module", vec![("name", s("App\\Marketing"))]),
        php_item("App\\Catalogue\\Domain\\Course", "Course", "trait", "class_declaration", 3),
        php_item(
            "App\\Catalogue\\Domain\\CourseRepository",
            "CourseRepository",
            "trait",
            "interface_declaration",
            3,
        ),
        php_item("App\\Catalogue\\Domain\\Course::rename", "rename", "fn", "method_declaration", 5),
        php_item("App\\Marketing\\Flyer", "Flyer", "trait", "class_declaration", 3),
    ];
    let edges = vec![
        edge("item:App\\Catalogue\\Domain\\Course", "module:App\\Catalogue\\Domain", "IN_MODULE"),
        edge("item:App\\Catalogue\\Domain\\Course", "crate:php-workspace", "IN_CRATE"),
        edge(
            "item:App\\Catalogue\\Domain\\CourseRepository",
            "module:App\\Catalogue\\Domain",
            "IN_MODULE",
        ),
        edge(
            "item:App\\Catalogue\\Domain\\Course::rename",
            "module:App\\Catalogue\\Domain",
            "IN_MODULE",
        ),
        edge("item:App\\Marketing\\Flyer", "module:App\\Marketing", "IN_MODULE"),
    ];
    (nodes, edges)
}

fn surface(units: &[&str]) -> DeclaredSurface {
    DeclaredSurface::from_contexts(&vec![ContextDecl::new(
        "catalogue".to_string(),
        units.iter().map(|u| OwnedUnit((*u).to_string())).collect(),
        Vec::new(),
        Vec::new(),
        Source::Spec {
            format: SpecFormat::Markdown,
            path: "specs/contexts/catalogue.md".to_owned(),
            line: 1,
            context: None,
        },
    )])
    .expect("one context nests nothing")
}

fn read(units: &[&str]) -> Vec<ConceptNode> {
    let (nodes, edges) = php_keyspace();
    keyspace_concepts(KEYSPACE, &surface(units), &nodes, &edges, ROOT).expect("read keyspace")
}

fn names(nodes: &[ConceptNode]) -> Vec<&str> {
    let mut out: Vec<&str> = nodes.iter().map(|n| n.name.as_str()).collect();
    out.sort_unstable();
    out
}

#[test]
fn a_class_and_an_interface_under_a_declared_prefix_are_both_concept_rung() {
    let nodes = read(&["App\\Catalogue"]);
    assert_eq!(names(&nodes), vec!["Course", "CourseRepository"]);
}

#[test]
fn a_method_under_a_declared_class_binds_nothing() {
    let nodes = read(&["App\\Catalogue"]);
    assert!(!names(&nodes).contains(&"rename"));
}

#[test]
fn a_class_outside_every_declared_prefix_binds_nothing() {
    let nodes = read(&["App\\Catalogue"]);
    assert!(!names(&nodes).contains(&"Flyer"));
}

#[test]
fn a_second_declared_prefix_admits_its_own_class() {
    let nodes = read(&["App\\Catalogue", "App\\Marketing"]);
    assert_eq!(names(&nodes), vec!["Course", "CourseRepository", "Flyer"]);
}

#[test]
fn containment_is_read_by_edge_traversal_not_by_a_prop() {
    let nodes = read(&["App\\Catalogue"]);
    let course = nodes.iter().find(|n| n.name == "Course").expect("Course emitted");
    assert_eq!(course.module(), Some("App\\Catalogue\\Domain"));
    assert_eq!(course.unit(), Some("App\\Catalogue"));
}

#[test]
fn an_empty_surface_admits_nothing_and_the_keyspace_is_not_at_fault() {
    let nodes = read(&[]);
    assert!(nodes.is_empty());
}

#[test]
fn a_construct_ratified_as_below_the_rung_is_not_refused() {
    let nodes = vec![
        php_item("App\\A\\Told", "Told", "trait", "class_declaration", 1),
        php_item("App\\A\\Mix", "Mix", "trait", "trait_declaration", 1),
        php_item("App\\slugify", "slugify", "fn", "function_definition", 1),
    ];
    let out = keyspace_concepts(KEYSPACE, &surface(&["App\\A"]), &nodes, &Vec::new(), ROOT)
        .expect("read keyspace");
    assert_eq!(names(&out), vec!["Told"]);
}

fn read_err(nodes: Vec<FactNode>) -> String {
    match keyspace_concepts(KEYSPACE, &surface(&["App\\A"]), &nodes, &Vec::new(), ROOT) {
        Err(ReaderError::ParseFailed { path, line, message }) => format!("{path}:{line}: {message}"),
        other => panic!("expected a refusal, got {other:?}"),
    }
}

#[test]
fn a_php_construct_value_the_reader_does_not_know_is_refused_not_dropped() {
    let err = read_err(vec![
        php_item("App\\A\\Told", "Told", "trait", "class_declaration", 1),
        php_item("App\\A\\Level", "Level", "trait", "enum_declaration", 1),
    ]);
    assert!(err.contains("App\\A\\Level"), "{err}");
    assert!(err.contains("enum_declaration"), "{err}");
}

#[test]
fn a_php_item_with_no_php_construct_is_refused_naming_the_item() {
    let untold = node(
        "item:App\\A\\Untold",
        "Item",
        vec![("kind", s("trait")), ("name", s("Untold")), ("qname", s("App\\A\\Untold"))],
    );
    let err = read_err(vec![php_item("App\\A\\Told", "Told", "trait", "class_declaration", 1), untold]);
    assert!(err.contains("App\\A\\Untold"), "{err}");
    assert!(err.contains("no `php_construct`"), "{err}");
}

#[test]
fn the_php_keyspace_counts_its_concept_rung_items() {
    let (nodes, _) = php_keyspace();
    assert_eq!(keyspace_concept_rung_items(KEYSPACE, &nodes), Ok(3));
    let rust = vec![rust_item("Foo", "struct", "domain/src/lib.rs", "domain", "domain")];
    assert_eq!(keyspace_concept_rung_items(KEYSPACE, &rust), Ok(0));
}

#[test]
fn a_php_method_on_the_surface_is_a_pub_fn_keyed_by_class_and_method() {
    let (nodes, _) = php_keyspace();
    let fns = keyspace_pub_fns(KEYSPACE, &surface(&["App\\Catalogue"]), &nodes).expect("pub fns");
    assert_eq!(fns.len(), 1);
    assert_eq!(fns[0].name, "Course::rename");
    assert_eq!(fns[0].owned_unit.as_deref(), Some("App\\Catalogue"));
    match &fns[0].source {
        Source::Code { path, line, location, .. } => {
            assert_eq!(path, "App\\Catalogue\\Domain");
            assert_eq!(*line, 5);
            assert_eq!(*location, LocationKind::Namespace);
        }
        other => panic!("expected a code source, got {other:?}"),
    }
    let none = keyspace_pub_fns(KEYSPACE, &surface(&["App\\Marketing"]), &nodes).expect("pub fns");
    assert!(none.is_empty());
}

// Relationships of a Rust keyspace.

fn rel_item(id: &str, name: &str, kind: &str, extra: Vec<(&str, PropValue)>) -> FactNode {
    let mut props = vec![
        ("kind", s(kind)),
        ("name", s(name)),
        ("qname", s(id)),
        ("visibility", s("pub")),
        ("is_test", PropValue::Bool(false)),
        ("line", PropValue::Int(1)),
        ("file", s("/ws/domain/src/lib.rs")),
        ("module_qpath", s("domain")),
        ("crate", s("domain")),
        ("bounded_context", s("equivalence")),
    ];
    props.extend(extra);
    node(&format!("item:{id}"), "Item", props)
}

fn field(parent: &str, name: &str, ty: &str) -> FactNode {
    node(
        &format!("field:{parent}.{name}"),
        "Field",
        vec![
            ("index", PropValue::Int(0)),
            ("name", s(name)),
            ("parent_qname", s(parent)),
            ("type_path", s(ty)),
            ("type_normalized", s(ty)),
        ],
    )
}

fn rel_read(nodes: Vec<FactNode>, edges: Vec<FactEdge>) -> Vec<graph_specs::graph::Edge> {
    keyspace_relationships("rust.json", &DeclaredSurface::empty(), &nodes, &edges, "/ws").expect("relationships")
}

fn pairs(edges: &[graph_specs::graph::Edge]) -> Vec<(String, &'static str, String)> {
    edges.iter().map(|e| (e.source_concept.name.clone(), e.kind.as_label(), e.target.name.clone())).collect()
}

#[test]
fn the_impl_block_join_yields_a_type_to_trait_edge() {
    let nodes = vec![
        rel_item("domain::Walker", "Walker", "struct", vec![]),
        rel_item("domain::Reader", "Reader", "trait", vec![]),
        rel_item("domain::Walker::impl_Reader", "impl", "impl_block", vec![]),
    ];
    let edges = vec![
        edge("item:domain::Walker::impl_Reader", "item:domain::Walker", "IMPLEMENTS_FOR"),
        edge("item:domain::Walker::impl_Reader", "item:domain::Reader", "IMPLEMENTS"),
    ];
    assert_eq!(
        pairs(&rel_read(nodes, edges)),
        vec![("Walker".to_owned(), "IMPLEMENTS", "Reader".to_owned())],
        "cfdb routes both ends through the impl block; the ACL joins them into the walk's shape"
    );
}

#[test]
fn an_implements_edge_without_its_implements_for_partner_yields_nothing() {
    let nodes = vec![
        rel_item("domain::Reader", "Reader", "trait", vec![]),
        rel_item("domain::Walker::impl_Reader", "impl", "impl_block", vec![]),
    ];
    let edges = vec![edge("item:domain::Walker::impl_Reader", "item:domain::Reader", "IMPLEMENTS")];
    assert!(rel_read(nodes, edges).is_empty(), "the join needs both halves; half an impl block names no type");
}

#[test]
fn a_field_type_the_producer_records_yields_a_depends_on_edge() {
    let nodes = vec![
        rel_item("domain::Holder", "Holder", "struct", vec![]),
        rel_item("domain::Held", "Held", "struct", vec![]),
        field("domain::Holder", "item", "Held"),
    ];
    assert_eq!(pairs(&rel_read(nodes, vec![])), vec![("Holder".to_owned(), "DEPENDS_ON", "Held".to_owned())]);
}

#[test]
fn a_generic_argument_is_carried_when_the_producer_records_the_whole_type() {
    let nodes = vec![
        rel_item("domain::Holder", "Holder", "struct", vec![]),
        rel_item("domain::Held", "Held", "struct", vec![]),
        field("domain::Holder", "items", "Vec<Held>"),
    ];
    assert_eq!(
        pairs(&rel_read(nodes, vec![])),
        vec![("Holder".to_owned(), "DEPENDS_ON", "Held".to_owned())],
        "the head rule reads every head in the type expression, as the source walk does"
    );
}

#[test]
fn a_qualified_path_names_its_last_segment_not_its_crate() {
    let nodes = vec![
        rel_item("domain::Holder", "Holder", "struct", vec![]),
        rel_item("domain::Held", "Held", "struct", vec![]),
        field("domain::Holder", "item", "other::Held"),
    ];
    assert_eq!(pairs(&rel_read(nodes, vec![])), vec![("Holder".to_owned(), "DEPENDS_ON", "Held".to_owned())]);
}

#[test]
fn a_field_type_naming_nothing_in_the_workspace_yields_no_edge() {
    let nodes = vec![rel_item("domain::Holder", "Holder", "struct", vec![]), field("domain::Holder", "item", "HashMap")];
    assert!(
        rel_read(nodes, vec![]).is_empty(),
        "the walk drops an edge whose target is no concept, and so does the translation"
    );
}

#[test]
fn a_signature_return_yields_a_returns_edge_from_its_owner() {
    let nodes = vec![
        rel_item("domain::Walker", "Walker", "struct", vec![]),
        rel_item("domain::Graph", "Graph", "struct", vec![]),
        rel_item("domain::Walker::walk", "walk", "method", vec![("signature", s("fn(&self) -> Graph"))]),
    ];
    assert_eq!(
        pairs(&rel_read(nodes, vec![])),
        vec![("Walker".to_owned(), "RETURNS", "Graph".to_owned())],
        "cfdb attributes the return to the function; the walk attributes it to the owning concept"
    );
}

#[test]
fn a_return_types_inner_heads_are_depends_on_edges_from_the_owner() {
    let nodes = vec![
        rel_item("domain::Walker", "Walker", "struct", vec![]),
        rel_item("domain::Graph", "Graph", "struct", vec![]),
        rel_item("domain::Fault", "Fault", "enum", vec![]),
        rel_item("domain::Walker::walk", "walk", "method", vec![("signature", s("fn(&self) -> Result<Graph, Fault>"))]),
    ];
    assert_eq!(
        pairs(&rel_read(nodes, vec![])),
        vec![
            ("Walker".to_owned(), "DEPENDS_ON", "Graph".to_owned()),
            ("Walker".to_owned(), "DEPENDS_ON", "Fault".to_owned()),
        ],
        "`Result` is no concept, so its RETURNS edge is dropped"
    );
}

// Producer discrimination.

#[test]
fn a_keyspace_whose_items_carry_no_producer_mark_is_a_could_not_run() {
    let nodes = vec![
        node("item:App\\Service\\Foo", "Item", vec![("name", s("Foo")), ("qname", s("App\\Service\\Foo"))]),
        node("item:App\\Service\\Bar", "Item", vec![("name", s("Bar")), ("qname", s("App\\Service\\Bar"))]),
    ];
    let edges = vec![edge("item:App\\Service\\Foo", "module:App\\Service", "IN_MODULE")];
    let err = keyspace_concepts("php.json", &DeclaredSurface::empty(), &nodes, &edges, "/some/php/root")
        .expect_err("an undiscriminated keyspace is refused, never read as the other producer");
    let ReaderError::ParseFailed { path, line, message } = err else {
        panic!("expected a parse failure")
    };
    assert_eq!(path, "php.json");
    assert_eq!(line, 0);
    assert!(message.contains("could not run the concept channel"), "{message}");
    assert!(message.contains("App\\Service\\Foo"), "{message}");
    assert!(message.contains("php_construct"), "{message}");
    assert!(message.contains("bounded_context"), "{message}");
}

#[test]
fn a_keyspace_carrying_two_producers_marks_refuses_naming_both() {
    let nodes = vec![
        node(
            "item:App\\Service\\Foo",
            "Item",
            vec![
                ("name", s("Foo")),
                ("qname", s("App\\Service\\Foo")),
                ("php_construct", s("class_declaration")),
            ],
        ),
        node(
            "item:domain::Thing",
            "Item",
            vec![
                ("name", s("Thing")),
                ("qname", s("domain::Thing")),
                ("crate", s("domain")),
                ("bounded_context", s("equivalence")),
            ],
        ),
    ];
    let err = keyspace_concepts("mixed.json", &DeclaredSurface::empty(), &nodes, &Vec::new(), ROOT)
        .expect_err("one producer per keyspace");
    let ReaderError::ParseFailed { message, .. } = err else { panic!("expected a parse failure") };
    assert!(message.contains("two producers"), "{message}");
    assert!(message.contains("php"), "{message}");
    assert!(message.contains("rust"), "{message}");
}

// The anchor index over a keyspace.

fn anchor_item(i: usize, name: &str, kind: &str, vis: &str, qname: &str) -> FactNode {
    node(
        &format!("item:{i}"),
        "Item",
        vec![
            ("name", s(name)),
            ("kind", s(kind)),
            ("visibility", s(vis)),
            ("qname", s(qname)),
            ("file", s(&format!("{ROOT}/src/lib.rs"))),
            ("is_test", PropValue::Bool(false)),
            ("line", PropValue::Int(7)),
        ],
    )
}

#[test]
fn resolves_pub_crate_fn_at_any_visibility() {
    let r = CfdbAnchorResolver::index(
        &vec![anchor_item(0, "validate_intake", "fn", "private", "krate::validate_intake")],
        ROOT,
    );
    assert_eq!(r.resolve("validate_intake").expect("resolved").kind, AnchorKind::Fn);
}

#[test]
fn resolves_type_and_const_kinds() {
    let r = CfdbAnchorResolver::index(
        &vec![
            anchor_item(0, "Hidden", "struct", "private", "krate::Hidden"),
            anchor_item(1, "LIMIT", "const", "private", "krate::LIMIT"),
        ],
        ROOT,
    );
    assert_eq!(r.resolve("Hidden").expect("ty").kind, AnchorKind::Type);
    assert_eq!(r.resolve("LIMIT").expect("const").kind, AnchorKind::Const);
}

#[test]
fn resolves_method_under_two_segment_key() {
    let r = CfdbAnchorResolver::index(
        &vec![anchor_item(0, "bar", "method", "private", "krate::Foo::bar")],
        ROOT,
    );
    assert_eq!(r.resolve("Foo::bar").expect("method").kind, AnchorKind::Fn);
    assert!(r.resolve("krate::Foo::bar").is_none());
}

#[test]
fn impl_block_and_absent_are_not_resolvable() {
    let r = CfdbAnchorResolver::index(
        &vec![anchor_item(0, "impl Foo", "impl_block", "private", "krate::Foo::impl")],
        ROOT,
    );
    assert!(r.resolve("impl Foo").is_none());
    assert!(r.resolve("absent").is_none());
}

#[test]
fn test_gated_and_stub_items_are_skipped() {
    let test_gated = node(
        "item:0",
        "Item",
        vec![
            ("name", s("only_in_test")),
            ("kind", s("fn")),
            ("visibility", s("pub")),
            ("qname", s("krate::only_in_test")),
            ("file", s(&format!("{ROOT}/src/lib.rs"))),
            ("is_test", PropValue::Bool(true)),
            ("line", PropValue::Int(1)),
        ],
    );
    let stub = node(
        "item:1",
        "Item",
        vec![("name", s("Synthetic")), ("kind", s("struct")), ("visibility", s("pub"))],
    );
    let r = CfdbAnchorResolver::index(&vec![test_gated, stub], ROOT);
    assert!(r.resolve("only_in_test").is_none());
    assert!(r.resolve("Synthetic").is_none());
}

#[test]
fn a_php_method_anchors_under_class_and_method_at_its_namespace() {
    let method = node(
        "item:0",
        "Item",
        vec![
            ("name", s("rename")),
            ("kind", s("fn")),
            ("qname", s("App\\Catalogue\\Domain\\Course::rename")),
            ("php_construct", s("method_declaration")),
            ("line", PropValue::Int(5)),
        ],
    );
    let r = CfdbAnchorResolver::index(&vec![method], ROOT);
    let t = r.resolve("Course::rename").expect("php method");
    assert_eq!(t.kind, AnchorKind::Fn);
    match &t.source {
        Source::Code { path, line, location, .. } => {
            assert_eq!(path, "App\\Catalogue\\Domain");
            assert_eq!(*line, 5);
            assert_eq!(*location, LocationKind::Namespace);
        }
        other => panic!("expected a code source, got {other:?}"),
    }
}

#[test]
fn the_walk_and_the_keyspace_give_one_module_path() {
    let file = "/ws/mycrate/src/bin/captain.rs";
    let rel = graph_specs::keyspace::relativize(file, "/ws");
    assert_eq!(rel, "mycrate/src/bin/captain.rs");
    let via_keyspace = graph_specs::paths::module_path_of_rel(&rel, "mycrate");
    let via_walk = graph_specs::paths::module_path_of(file, "/ws", Some("mycrate"));
    assert_eq!(via_walk.as_deref(), Some("mycrate::bin::captain"));
    assert_eq!(via_walk, Some(via_keyspace));
}

#[test]
fn a_root_with_a_trailing_slash_or_backslashes_gives_one_module_path() {
    for root in ["/ws/", "C:\\ws\\"] {
        let file = format!("{root}/mycrate/src/a/mod.rs");
        let rel = graph_specs::keyspace::relativize(&file, root);
        assert_eq!(rel, "mycrate/src/a/mod.rs");
        let via_keyspace = graph_specs::paths::module_path_of_rel(&rel, "mycrate");
        let via_walk = graph_specs::paths::module_path_of(&file, root, Some("mycrate"));
        assert_eq!(via_walk.as_deref(), Some("mycrate::a"));
        assert_eq!(via_walk, Some(via_keyspace));
    }
}

#[test]
fn a_dot_component_parts_the_walk_from_the_keyspace() {
    let file = "/ws/./mycrate/src/x.rs";
    let rel = graph_specs::keyspace::relativize(file, "/ws");
    let via_keyspace = graph_specs::paths::module_path_of_rel(&rel, "mycrate");
    let via_walk = graph_specs::paths::module_path_of(file, "/ws", Some("mycrate"));
    assert_eq!(via_walk.as_deref(), Some("mycrate::x"));
    assert_eq!(via_keyspace, "mycrate::.::mycrate::src::x");
}
