use graph_specs::assembly::{
    ambiguous_ownership, declared_contexts_per_document, surface_admits_nothing, union_spec_graphs,
};
use graph_specs::graph::{ConceptNode, Edge, Graph, SignatureState};
use graph_specs::keyspace::{FactEdge, FactNode, PropValue};
use graph_specs::keyspace_reader::keyspace_relationships;
use graph_specs::markdown::reader::{assemble_spec_trees, LoadedFile};
use graph_specs::model::{
    ContextDecl, EdgeKind, LocationKind, OwnedUnit, ReaderError, Source, SpecFormat,
};
use graph_specs::outcome::{exit_code_for, CheckOutcome, ContextViolation, DiffSide, Violation};
use graph_specs::php::php_walk_skips;
use graph_specs::rust_syntax::{collapse_trailing_commas, walk_skips};
use graph_specs::surface::DeclaredSurface;

fn spec_at(path: &str, line: usize) -> Source {
    Source::Spec { format: SpecFormat::Markdown, path: path.to_owned(), line, context: None }
}

fn node(name: &str, source: Source, signature: SignatureState) -> ConceptNode {
    ConceptNode::new(name.to_owned(), source, signature)
}

fn context(name: &str, units: &[&str]) -> ContextDecl {
    ContextDecl::new(
        name.to_owned(),
        units.iter().map(|u| OwnedUnit((*u).to_owned())).collect(),
        Vec::new(),
        Vec::new(),
        spec_at(&format!("specs/contexts/{name}.md"), 1),
    )
}

#[test]
fn the_attribute_channel_joins_the_markdown_graph_and_reports_drift_within_the_spec_side() {
    let mut markdown = Graph::new(
        vec![
            node("Course", spec_at("specs/concepts/catalogue.md", 3), SignatureState::Normalized("class Course".into())),
            node("Order", spec_at("specs/concepts/catalogue.md", 9), SignatureState::Absent),
        ],
        Vec::new(),
    );
    let attr_site = |line| Source::Spec {
        format: SpecFormat::InlineAttribute,
        path: "src/Course.php".to_owned(),
        line,
        context: None,
    };
    let attribute = Graph::new(
        vec![
            node("Course", attr_site(4), SignatureState::Normalized("final class Course".into())),
            node("Order", attr_site(7), SignatureState::Normalized("class Order".into())),
            node("Receipt", attr_site(12), SignatureState::Absent),
        ],
        vec![Edge {
            source_concept: graph_specs::graph::ConceptRef::named("Receipt".into()),
            kind: EdgeKind::Implements,
            target: graph_specs::graph::ConceptRef::named("Printable".into()),
            raw_target: "Printable".into(),
            source: attr_site(12),
        }],
    );
    let drift = union_spec_graphs(&mut markdown, attribute);
    let names: Vec<&str> = markdown.nodes.iter().map(|n| n.name.as_str()).collect();
    assert_eq!(names, vec!["Course", "Order", "Receipt"], "markdown nodes stay first; new ones follow");
    assert_eq!(markdown.nodes[1].signature, SignatureState::Absent, "the markdown node is kept");
    assert_eq!(markdown.edges.len(), 1);
    assert_eq!(drift.len(), 1, "only two normalized signatures that differ drift: {drift:?}");
    match &drift[0] {
        Violation::SignatureDriftWithinSide { name, side, sources } => {
            assert_eq!(name, "Course");
            assert_eq!(*side, DiffSide::Spec);
            assert_eq!(sources[0].sig, "class Course");
            assert_eq!(sources[1].sig, "final class Course");
        }
        other => panic!("expected a drift, got {other:?}"),
    }
}

#[test]
fn a_concept_takes_the_context_its_own_document_declares() {
    let files = vec![
        LoadedFile { path: "specs/concepts/reading.md".into(), text: "# reading\n\n## Reader\n".into() },
        LoadedFile { path: "specs/concepts/equivalence.md".into(), text: "# equivalence\n\n## Reader\n".into() },
    ];
    let trees = assemble_spec_trees(&files).expect("trees");
    let nodes = vec![
        node("Reader", spec_at("specs/concepts/equivalence.md", 3), SignatureState::Absent),
        node("Reader", spec_at("specs/concepts/reading.md", 3), SignatureState::Absent),
        node("Stray", spec_at("specs/concepts/other.md", 3), SignatureState::Absent),
    ];
    let out = declared_contexts_per_document(nodes, &trees);
    assert_eq!(out[0].declared_context.as_deref(), Some("equivalence"));
    assert_eq!(out[1].declared_context.as_deref(), Some("reading"));
    assert_eq!(out[2].declared_context, None);
}

#[test]
fn a_surface_that_admits_nothing_of_a_keyspace_with_rung_items_ends_the_run() {
    let contexts = vec![context("catalogue", &["App\\Catalogue", "App\\Shop"]), context("billing", &["App\\Billing"])];
    let outcome = surface_admits_nothing(true, 4, &contexts, "ks.json").expect("ends the run");
    assert_eq!(outcome.violations.len(), 1);
    match &outcome.violations[0] {
        Violation::Context(ContextViolation::SurfaceAdmitsNothing { declared_prefixes, concept_rung_items, keyspace }) => {
            let prefixes: Vec<&str> = declared_prefixes.iter().map(|u| u.0.as_str()).collect();
            assert_eq!(prefixes, vec!["App\\Catalogue", "App\\Shop", "App\\Billing"]);
            assert_eq!(*concept_rung_items, 4);
            assert_eq!(keyspace, "ks.json");
        }
        other => panic!("expected the surface finding, got {other:?}"),
    }
    assert_eq!(exit_code_for(&outcome), 1);
    assert!(surface_admits_nothing(false, 4, &contexts, "ks.json").is_none());
    assert!(surface_admits_nothing(true, 0, &contexts, "ks.json").is_none());
}

#[test]
fn ownership_that_nests_across_contexts_is_refused_by_name() {
    let err = DeclaredSurface::from_contexts(&vec![context("outer", &["App"]), context("inner", &["App\\Catalogue"])])
        .expect_err("nested across contexts");
    assert_eq!(err.outer_context, "outer");
    assert_eq!(err.inner_context, "inner");
    match ambiguous_ownership("ks.json", &err) {
        ReaderError::ParseFailed { path, line, message } => {
            assert_eq!(path, "ks.json");
            assert_eq!(line, 0);
            assert!(message.starts_with("could not run the declared surface: context `outer` owns `App` and context `inner` owns `App\\Catalogue`"), "{message}");
        }
        other => panic!("expected a parse failure, got {other:?}"),
    }
    let ok = DeclaredSurface::from_contexts(&vec![context("one", &["App", "App\\Catalogue"])]).expect("one context");
    assert_eq!(ok.unit_of("App\\Catalogue\\Course"), Some("App\\Catalogue"), "the longest prefix owns it");
    assert_eq!(ok.unit_of("App\\Other"), Some("App"));
    assert_eq!(ok.unit_of("Application\\Thing"), None, "a prefix owns at a namespace boundary");
}

fn s(v: &str) -> PropValue {
    PropValue::Str(v.to_owned())
}

fn item(qname: &str, name: &str, construct: &str, file: &str) -> FactNode {
    FactNode {
        id: format!("item:{qname}"),
        label: "Item".into(),
        props: vec![
            ("name".into(), s(name)),
            ("php_construct".into(), s(construct)),
            ("qname".into(), s(qname)),
            ("file".into(), s(file)),
        ],
    }
}

#[test]
fn an_import_or_a_call_across_units_is_one_crossing_per_pair() {
    let nodes = vec![
        item("App\\Catalogue\\Course", "Course", "class_declaration", "src/Catalogue/Course.php"),
        item("App\\Billing\\Invoice", "Invoice", "class_declaration", "src/Billing/Invoice.php"),
        item("App\\Billing\\Invoice::bill", "bill", "method_declaration", "src/Billing/Invoice.php"),
        item("App\\Catalogue\\Course::price", "price", "method_declaration", "src/Catalogue/Course.php"),
        FactNode {
            id: "import:1".into(),
            label: "Import".into(),
            props: vec![
                ("fqn".into(), s("\\App\\Billing\\Invoice")),
                ("file".into(), s("src/Catalogue/Course.php")),
                ("line".into(), PropValue::Int(5)),
            ],
        },
        FactNode {
            id: "import:2".into(),
            label: "Import".into(),
            props: vec![
                ("fqn".into(), s("\\App\\Catalogue\\Course")),
                ("file".into(), s("src/Catalogue/Course.php")),
                ("line".into(), PropValue::Int(6)),
            ],
        },
    ];
    let edges = vec![FactEdge {
        src: "item:App\\Catalogue\\Course::price".into(),
        dst: "item:App\\Billing\\Invoice::bill".into(),
        label: "CALLS".into(),
    }];
    let surface = DeclaredSurface::from_contexts(&vec![
        context("catalogue", &["App\\Catalogue"]),
        context("billing", &["App\\Billing"]),
    ])
    .expect("surface");
    let rels = keyspace_relationships("ks.json", &surface, &nodes, &edges, "/ws").expect("relationships");
    assert_eq!(rels.len(), 1, "{rels:?}");
    let e = &rels[0];
    assert_eq!(e.kind, EdgeKind::Uses);
    assert_eq!(e.source_concept.name, "Course");
    assert_eq!(e.target.name, "Invoice");
    assert_eq!(e.source_concept.unit.as_ref().map(|u| u.0.as_str()), Some("App\\Catalogue"));
    assert_eq!(e.target.unit.as_ref().map(|u| u.0.as_str()), Some("App\\Billing"));
    match &e.source {
        Source::Code { line, location, .. } => {
            assert_eq!(*line, 0, "the call's pair sorts before the import's");
            assert_eq!(*location, LocationKind::Namespace);
        }
        other => panic!("expected a code source, got {other:?}"),
    }
}

#[test]
fn the_exit_code_tells_clean_from_drift_from_unreadable() {
    let mut outcome = CheckOutcome::empty();
    assert_eq!(exit_code_for(&outcome), 0);
    outcome.violations.push(Violation::MissingInCode { name: "Foo".into(), spec_source: spec_at("a.md", 1) });
    assert_eq!(exit_code_for(&outcome), 1);
    outcome.violations.push(Violation::SignatureUnparseable {
        name: "Bar".into(),
        raw: "fn (".into(),
        error: "expected identifier".into(),
        source: spec_at("a.md", 2),
    });
    assert_eq!(exit_code_for(&outcome), 2);
}

#[test]
fn walk_filters_and_comma_collapsing() {
    assert!(walk_skips(true, "target", None));
    assert!(walk_skips(true, "build-out", Some("Signature: 8a477f597d28d172789f06886806bc55")));
    assert!(!walk_skips(true, "build-out", Some("Signature: not-a-cache")));
    assert!(!walk_skips(false, "target", None), "a file is never skipped as a directory");
    assert!(!walk_skips(true, "targets", None));
    assert!(php_walk_skips("vendor"));
    assert!(php_walk_skips(".git"));
    assert!(!php_walk_skips("src"));
    assert_eq!(collapse_trailing_commas("struct A { x : u8 , }"), "struct A { x : u8 }");
    assert_eq!(collapse_trailing_commas("fn f (a : u8 , )"), "fn f (a : u8 )");
    assert_eq!(collapse_trailing_commas("fn f (a : u8)"), "fn f (a : u8)");
}
