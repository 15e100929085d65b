use graph_specs::check::{code_facts, code_side, read_check, CheckInput, CodeInput, CodeSide, Reading};
use graph_specs::graph::SignatureState;
use graph_specs::keyspace::{FactEdge, FactNode, PropValue};
use graph_specs::markdown::grounding::{ParsedSpec, Site};
use graph_specs::markdown::reader::{walk_contexts, LoadedFile, MarkdownReader};
use graph_specs::markdown::section::SignatureNormalizer;
use graph_specs::model::{EdgeKind, ReaderError, Source, SpecFormat};
use graph_specs::outcome::{ContextViolation, DiffSide, Violation};
use graph_specs::php::Attributed;
use graph_specs::php_grammar::{attributed_source, normalize_php};
use graph_specs::rust_syntax::{
    rust_graph, rust_source, ItemShape, RustItem, RustSource, ItemVisibility,
};
use graph_specs::surface::DeclaredSurface;
use graph_specs::rust_signature::normalize_rust;

/// Normalizes a `rust` block as the library does.
struct RustItems;

impl SignatureNormalizer for RustItems {
    fn normalize(&self, _tag: &str, block: &str) -> Result<String, String> {
        normalize_rust(block)
    }
}

/// The dialect parse of a document: its `##` and `###` headings outside
/// fences, each a site under its own text.
fn parse(text: &str) -> ParsedSpec {
    let mut sites = Vec::new();
    let mut fenced = false;
    for (i, line) in text.lines().enumerate() {
        if line.starts_with("```") {
            fenced = !fenced;
            continue;
        }
        let level = line.chars().take_while(|c| *c == '#').count();
        if !fenced && (2..=3).contains(&level) && line[level..].starts_with(' ') {
            sites.push(Site { name: line[level..].trim().to_owned(), line: i + 1, level });
        }
    }
    ParsedSpec {
        sites,
        concepts: vec![],
        unclosed_fences: vec![],
        malformed_headings: vec![],
        orphans: vec![],
        malformed_frontmatter: vec![],
        malformed: vec![],
    }
}

fn files(specs: &[(&str, &str)]) -> Vec<LoadedFile> {
    specs.iter().map(|(p, t)| LoadedFile { path: format!("specs/{p}"), text: (*t).to_owned() }).collect()
}

fn php_source(path: &str, source: &str) -> (String, Vec<Attributed>) {
    (path.to_owned(), attributed_source(source))
}

/// Reads a `php` block through the PHP grammar and a `rust` block as a syn
/// item, printed.
struct Fences;

impl SignatureNormalizer for Fences {
    fn normalize(&self, tag: &str, block: &str) -> Result<String, String> {
        match tag {
            "php" => normalize_php(block),
            _ => RustItems.normalize(tag, block),
        }
    }
}

fn read_fences(spec: &str, php: Vec<(String, Vec<Attributed>)>) -> CheckInput {
    let loaded = files(&[("concepts/orders.md", spec)]);
    let parsed: Vec<ParsedSpec> = loaded.iter().map(|f| parse(&f.text)).collect();
    let reader = MarkdownReader::new(vec!["rust".to_owned(), "php".to_owned()]);
    match read_check(&reader, &loaded, &parsed, &Fences, &php, &orders_code()) {
        Ok(Reading::Compare(input)) => input,
        Ok(Reading::Settled(o)) => panic!("unexpected settlement: {:?}", o.violations),
        Err(e) => panic!("unexpected refusal: {e:?}"),
    }
}

fn order_service_signature(input: &CheckInput) -> SignatureState {
    input
        .specs_graph
        .nodes
        .iter()
        .find(|n| n.name == "OrderService")
        .expect("the concept is read")
        .signature
        .clone()
}

fn unit_struct(name: &str, line: usize) -> RustItem {
    RustItem {
        shape: ItemShape::Struct,
        vis: ItemVisibility::Public,
        cfg_metas: vec![],
        test_gated: false,
        ident: name.to_owned(),
        line,
        signature: format!("pub struct {name} ;"),
        field_types: vec![],
        fns: vec![],
        self_ty: None,
        trait_path: None,
    }
}

fn sources(root: &str, path: &str, manifest_dirs: &[&str], items: Vec<RustItem>) -> Vec<RustSource> {
    let dirs: Vec<String> = manifest_dirs.iter().map(|d| format!("{root}/{d}")).collect();
    vec![rust_source(format!("{root}/{path}"), root, &dirs, items)]
}

fn read(specs: &[(&str, &str)], php: Vec<(String, Vec<Attributed>)>, code: CodeInput) -> Result<Reading, ReaderError> {
    let loaded = files(specs);
    let parsed: Vec<ParsedSpec> = loaded.iter().map(|f| parse(&f.text)).collect();
    read_check(&MarkdownReader::new(vec!["rust".to_owned()]), &loaded, &parsed, &RustItems, &php, &code)
}

fn nested_declarations() -> Vec<(&'static str, &'static str)> {
    vec![
        ("concepts/core.md", "# outer\n\n## Clock\n\nThe clock.\n"),
        ("contexts/outer.md", "# outer\n\n## Owns\n\n- domain\n\n## Exports (Published Language)\n\n## Imports\n"),
        ("contexts/inner.md", "# inner\n\n## Owns\n\n- domain/enrolment\n\n## Exports (Published Language)\n\n## Imports\n"),
    ]
}

fn enrolment_code() -> CodeInput {
    CodeInput::Sources {
        root: "code".to_owned(),
        files: sources("code", "domain/enrolment/src/lib.rs", &["domain/enrolment"], vec![unit_struct("Clock", 1)]),
    }
}

#[test]
fn the_source_walk_path_refuses_nested_prefixes() {
    let error = match read(&nested_declarations(), vec![], enrolment_code()) {
        Err(e) => e,
        Ok(_) => panic!("two contexts nesting their prefixes have no declared surface"),
    };
    let ReaderError::ParseFailed { message, .. } = error else { panic!("a parse refusal") };
    assert!(
        message.contains("could not run the declared surface"),
        "the source-walk path refuses with the same sentence the keyspace path prints: {message}"
    );
    assert!(message.contains("`outer`") && message.contains("`inner`"), "and names both contexts: {message}");
    assert!(
        message.contains("`domain`") && message.contains("`domain/enrolment`"),
        "and both prefixes: {message}"
    );
}

#[test]
fn a_well_formed_declaration_still_runs_on_the_source_walk_path() {
    let specs = vec![
        ("concepts/core.md", "# outer\n\n## Clock\n\nThe clock.\n"),
        ("contexts/outer.md", "# outer\n\n## Owns\n\n- domain\n\n## Exports (Published Language)\n\n## Imports\n"),
    ];
    let Ok(Reading::Compare(input)) = read(&specs, vec![], enrolment_code()) else {
        panic!("one context owning a prefix is not an ambiguity")
    };
    assert!(input.spec_findings.is_empty(), "{:?}", input.spec_findings);
    assert!(input.spec_cohesion.is_empty(), "{:?}", input.spec_cohesion);
    assert_eq!(input.specs_graph.nodes.len(), 1);
    assert_eq!(input.specs_graph.nodes[0].name, "Clock");
    assert_eq!(input.specs_graph.nodes[0].declared_context.as_deref(), Some("outer"));
    assert_eq!(input.code_graph.nodes.len(), 1);
    assert_eq!(input.code_graph.nodes[0].name, "Clock");
    assert_eq!(input.spec_contexts.len(), 1);
}

#[test]
fn the_keyspace_path_refuses_nested_prefixes_naming_the_keyspace() {
    let code = CodeInput::Keyspace { path: "ks.json".to_owned(), root: "/ws".to_owned(), nodes: vec![], edges: vec![] };
    match read(&nested_declarations(), vec![], code) {
        Err(ReaderError::ParseFailed { path, line, message }) => {
            assert_eq!(path, "ks.json");
            assert_eq!(line, 0);
            assert!(message.starts_with("could not run the declared surface: context `outer` owns `domain` and context `inner` owns `domain/enrolment`"), "{message}");
        }
        other => panic!("expected the ambiguity refusal, got {:?}", other.err()),
    }
}

fn orders_spec() -> Vec<(&'static str, &'static str)> {
    vec![("concepts/orders.md", "# orders\n\n## OrderService\n\n```rust\nfn place(&self) {}\n```\n")]
}

fn orders_code() -> CodeInput {
    CodeInput::Sources {
        root: "code".to_owned(),
        files: sources("code", "src/lib.rs", &[""], vec![unit_struct("OrderService", 1)]),
    }
}

#[test]
fn the_attribute_channel_and_the_markdown_spec_disagreeing_raises_the_within_side_record() {
    let php = vec![php_source(
        "code/src/Orders/OrderService.php",
        "<?php\n\n#[Spec(signature: \"fn place(&self, o: Order)\")]\nclass OrderService {}\n",
    )];
    let Ok(Reading::Compare(input)) = read(&orders_spec(), php, orders_code()) else { panic!("the check runs") };
    let drift: Vec<&Violation> =
        input.spec_findings.iter().filter(|v| matches!(v, Violation::SignatureDriftWithinSide { .. })).collect();
    assert_eq!(drift.len(), 1, "{:?}", input.spec_findings);
    let Violation::SignatureDriftWithinSide { name, side, sources } = drift[0] else { unreachable!() };
    assert_eq!(name, "OrderService");
    assert_eq!(*side, DiffSide::Spec);
    assert_eq!(sources.len(), 2);
    assert!(
        matches!(sources[0].source, Source::Spec { format: SpecFormat::Markdown, .. }),
        "markdown is the canonical upstream and is reported first: {:?}",
        sources[0].source
    );
    assert!(matches!(sources[1].source, Source::Spec { format: SpecFormat::InlineAttribute, .. }));
}

#[test]
fn an_attribute_agreeing_with_the_markdown_spec_raises_nothing() {
    let php = vec![php_source(
        "code/src/Orders/OrderService.php",
        "<?php\n\n#[Spec(signature: \"fn place (& self) { }\")]\nclass OrderService {}\n",
    )];
    let Ok(Reading::Compare(input)) = read(&orders_spec(), php, orders_code()) else { panic!("the check runs") };
    assert!(input.spec_findings.is_empty(), "{:?}", input.spec_findings);
    assert_eq!(input.specs_graph.nodes.len(), 1, "one concept, read by both channels");
    assert_eq!(
        input.specs_graph.nodes[0].signature,
        SignatureState::Normalized("fn place (& self) { }".to_owned())
    );
}

#[test]
fn a_refused_concept_document_refuses_the_reading_before_the_code_side() {
    let loaded = files(&orders_spec());
    let mut parsed: Vec<ParsedSpec> = loaded.iter().map(|f| parse(&f.text)).collect();
    parsed[0].unclosed_fences = vec![5];
    let r = read_check(
        &MarkdownReader::new(vec!["rust".to_owned()]),
        &loaded,
        &parsed,
        &RustItems,
        &vec![],
        &CodeInput::Keyspace { path: "ks.json".to_owned(), root: "/ws".to_owned(), nodes: vec![], edges: vec![] },
    );
    match r {
        Err(ReaderError::ParseFailed { path, line, message }) => {
            assert_eq!(path, "specs/concepts/orders.md");
            assert_eq!(line, 5);
            assert_eq!(message, "unclosed code fence");
        }
        other => panic!("expected the document's refusal, got {:?}", other.err()),
    }
}

fn php_node(qname: &str, name: &str, construct: &str) -> FactNode {
    FactNode {
        id: format!("item:{qname}"),
        label: "Item".to_owned(),
        props: vec![
            ("qname".to_owned(), PropValue::Str(qname.to_owned())),
            ("name".to_owned(), PropValue::Str(name.to_owned())),
            ("kind".to_owned(), PropValue::Str("trait".to_owned())),
            ("php_construct".to_owned(), PropValue::Str(construct.to_owned())),
            ("line".to_owned(), PropValue::Int(3)),
        ],
    }
}

#[test]
fn a_surface_that_admits_nothing_settles_the_run_with_one_finding() {
    let specs = vec![
        ("concepts/catalogue.md", "# catalogue\n\n## Course\n"),
        ("contexts/catalogue.md", "# catalogue\n\n## Owns\n\n- App\\Billing\n\n## Exports (Published Language)\n\n## Imports\n"),
    ];
    let code = CodeInput::Keyspace {
        path: "coreen.json".to_owned(),
        root: "/ws".to_owned(),
        nodes: vec![
            FactNode {
                id: "module:App\\Catalogue".to_owned(),
                label: "Module".to_owned(),
                props: vec![("name".to_owned(), PropValue::Str("App\\Catalogue".to_owned()))],
            },
            php_node("App\\Catalogue\\Course", "Course", "class_declaration"),
        ],
        edges: vec![FactEdge {
            src: "item:App\\Catalogue\\Course".to_owned(),
            dst: "module:App\\Catalogue".to_owned(),
            label: "IN_MODULE".to_owned(),
        }],
    };
    let Ok(Reading::Settled(outcome)) = read(&specs, vec![], code) else {
        panic!("the run is settled by the code side")
    };
    assert_eq!(outcome.violations.len(), 1);
    match &outcome.violations[0] {
        Violation::Context(ContextViolation::SurfaceAdmitsNothing { declared_prefixes, concept_rung_items, keyspace }) => {
            assert_eq!(declared_prefixes.len(), 1);
            assert_eq!(declared_prefixes[0].0, "App\\Billing");
            assert_eq!(*concept_rung_items, 1);
            assert_eq!(keyspace, "coreen.json");
        }
        other => panic!("expected the surface finding, got {other:?}"),
    }
}

#[test]
fn code_facts_without_keyspace_routes_to_source_walk() {
    let files = sources("code", "mycrate/src/lib.rs", &["mycrate"], vec![unit_struct("Foo", 1)]);
    let via_router =
        code_facts(&CodeInput::Sources { root: "code".to_owned(), files: sources("code", "mycrate/src/lib.rs", &["mycrate"], vec![unit_struct("Foo", 1)]) }, &DeclaredSurface::empty())
            .expect("source walk");
    let via_adapter = rust_graph(&files).nodes;
    assert_eq!(via_router, via_adapter);
    assert!(via_router.iter().any(|c| c.name == "Foo"));
}

#[test]
fn code_facts_with_keyspace_routes_to_cfdb_query() {
    let node = FactNode {
        id: "item:domain::Foo".to_owned(),
        label: "Item".to_owned(),
        props: vec![
            ("name".to_owned(), PropValue::Str("Foo".to_owned())),
            ("kind".to_owned(), PropValue::Str("struct".to_owned())),
            ("crate".to_owned(), PropValue::Str("domain".to_owned())),
            ("bounded_context".to_owned(), PropValue::Str("domain".to_owned())),
            ("module_qpath".to_owned(), PropValue::Str("domain".to_owned())),
            ("file".to_owned(), PropValue::Str("/ws/domain/src/lib.rs".to_owned())),
            ("visibility".to_owned(), PropValue::Str("pub".to_owned())),
            ("is_test".to_owned(), PropValue::Bool(false)),
            ("line".to_owned(), PropValue::Int(1)),
        ],
    };
    let code = CodeInput::Keyspace { path: "ks.json".to_owned(), root: "/ws".to_owned(), nodes: vec![node], edges: vec![] };
    let facts = code_facts(&code, &DeclaredSurface::empty()).expect("keyspace");
    assert_eq!(facts.len(), 1);
    assert_eq!(facts[0].name, "Foo");
    assert_eq!(facts[0].unit(), Some("domain"));
}

#[test]
fn the_code_side_reads_a_rust_keyspace_with_its_relationships() {
    let contexts = walk_contexts(&files(&[(
        "contexts/domain.md",
        "# domain\n\n## Owns\n\n- domain\n\n## Exports (Published Language)\n\n## Imports\n",
    )]))
    .expect("contexts");
    let code = CodeInput::Keyspace {
        path: "ks.json".to_owned(),
        root: "/ws".to_owned(),
        nodes: vec![FactNode {
            id: "item:domain::Foo".to_owned(),
            label: "Item".to_owned(),
            props: vec![
                ("name".to_owned(), PropValue::Str("Foo".to_owned())),
                ("kind".to_owned(), PropValue::Str("struct".to_owned())),
                ("crate".to_owned(), PropValue::Str("domain".to_owned())),
                ("module_qpath".to_owned(), PropValue::Str("domain".to_owned())),
                ("file".to_owned(), PropValue::Str("/ws/domain/src/lib.rs".to_owned())),
                ("visibility".to_owned(), PropValue::Str("pub".to_owned())),
                ("is_test".to_owned(), PropValue::Bool(false)),
                ("line".to_owned(), PropValue::Int(1)),
            ],
        }, FactNode {
            id: "item:domain::Bar".to_owned(),
            label: "Item".to_owned(),
            props: vec![
                ("name".to_owned(), PropValue::Str("Bar".to_owned())),
                ("qname".to_owned(), PropValue::Str("domain::Bar".to_owned())),
                ("kind".to_owned(), PropValue::Str("struct".to_owned())),
                ("crate".to_owned(), PropValue::Str("domain".to_owned())),
                ("module_qpath".to_owned(), PropValue::Str("domain".to_owned())),
                ("file".to_owned(), PropValue::Str("/ws/domain/src/lib.rs".to_owned())),
                ("visibility".to_owned(), PropValue::Str("pub".to_owned())),
                ("is_test".to_owned(), PropValue::Bool(false)),
                ("line".to_owned(), PropValue::Int(2)),
            ],
        }, FactNode {
            id: "field:domain::Bar.foo".to_owned(),
            label: "Field".to_owned(),
            props: vec![
                ("parent_qname".to_owned(), PropValue::Str("domain::Bar".to_owned())),
                ("type_normalized".to_owned(), PropValue::Str("Option<Foo>".to_owned())),
            ],
        }],
        edges: vec![],
    };
    match code_side(&code, &contexts) {
        Ok(CodeSide::Read { graph, pub_fns }) => {
            assert_eq!(graph.nodes.len(), 2);
            assert_eq!(graph.nodes[0].name, "Foo");
            assert_eq!(graph.edges.len(), 1);
            assert_eq!(graph.edges[0].source_concept.name, "Bar");
            assert_eq!(graph.edges[0].kind, EdgeKind::DependsOn);
            assert_eq!(graph.edges[0].target.name, "Foo");
            assert!(pub_fns.is_empty());
        }
        Ok(CodeSide::AdmitsNothing(o)) => panic!("unexpected settlement: {:?}", o.violations),
        Err(e) => panic!("unexpected refusal: {e:?}"),
    }
}

#[test]
fn a_php_fence_and_an_attribute_that_disagree_raise_the_within_side_record() {
    let php = vec![php_source(
        "code/src/Orders/OrderService.php",
        "<?php\n\n#[Spec(signature: \"class OrderService { public function place(Order $o): Receipt {} }\")]\nclass OrderService {}\n",
    )];
    let input = read_fences(
        "## OrderService\n\n```php\nclass OrderService { public function place(): void {} }\n```\n",
        php,
    );
    let drift = input
        .spec_findings
        .iter()
        .filter(|v| matches!(v, Violation::SignatureDriftWithinSide { .. }))
        .count();
    assert_eq!(drift, 1, "{:?}", input.spec_findings);
}

#[test]
fn a_php_fence_normalizes_to_the_declaration_without_its_body_or_comments() {
    let input = read_fences(
        "## OrderService\n\n```php\n// a comment the normalizer drops\n#[Attr]\nfinal class OrderService implements Enrolable { public function place(): void {} }\n```\n",
        vec![],
    );
    assert_eq!(
        order_service_signature(&input),
        SignatureState::Normalized("final class OrderService implements Enrolable".to_owned())
    );
}

#[test]
fn a_php_fence_that_does_not_parse_is_unparseable_with_the_fence_tag_naming_the_language() {
    let input = read_fences("## OrderService\n\n```php\nclass OrderService {\n```\n", vec![]);
    match order_service_signature(&input) {
        SignatureState::Unparseable { error, .. } => {
            assert!(error.starts_with("php: "), "the fence tag names the language: {error}")
        }
        other => panic!("an unparseable php fence is an unparseable signature, got {other:?}"),
    }
}

#[test]
fn two_php_fences_in_one_section_are_unparseable() {
    let input = read_fences(
        "## OrderService\n\n```php\nclass OrderService {}\n```\n\n```php\nclass OrderService {}\n```\n",
        vec![],
    );
    match order_service_signature(&input) {
        SignatureState::Unparseable { error, .. } => {
            assert!(error.contains("2 normalizable fenced blocks"), "{error}")
        }
        other => panic!("more than one fence of a language is unparseable, got {other:?}"),
    }
}

fn malformed_run(bullet: &str) -> Vec<Violation> {
    let spec = format!("# catalogue\n\n## Course\n\n{bullet}\n");
    let code = CodeInput::Sources {
        root: "code".to_owned(),
        files: sources("code", "src/lib.rs", &[""], vec![unit_struct("Course", 1)]),
    };
    match read(&[("concepts/catalogue.md", spec.as_str())], vec![], code) {
        Ok(Reading::Compare(input)) => input.spec_findings,
        Ok(Reading::Settled(o)) => panic!("unexpected settlement: {:?}", o.violations),
        Err(e) => panic!("unexpected refusal: {e:?}"),
    }
}

fn malformed(violations: &[Violation]) -> Vec<(&str, &str, &str)> {
    violations
        .iter()
        .filter_map(|v| match v {
            Violation::MalformedAnchorBullet { concept, bullet, qname, .. } => {
                Some((concept.as_str(), bullet.as_str(), qname.as_str()))
            }
            _ => None,
        })
        .collect()
}

#[test]
fn a_namespace_qualified_verb_bullet_is_reported_not_discarded() {
    let violations = malformed_run("- verb: App\\Catalogue\\Course::rename");
    assert_eq!(
        malformed(&violations),
        vec![("Course", "verb", "App\\Catalogue\\Course::rename")],
        "the bullet, its heading and its qname are named: {violations:?}"
    );
}

#[test]
fn a_namespace_qualified_impl_bullet_is_reported_not_discarded() {
    let violations = malformed_run("- impl: App\\Catalogue\\Course::rename");
    assert_eq!(malformed(&violations), vec![("Course", "impl", "App\\Catalogue\\Course::rename")]);
    assert!(
        !violations.iter().any(|v| matches!(v, Violation::DanglingAnchor { .. })),
        "a bullet the grammar cannot read is malformed, not a dangling anchor: {violations:?}"
    );
}

#[test]
fn a_bullet_the_grammar_reads_is_not_malformed() {
    let bare = malformed_run("- verb: rename");
    assert!(malformed(&bare).is_empty(), "a bare identifier is one of the two admitted forms: {bare:?}");
    let typed = malformed_run("- impl: Course::rename");
    assert!(malformed(&typed).is_empty(), "`Type::method` is the other: {typed:?}");
}

#[test]
fn an_empty_anchor_bullet_is_malformed_too() {
    let violations = malformed_run("- verb:");
    assert_eq!(malformed(&violations), vec![("Course", "verb", "")]);
}

#[test]
fn a_concept_anchor_resolves_to_the_first_item_of_the_code_side_it_names() {
    let spec = "# catalogue\n\n## Course\n\n- impl: open_course\n\n## Missing\n\n- impl: nowhere\n";
    let mut item = unit_struct("open_course", 4);
    item.shape = ItemShape::Fn;
    let code = CodeInput::Sources {
        root: "code".to_owned(),
        files: sources("code", "src/lib.rs", &[""], vec![unit_struct("Course", 1), item]),
    };
    let Ok(Reading::Compare(input)) = read(&[("concepts/catalogue.md", spec)], vec![], code) else {
        panic!("the check runs")
    };
    assert_eq!(input.concept_anchors.len(), 2);
    assert_eq!(input.concept_anchors[0].anchor.concept, "Course");
    let target = input.concept_anchors[0].target.as_ref().expect("the function resolves");
    match &target.source {
        Source::Code { path, line, .. } => {
            assert_eq!(path, "code/src/lib.rs");
            assert_eq!(*line, 4);
        }
        other => panic!("expected a code source, got {other:?}"),
    }
    assert_eq!(input.concept_anchors[1].anchor.target, "nowhere");
    assert!(input.concept_anchors[1].target.is_none());
}
