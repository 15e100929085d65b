use graph_specs::anchors::AnchorKind;
use graph_specs::graph::{ConceptNode, Edge, Graph, PubFnDecl};
use graph_specs::model::{EdgeKind, Source};
use graph_specs::rust_syntax::{
    filter_by_known_concepts, rust_answerable, rust_graph, rust_pub_fns, rust_source, walk_skips,
    ItemShape, RustAnchorResolver, RustFn, RustItem, RustSource, RustType, TypeShape, ItemVisibility,
};
use graph_specs::rust_reader::rust_items;

fn items_of(src: &str) -> Vec<RustItem> {
    rust_items(src).expect("test src parses")
}

fn one_file(src: &str) -> Vec<RustSource> {
    vec![rust_source("test.rs".to_owned(), "", &Vec::new(), items_of(src))]
}

fn edges_of(src: &str) -> Vec<Edge> {
    rust_graph(&one_file(src)).edges
}

fn raw_edges_of(src: &str, names: &[&str]) -> Vec<Edge> {
    let all = items_of(src);
    let mut out = Vec::new();
    let files = vec![rust_source("test.rs".to_owned(), "", &Vec::new(), all)];
    let g = rust_graph(&files);
    out.extend(g.edges);
    let nodes: Vec<ConceptNode> = names
        .iter()
        .map(|n| {
            ConceptNode::new(
                (*n).to_string(),
                Source::Code {
                    path: "test.rs".to_owned(),
                    line: 1,
                    provenance: graph_specs::model::Provenance::empty(),
                    location: graph_specs::model::LocationKind::Path,
                },
                graph_specs::graph::SignatureState::Absent,
            )
        })
        .collect();
    filter_by_known_concepts(out, &nodes)
}

// The relationship rules.

#[test]
fn trait_impl_emits_implements_edge() {
    let filtered = raw_edges_of("pub struct Foo; pub trait Bar {} impl Bar for Foo {}", &["Foo", "Bar"]);
    assert!(filtered.iter().any(|e| e.source_concept.name == "Foo"
        && e.kind == EdgeKind::Implements
        && e.target.name == "Bar"));
}

#[test]
fn inherent_impl_emits_no_implements_edge() {
    let filtered = raw_edges_of("pub struct Foo; impl Foo { pub fn new() -> Foo { Foo } }", &["Foo"]);
    assert!(filtered.iter().all(|e| e.kind != EdgeKind::Implements));
}

#[test]
fn struct_field_emits_depends_on() {
    let filtered = raw_edges_of("pub struct Foo; pub struct Bar { pub f: Foo }", &["Foo", "Bar"]);
    assert!(filtered.iter().any(|e| e.source_concept.name == "Bar"
        && e.kind == EdgeKind::DependsOn
        && e.target.name == "Foo"));
}

#[test]
fn enum_variant_field_emits_depends_on() {
    let filtered = raw_edges_of("pub struct Foo; pub enum E { V(Foo) }", &["Foo", "E"]);
    assert!(filtered.iter().any(|e| e.source_concept.name == "E"
        && e.kind == EdgeKind::DependsOn
        && e.target.name == "Foo"));
}

#[test]
fn nested_generic_field_emits_multiple_depends_on() {
    let filtered = raw_edges_of(
        "pub struct Graph; pub struct Violation; pub struct Holder { pub v: Result<Graph, Violation> }",
        &["Graph", "Violation", "Holder"],
    );
    let holder_deps: Vec<&str> = filtered
        .iter()
        .filter(|e| e.source_concept.name == "Holder" && e.kind == EdgeKind::DependsOn)
        .map(|e| e.target.name.as_str())
        .collect();
    assert!(holder_deps.contains(&"Graph"));
    assert!(holder_deps.contains(&"Violation"));
}

#[test]
fn primitive_dependencies_are_filtered_out() {
    let filtered = raw_edges_of("pub struct Foo { pub n: u32, pub s: String }", &["Foo"]);
    assert!(filtered.iter().all(|e| e.kind != EdgeKind::DependsOn || e.target.name == "Foo"));
}

#[test]
fn inherent_impl_pub_fn_returns_emits_returns() {
    let filtered =
        raw_edges_of("pub struct Graph; impl Graph { pub fn empty() -> Graph { Graph } }", &["Graph"]);
    assert!(filtered.iter().any(|e| e.source_concept.name == "Graph"
        && e.kind == EdgeKind::Returns
        && e.target.name == "Graph"));
}

#[test]
fn inherent_impl_non_pub_fn_is_skipped() {
    let filtered =
        raw_edges_of("pub struct Graph; impl Graph { fn private() -> Graph { Graph } }", &["Graph"]);
    assert!(filtered.iter().all(|e| e.kind != EdgeKind::Returns));
}

#[test]
fn trait_method_return_emits_returns() {
    let filtered = raw_edges_of(
        "pub struct Graph; pub trait Reader { fn extract(&self) -> Graph; }",
        &["Graph", "Reader"],
    );
    assert!(filtered.iter().any(|e| e.source_concept.name == "Reader"
        && e.kind == EdgeKind::Returns
        && e.target.name == "Graph"));
}

#[test]
fn trait_method_params_emit_depends_on() {
    let filtered = raw_edges_of(
        "pub struct Graph; pub trait Reader { fn consume(&self, g: Graph) -> Graph; }",
        &["Graph", "Reader"],
    );
    assert!(filtered.iter().any(|e| e.source_concept.name == "Reader"
        && e.kind == EdgeKind::DependsOn
        && e.target.name == "Graph"));
}

#[test]
fn trait_impl_method_bodies_emit_edges_like_inherent_impls() {
    let filtered = raw_edges_of(
        "pub struct Graph; pub struct Foo; pub trait Reader { fn extract(&self) -> Graph; } impl Reader for Foo { fn extract(&self) -> Graph { Graph } }",
        &["Graph", "Foo", "Reader"],
    );
    let foo_edges: Vec<_> = filtered.iter().filter(|e| e.source_concept.name == "Foo").collect();
    assert!(foo_edges.iter().any(|e| e.kind == EdgeKind::Implements));
    assert!(foo_edges.iter().any(|e| e.kind == EdgeKind::Returns && e.target.name == "Graph"));
}

#[test]
fn return_type_inner_generics_emit_depends_on() {
    let filtered = raw_edges_of(
        "pub struct Graph; pub struct ReaderError; pub trait Reader { fn extract(&self) -> Result<Graph, ReaderError>; }",
        &["Graph", "ReaderError", "Reader"],
    );
    assert!(filtered.iter().any(|e| e.source_concept.name == "Reader"
        && e.kind == EdgeKind::DependsOn
        && e.target.name == "Graph"));
    assert!(filtered.iter().any(|e| e.source_concept.name == "Reader"
        && e.kind == EdgeKind::DependsOn
        && e.target.name == "ReaderError"));
}

#[test]
fn reference_return_tokenises_to_concept_head() {
    let filtered = raw_edges_of(
        "pub struct Source; pub struct Node; impl Node { pub fn where_at(&self) -> &Source { unimplemented!() } }",
        &["Source", "Node"],
    );
    assert!(filtered.iter().any(|e| e.source_concept.name == "Node"
        && e.kind == EdgeKind::Returns
        && e.target.name == "Source"));
}

#[test]
fn unknown_targets_are_filtered_out() {
    let filtered =
        raw_edges_of("pub struct Foo { pub x: std::collections::HashMap<String, u32> }", &["Foo"]);
    assert!(
        filtered.is_empty()
            || filtered.iter().all(|e| e.source_concept.name == "Foo" && e.target.name == "Foo")
    );
}

#[test]
fn non_public_struct_emits_no_edges() {
    let filtered = raw_edges_of("pub struct Target; struct Hidden { f: Target }", &["Target", "Hidden"]);
    assert!(filtered.iter().all(|e| e.source_concept.name != "Hidden"));
}

#[test]
fn self_return_resolves_to_enclosing_impl_owner() {
    let filtered = raw_edges_of(
        "pub struct Builder; impl Builder { pub fn new() -> Self { Builder } }",
        &["Builder"],
    );
    assert!(filtered.iter().any(|e| e.source_concept.name == "Builder"
        && e.kind == EdgeKind::Returns
        && e.target.name == "Builder"));
}

#[test]
fn self_param_resolves_to_enclosing_owner() {
    let filtered = raw_edges_of(
        "pub struct Node; impl Node { pub fn merge(&self, other: Self) {} }",
        &["Node"],
    );
    assert!(filtered.iter().any(|e| e.source_concept.name == "Node"
        && e.kind == EdgeKind::DependsOn
        && e.target.name == "Node"));
}

#[test]
fn the_graph_keeps_only_edges_to_its_own_concepts_with_their_lines() {
    let edges = edges_of("pub struct Foo {\n    pub bar: Bar,\n    pub n: u32,\n}\npub struct Bar;\n");
    assert_eq!(edges.len(), 1, "{edges:?}");
    assert_eq!(edges[0].source_concept.name, "Foo");
    assert_eq!(edges[0].target.name, "Bar");
    assert_eq!(edges[0].raw_target, "Bar");
    match &edges[0].source {
        Source::Code { path, line, .. } => {
            assert_eq!(path, "test.rs");
            assert_eq!(*line, 2);
        }
        other => panic!("expected a code source, got {other:?}"),
    }
}

// Reading a tree of files, given as (path below the root, text) pairs.

const ROOT: &str = "/ws";

fn parent_of(path: &str) -> Option<&str> {
    path.rfind('/').map(|i| &path[..i])
}

fn tag_head(tree: &[(&str, &str)], dir: &str) -> Option<String> {
    let tag = format!("{dir}/CACHEDIR.TAG");
    tree.iter().find(|(p, _)| *p == tag).map(|(_, text)| {
        text.chars().take(graph_specs::rust_syntax::CACHEDIR_TAG_SIGNATURE.len()).collect()
    })
}

fn walked(tree: &[(&str, &str)], path: &str) -> bool {
    let mut dir = parent_of(path);
    while let Some(d) = dir {
        let name = d.rsplit('/').next().unwrap_or(d);
        if walk_skips(true, name, tag_head(tree, d).as_deref()) {
            return false;
        }
        dir = parent_of(d);
    }
    true
}

fn load(tree: &[(&str, &str)]) -> Vec<RustSource> {
    let manifests: Vec<String> = tree
        .iter()
        .filter(|(p, _)| p.ends_with("Cargo.toml"))
        .map(|(p, _)| match parent_of(p) {
            Some(d) => format!("{ROOT}/{d}"),
            None => ROOT.to_owned(),
        })
        .collect();
    tree.iter()
        .filter(|(p, _)| p.ends_with(".rs") && walked(tree, p))
        .map(|(p, text)| rust_source(format!("{ROOT}/{p}"), ROOT, &manifests, items_of(text)))
        .collect()
}

fn graph(tree: &[(&str, &str)]) -> Graph {
    rust_graph(&load(tree))
}

fn extract(tree: &[(&str, &str)]) -> Vec<String> {
    let mut names: Vec<String> = graph(tree).nodes.into_iter().map(|n| n.name).collect();
    names.sort();
    names
}

fn pub_fns(tree: &[(&str, &str)]) -> Vec<PubFnDecl> {
    rust_pub_fns(&load(tree))
}

#[test]
fn captures_pub_struct_enum_trait_type() {
    let tree = [("src/lib.rs", "pub struct Foo; pub enum Bar { X } pub trait Baz {} pub type Qux = u32;")];
    assert_eq!(extract(&tree), vec!["Bar", "Baz", "Foo", "Qux"]);
}

#[test]
fn ignores_private_items() {
    let tree = [("src/lib.rs", "struct Priv; pub struct Pub;")];
    assert_eq!(extract(&tree), vec!["Pub"]);
}

#[test]
fn ignores_cfg_test_items() {
    let tree = [("src/lib.rs", "pub struct Keep; #[cfg(test)] pub struct Skip;")];
    assert_eq!(extract(&tree), vec!["Keep"]);
}

#[test]
fn ignores_items_inside_inline_mod() {
    let tree = [("src/lib.rs", "pub struct Top; pub mod inner { pub struct Inner; }")];
    assert_eq!(extract(&tree), vec!["Top"]);
}

#[test]
fn ignores_tests_benches_examples_dirs() {
    let tree = [("src/lib.rs", "pub struct Real;"), ("tests/it.rs", "pub struct TestFixture;"), ("benches/b.rs", "pub struct Bench;"), ("examples/e.rs", "pub struct Example;")];
    assert_eq!(extract(&tree), vec!["Real"]);
}

#[test]
fn ignores_target_dirs() {
    let tree = [("src/lib.rs", "pub struct Real;"), ("target/gen.rs", "pub struct Gen;")];
    assert_eq!(extract(&tree), vec!["Real"]);
}

const CACHEDIR_TAG: &str = "Signature: 8a477f597d28d172789f06886806bc55\n\
                            # This file is a cache directory tag.\n";

#[test]
fn cache_tagged_build_dir_is_excluded_whatever_its_name() {
    let tree = [("src/lib.rs", "pub struct Real;"), ("target-musl/CACHEDIR.TAG", CACHEDIR_TAG), ("target-musl/release/build/libsqlite3-sys-abc/out/bindgen.rs", "pub struct sqlite3_stmt; pub struct sqlite3_vfs;")];
    assert_eq!(extract(&tree), vec!["Real"]);
}

#[test]
fn untagged_dir_sharing_an_excluded_prefix_is_still_walked() {
    let tree = [("src/lib.rs", "pub struct Real;"), ("targets/registry.rs", "pub struct Registry;")];
    assert_eq!(extract(&tree), vec!["Real", "Registry"]);
}

#[test]
fn foreign_cachedir_signature_does_not_exclude() {
    let tree = [("src/lib.rs", "pub struct Real;"), ("generated/g.rs", "pub struct Generated;"), ("generated/CACHEDIR.TAG", "Signature: not-a-cache\n")];
    assert_eq!(extract(&tree), vec!["Generated", "Real"]);
}

#[test]
fn source_file_named_like_an_excluded_dir_is_still_read() {
    let tree = [("src/target.rs", "pub struct TargetRepo;"), ("src/tests.rs", "pub struct TestHarness;")];
    assert_eq!(extract(&tree), vec!["TargetRepo", "TestHarness"]);
}

#[test]
fn line_numbers_are_recorded() {
    let tree = [("src/lib.rs", "\n\npub struct OnLine3;\n")];
    let g = graph(&tree);
    match &g.nodes[0].source {
        Source::Code { line, .. } => assert_eq!(*line, 3),
        Source::Spec { .. } => panic!("expected Code source"),
    }
}

fn node_named<'a>(g: &'a Graph, name: &str) -> &'a ConceptNode {
    g.nodes.iter().find(|n| n.name == name).unwrap_or_else(|| panic!("missing concept {name}"))
}

fn context_of(n: &ConceptNode) -> Option<&str> {
    match &n.source {
        Source::Code { provenance, .. } => provenance.context.as_deref(),
        Source::Spec { .. } => None,
    }
}

#[test]
fn provenance_lib_rs_collapses_to_crate_root() {
    let tree = [("mycrate/src/lib.rs", "pub struct Foo;"), ("mycrate/Cargo.toml", "[package]\nname=\"mycrate\"\n")];
    let g = graph(&tree);
    let foo = node_named(&g, "Foo");
    assert_eq!(foo.unit(), Some("mycrate"));
    assert_eq!(foo.module(), Some("mycrate"));
    assert_eq!(context_of(foo), None, "context resolved later, not by reader");
}

#[test]
fn provenance_main_rs_collapses_to_crate_root() {
    let tree = [("app/src/main.rs", "pub struct Cli;"), ("app/Cargo.toml", "[package]\nname=\"app\"\n")];
    let g = graph(&tree);
    assert_eq!(node_named(&g, "Cli").module(), Some("app"));
}

#[test]
fn provenance_submodule_file_and_mod_rs() {
    let tree = [("c/src/diff.rs", "pub struct A;"), ("c/src/edge/mod.rs", "pub struct B;"), ("c/Cargo.toml", "[package]\nname=\"c\"\n")];
    let g = graph(&tree);
    assert_eq!(node_named(&g, "A").module(), Some("c::diff"));
    assert_eq!(node_named(&g, "B").module(), Some("c::edge"));
    assert_eq!(node_named(&g, "B").unit(), Some("c"));
}

#[test]
fn provenance_unit_is_relative_to_code_root_not_walked_path() {
    let tree = [("adapters/markdown/src/lib.rs", "pub struct R;"), ("adapters/markdown/Cargo.toml", "[package]\nname=\"adapter-markdown\"\n")];
    let g = graph(&tree);
    assert_eq!(node_named(&g, "R").unit(), Some("adapters/markdown"));
}

#[test]
fn extract_pub_fns_finds_pub_fns() {
    let tree = [("src/lib.rs", "pub fn alpha() {} pub fn beta() {} fn private() {}"), ("Cargo.toml", "[package]\nname = \"testcrate\"\n")];
    let fns = pub_fns(&tree);
    let mut names: Vec<&str> = fns.iter().map(|f| f.name.as_str()).collect();
    names.sort_unstable();
    assert_eq!(names, vec!["alpha", "beta"]);
}

#[test]
fn extract_pub_fns_skips_test_gated() {
    let tree = [("src/lib.rs", "#[cfg(test)] pub fn skip_me() {} pub fn keep_me() {}")];
    let fns = pub_fns(&tree);
    assert_eq!(fns.len(), 1);
    assert_eq!(fns[0].name, "keep_me");
}

#[test]
fn extract_pub_fns_excludes_target_dir() {
    let tree = [("src/lib.rs", "pub fn real_fn() {}"), ("target/gen.rs", "pub fn generated() {}")];
    let fns = pub_fns(&tree);
    assert_eq!(fns.len(), 1);
    assert_eq!(fns[0].name, "real_fn");
}

#[test]
fn rust_backend_extract_returns_concepts_and_edges() {
    let tree = [("src/lib.rs", "pub struct Foo { bar: Bar } pub struct Bar;")];
    let g = graph(&tree);
    let mut names: Vec<String> = g.nodes.iter().map(|n| n.name.clone()).collect();
    names.sort();
    assert_eq!(names, vec!["Bar", "Foo"]);
    assert!(
        g.edges.iter().any(|e| e.source_concept.name == "Foo" && e.target.name == "Bar"),
        "expected Foo→Bar dependency edge, got: {:?}",
        g.edges
    );
    assert_eq!(
        rust_answerable(),
        vec![EdgeKind::Implements, EdgeKind::DependsOn, EdgeKind::Returns]
    );
}

#[test]
fn impl_inherent_pub_method_extracted_as_type_method_qname() {
    let tree = [("src/lib.rs", "struct Foo; impl Foo { pub fn bar() {} }")];
    let fns = pub_fns(&tree);
    assert_eq!(fns.len(), 1);
    assert_eq!(fns[0].name, "Foo::bar");
}

#[test]
fn impl_inherent_private_method_skipped() {
    let tree = [("src/lib.rs", "struct Foo; impl Foo { fn bar() {} }")];
    assert!(pub_fns(&tree).is_empty(), "private method must not be extracted");
}

#[test]
fn impl_trait_method_extracted_without_pub() {
    let tree = [("src/lib.rs", "trait Trait { fn bar(); } struct Foo; impl Trait for Foo { fn bar() {} }")];
    let fns = pub_fns(&tree);
    assert_eq!(fns.len(), 1, "trait-impl method must be extracted even without pub");
    assert_eq!(fns[0].name, "Foo::bar");
}

#[test]
fn impl_generic_type_stripped() {
    let tree = [("src/lib.rs", "struct Foo<T>(T); impl<T> Foo<T> { pub fn bar() {} }")];
    let fns = pub_fns(&tree);
    assert_eq!(fns.len(), 1);
    assert_eq!(fns[0].name, "Foo::bar", "generic param must be stripped from type name");
}

#[test]
fn impl_cfg_test_gated_skipped() {
    let tree = [("src/lib.rs", "#[cfg(test)] impl Foo { pub fn bar() {} }")];
    assert!(pub_fns(&tree).is_empty(), "cfg(test)-gated impl block must be skipped");
}

#[test]
fn impl_qualified_self_skipped() {
    let tree = [("src/lib.rs", "trait Other { type Item; } trait Trait { fn bar(); } impl Trait for <i32 as Other>::Item { fn bar() {} }")];
    let fns = pub_fns(&tree);
    assert!(fns.is_empty(), "qualified-self impl must produce no decl; got: {fns:?}");
}

#[test]
fn impl_non_path_self_skipped() {
    let tree = [("src/lib.rs", "trait Trait { fn bar(); } impl Trait for [u8] { fn bar() {} }")];
    assert!(pub_fns(&tree).is_empty(), "non-Path self type must produce no decl");
}

// The anchor index.

fn resolver_over(src: &str) -> RustAnchorResolver {
    RustAnchorResolver::index(&one_file(src))
}

#[test]
fn anchor_resolver_resolves_pub_crate_fn_at_any_visibility() {
    let r = resolver_over("pub(crate) fn validate_intake() {}");
    let t = r.resolve("validate_intake").expect("resolved");
    assert_eq!(t.kind, AnchorKind::Fn);
}

#[test]
fn resolves_pub_crate_type_and_const() {
    let r = resolver_over("pub(crate) struct Hidden; pub(crate) const LIMIT: u32 = 3; static S: u8 = 1;");
    assert_eq!(r.resolve("Hidden").expect("ty").kind, AnchorKind::Type);
    assert_eq!(r.resolve("LIMIT").expect("const").kind, AnchorKind::Const);
    assert_eq!(r.resolve("S").expect("static").kind, AnchorKind::Const);
}

#[test]
fn resolves_private_fn_too() {
    let r = resolver_over("fn helper() {}");
    assert!(r.resolve("helper").is_some());
}

#[test]
fn resolves_impl_method_qname() {
    let r = resolver_over("struct Foo; impl Foo { fn bar(&self) {} }");
    assert_eq!(r.resolve("Foo::bar").expect("method").kind, AnchorKind::Fn);
}

#[test]
fn unresolved_qname_is_none() {
    let r = resolver_over("pub fn present() {}");
    assert!(r.resolve("absent").is_none());
}

#[test]
fn test_gated_items_are_not_indexed() {
    let r = resolver_over("#[cfg(test)] fn only_in_test() {} fn kept() {}");
    assert!(r.resolve("only_in_test").is_none());
    assert!(r.resolve("kept").is_some());
}

#[test]
fn the_first_item_under_a_name_is_the_one_it_resolves_to() {
    let r = resolver_over("fn twice() {}\n\nstruct Foo; impl Foo { fn twice(&self) {} }\nmod m {}\n");
    match &r.resolve("twice").expect("resolved").source {
        Source::Code { line, .. } => assert_eq!(*line, 1),
        other => panic!("expected a code source, got {other:?}"),
    }
}

#[test]
fn a_cfg_feature_naming_test_gates_and_another_cfg_does_not() {
    let g = rust_graph(&one_file(
        "#[cfg(feature = \"testing\")] pub struct Fixture;\n#[cfg(unix)] pub struct Real;\n#[cfg(test)] pub struct Probe;\n",
    ));
    let names: Vec<&str> = g.nodes.iter().map(|n| n.name.as_str()).collect();
    assert_eq!(names, vec!["Real"]);
}
