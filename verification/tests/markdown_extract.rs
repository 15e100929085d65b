use graph_specs::graph::{Edge, SignatureState};
use graph_specs::markdown::bullets::{parse_impl_bullet, parse_verb_bullet};
use graph_specs::markdown::grounding::{read, ParsedSpec, Site};
use graph_specs::markdown::invariants::extract_annotations_from_source;
use graph_specs::markdown::reader::{LoadedFile, MarkdownReader, SpecFacts};
use graph_specs::markdown::section::SignatureNormalizer;
use graph_specs::model::{EdgeKind, InvariantAnnotation, Marker, ReaderError, Source, TierKind};
use graph_specs::rust_signature::normalize_rust;

/// Normalizes a `rust` block as the library does.
struct RustItems;

impl SignatureNormalizer for RustItems {
    fn normalize(&self, _tag: &str, block: &str) -> Result<String, String> {
        normalize_rust(block)
    }
}

/// The dialect parse of a document: its ATX `##` and `###` headings outside
/// fences, each a site under its own text, none of them grounded.
fn parse(text: &str) -> ParsedSpec {
    let mut sites = Vec::new();
    let mut fenced = false;
    for (i, line) in text.lines().enumerate() {
        if line.starts_with("```") || line.starts_with("~~~") {
            fenced = !fenced;
            continue;
        }
        if fenced {
            continue;
        }
        let level = line.chars().take_while(|c| *c == '#').count();
        if (2..=3).contains(&level) && line[level..].starts_with(' ') {
            sites.push(Site { name: line[level..].trim().to_owned(), line: i + 1, level });
        }
    }
    ParsedSpec {
        sites,
        concepts: vec![],
        unclosed_fences: vec![],
        malformed_headings: vec![],
        orphans: vec![],
        malformed_frontmatter: front_matter_refusals(text),
        malformed: vec![],
    }
}

/// The dialect's verdict on a front matter block: its `status` admits the
/// bare words `draft` and `live`, and refuses any other value.
fn front_matter_refusals(text: &str) -> Vec<String> {
    let mut lines = text.lines();
    if lines.next() != Some("---") {
        return vec![];
    }
    let mut out = Vec::new();
    for line in lines {
        if line == "---" {
            break;
        }
        if let Some(value) = line.strip_prefix("status:") {
            let value = value.trim();
            if value != "draft" && value != "live" {
                out.push(format!("unknown status `{value}`: the front matter admits `draft` or `live`"));
            }
        }
    }
    out
}

fn front_matter_refusal(front_matter: &str) -> String {
    let text = format!("{front_matter}\n# widgets\n\n## Foo\n");
    let loaded = vec![LoadedFile { path: "a.md".to_owned(), text: text.clone() }];
    let parsed = vec![parse(&text)];
    match MarkdownReader::new(vec!["rust".to_owned()]).extract(&loaded, &parsed, &RustItems) {
        Err(ReaderError::ParseFailed { message, .. }) => message,
        other => panic!("expected a refusal, got {other:?}"),
    }
}

fn facts_of(files: &[(&str, &str)]) -> SpecFacts {
    let loaded: Vec<LoadedFile> =
        files.iter().map(|(p, t)| LoadedFile { path: (*p).to_owned(), text: (*t).to_owned() }).collect();
    let parsed: Vec<ParsedSpec> = files.iter().map(|(_, t)| parse(t)).collect();
    MarkdownReader::new(vec!["rust".to_owned()]).extract(&loaded, &parsed, &RustItems).expect("test")
}

fn extract(files: &[(&str, &str)]) -> Vec<String> {
    let mut names: Vec<String> = facts_of(files).graph.nodes.into_iter().map(|n| n.name).collect();
    names.sort();
    names
}

fn extract_sig(files: &[(&str, &str)], concept: &str) -> SignatureState {
    facts_of(files)
        .graph
        .nodes
        .into_iter()
        .find(|n| n.name == concept)
        .unwrap_or_else(|| panic!("concept {concept} not found"))
        .signature
}

fn find_edges_for<'a>(edges: &'a [Edge], concept: &str) -> Vec<&'a Edge> {
    edges.iter().filter(|e| e.source_concept.name == concept).collect()
}

fn marks(files: &[(&str, &str)]) -> Vec<(String, bool)> {
    let mut out: Vec<(String, bool)> =
        facts_of(files).graph.nodes.into_iter().map(|n| (n.name, n.marker != Marker::Unmarked)).collect();
    out.sort();
    out
}

fn marker_of(files: &[(&str, &str)], concept: &str) -> Marker {
    facts_of(files)
        .graph
        .nodes
        .into_iter()
        .find(|n| n.name == concept)
        .unwrap_or_else(|| panic!("{concept} must be a heading"))
        .marker
}

fn annotations(text: &str) -> Vec<InvariantAnnotation> {
    let dialect = read("a.md", text, &parse(text)).expect("test");
    let mut out = Vec::new();
    extract_annotations_from_source(text, "a.md", &dialect, &mut out);
    out
}

#[test]
fn captures_h2_and_h3_headings() {
    assert_eq!(extract(&[("a.md", "## Foo\n### Bar\n")]), vec!["Bar", "Foo"]);
}

#[test]
fn ignores_h1_and_deeper_than_h3() {
    assert_eq!(extract(&[("a.md", "# Title\n## Keep\n#### Skip\n##### Deep\n")]), vec!["Keep"]);
}

#[test]
fn ignores_prose_and_nonmatching_bullets() {
    let g = facts_of(&[(
        "a.md",
        "## Concept\n\nSome prose about Concept.\n\n- a bullet mentioning Other\n- another\n\nMore prose.\n",
    )])
    .graph;
    assert_eq!(g.nodes.iter().map(|n| n.name.as_str()).collect::<Vec<_>>(), vec!["Concept"]);
    assert!(g.edges.is_empty(), "prose bullets must not yield edges");
}

#[test]
fn ignores_fenced_code_blocks_for_concept_names() {
    assert_eq!(
        extract(&[("a.md", "## Foo\n\n```rust\npub struct Hidden;\n```\n\n```\npub struct AlsoHidden;\n```\n")]),
        vec!["Foo"]
    );
}

#[test]
fn records_correct_line_number() {
    let g = facts_of(&[("a.md", "# Title\n\n## OnLine3\n")]).graph;
    match &g.nodes[0].source {
        Source::Spec { line, .. } => assert_eq!(*line, 3),
        Source::Code { .. } => panic!("expected Spec source"),
    }
}

#[test]
fn concept_without_rust_block_has_absent_signature() {
    assert_eq!(extract_sig(&[("a.md", "## Foo\n\nJust prose.\n")], "Foo"), SignatureState::Absent);
}

#[test]
fn concept_with_rust_block_has_normalized_signature() {
    match extract_sig(&[("a.md", "## Foo\n\nProse.\n\n```rust\npub struct Foo(pub u32);\n```\n")], "Foo") {
        SignatureState::Normalized(s) => {
            assert!(s.contains("pub struct Foo"));
            assert!(s.contains("u32"));
        }
        other => panic!("expected Normalized, got {other:?}"),
    }
}

#[test]
fn non_rust_fenced_blocks_do_not_populate_signature() {
    assert_eq!(
        extract_sig(&[("a.md", "## Foo\n\n```python\npub struct Foo;\n```\n")], "Foo"),
        SignatureState::Absent
    );
}

#[test]
fn unparseable_rust_block_becomes_unparseable_signature() {
    match extract_sig(&[("a.md", "## Foo\n\n```rust\npub struct Foo(\n```\n")], "Foo") {
        SignatureState::Unparseable { raw, error } => {
            assert!(raw.contains("pub struct Foo("));
            assert!(!error.is_empty());
        }
        other => panic!("expected Unparseable, got {other:?}"),
    }
}

#[test]
fn multiple_rust_blocks_in_one_concept_is_unparseable() {
    match extract_sig(
        &[("a.md", "## Foo\n\n```rust\npub struct Foo;\n```\n\n```rust\npub struct Bar;\n```\n")],
        "Foo",
    ) {
        SignatureState::Unparseable { error, .. } => {
            assert!(error.to_lowercase().contains("multiple") || error.contains('2'));
        }
        other => panic!("expected Unparseable (multiple rust blocks), got {other:?}"),
    }
}

#[test]
fn rust_block_scoped_to_current_concept_only() {
    let files = [("a.md", "## Foo\n\n```rust\npub struct Foo;\n```\n\n## Bar\n\nNo block here.\n")];
    assert!(matches!(extract_sig(&files, "Foo"), SignatureState::Normalized(_)));
    assert_eq!(extract_sig(&files, "Bar"), SignatureState::Absent);
}

#[test]
fn rust_block_before_first_heading_is_ignored() {
    let g = facts_of(&[("a.md", "```rust\npub struct Orphan;\n```\n\n## Foo\n")]).graph;
    let names: Vec<&str> = g.nodes.iter().map(|n| n.name.as_str()).collect();
    assert_eq!(names, vec!["Foo"]);
    assert_eq!(g.nodes[0].signature, SignatureState::Absent);
}

#[test]
fn implements_bullet_yields_edge() {
    let g = facts_of(&[("a.md", "## MarkdownReader\n\n- implements: Reader\n")]).graph;
    let edges = find_edges_for(&g.edges, "MarkdownReader");
    assert_eq!(edges.len(), 1);
    assert_eq!(edges[0].kind, EdgeKind::Implements);
    assert_eq!(edges[0].target.name, "Reader");
    assert_eq!(edges[0].raw_target, "Reader");
}

#[test]
fn depends_on_bullet_yields_edge() {
    let g = facts_of(&[("a.md", "## MarkdownReader\n\n- depends on: pulldown_cmark\n")]).graph;
    let edges = find_edges_for(&g.edges, "MarkdownReader");
    assert_eq!(edges.len(), 1);
    assert_eq!(edges[0].kind, EdgeKind::DependsOn);
    assert_eq!(edges[0].target.name, "pulldown_cmark");
}

#[test]
fn returns_bullet_yields_edge_and_tokenises_target() {
    let g = facts_of(&[("a.md", "## Reader\n\n- returns: Result<Graph, ReaderError>\n")]).graph;
    let edges = find_edges_for(&g.edges, "Reader");
    assert_eq!(edges.len(), 1);
    assert_eq!(edges[0].kind, EdgeKind::Returns);
    assert_eq!(edges[0].target.name, "Result");
    assert_eq!(edges[0].raw_target, "Result<Graph, ReaderError>");
}

#[test]
fn multiple_bullets_yield_multiple_edges() {
    let g = facts_of(&[(
        "a.md",
        "## MarkdownReader\n\n- implements: Reader\n- depends on: pulldown_cmark\n- depends on: walkdir\n",
    )])
    .graph;
    let edges = find_edges_for(&g.edges, "MarkdownReader");
    assert_eq!(edges.len(), 3);
    let kinds: Vec<EdgeKind> = edges.iter().map(|e| e.kind).collect();
    assert!(kinds.contains(&EdgeKind::Implements));
    assert_eq!(kinds.iter().filter(|k| **k == EdgeKind::DependsOn).count(), 2);
}

#[test]
fn bullet_without_matching_prefix_is_prose() {
    let g = facts_of(&[("a.md", "## MarkdownReader\n\n- some narrative bullet\n- another prose line\n")]).graph;
    assert!(g.edges.is_empty());
}

#[test]
fn empty_bullet_target_is_ignored() {
    let g = facts_of(&[("a.md", "## MarkdownReader\n\n- implements:\n- depends on:    \n")]).graph;
    assert!(g.edges.is_empty());
}

#[test]
fn prefix_match_is_case_sensitive() {
    let g = facts_of(&[("a.md", "## Thing\n\n- Implements: Foo\n- DEPENDS ON: Bar\n")]).graph;
    assert!(g.edges.is_empty());
}

#[test]
fn bullet_before_any_heading_is_ignored() {
    let g = facts_of(&[("a.md", "- implements: Ghost\n\n## Foo\n")]).graph;
    assert!(g.edges.is_empty());
}

#[test]
fn edges_are_scoped_to_current_concept_section() {
    let g = facts_of(&[("a.md", "## Foo\n\n- implements: X\n\n## Bar\n\n- depends on: Y\n")]).graph;
    let foo = find_edges_for(&g.edges, "Foo");
    let bar = find_edges_for(&g.edges, "Bar");
    assert_eq!(foo.len(), 1);
    assert_eq!(foo[0].kind, EdgeKind::Implements);
    assert_eq!(foo[0].target.name, "X");
    assert_eq!(bar.len(), 1);
    assert_eq!(bar[0].kind, EdgeKind::DependsOn);
    assert_eq!(bar[0].target.name, "Y");
}

#[test]
fn bullet_with_inline_backticks_yields_edge() {
    let g = facts_of(&[("a.md", "## Foo\n\n- implements: `Reader`\n")]).graph;
    let edges = find_edges_for(&g.edges, "Foo");
    assert_eq!(edges.len(), 1);
    assert_eq!(edges[0].target.name, "Reader");
}

#[test]
fn bullets_coexist_with_rust_block_in_same_section() {
    let g = facts_of(&[(
        "a.md",
        "## Reader\n\n- implements: Trait\n\n```rust\npub trait Reader { fn extract(&self); }\n```\n\n- depends on: Graph\n",
    )])
    .graph;
    let edges = find_edges_for(&g.edges, "Reader");
    assert_eq!(edges.len(), 2);
    let reader_node = g.nodes.iter().find(|n| n.name == "Reader").expect("test");
    assert!(matches!(reader_node.signature, SignatureState::Normalized(_)));
}

#[test]
fn bullet_edge_source_line_is_recorded() {
    let g = facts_of(&[("a.md", "## Foo\n\nProse line.\n\n- implements: Reader\n")]).graph;
    let edges = find_edges_for(&g.edges, "Foo");
    assert_eq!(edges.len(), 1);
    match &edges[0].source {
        Source::Spec { line, .. } => assert!(*line >= 3, "bullet line should point past the heading, got {line}"),
        Source::Code { .. } => panic!("expected Spec source"),
    }
}

#[test]
fn module_path_target_is_tokenised() {
    let g = facts_of(&[("a.md", "## Foo\n\n- depends on: domain::Graph\n")]).graph;
    let edges = find_edges_for(&g.edges, "Foo");
    assert_eq!(edges.len(), 1);
    assert_eq!(edges[0].target.name, "Graph");
    assert_eq!(edges[0].raw_target, "domain::Graph");
}

#[test]
fn extract_annotations_empty_on_no_h4_section() {
    assert!(annotations("## Concept\n\nProse.\n\n- implements: Reader\n").is_empty());
}

#[test]
fn extract_annotations_recognises_enforced_by_cypher() {
    let anns = annotations(
        "## Concept\n\n#### Operational invariants\n\n- INV-001: desc [enforced-by: .cfdb/queries/rule.cypher; retire-when: never]\n",
    );
    assert_eq!(anns.len(), 1);
    assert_eq!(anns[0].inv_id, "INV-001: desc");
    assert_eq!(anns[0].tier, TierKind::Cypher);
    assert_eq!(anns[0].artifact.as_deref(), Some(".cfdb/queries/rule.cypher"));
    assert_eq!(anns[0].retire_when.as_deref(), Some("never"));
    assert!(anns[0].prose_only_why.is_none());
}

#[test]
fn extract_annotations_recognises_enforced_by_script() {
    let anns = annotations(
        "## Concept\n\n#### Operational invariants\n\n- [enforced-by: scripts/fence.sh; retire-when: done]\n",
    );
    assert_eq!(anns.len(), 1);
    assert_eq!(anns[0].tier, TierKind::ScriptFence);
}

#[test]
fn extract_annotations_recognises_prose_only() {
    let anns =
        annotations("## Concept\n\n#### Operational invariants\n\n- INV-waiver: [prose-only: no tooling available]\n");
    assert_eq!(anns.len(), 1);
    assert_eq!(anns[0].tier, TierKind::ProseOnly);
    assert_eq!(anns[0].prose_only_why.as_deref(), Some("no tooling available"));
}

#[test]
fn extract_annotations_malformed_skips_with_ok_return() {
    let anns = annotations("## Concept\n\n#### Operational invariants\n\n- [enforced-by: missing-close-bracket\n");
    assert!(anns.is_empty(), "malformed annotation must be dropped");
}

#[test]
fn extract_annotations_section_ends_at_next_h2() {
    let anns = annotations(
        "## Concept\n\n#### Operational invariants\n\n- [enforced-by: rule.cypher; retire-when: done]\n\n## Other\n\n- [enforced-by: other.cypher]\n",
    );
    assert_eq!(anns.len(), 1);
}

#[test]
fn extract_annotations_multiple_in_section() {
    let anns = annotations(
        "## Concept\n\n#### Operational invariants\n\n- INV-1: [enforced-by: rule.cypher; retire-when: a]\n- INV-2: [prose-only: reason]\n",
    );
    assert_eq!(anns.len(), 2);
}

#[test]
fn extract_annotations_returns_ok_empty_on_no_annotations_present() {
    assert!(annotations("## ConceptA\n\nSome prose.\n\n## ConceptB\n\n- depends on: ConceptA\n").is_empty());
}

#[test]
fn parse_verb_bullet_returns_anchor_for_valid_ident() {
    let anchor = parse_verb_bullet("verb: diff").expect("should parse");
    assert_eq!(anchor.qname, "diff");
    assert_eq!(anchor.raw_target, "verb: diff");
    assert!(anchor.concept.is_empty(), "concept placeholder should be empty");
}

#[test]
fn parse_verb_bullet_returns_none_for_non_verb_bullet() {
    assert!(parse_verb_bullet("implements: Reader").is_none());
    assert!(parse_verb_bullet("prose line").is_none());
    assert!(parse_verb_bullet("depends on: Foo").is_none());
}

#[test]
fn parse_verb_bullet_returns_none_for_empty_qname() {
    assert!(parse_verb_bullet("verb:").is_none());
    assert!(parse_verb_bullet("verb:   ").is_none());
}

#[test]
fn parse_verb_bullet_returns_none_for_multi_word_qname() {
    assert!(parse_verb_bullet("verb: fn_name extra").is_none());
    assert!(parse_verb_bullet("verb: two words").is_none());
}

#[test]
fn verb_bullet_does_not_yield_edge_in_graph() {
    let g = facts_of(&[("a.md", "## Concept\n\n- verb: some_fn\n- implements: Reader\n")]).graph;
    let edges = find_edges_for(&g.edges, "Concept");
    assert_eq!(edges.len(), 1, "verb bullet must not become an edge");
    assert_eq!(edges[0].kind, EdgeKind::Implements);
}

#[test]
fn extract_verb_anchors_collects_anchors_from_spec() {
    let anchors = facts_of(&[(
        "a.md",
        "## Graph\n\n- verb: diff\n- verb: tokenise_target\n\n## Reader\n\n- verb: extract\n",
    )])
    .verb_anchors;
    assert_eq!(anchors.len(), 3);
    let qnames: Vec<&str> = anchors.iter().map(|a| a.qname.as_str()).collect();
    assert!(qnames.contains(&"diff"));
    assert!(qnames.contains(&"tokenise_target"));
    assert!(qnames.contains(&"extract"));
    assert_eq!(anchors.iter().filter(|a| a.concept == "Graph").count(), 2);
}

#[test]
fn extract_verb_anchors_returns_empty_when_no_verb_bullets() {
    assert!(facts_of(&[("a.md", "## Concept\n\n- implements: Reader\n- depends on: Graph\n")]).verb_anchors.is_empty());
}

#[test]
fn extract_verb_anchors_records_correct_concept_and_source_line() {
    let anchors = facts_of(&[("a.md", "## Graph\n\n- verb: diff\n")]).verb_anchors;
    assert_eq!(anchors.len(), 1);
    assert_eq!(anchors[0].concept, "Graph");
    assert_eq!(anchors[0].qname, "diff");
    match &anchors[0].source {
        Source::Spec { line, .. } => assert!(*line >= 1),
        Source::Code { .. } => panic!("expected Spec source"),
    }
}

#[test]
fn v04_ignores_files_under_contexts_subdir() {
    assert_eq!(
        extract(&[
            ("specs/concepts/a.md", "## Foo\n## Bar\n"),
            ("specs/contexts/equivalence.md", "# equivalence\n\n## Owns\n\n- domain\n"),
        ]),
        vec!["Bar", "Foo"]
    );
}

#[test]
fn parse_verb_bullet_accepts_type_method() {
    assert_eq!(parse_verb_bullet("verb: Foo::bar").expect("should parse").qname, "Foo::bar");
}

#[test]
fn parse_verb_bullet_rejects_multi_segment() {
    assert!(parse_verb_bullet("verb: a::b::c").is_none(), "multi-segment path must be rejected");
}

#[test]
fn parse_verb_bullet_rejects_leading_colons() {
    assert!(parse_verb_bullet("verb: ::foo").is_none(), "leading :: must be rejected");
}

#[test]
fn parse_verb_bullet_accepts_bare_ident_unchanged() {
    assert_eq!(parse_verb_bullet("verb: foo").expect("should parse").qname, "foo");
}

#[test]
fn per_heading_marker_bullet_marks_exactly_that_heading() {
    assert_eq!(
        marks(&[("a.md", "# widgets\n\n## Widget\n\n- status: draft\n\n## Gadget\n\nPlain prose.\n")]),
        vec![("Gadget".to_owned(), false), ("Widget".to_owned(), true)]
    );
}

#[test]
fn marker_tolerates_the_upstream_citation_parenthetical() {
    assert_eq!(
        marks(&[("a.md", "# widgets\n\n## Widget\n\n- status: draft (per RFC-vocabulary.md §4)\n")]),
        vec![("Widget".to_owned(), true)]
    );
}

#[test]
fn there_is_no_second_marker_value() {
    assert_eq!(marks(&[("a.md", "# widgets\n\n## Widget\n\n- status: ratified\n")]), vec![("Widget".to_owned(), false)]);
}

#[test]
fn misplaced_marker_is_inert_and_the_heading_reads_unmarked() {
    assert_eq!(
        marks(&[("a.md", "# widgets\n\n## Widget\n\nSome prose first.\n\n- status: draft\n")]),
        vec![("Widget".to_owned(), false)]
    );
}

#[test]
fn marker_after_a_sibling_bullet_is_inert() {
    assert_eq!(
        marks(&[("a.md", "# widgets\n\n## Widget\n\n- depends on: Gear\n- status: draft\n\n## Gear\n")]),
        vec![("Gear".to_owned(), false), ("Widget".to_owned(), false)]
    );
}

#[test]
fn a_marker_does_not_inherit_to_sub_concepts() {
    assert_eq!(
        marks(&[("a.md", "# widgets\n\n## Widget\n\n- status: draft\n\n### Cog\n\nProse.\n")]),
        vec![("Cog".to_owned(), false), ("Widget".to_owned(), true)]
    );
}

#[test]
fn marker_bullet_is_not_an_edge_or_an_anchor() {
    let f = facts_of(&[("a.md", "# widgets\n\n## Widget\n\n- status: draft\n")]);
    assert!(f.graph.edges.is_empty(), "marker must not become an edge");
    assert!(f.concept_anchors.is_empty(), "marker must not become an anchor");
}

#[test]
fn state_marker_grammar_is_case_exact() {
    let files = [(
        "a.md",
        "# widgets\n\n## Exact\n\n- status: draft (per keel-dialect#4)\n\n## Shouted\n\n- status: DRAFT\n\n## Retired\n\n- status: retired\n\n## Retiring\n\n- status: retiring\n",
    )];
    assert_eq!(marker_of(&files, "Exact"), Marker::Draft, "the exact form, citation and all, marks the heading");
    assert_eq!(marker_of(&files, "Shouted"), Marker::Unmarked, "a shouted value is not the marker");
    assert_eq!(marker_of(&files, "Retired"), Marker::Retired);
    assert_eq!(marker_of(&files, "Retiring"), Marker::Unmarked);
}

#[test]
fn the_front_matter_value_is_the_bare_word_draft() {
    assert_eq!(marks(&[("a.md", "---\nstatus: draft\n---\n\n# widgets\n\n## Foo\n")]), vec![("Foo".to_owned(), true)]);
}

#[test]
fn live_is_the_other_admitted_front_matter_value() {
    assert_eq!(marks(&[("a.md", "---\nstatus: live\n---\n\n# widgets\n\n## Foo\n")]), vec![("Foo".to_owned(), false)]);
}

#[test]
fn a_status_line_in_prose_is_not_front_matter() {
    assert_eq!(
        marks(&[("a.md", "# widgets\n\n## Foo\n\nstatus: draft mentioned in prose\n")]),
        vec![("Foo".to_owned(), false)]
    );
}

#[test]
fn front_matter_that_closes_before_the_status_line_is_not_draft() {
    assert_eq!(marks(&[("a.md", "---\nauthor: x\n---\n\n# widgets\n\n## Foo\n")]), vec![("Foo".to_owned(), false)]);
}

#[test]
fn draft_front_matter_marks_every_heading_in_the_file() {
    assert_eq!(
        marks(&[
            (
                "draft.md",
                "---\nstatus: draft\n---\n\n# reconcilers\n\n## Reconciler\n\n```rust\npub trait Reconciler {}\n```\n\n## Ledger\n",
            ),
            ("live.md", "## Live\n"),
        ]),
        vec![("Ledger".to_owned(), true), ("Live".to_owned(), false), ("Reconciler".to_owned(), true)]
    );
}

#[test]
fn draft_file_signatures_are_still_parsed() {
    assert!(matches!(
        extract_sig(&[("draft.md", "---\nstatus: draft\n---\n\n## Reconciler\n\n```rust\npub trait Reconciler {}\n```\n")], "Reconciler"),
        SignatureState::Normalized(_)
    ));
}

#[test]
fn extract_verb_anchors_reads_draft_specs() {
    let anchors = facts_of(&[("draft.md", "---\nstatus: draft\n---\n\n## Reconciler\n\n- verb: reconcile\n")]).verb_anchors;
    assert_eq!(anchors.len(), 1, "draft verb anchors are extracted");
    assert_eq!(anchors[0].qname, "reconcile");
}

#[test]
fn a_draft_marker_suspends_the_obligation_on_code_and_nothing_else() {
    let anns = annotations(
        "---\nstatus: draft\n---\n\n## Reconciler\n\n#### Operational invariants\n\n- INV-001: x [enforced-by: .cfdb/queries/r.cypher; retire-when: never]\n",
    );
    assert_eq!(anns.len(), 1, "the marker narrows the code obligation, never the annotation channel");
}

#[test]
fn parse_impl_bullet_yields_concept_anchor() {
    let a = parse_impl_bullet("impl: validate_intake").expect("anchor");
    assert_eq!(a.target, "validate_intake");
    assert!(a.concept.is_empty());
}

#[test]
fn parse_impl_bullet_does_not_collide_with_implements_edge() {
    assert!(parse_impl_bullet("implements: Foo").is_none());
}

#[test]
fn parse_impl_bullet_rejects_malformed_qname() {
    assert!(parse_impl_bullet("impl: a::b::c").is_none());
    assert!(parse_impl_bullet("impl:").is_none());
}

#[test]
fn impl_and_verb_share_one_qname_grammar() {
    let v = parse_verb_bullet("verb: Foo::bar").expect("verb");
    let i = parse_impl_bullet("impl: Foo::bar").expect("impl");
    assert_eq!(v.qname, i.target);
    assert!(parse_verb_bullet("verb: a::b::c").is_none());
    assert!(parse_impl_bullet("impl: a::b::c").is_none());
}

#[test]
fn extract_concept_anchors_collects_impl_bullet() {
    let anchors = facts_of(&[("intake.md", "## ValidateIntakeFull\n\n- impl: validate_intake\n")]).concept_anchors;
    assert_eq!(anchors.len(), 1);
    assert_eq!(anchors[0].concept, "ValidateIntakeFull");
    assert_eq!(anchors[0].target, "validate_intake");
}

#[test]
fn extract_concept_anchors_is_empty_without_impl_and_reads_draft_files() {
    let anchors = facts_of(&[
        ("plain.md", "## Foo\n\n- depends on: Bar\n"),
        ("draft.md", "---\nstatus: draft\n---\n\n## Drafted\n\n- impl: drafted_fn\n"),
    ])
    .concept_anchors;
    assert_eq!(anchors.len(), 1, "the draft file's anchor is extracted");
    assert_eq!(anchors[0].target, "drafted_fn");
}

#[test]
fn impl_bullet_is_not_an_edge() {
    assert!(facts_of(&[("a.md", "## Foo\n\n- impl: foo_fn\n")]).graph.edges.is_empty());
}

#[test]
fn a_quoted_front_matter_value_refuses() {
    assert!(
        front_matter_refusal("---\nstatus: \"draft\"\n---\n").contains("unknown status"),
        "quotes are not stripped — the file is refused, never read as draft"
    );
}

#[test]
fn a_trailing_comment_on_the_front_matter_value_refuses() {
    assert!(front_matter_refusal("---\nstatus: 'draft' # pre-authored\n---\n").contains("unknown status"));
}

#[test]
fn a_shouted_front_matter_value_refuses() {
    assert!(
        front_matter_refusal("---\nstatus: Draft\n---\n").contains("unknown status"),
        "case-exact means refused, not unmarked"
    );
}

#[test]
fn a_front_matter_value_outside_the_enum_refuses() {
    assert!(front_matter_refusal("---\nstatus: ratified\n---\n").contains("unknown status"));
}

#[test]
fn the_annotation_channel_runs_behind_the_one_readers_verdict() {
    let text = "---\nstatus: retired\n---\n\n## Concept\n\n#### Operational invariants\n\n- INV-001: desc [enforced-by: .cfdb/queries/rule.cypher; retire-when: never]\n";
    let err = read("bad.md", text, &parse(text)).expect_err("a malformed file refuses before its annotations are read");
    assert!(
        matches!(&err, ReaderError::ParseFailed { message, .. } if message.contains("unknown status")),
        "got {err:?}"
    );
}
