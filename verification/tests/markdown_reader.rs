use graph_specs::graph::SignatureState;
use graph_specs::markdown::grounding::{DeclaredConcept, ParsedSpec, Site};
use graph_specs::markdown::reader::{assemble_spec_trees, walk_contexts, LoadedFile, MarkdownReader};
use graph_specs::markdown::section::SignatureNormalizer;
use graph_specs::model::{EdgeKind, Marker, Polarity, ReaderError, Source};

/// A normalizer that reads a `rust` block as its trimmed text and refuses
/// a block that does not end in `;`.
struct Trimmed;

impl SignatureNormalizer for Trimmed {
    fn normalize(&self, _tag: &str, block: &str) -> Result<String, String> {
        let t = block.trim();
        if t.ends_with(';') {
            Ok(t.to_owned())
        } else {
            Err("expected `;`".to_owned())
        }
    }
}

fn site(name: &str, line: usize, level: usize) -> Site {
    Site { name: name.to_owned(), line, level }
}

fn declared(name: &str, line: usize) -> DeclaredConcept {
    DeclaredConcept { name: name.to_owned(), line, retired: false, draft: false, polarity: Polarity::Declared }
}

fn parse_of(sites: Vec<Site>, concepts: Vec<DeclaredConcept>) -> ParsedSpec {
    ParsedSpec {
        sites,
        concepts,
        unclosed_fences: vec![],
        malformed_headings: vec![],
        orphans: vec![],
        malformed_frontmatter: vec![],
        malformed: vec![],
    }
}

fn file(path: &str, text: &str) -> LoadedFile {
    LoadedFile { path: path.to_owned(), text: text.to_owned() }
}

fn reader() -> MarkdownReader {
    MarkdownReader::new(vec!["rust".to_owned()])
}

const DOC: &str = "# Reading\n\n## Reader\n\n- implements: Port\n- depends on: domain::Graph\n- verb: extract\n\n```rust\npub trait Reader;\n```\n\n### Cursor\n\n- returns: Result<Graph, ReaderError>\n";

fn doc_parse() -> ParsedSpec {
    parse_of(
        vec![site("Reading", 1, 1), site("Reader", 3, 2), site("Cursor", 13, 3)],
        vec![declared("Reader", 3), declared("Cursor", 13)],
    )
}

#[test]
fn concept_rungs_become_nodes_with_their_lines_and_signatures() {
    let facts = reader()
        .extract(&vec![file("specs/concepts/reading.md", DOC)], &vec![doc_parse()], &Trimmed)
        .expect("read");
    let names: Vec<&str> = facts.graph.nodes.iter().map(|n| n.name.as_str()).collect();
    assert_eq!(names, vec!["Reader", "Cursor"]);
    match &facts.graph.nodes[0].source {
        Source::Spec { path, line, .. } => {
            assert_eq!(path, "specs/concepts/reading.md");
            assert_eq!(*line, 3);
        }
        other => panic!("expected a spec source, got {other:?}"),
    }
    assert_eq!(facts.graph.nodes[0].signature, SignatureState::Normalized("pub trait Reader;".to_owned()));
    assert_eq!(facts.graph.nodes[1].signature, SignatureState::Absent, "the block belongs to Reader's extent");
}

#[test]
fn bullets_yield_edges_and_verb_anchors_within_their_section() {
    let facts = reader()
        .extract(&vec![file("specs/concepts/reading.md", DOC)], &vec![doc_parse()], &Trimmed)
        .expect("read");
    let edges: Vec<(&str, EdgeKind, &str, &str)> = facts
        .graph
        .edges
        .iter()
        .map(|e| (e.source_concept.name.as_str(), e.kind, e.target.name.as_str(), e.raw_target.as_str()))
        .collect();
    assert_eq!(
        edges,
        vec![
            ("Reader", EdgeKind::Implements, "Port", "Port"),
            ("Reader", EdgeKind::DependsOn, "Graph", "domain::Graph"),
            ("Cursor", EdgeKind::Returns, "Result", "Result<Graph, ReaderError>"),
        ]
    );
    assert_eq!(facts.verb_anchors.len(), 1);
    assert_eq!(facts.verb_anchors[0].concept, "Reader");
    assert_eq!(facts.verb_anchors[0].qname, "extract");
    assert!(facts.malformed.is_empty());
}

#[test]
fn an_unparseable_signature_block_is_recorded_as_such() {
    let text = "## Foo\n\n```rust\npub struct Foo(\n```\n";
    let facts = reader()
        .extract(&vec![file("a.md", text)], &vec![parse_of(vec![site("Foo", 1, 2)], vec![declared("Foo", 1)])], &Trimmed)
        .expect("read");
    match &facts.graph.nodes[0].signature {
        SignatureState::Unparseable { raw, error } => {
            assert!(raw.contains("pub struct Foo("));
            assert_eq!(error, "rust: expected `;`");
        }
        other => panic!("expected an unparseable signature, got {other:?}"),
    }
}

#[test]
fn a_declared_marker_and_polarity_are_carried_to_the_node() {
    let text = "## Legacy\n\n## Draft\n";
    let mut legacy = declared("Legacy", 1);
    legacy.retired = true;
    legacy.polarity = Polarity::Forbidden;
    let mut draft = declared("Draft", 3);
    draft.draft = true;
    let facts = reader()
        .extract(
            &vec![file("a.md", text)],
            &vec![parse_of(vec![site("Legacy", 1, 2), site("Draft", 3, 2)], vec![legacy, draft])],
            &Trimmed,
        )
        .expect("read");
    assert_eq!(facts.graph.nodes[0].marker, Marker::Retired);
    assert_eq!(facts.graph.nodes[0].polarity, Polarity::Forbidden);
    assert_eq!(facts.graph.nodes[1].marker, Marker::Draft);
    assert_eq!(facts.graph.nodes[1].polarity, Polarity::Declared);
}

#[test]
fn an_unplaced_heading_reads_its_status_bullet_or_the_front_matter() {
    let text = "---\nstatus: draft\n---\n## Kept\n\n- status: retired\n\n## Plain\n";
    let facts = reader()
        .extract(
            &vec![file("a.md", text)],
            &vec![parse_of(vec![site("Kept", 4, 2), site("Plain", 8, 2)], vec![])],
            &Trimmed,
        )
        .expect("read");
    assert_eq!(facts.graph.nodes[0].marker, Marker::Retired, "the heading's own bullet wins");
    assert_eq!(facts.graph.nodes[1].marker, Marker::Draft, "the front matter marks the rest");
}

#[test]
fn an_unclosed_fence_refuses_the_document() {
    let mut parsed = parse_of(vec![site("Foo", 1, 2)], vec![declared("Foo", 1)]);
    parsed.unclosed_fences = vec![3];
    let err = reader()
        .extract(&vec![file("a.md", "## Foo\n\n```rust\n")], &vec![parsed], &Trimmed)
        .expect_err("refused");
    assert_eq!(
        err,
        ReaderError::ParseFailed { path: "a.md".to_owned(), line: 3, message: "unclosed code fence".to_owned() }
    );
}

#[test]
fn context_documents_are_not_concept_documents() {
    let files = vec![
        file("specs/contexts/reading.md", "# reading\n\n## Owns\n\n- adapters/markdown\n"),
        file("specs/concepts/reading.md", "## Reader\n"),
    ];
    let parsed = vec![
        parse_of(vec![], vec![]),
        parse_of(vec![site("Reader", 1, 2)], vec![declared("Reader", 1)]),
    ];
    let facts = reader().extract(&files, &parsed, &Trimmed).expect("read");
    assert_eq!(facts.graph.nodes.len(), 1);
    assert_eq!(facts.graph.nodes[0].name, "Reader");
    let contexts = walk_contexts(&files).expect("contexts");
    assert_eq!(contexts.len(), 1);
    assert_eq!(contexts[0].name, "reading");
    assert_eq!(contexts[0].owned_units.len(), 1);
    assert_eq!(contexts[0].owned_units[0].0, "adapters/markdown");
}

#[test]
fn assemble_spec_trees_skips_non_context_h1_files() {
    let files = vec![
        file("specs/concepts/cfdb-cli.md", "# Spec: cfdb-cli\n\n## Foo\n"),
        file("specs/concepts/reading.md", "# reading\n\n## Bar\n"),
    ];
    let trees = assemble_spec_trees(&files).expect("walk must not abort");
    let ids: Vec<_> = trees.iter().filter_map(|t| t.context_id()).collect();
    assert_eq!(ids, vec!["reading"], "only the identifier-H1 file yields a tree");
    assert_eq!(trees[0].concept_declarations(), vec![("Bar", "reading")]);
}

#[test]
fn assemble_spec_trees_walks_draft_files() {
    let files = vec![
        file("specs/concepts/draft.md", "---\nstatus: draft\n---\n\n# reading\n"),
        file("specs/concepts/live.md", "# equivalence\n\n## Graph\n"),
    ];
    let trees = assemble_spec_trees(&files).expect("walk");
    let ids: Vec<_> = trees.iter().filter_map(|t| t.context_id()).collect();
    assert_eq!(ids, vec!["reading", "equivalence"], "draft files are no longer skipped by the ladder walk");
    let violations: Vec<_> = trees.iter().flat_map(|t| t.cohesion_violations()).collect();
    assert_eq!(violations.len(), 1);
}
