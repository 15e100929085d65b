use graph_specs::model::{EdgeKind, Source, SpecFormat};
use graph_specs::outcome::Violation;
use graph_specs::php::{attribute_key_findings, attributed_facts, tagged_block, PhpSignatures};
use graph_specs::graph::SignatureState;
use graph_specs::php_syntax::{attributed, normalize_tree, SyntaxNode};

fn syntax_of(node: tree_sitter::Node, field: Option<&str>, src: &[u8]) -> SyntaxNode {
    let mut cursor = node.walk();
    let children = node
        .children(&mut cursor)
        .enumerate()
        .map(|(i, c)| syntax_of(c, node.field_name_for_child(i as u32), src))
        .collect();
    SyntaxNode {
        kind: node.kind().to_owned(),
        field: field.map(str::to_owned),
        named: node.is_named(),
        has_error: node.has_error(),
        text: node.utf8_text(src).unwrap_or_default().to_owned(),
        row: node.start_position().row,
        children,
    }
}

fn parse(source: &str) -> SyntaxNode {
    let mut parser = tree_sitter::Parser::new();
    parser.set_language(&tree_sitter_php::LANGUAGE_PHP.into()).expect("php grammar");
    let tree = parser.parse(source, None).expect("a tree");
    syntax_of(tree.root_node(), None, source.as_bytes())
}

fn read(path: &str, source: &str) -> (Vec<graph_specs::graph::ConceptNode>, Vec<graph_specs::graph::Edge>, Vec<Violation>) {
    let root = parse(source);
    let attrs = attributed(Some(&root)).expect("attributes");
    let (nodes, edges) = attributed_facts(path, &attrs);
    let findings = attribute_key_findings(path, &attrs);
    (nodes, edges, findings)
}

#[test]
fn an_attribute_yields_a_spec_fact_carrying_the_inline_attribute_format() {
    let (nodes, edges, _) = read(
        "Course.php",
        "<?php\nnamespace App\\Catalogue;\n\n#[Spec(implements: \"Enrolable\", signature: \"public function place(Order $o): Receipt\")]\nfinal class Course implements Enrolable {}\n",
    );
    assert_eq!(nodes.len(), 1, "{nodes:?}");
    let node = &nodes[0];
    assert_eq!(node.name, "Course");
    assert!(
        matches!(node.source, Source::Spec { format: SpecFormat::InlineAttribute, .. }),
        "the attribute channel is a spec source in the inline-attribute format: {:?}",
        node.source
    );
    assert_eq!(
        node.signature,
        SignatureState::Normalized("public function place(Order $o): Receipt".to_string())
    );
    assert_eq!(edges.len(), 1, "{edges:?}");
    assert_eq!(edges[0].kind, EdgeKind::Implements);
    assert_eq!(edges[0].raw_target, "Enrolable");
}

#[test]
fn an_extends_key_is_read_without_a_finding_and_yields_no_edge() {
    let (nodes, edges, findings) = read(
        "Course.php",
        "<?php\n\n#[Spec(extends: \"Base\", implements: \"Enrolable\")]\nclass Course extends Base implements Enrolable {}\n",
    );
    assert!(findings.is_empty(), "extends is an accepted key: {findings:?}");
    assert_eq!(nodes.len(), 1);
    assert_eq!(edges.len(), 1, "only implements yields an edge: {edges:?}");
    assert_eq!(edges[0].raw_target, "Enrolable");
}

#[test]
fn an_unknown_key_is_a_finding_naming_the_key() {
    let (_, _, findings) = read(
        "Course.php",
        "<?php\n\n#[Spec(implements: \"Enrolable\", inherits: \"Base\")]\nclass Course {}\n",
    );
    assert_eq!(findings.len(), 1, "{findings:?}");
    match &findings[0] {
        Violation::UnknownAttributeKey { concept, key, spec_source } => {
            assert_eq!(concept, "Course");
            assert_eq!(key, "inherits");
            match spec_source {
                Source::Spec { path, line, format, .. } => {
                    assert_eq!(path, "Course.php");
                    assert_eq!(*line, 3);
                    assert_eq!(*format, SpecFormat::InlineAttribute);
                }
                other => panic!("expected a spec source, got {other:?}"),
            }
        }
        other => panic!("expected an unknown-key finding, got {other:?}"),
    }
}

#[test]
fn a_php_file_without_the_attribute_yields_nothing() {
    let (nodes, edges, _) = read("Plain.php", "<?php\n\nclass Plain {}\n");
    assert!(nodes.is_empty() && edges.is_empty(), "{nodes:?} {edges:?}");
}

#[test]
fn an_attributed_declaration_is_located_on_its_own_line() {
    let (nodes, _, _) = read(
        "Level.php",
        "<?php\n\nnamespace App;\n\n#[Spec(signature: \"x\")]\nenum Level {}\n\ninterface Port {}\n",
    );
    assert_eq!(nodes.len(), 1);
    assert_eq!(nodes[0].name, "Level");
    match &nodes[0].source {
        Source::Spec { line, .. } => assert_eq!(*line, 5),
        other => panic!("expected a spec source, got {other:?}"),
    }
}

#[test]
fn a_source_the_grammar_gives_no_tree_for_is_refused() {
    assert!(attributed(None).is_err());
}

fn normalize(block: &str) -> Result<String, String> {
    let tagged = tagged_block(block);
    let root = parse(&tagged);
    normalize_tree(Some(&root))
}

#[test]
fn a_php_signature_block_reprints_its_one_declaration_without_its_body() {
    assert_eq!(PhpSignatures.fence_tag(), "php");
    let sig = normalize("interface Port {\n    // a comment\n    public function run(): void;\n}\n")
        .expect("one declaration");
    assert_eq!(sig, "interface Port");
    let same = normalize("<?php\ninterface   Port\n{\n}\n").expect("one declaration");
    assert_eq!(sig, same, "layout does not change the signature");
}

#[test]
fn a_block_without_a_declaration_or_with_two_is_refused() {
    assert_eq!(
        normalize("$x = 1;\n"),
        Err("the block declares nothing the php grammar recognises".to_owned())
    );
    assert_eq!(
        normalize("class A {}\nclass B {}\n"),
        Err("the block declares 2 constructs; a signature block declares one".to_owned())
    );
    assert_eq!(
        normalize("class {\n"),
        Err("the php grammar could not parse the block".to_owned())
    );
    assert_eq!(normalize_tree(None), Err("the php grammar returned no tree".to_owned()));
}
