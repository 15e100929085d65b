use graph_specs::markdown::bullets::parse_anchor_qname;
use graph_specs::markdown::front_matter::{has_behavioral_substance, is_behavioral_context};

#[test]
fn parse_anchor_qname_accepts_bare_and_two_segment() {
    assert_eq!(
        parse_anchor_qname(" validate_intake "),
        Some("validate_intake")
    );
    assert_eq!(parse_anchor_qname("Type::method"), Some("Type::method"));
}

#[test]
fn parse_anchor_qname_rejects_multi_segment_and_empty() {
    assert_eq!(parse_anchor_qname("a::b::c"), None);
    assert_eq!(parse_anchor_qname("::lead"), None);
    assert_eq!(parse_anchor_qname("trail::"), None);
    assert_eq!(parse_anchor_qname("   "), None);
    assert_eq!(parse_anchor_qname("has space"), None);
}

#[test]
fn is_behavioral_context_detects_marker() {
    assert!(is_behavioral_context(
        "---\ncohesion: behavioral\n---\n\n# secrets\n"
    ));
    assert!(is_behavioral_context(
        "---\ncohesion: \"behavioral\" # doctrine\n---\n# x\n"
    ));
}

#[test]
fn is_behavioral_context_rejects_absent_or_other_shapes() {
    assert!(!is_behavioral_context("# secrets\n"));
    assert!(!is_behavioral_context("---\nstatus: draft\n---\n# x\n"));
    assert!(!is_behavioral_context(
        "---\ncohesion: load-bearing\n---\n# x\n"
    ));
    assert!(!is_behavioral_context("# x\n\ncohesion: behavioral\n"));
}

#[test]
fn has_behavioral_substance_detects_each_marker() {
    assert!(has_behavioral_substance("- impl: foo\n"));
    assert!(has_behavioral_substance("- verb: bar\n"));
    assert!(has_behavioral_substance(
        "- INV-x: y [enforced-by: q.cypher; retire-when: never]\n"
    ));
    assert!(has_behavioral_substance(
        "- INV-x: y [prose-only: doctrine]\n"
    ));
    assert!(has_behavioral_substance("  * verb: indented\n"));
}

#[test]
fn has_behavioral_substance_rejects_non_substance() {
    assert!(!has_behavioral_substance("# ctx\n\nJust prose.\n"));
    assert!(!has_behavioral_substance(
        "- implements: Foo\n- depends on: Bar\n"
    ));
}
