use graph_specs::markdown::contexts::parse_context_file;
use graph_specs::markdown::tree::{assemble_tree, SpecTree};
use graph_specs::model::{AbstractionLevel, CohesionViolation, ReaderError};

fn tree(source: &str) -> SpecTree {
    assemble_tree(source, "specs/concepts/equivalence.md").expect("well-formed tree")
}

#[test]
fn nested_headings_map_to_each_rung_with_parent_links() {
    let t = tree("# equivalence\n\n## Graph\n\n### Inner\n\n#### field\n");
    let levels: Vec<_> = t.nodes.iter().map(|n| n.level).collect();
    assert_eq!(
        levels,
        vec![
            AbstractionLevel::Context,
            AbstractionLevel::Concept,
            AbstractionLevel::SubConcept,
            AbstractionLevel::Member,
        ]
    );
    assert_eq!(t.nodes[0].parent, None);
    assert_eq!(t.nodes[1].parent, Some(0));
    assert_eq!(t.nodes[2].parent, Some(1));
    assert_eq!(t.nodes[3].parent, Some(2));
    assert_eq!(t.context_id(), Some("equivalence"));
    assert!(t.cohesion_violations().is_empty());
}

#[test]
fn h1_with_no_concept_is_context_without_cohesion_unit() {
    let t = tree("# equivalence\n\nprose only, no H2.\n");
    assert_eq!(
        t.cohesion_violations(),
        vec![CohesionViolation::ContextWithoutCohesionUnit {
            context: "equivalence".to_owned(),
            file: String::from("specs/concepts/equivalence.md"),
        }]
    );
}

#[test]
fn h1_to_h3_depth_skip_is_a_subconcept_orphan() {
    let t = tree("# equivalence\n\n### Orphaned\n");
    let v = t.cohesion_violations();
    assert!(
        v.contains(&CohesionViolation::SubConceptOrphan {
            sub_concept: "Orphaned".to_owned(),
            file: String::from("specs/concepts/equivalence.md"),
        }),
        "expected SubConceptOrphan, got {v:?}"
    );
    assert!(!v
        .iter()
        .any(|x| matches!(x, CohesionViolation::ContextWithoutCohesionUnit { .. })));
    assert_eq!(t.nodes[1].parent, None, "orphan H3 has no parent");
}

#[test]
fn enclosed_h3_is_not_an_orphan() {
    let t = tree("# equivalence\n\n## Graph\n\n### Inner\n");
    assert!(t.cohesion_violations().is_empty());
    assert_eq!(t.nodes[2].parent, Some(1));
}

#[test]
fn descriptive_h1_is_a_reader_error() {
    let err = assemble_tree(
        "# Core concepts: the equivalence layer\n\n## Graph\n",
        "specs/concepts/core.md",
    )
    .expect_err("descriptive H1 must be rejected");
    assert!(
        matches!(err, ReaderError::ParseFailed { .. }),
        "got {err:?}"
    );
}

#[test]
fn normalization_matches_on_both_sides() {
    let concepts = tree("# AC verifier\n\n## Foo\n");
    assert_eq!(concepts.context_id(), Some("ac-verifier"));
    let decl = parse_context_file(
        "specs/contexts/ac-verifier.md",
        "# AC verifier\n\n## Owns\n\n- foo\n",
    )
    .expect("well-formed context file");
    assert_eq!(decl.name, "ac-verifier");
    assert_eq!(concepts.context_id(), Some(decl.name.as_str()));
}

#[test]
fn member_falls_back_to_concept_when_no_subconcept() {
    let t = tree("# equivalence\n\n## Graph\n\n#### member\n");
    assert_eq!(t.nodes[2].level, AbstractionLevel::Member);
    assert_eq!(t.nodes[2].parent, Some(1));
}

#[test]
fn draft_doc_with_only_an_h1_declares_no_cohesion_unit() {
    let t = tree("---\nstatus: draft\n---\n\n# equivalence\n\nJust prose.\n");
    assert_eq!(
        t.cohesion_violations(),
        vec![CohesionViolation::ContextWithoutCohesionUnit {
            context: "equivalence".to_string(),
            file: String::from("specs/concepts/equivalence.md"),
        }]
    );
}

#[test]
fn a_marked_heading_counts_as_a_cohesion_unit() {
    let t = tree("---\nstatus: draft\n---\n\n# equivalence\n\n## Graph\n");
    assert!(
        t.cohesion_violations().is_empty(),
        "a marked H2 satisfies its context: {:?}",
        t.cohesion_violations()
    );

    let t = tree("# equivalence\n\n## Graph\n\n- status: draft\n");
    assert!(t.cohesion_violations().is_empty());
}

#[test]
fn the_behavioral_exemption_applies_to_draft_docs_on_the_same_terms() {
    let exempt = tree(
        "---\nstatus: draft\ncohesion: behavioral\n---\n\n# secrets\n\n- impl: rotate_key\n",
    );
    assert!(
        exempt.cohesion_violations().is_empty(),
        "behavioral + substance exempts a draft doc: {:?}",
        exempt.cohesion_violations()
    );

    let bare = tree("---\nstatus: draft\ncohesion: behavioral\n---\n\n# secrets\n\nProse.\n");
    assert_eq!(
        bare.cohesion_violations().len(),
        1,
        "behavioral without substance is still a violation, draft or not"
    );
}

#[test]
fn assemble_tree_sets_behavioral_and_blanks_front_matter() {
    let t =
        tree("---\ncohesion: behavioral\n---\n\n# secrets\n\n#### Operational invariants\n");
    assert!(t.behavioral, "cohesion: behavioral must set the flag");
    assert!(
        t.nodes.iter().all(|n| n.text != "cohesion: behavioral"),
        "front-matter must not become a heading: {:?}",
        t.nodes
    );
    let ctx = t
        .nodes
        .iter()
        .find(|n| n.level == AbstractionLevel::Context)
        .expect("context node");
    assert_eq!(ctx.id.as_deref(), Some("secrets"));
    assert_eq!(ctx.line, 5);
}

#[test]
fn assemble_tree_without_front_matter_is_not_behavioral() {
    let t = tree("# equivalence\n## Graph\n");
    assert!(!t.behavioral);
}

#[test]
fn behavioral_doctrine_context_with_prose_only_annotation_is_exempt() {
    let t = tree(
        "---\ncohesion: behavioral\n---\n\n# secrets\n\n#### Operational invariants\n\n- INV-x: no type until a future RFC [prose-only: doctrine]\n",
    );
    assert!(t.behavioral && t.has_substance);
    assert!(
        t.cohesion_violations().is_empty(),
        "behavioral+substance must be exempt: {:?}",
        t.cohesion_violations()
    );
}

#[test]
fn behavioral_with_impl_anchor_substance_is_exempt() {
    let t = tree("---\ncohesion: behavioral\n---\n\n# fsm\n\n- impl: merge_rail\n");
    assert!(t.has_substance);
    assert!(t.cohesion_violations().is_empty());
}

#[test]
fn behavioral_with_verb_anchor_substance_is_exempt() {
    let t = tree("---\ncohesion: behavioral\n---\n\n# fsm\n\n- verb: merge_rail\n");
    assert!(t.has_substance);
    assert!(t.cohesion_violations().is_empty());
}

#[test]
fn behavioral_without_substance_still_fires() {
    let t =
        tree("---\ncohesion: behavioral\n---\n\n# empty-doctrine\n\nJust prose, no anchors.\n");
    assert!(t.behavioral && !t.has_substance);
    assert!(
        t.cohesion_violations()
            .iter()
            .any(|v| matches!(v, CohesionViolation::ContextWithoutCohesionUnit { .. })),
        "empty behavioral file must still be a violation"
    );
}

#[test]
fn non_behavioral_type_free_context_still_fires() {
    let t = tree("# lonely\n\n- impl: something\n");
    assert!(!t.behavioral);
    assert!(t
        .cohesion_violations()
        .iter()
        .any(|v| matches!(v, CohesionViolation::ContextWithoutCohesionUnit { .. })));
}

