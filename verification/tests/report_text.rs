use graph_specs::model::{
    CohesionViolation, EdgeKind, LocationKind, OwnedUnit, Provenance, Source, SpecFormat,
};
use graph_specs::outcome::{
    exit_code_for, CheckOutcome, ContextViolation, DiffSide, PendingRecord, RealizedRecord,
    RetirementCompleteRecord, RetirementIncompleteRecord, SourceWithSig, Violation,
};
use graph_specs::render::{
    format_cohesion_violation, format_context_violation, format_pending, format_realized,
    format_retirement_complete, format_retirement_incomplete, format_summary, format_violation,
    located, source_pair, write_text,
};

fn code_at(path: &str, line: usize, location: LocationKind) -> Source {
    Source::Code { path: path.to_owned(), line, provenance: Provenance::empty(), location }
}

fn code_src() -> Source {
    code_at("some-crate/src/lib.rs", 3, LocationKind::Path)
}

fn spec_src() -> Source {
    Source::Spec {
        format: SpecFormat::Markdown,
        path: "specs/contexts/reading.md".to_owned(),
        line: 12,
        context: None,
    }
}

fn spec_at(path: &str, line: usize) -> Source {
    Source::Spec { format: SpecFormat::Markdown, path: path.to_owned(), line, context: None }
}

#[test]
fn context_membership_unknown_text() {
    let v = Violation::Context(ContextViolation::MembershipUnknown {
        concept: "Foo".into(),
        owned_unit: OwnedUnit("stray-crate".into()),
        code_source: code_src(),
    });
    let out = format_violation(&v);
    assert!(out.ends_with('\n'));
    assert!(out.contains("context membership unknown: Foo"), "got: {out}");
    assert!(out.contains("`stray-crate`"));
    assert!(out.contains("some-crate/src/lib.rs:3"));
}

#[test]
fn cross_context_edge_unauthorized_text() {
    let v = Violation::Context(ContextViolation::CrossEdgeUnauthorized {
        concept: "MarkdownReader".into(),
        owning_context: "reading".into(),
        edge_kind: EdgeKind::DependsOn,
        target: "TradingPort".into(),
        target_context: "trading".into(),
        spec_source: spec_src(),
    });
    let out = format_violation(&v);
    assert!(
        out.starts_with("cross-context edge unauthorized: MarkdownReader (reading) --DEPENDS_ON--> TradingPort (trading)"),
        "got: {out}"
    );
    assert!(out.contains("specs/contexts/reading.md:12"));
}

#[test]
fn cross_context_edge_undeclared_text() {
    let v = Violation::Context(ContextViolation::CrossEdgeUndeclared {
        concept: "MarkdownReader".into(),
        owning_context: "reading".into(),
        edge_kind: EdgeKind::Implements,
        target: "Reader".into(),
        target_context: "equivalence".into(),
        spec_source: spec_src(),
    });
    let out = format_violation(&v);
    assert!(
        out.starts_with("cross-context edge undeclared: MarkdownReader (reading) --IMPLEMENTS--> Reader (equivalence)"),
        "got: {out}"
    );
}

#[test]
fn verb_missing_in_code_text() {
    let v = Violation::VerbMissingInCode {
        concept: "Graph".into(),
        qname: "diff".into(),
        spec_source: spec_src(),
    };
    let out = format_violation(&v);
    assert_eq!(
        out,
        "verb missing in code: Graph claims `diff` but no pub fn found (specs/contexts/reading.md:12)\n"
    );
}

#[test]
fn verb_missing_in_spec_text() {
    let v = Violation::VerbMissingInSpec { qname: "orphan_fn".into(), code_source: code_src() };
    let out = format_violation(&v);
    assert_eq!(
        out,
        "verb missing in spec: `orphan_fn` is unclaimed in its context (some-crate/src/lib.rs:3)\n"
    );
}

#[test]
fn verb_target_unknown_text() {
    let v = Violation::VerbTargetUnknown {
        concept: "Graph".into(),
        qname: "ghost_fn".into(),
        spec_source: spec_src(),
    };
    let out = format_violation(&v);
    assert!(out.ends_with('\n'));
    assert!(out.contains("verb target unknown: Graph claims `ghost_fn`"), "got: {out}");
}

#[test]
fn cross_verb_unauthorized_text() {
    let v = Violation::Context(ContextViolation::CrossVerbUnauthorized {
        concept: "Graph".into(),
        qname: "diff".into(),
        owning_context: "equivalence".into(),
        target_context: "reading".into(),
        spec_source: spec_src(),
    });
    let out = format_violation(&v);
    assert!(out.ends_with('\n'));
    assert!(
        out.contains("cross-context verb unauthorized: Graph (equivalence) claims `diff` which belongs to reading"),
        "got: {out}"
    );
}

#[test]
fn missing_in_code_text_is_exact() {
    let v = Violation::MissingInCode { name: "Foo".into(), spec_source: spec_at("specs/a.md", 1) };
    assert_eq!(format_violation(&v), "missing in code: Foo (specs/a.md:1)\n");
}

#[test]
fn missing_in_specs_text_is_exact() {
    let v = Violation::MissingInSpecs { name: "Bar".into(), code_source: code_src() };
    assert_eq!(format_violation(&v), "missing in specs: Bar (some-crate/src/lib.rs:3)\n");
}

#[test]
fn signature_drift_text_spans_three_lines() {
    let v = Violation::SignatureDrift {
        name: "Reader".into(),
        spec_sig: "fn extract(&self)".into(),
        code_sig: "fn extract(&self, root: &Path)".into(),
        spec_source: spec_at("specs/core.md", 44),
        code_source: code_at("ports/src/lib.rs", 15, LocationKind::Path),
    };
    assert_eq!(
        format_violation(&v),
        "signature drift: Reader\n  spec (specs/core.md:44): fn extract(&self)\n  code (ports/src/lib.rs:15): fn extract(&self, root: &Path)\n"
    );
}

#[test]
fn signature_missing_and_unparseable_texts() {
    let v = Violation::SignatureMissingInSpec {
        name: "Reader".into(),
        code_sig: "fn x()".into(),
        code_source: code_src(),
    };
    assert_eq!(
        format_violation(&v),
        "signature missing in spec: Reader (some-crate/src/lib.rs:3)\n  code: fn x()\n"
    );
    let v = Violation::SignatureUnparseable {
        name: "Foo".into(),
        raw: "fn foo(".into(),
        error: "unexpected end".into(),
        source: spec_at("specs/a.md", 2),
    };
    assert_eq!(
        format_violation(&v),
        "signature unparseable: Foo (specs/a.md:2)\n  raw: fn foo(\n  error: unexpected end\n"
    );
}

#[test]
fn edge_texts() {
    let v = Violation::EdgeMissingInCode {
        concept: "Container".into(),
        edge_kind: EdgeKind::DependsOn,
        target: "Graph".into(),
        spec_source: spec_at("specs/a.md", 4),
    };
    assert_eq!(
        format_violation(&v),
        "edge missing in code: Container --DEPENDS_ON--> Graph (specs/a.md:4)\n"
    );
    let v = Violation::EdgeMissingInSpec {
        concept: "Container".into(),
        edge_kind: EdgeKind::Returns,
        target: "Node".into(),
        code_source: code_src(),
    };
    assert_eq!(
        format_violation(&v),
        "edge missing in spec: Container --RETURNS--> Node (some-crate/src/lib.rs:3)\n"
    );
    let v = Violation::EdgeTargetUnknown {
        concept: "A".into(),
        edge_kind: EdgeKind::Implements,
        target: "B".into(),
        spec_source: spec_at("specs/a.md", 5),
    };
    assert_eq!(
        format_violation(&v),
        "edge target unknown: A --IMPLEMENTS--> B (not a concept in either graph) (specs/a.md:5)\n"
    );
}

#[test]
fn forbidden_concept_text_spans_three_lines() {
    let v = Violation::ForbiddenConceptReintroduced {
        name: "LegacyThing".into(),
        spec_source: spec_at("specs/core.md", 9),
        code_source: code_at("domain/src/lib.rs", 80, LocationKind::Path),
    };
    assert_eq!(
        format_violation(&v),
        "forbidden concept reintroduced: LegacyThing\n  expelled by (specs/core.md:9)\n  reintroduced at (domain/src/lib.rs:80)\n"
    );
}

#[test]
fn concept_context_mismatch_text_renders_path_line() {
    let v = Violation::Cohesion(CohesionViolation::ConceptContextMismatch {
        concept: "Widget".into(),
        declared: "reading".into(),
        code_context: "equivalence".into(),
        spec_source: spec_at("specs/concepts/reading.md", 7),
        code_source: None,
    });
    let out = format_violation(&v);
    assert_eq!(
        out,
        "concept context mismatch: Widget declared in `reading` but code resolves to `equivalence` (specs/concepts/reading.md:7)\n"
    );
}

#[test]
fn concept_context_mismatch_names_the_code_item_when_known() {
    let v = CohesionViolation::ConceptContextMismatch {
        concept: "Widget".into(),
        declared: "reading".into(),
        code_context: "equivalence".into(),
        spec_source: spec_at("specs/concepts/reading.md", 7),
        code_source: Some(code_at("domain/src/lib.rs", 3, LocationKind::Path)),
    };
    assert!(format_cohesion_violation(&v)
        .ends_with("(specs/concepts/reading.md:7, item at domain/src/lib.rs:3)\n"));
}

#[test]
fn context_without_cohesion_unit_and_orphan_texts() {
    let v = Violation::Cohesion(CohesionViolation::ContextWithoutCohesionUnit {
        context: "lonely".into(),
        file: "specs/concepts/lonely.md".into(),
    });
    assert_eq!(
        format_violation(&v),
        "context without cohesion unit: `lonely` declares no concept under its H1 (specs/concepts/lonely.md)\n"
    );
    let v = Violation::Cohesion(CohesionViolation::SubConceptOrphan {
        sub_concept: "Inner".into(),
        file: "specs/concepts/x.md".into(),
    });
    assert!(format_violation(&v).contains("sub-concept orphan: `Inner`"));
}

#[test]
fn dangling_anchor_text_renders_path_line() {
    let v = Violation::DanglingAnchor {
        concept: "ValidateIntakeFull".into(),
        target: "validate_intake".into(),
        spec_source: spec_at("specs/concepts/intake_validation.md", 3),
    };
    let out = format_violation(&v);
    assert!(out.contains("dangling anchor: ValidateIntakeFull"));
    assert!(out.contains("anchors `validate_intake`"));
    assert!(out.contains("specs/concepts/intake_validation.md:3"));
}

#[test]
fn malformed_unanswerable_and_unknown_key_texts() {
    let v = Violation::MalformedAnchorBullet {
        concept: "Course".into(),
        bullet: "verb".into(),
        qname: "App\\Catalogue\\Course::rename".into(),
        spec_source: spec_at("specs/concepts/catalogue.md", 5),
    };
    let out = format_violation(&v);
    assert!(out.starts_with(
        "malformed anchor bullet: Course writes `- verb: App\\Catalogue\\Course::rename`, which the anchor grammar cannot read"
    ));
    assert!(out.ends_with("(specs/concepts/catalogue.md:5)\n"));
    let v = Violation::EdgeUnanswerable {
        concept: "A".into(),
        edge_kind: EdgeKind::DependsOn,
        target: "B".into(),
        spec_source: spec_at("specs/a.md", 1),
    };
    let out = format_violation(&v);
    assert!(out.starts_with("edge unanswerable: A --DEPENDS_ON--> B \u{2014} the code input"));
    let v = Violation::UnknownAttributeKey {
        concept: "Course".into(),
        key: "implementz".into(),
        spec_source: spec_at("src/Course.php", 4),
    };
    assert_eq!(
        format_violation(&v),
        "unknown attribute key: Course carries `implementz`, which the `#[Spec(...)]` channel does not define (src/Course.php:4)\n"
    );
}

#[test]
fn drift_within_side_joins_both_signatures() {
    let v = Violation::SignatureDriftWithinSide {
        name: "Course".into(),
        side: DiffSide::Spec,
        sources: vec![
            SourceWithSig { source: spec_at("specs/a.md", 3), sig: "class Course".into() },
            SourceWithSig { source: spec_at("src/Course.php", 9), sig: "final class Course".into() },
        ],
    };
    assert_eq!(
        format_violation(&v),
        "signature drift within the spec side: Course is given two signatures \u{2014} specs/a.md:3 `class Course` vs src/Course.php:9 `final class Course`\n"
    );
}

#[test]
fn surface_findings_texts() {
    let v = ContextViolation::SurfaceAdmitsNothing {
        declared_prefixes: vec![OwnedUnit("App\\A".into()), OwnedUnit("App\\B".into())],
        concept_rung_items: 12,
        keyspace: "ks.json".into(),
    };
    assert_eq!(
        format_context_violation(&v),
        "declared surface admits nothing: 12 concept-rung item(s) in ks.json and not one is owned by a declared prefix (App\\A, App\\B)\n"
    );
    let v = ContextViolation::CrossEdgeOffSurface {
        concept: "Course".into(),
        owning_context: None,
        edge_kind: EdgeKind::Uses,
        target: "Mailer".into(),
        code_source: code_at("App\\Catalogue", 0, LocationKind::Namespace),
    };
    assert_eq!(
        format_context_violation(&v),
        "crossing out of the declared surface: Course (no declared context) --USES--> Mailer, which no declared prefix owns, at namespace App\\Catalogue:0\n"
    );
}

#[test]
fn a_namespace_location_is_labelled_a_namespace() {
    assert_eq!(
        located(&code_at("App\\Catalogue", 3, LocationKind::Namespace)),
        "namespace App\\Catalogue:3"
    );
}

#[test]
fn a_path_location_is_printed_as_it_always_was() {
    assert_eq!(located(&code_at("domain/src/lib.rs", 3, LocationKind::Path)), "domain/src/lib.rs:3");
}

#[test]
fn the_kind_comes_from_the_fact_not_from_the_value() {
    assert_eq!(located(&code_at("App\\Catalogue", 3, LocationKind::Path)), "App\\Catalogue:3");
    assert_eq!(
        located(&code_at("domain/src/lib.rs", 3, LocationKind::Namespace)),
        "namespace domain/src/lib.rs:3"
    );
}

#[test]
fn line_numbers_print_in_decimal() {
    assert_eq!(located(&spec_at("a.md", 0)), "a.md:0");
    assert_eq!(located(&spec_at("a.md", 10)), "a.md:10");
    assert_eq!(located(&spec_at("a.md", 1234567)), "a.md:1234567");
    assert_eq!(source_pair(&spec_at("b.md", 7)), ("b.md", 7));
}

#[test]
fn marker_lines_and_summary() {
    let p = PendingRecord { concept: "Draft".into(), spec_source: spec_at("specs/a.md", 2) };
    assert_eq!(format_pending(&p), "pending: Draft (specs/a.md:2)\n");
    let r = RealizedRecord { concept: "Ready".into(), spec_source: spec_at("specs/a.md", 3) };
    assert_eq!(format_realized(&r), "realized \u{2014} ratify: Ready (specs/a.md:3)\n");
    let r = RetirementIncompleteRecord { concept: "Old".into(), spec_source: spec_at("specs/a.md", 4) };
    assert_eq!(format_retirement_incomplete(&r), "retirement incomplete: Old (specs/a.md:4)\n");
    let r = RetirementCompleteRecord { concept: "Gone".into(), spec_source: spec_at("specs/a.md", 5) };
    assert_eq!(format_retirement_complete(&r), "retirement complete: Gone (specs/a.md:5)\n");
    let mut o = CheckOutcome::empty();
    o.pending.push(p);
    assert_eq!(
        format_summary(&o),
        "0 violations, 1 pending, 0 realized-unratified, 0 retirement-incomplete, 0 retirement-complete\n"
    );
}

#[test]
fn the_text_report_lists_violations_then_markers_then_the_summary() {
    let mut o = CheckOutcome::empty();
    o.violations.push(Violation::MissingInCode { name: "Foo".into(), spec_source: spec_at("specs/a.md", 1) });
    o.pending.push(PendingRecord { concept: "Draft".into(), spec_source: spec_at("specs/a.md", 2) });
    o.retirement_complete.push(RetirementCompleteRecord {
        concept: "Gone".into(),
        spec_source: spec_at("specs/a.md", 5),
    });
    assert_eq!(
        write_text(&o),
        "missing in code: Foo (specs/a.md:1)\npending: Draft (specs/a.md:2)\nretirement complete: Gone (specs/a.md:5)\n1 violations, 1 pending, 0 realized-unratified, 0 retirement-incomplete, 1 retirement-complete\n"
    );
}

#[test]
fn exit_codes_follow_the_violations() {
    let mut o = CheckOutcome::empty();
    assert_eq!(exit_code_for(&o), 0);
    o.pending.push(PendingRecord { concept: "Draft".into(), spec_source: spec_at("specs/a.md", 2) });
    assert_eq!(exit_code_for(&o), 0);
    o.violations.push(Violation::MissingInCode { name: "Foo".into(), spec_source: spec_at("specs/a.md", 1) });
    assert_eq!(exit_code_for(&o), 1);
    o.violations.push(Violation::SignatureUnparseable {
        name: "Foo".into(),
        raw: "fn foo(".into(),
        error: "e".into(),
        source: spec_at("specs/a.md", 2),
    });
    assert_eq!(exit_code_for(&o), 2);
}

#[test]
fn v03_missing_in_code_unchanged() {
    let v = Violation::MissingInCode { name: "Foo".into(), spec_source: spec_at("specs/a.md", 1) };
    let out = format_violation(&v);
    assert_eq!(out, "missing in code: Foo (specs/a.md:1)\n");
}

#[test]
fn context_without_cohesion_unit_text() {
    let v = Violation::Cohesion(CohesionViolation::ContextWithoutCohesionUnit {
        context: "lonely".into(),
        file: "specs/concepts/lonely.md".into(),
    });
    let out = format_violation(&v);
    assert!(out.contains("context without cohesion unit: `lonely`"), "got: {out}");
    assert!(out.contains("specs/concepts/lonely.md"));
}

#[test]
fn sub_concept_orphan_text() {
    let v = Violation::Cohesion(CohesionViolation::SubConceptOrphan {
        sub_concept: "Inner".into(),
        file: "specs/concepts/x.md".into(),
    });
    let out = format_violation(&v);
    assert!(out.contains("sub-concept orphan: `Inner`"), "got: {out}");
}

#[test]
fn dangling_anchor_text_renders_path_line_not_unknown() {
    let v = Violation::DanglingAnchor {
        concept: "ValidateIntakeFull".into(),
        target: "validate_intake".into(),
        spec_source: spec_at("specs/concepts/intake_validation.md", 3),
    };
    let out = format_violation(&v);
    assert!(out.contains("dangling anchor: ValidateIntakeFull"), "got: {out}");
    assert!(out.contains("anchors `validate_intake`"));
    assert!(out.contains("specs/concepts/intake_validation.md:3"));
    assert!(!out.contains("unknown violation"));
}
