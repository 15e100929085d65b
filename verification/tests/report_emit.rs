use graph_specs::graph::PubFnDecl;
use graph_specs::model::{
    CohesionViolation, ContextPattern, EdgeKind, LocationKind, OwnedUnit, Provenance, Source,
    SpecFormat, TierKind,
};
use graph_specs::outcome::{CheckOutcome, ContextViolation, Violation};
use graph_specs::records::{write_ndjson, Scalar, Value};
use graph_specs::render::format_violation;
use graph_specs::report_records::{emit_ndjson, ReportRecord, ReportValue};
use graph_specs::report::{
    emit_text, HomonymAppearance, HomonymRecord, ReportOutput, TierHistogramRecord,
    VerbCoverageRecord,
};

fn spec(line: usize) -> Source {
    Source::Spec {
        format: SpecFormat::Markdown,
        path: "specs/concepts/core.md".to_owned(),
        line,
        context: None,
    }
}

fn code(line: usize) -> Source {
    Source::Code {
        path: "domain/src/lib.rs".to_owned(),
        line,
        provenance: Provenance::empty(),
        location: LocationKind::Path,
    }
}

fn code_src() -> Source {
    Source::Code {
        path: "application/src/lib.rs".to_owned(),
        line: 33,
        provenance: Provenance::empty(),
        location: LocationKind::Path,
    }
}

fn make_report() -> ReportOutput {
    ReportOutput {
        verb_coverage: vec![VerbCoverageRecord {
            context: Some("equivalence".to_owned()),
            pub_fn: PubFnDecl {
                name: "run_check".to_owned(),
                source: code_src(),
                owned_unit: Some("application".to_owned()),
            },
            cited: true,
        }],
        tier_histogram: vec![TierHistogramRecord {
            context: None,
            tier: TierKind::Cypher,
            count: 3,
        }],
        homonyms: vec![HomonymRecord {
            name: "Foo".to_owned(),
            contexts: vec![
                HomonymAppearance {
                    context_name: "ctx_a".to_owned(),
                    sanctioned_by_pattern: Some(ContextPattern::PublishedLanguage),
                    asymmetric: false,
                },
                HomonymAppearance {
                    context_name: "ctx_b".to_owned(),
                    sanctioned_by_pattern: None,
                    asymmetric: true,
                },
            ],
        }],
    }
}

fn empty_report() -> ReportOutput {
    ReportOutput { verb_coverage: vec![], tier_histogram: vec![], homonyms: vec![] }
}

#[test]
fn emit_text_verb_coverage_section() {
    let out = emit_text(&make_report());
    assert!(out.contains("=== verb coverage ==="), "missing section header");
    assert!(out.contains("[context: equivalence]"), "missing context heading");
    assert!(out.contains("run_check"), "missing fn name");
    assert!(out.contains("[cited]"), "missing cited marker");
    assert!(out.contains("application/src/lib.rs:33"), "missing source location");
}

#[test]
fn emit_text_tier_histogram_section() {
    let out = emit_text(&make_report());
    assert!(out.contains("=== tier histogram ==="), "missing section header");
    assert!(out.contains("[context: orphaned]"), "missing orphaned heading for None context");
    assert!(out.contains("Cypher: 3"), "missing tier count");
}

#[test]
fn emit_text_homonym_section() {
    let out = emit_text(&make_report());
    assert!(out.contains("=== homonyms ==="), "missing section header");
    assert!(out.contains("  Foo"), "missing homonym name");
    assert!(out.contains("[PublishedLanguage]"), "missing PublishedLanguage marker");
    assert!(out.contains("[!]"), "missing split-brain marker");
    assert!(out.contains("[asymmetric]"), "missing asymmetric marker");
}

#[test]
fn emit_text_determinism() {
    let report = ReportOutput {
        verb_coverage: vec![],
        tier_histogram: vec![],
        homonyms: vec![
            HomonymRecord {
                name: "Zebra".to_owned(),
                contexts: vec![HomonymAppearance {
                    context_name: "ctx_z".to_owned(),
                    sanctioned_by_pattern: None,
                    asymmetric: false,
                }],
            },
            HomonymRecord {
                name: "Apple".to_owned(),
                contexts: vec![HomonymAppearance {
                    context_name: "ctx_a".to_owned(),
                    sanctioned_by_pattern: None,
                    asymmetric: false,
                }],
            },
        ],
    };
    let out1 = emit_text(&report);
    let out2 = emit_text(&report);
    assert_eq!(out1, out2, "output must be deterministic");
    let apple_pos = out1.find("  Apple").expect("Apple must appear");
    let zebra_pos = out1.find("  Zebra").expect("Zebra must appear");
    assert!(apple_pos < zebra_pos, "Apple must sort before Zebra");
}

#[test]
fn emit_text_empty_sections_omitted() {
    let out = emit_text(&empty_report());
    assert!(!out.contains("=== verb coverage ==="));
    assert!(!out.contains("=== tier histogram ==="));
    assert!(!out.contains("=== homonyms ==="));
    assert_eq!(out, "");
}

#[test]
fn emit_text_exact_rendering_of_the_sample_report() {
    let out = emit_text(&make_report());
    assert_eq!(
        out,
        "=== verb coverage ===\n  [context: equivalence]\n    run_check (application/src/lib.rs:33) [cited]\n\
         === tier histogram ===\n  [context: orphaned]\n    Cypher: 3\n\
         === homonyms ===\n  Foo\n    ctx_a [PublishedLanguage]\n    ctx_b [!] [asymmetric]\n"
    );
}

#[test]
fn emit_text_named_contexts_precede_orphaned_and_group_once() {
    let rec = |ctx: Option<&str>, name: &str, cited: bool| VerbCoverageRecord {
        context: ctx.map(|c| c.to_owned()),
        pub_fn: PubFnDecl { name: name.to_owned(), source: code(7), owned_unit: None },
        cited,
    };
    let report = ReportOutput {
        verb_coverage: vec![
            rec(None, "zeta", false),
            rec(Some("beta"), "b_two", true),
            rec(Some("alpha"), "a_one", false),
            rec(Some("beta"), "b_one", true),
        ],
        tier_histogram: vec![],
        homonyms: vec![],
    };
    let out = emit_text(&report);
    assert_eq!(
        out,
        "=== verb coverage ===\n  [context: alpha]\n    a_one (domain/src/lib.rs:7) [uncited]\n  \
         [context: beta]\n    b_one (domain/src/lib.rs:7) [cited]\n    b_two (domain/src/lib.rs:7) [cited]\n  \
         [context: orphaned]\n    zeta (domain/src/lib.rs:7) [uncited]\n"
    );
}

fn all_violations() -> Vec<Violation> {
    vec![
        Violation::MissingInCode { name: "Alpha".into(), spec_source: spec(1) },
        Violation::MissingInSpecs { name: "Beta".into(), code_source: code(2) },
        Violation::ForbiddenConceptReintroduced {
            name: "Gamma".into(),
            spec_source: spec(3),
            code_source: code(4),
        },
        Violation::SignatureDrift {
            name: "Delta".into(),
            spec_sig: "fn d(a: u8)".into(),
            code_sig: "fn d(a: u16)".into(),
            spec_source: spec(5),
            code_source: code(6),
        },
        Violation::SignatureMissingInSpec {
            name: "Epsilon".into(),
            code_sig: "fn e()".into(),
            code_source: code(7),
        },
        Violation::SignatureUnparseable {
            name: "Zeta".into(),
            raw: "fn (".into(),
            error: "expected identifier".into(),
            source: spec(8),
        },
        Violation::EdgeMissingInCode {
            concept: "Eta".into(),
            edge_kind: EdgeKind::Implements,
            target: "Theta".into(),
            spec_source: spec(9),
        },
        Violation::EdgeMissingInSpec {
            concept: "Iota".into(),
            edge_kind: EdgeKind::DependsOn,
            target: "Kappa".into(),
            code_source: code(10),
        },
        Violation::EdgeTargetUnknown {
            concept: "Lambda".into(),
            edge_kind: EdgeKind::Returns,
            target: "Mu".into(),
            spec_source: spec(11),
        },
        Violation::Context(ContextViolation::MembershipUnknown {
            concept: "Nu".into(),
            owned_unit: OwnedUnit("crates/nu".into()),
            code_source: code(12),
        }),
        Violation::Context(ContextViolation::CrossEdgeUnauthorized {
            concept: "Xi".into(),
            owning_context: "reading".into(),
            edge_kind: EdgeKind::Implements,
            target: "Omicron".into(),
            target_context: "equivalence".into(),
            spec_source: spec(13),
        }),
        Violation::Context(ContextViolation::CrossEdgeUndeclared {
            concept: "Pi".into(),
            owning_context: "reading".into(),
            edge_kind: EdgeKind::DependsOn,
            target: "Rho".into(),
            target_context: "equivalence".into(),
            spec_source: spec(14),
        }),
        Violation::Context(ContextViolation::CrossVerbUnauthorized {
            concept: "Sigma".into(),
            qname: "sigma_run".into(),
            owning_context: "reading".into(),
            target_context: "equivalence".into(),
            spec_source: spec(15),
        }),
        Violation::VerbMissingInCode { concept: "Tau".into(), qname: "tau_run".into(), spec_source: spec(16) },
        Violation::VerbMissingInSpec { qname: "upsilon_run".into(), code_source: code(17) },
        Violation::VerbTargetUnknown { concept: "Phi".into(), qname: "phi_run".into(), spec_source: spec(18) },
        Violation::Cohesion(CohesionViolation::ContextWithoutCohesionUnit {
            context: "orchestration".into(),
            file: "specs/concepts/orchestration.md".into(),
        }),
        Violation::Cohesion(CohesionViolation::SubConceptOrphan {
            sub_concept: "Chi".into(),
            file: "specs/concepts/core.md".into(),
        }),
        Violation::Cohesion(CohesionViolation::ConceptContextMismatch {
            concept: "Psi".into(),
            declared: "reading".into(),
            code_context: "equivalence".into(),
            spec_source: spec(19),
            code_source: None,
        }),
        Violation::DanglingAnchor { concept: "Omega".into(), target: "omega_item".into(), spec_source: spec(20) },
    ]
}

const NDJSON_PLACEHOLDERS: [&str; 3] =
    ["unknown_violation", "unknown_context_violation", "unknown_cohesion_violation"];

const TEXT_PLACEHOLDERS: [&str; 3] =
    ["unknown violation", "unknown context violation", "unknown cohesion violation"];

#[test]
fn every_violation_variant_renders_ndjson_without_placeholder() {
    let violations = all_violations();
    let expected = violations.len();
    let outcome = CheckOutcome { violations, ..CheckOutcome::empty() };
    let records = write_ndjson(&outcome);
    assert_eq!(records.len(), expected);
    for r in &records {
        for (_, v) in &r.fields {
            if let Value::Scalar(Scalar::Str(s)) = v {
                for placeholder in NDJSON_PLACEHOLDERS {
                    assert_ne!(s, placeholder, "ndjson emitter fell through to `{placeholder}`");
                }
            }
        }
    }
}

#[test]
fn every_violation_variant_renders_text_without_placeholder() {
    for violation in all_violations() {
        let rendered = format_violation(&violation);
        assert!(!rendered.trim().is_empty());
        assert!(rendered.ends_with('\n'));
        for placeholder in TEXT_PLACEHOLDERS {
            assert!(
                !rendered.contains(placeholder),
                "text emitter fell through to `{placeholder}` for {violation:?}"
            );
        }
    }
}

fn all_tiers_report() -> ReportOutput {
    let tiers = [TierKind::Cypher, TierKind::Tier0, TierKind::ScriptFence, TierKind::ProseOnly];
    ReportOutput {
        verb_coverage: vec![VerbCoverageRecord {
            context: Some("reading".into()),
            pub_fn: PubFnDecl {
                name: "alpha_run".into(),
                source: code(1),
                owned_unit: Some("crates/alpha".into()),
            },
            cited: true,
        }],
        tier_histogram: tiers
            .iter()
            .enumerate()
            .map(|(i, tier)| TierHistogramRecord {
                context: Some("reading".into()),
                tier: *tier,
                count: i + 1,
            })
            .collect(),
        homonyms: vec![HomonymRecord {
            name: "Shared".into(),
            contexts: vec![
                HomonymAppearance {
                    context_name: "reading".into(),
                    sanctioned_by_pattern: Some(ContextPattern::PublishedLanguage),
                    asymmetric: false,
                },
                HomonymAppearance {
                    context_name: "equivalence".into(),
                    sanctioned_by_pattern: Some(ContextPattern::SharedKernel),
                    asymmetric: true,
                },
            ],
        }],
    }
}

#[test]
fn every_tier_renders_report_text_without_placeholder() {
    let rendered = emit_text(&all_tiers_report());
    assert!(
        !rendered.contains("unknown"),
        "report text emitter fell through to tier `unknown`:\n{rendered}"
    );
    for label in ["Tier0: 2", "Cypher: 1", "ScriptFence: 3", "ProseOnly: 4"] {
        assert!(rendered.contains(label), "missing `{label}` in:\n{rendered}");
    }
    assert!(rendered.contains("[SharedKernel]"));
}

fn scalar_json(s: &Scalar) -> serde_json::Value {
    match s {
        Scalar::Str(t) => serde_json::Value::String(t.clone()),
        Scalar::Num(n) => serde_json::Value::from(*n as u64),
        Scalar::Bool(b) => serde_json::Value::Bool(*b),
        Scalar::Null => serde_json::Value::Null,
    }
}

fn object_json(o: &[(String, Scalar)]) -> serde_json::Value {
    let mut map = serde_json::Map::new();
    for (k, v) in o {
        map.insert(k.clone(), scalar_json(v));
    }
    serde_json::Value::Object(map)
}

fn report_record_json(r: &ReportRecord) -> serde_json::Value {
    let mut map = serde_json::Map::new();
    for (k, v) in &r.fields {
        let value = match v {
            ReportValue::Scalar(s) => scalar_json(s),
            ReportValue::PubFn { name, source } => {
                let mut inner = serde_json::Map::new();
                inner.insert("name".to_owned(), serde_json::Value::String(name.clone()));
                inner.insert("source".to_owned(), object_json(source));
                serde_json::Value::Object(inner)
            }
            ReportValue::Objects(os) => {
                serde_json::Value::Array(os.iter().map(|o| object_json(o)).collect())
            }
        };
        map.insert(k.clone(), value);
    }
    serde_json::Value::Object(map)
}

fn render_ndjson(report: &ReportOutput) -> Vec<u8> {
    let mut buf = Vec::new();
    for r in emit_ndjson(report) {
        buf.extend_from_slice(serde_json::to_string(&report_record_json(&r)).expect("json").as_bytes());
        buf.push(b'\n');
    }
    buf
}

fn parse_lines(buf: &[u8]) -> Vec<serde_json::Value> {
    let s = std::str::from_utf8(buf).expect("utf8");
    s.lines()
        .filter(|l| !l.is_empty())
        .map(|l| serde_json::from_str(l).expect("valid json line"))
        .collect()
}

#[test]
fn emit_ndjson_all_lines_valid_json() {
    let buf = render_ndjson(&make_report());
    let records = parse_lines(&buf);
    assert!(!records.is_empty(), "expected at least one record");
}

#[test]
fn emit_ndjson_verb_coverage_record() {
    let buf = render_ndjson(&make_report());
    let records = parse_lines(&buf);
    let vc = records.iter().find(|r| r["record"] == "verb_coverage").unwrap();
    assert_eq!(vc["schema_version"], "2");
    assert_eq!(vc["context"], "equivalence");
    assert_eq!(vc["pub_fn"]["name"], "run_check");
    assert_eq!(vc["pub_fn"]["source"]["kind"], "code");
    assert_eq!(vc["cited"], true);
}

#[test]
fn emit_ndjson_tier_histogram_record() {
    let buf = render_ndjson(&make_report());
    let records = parse_lines(&buf);
    let th = records.iter().find(|r| r["record"] == "tier_histogram").unwrap();
    assert_eq!(th["schema_version"], "2");
    assert_eq!(th["context"], serde_json::Value::Null);
    assert_eq!(th["tier"], "cypher");
    assert_eq!(th["count"], 3);
}

#[test]
fn emit_ndjson_homonym_record() {
    let buf = render_ndjson(&make_report());
    let records = parse_lines(&buf);
    let hom = records.iter().find(|r| r["record"] == "homonym").unwrap();
    assert_eq!(hom["schema_version"], "2");
    assert_eq!(hom["name"], "Foo");
    let ctxs = hom["contexts"].as_array().unwrap();
    assert_eq!(ctxs.len(), 2);
    let ctx_a = ctxs.iter().find(|c| c["context"] == "ctx_a").unwrap();
    assert_eq!(ctx_a["sanctioned_by_pattern"], "PublishedLanguage");
    assert_eq!(ctx_a["asymmetric"], false);
    let ctx_b = ctxs.iter().find(|c| c["context"] == "ctx_b").unwrap();
    assert_eq!(ctx_b["sanctioned_by_pattern"], serde_json::Value::Null);
    assert_eq!(ctx_b["asymmetric"], true);
}

#[test]
fn emit_ndjson_determinism() {
    let report = ReportOutput {
        verb_coverage: vec![],
        tier_histogram: vec![],
        homonyms: vec![
            HomonymRecord {
                name: "Zebra".to_owned(),
                contexts: vec![HomonymAppearance {
                    context_name: "ctx_z".to_owned(),
                    sanctioned_by_pattern: None,
                    asymmetric: false,
                }],
            },
            HomonymRecord {
                name: "Apple".to_owned(),
                contexts: vec![HomonymAppearance {
                    context_name: "ctx_a".to_owned(),
                    sanctioned_by_pattern: None,
                    asymmetric: false,
                }],
            },
        ],
    };
    let out1 = render_ndjson(&report);
    let out2 = render_ndjson(&report);
    assert_eq!(out1, out2, "output must be deterministic");

    let lines = parse_lines(&out1);
    let names: Vec<&str> = lines
        .iter()
        .filter(|r| r["record"] == "homonym")
        .map(|r| r["name"].as_str().unwrap())
        .collect();
    assert_eq!(names, vec!["Apple", "Zebra"], "homonyms must be sorted alpha");
}

#[test]
fn every_tier_renders_report_ndjson_without_placeholder() {
    let report = all_tiers_report();
    let rendered = String::from_utf8(render_ndjson(&report)).unwrap();
    assert!(
        !rendered.contains("\"tier\":\"unknown\""),
        "report ndjson emitter fell through to tier `unknown`:\n{rendered}"
    );
}

#[test]
fn emit_ndjson_sorts_each_section_by_context_then_name_or_tier() {
    let report = ReportOutput {
        verb_coverage: vec![
            VerbCoverageRecord {
                context: None,
                pub_fn: PubFnDecl { name: "a_orphan".into(), source: code(1), owned_unit: None },
                cited: false,
            },
            VerbCoverageRecord {
                context: Some("zeta".into()),
                pub_fn: PubFnDecl { name: "b".into(), source: code(2), owned_unit: None },
                cited: true,
            },
            VerbCoverageRecord {
                context: Some("alpha".into()),
                pub_fn: PubFnDecl { name: "c".into(), source: spec(3), owned_unit: None },
                cited: true,
            },
        ],
        tier_histogram: vec![
            TierHistogramRecord { context: Some("alpha".into()), tier: TierKind::ProseOnly, count: 1 },
            TierHistogramRecord { context: Some("alpha".into()), tier: TierKind::Tier0, count: 2 },
        ],
        homonyms: vec![],
    };
    let lines = parse_lines(&render_ndjson(&report));
    assert_eq!(lines.len(), 5);
    assert_eq!(lines[0]["pub_fn"]["name"], "c");
    assert_eq!(lines[0]["pub_fn"]["source"]["kind"], "spec");
    assert_eq!(lines[0]["pub_fn"]["source"]["line"], 3);
    assert_eq!(lines[1]["pub_fn"]["name"], "b");
    assert_eq!(lines[2]["pub_fn"]["name"], "a_orphan");
    assert_eq!(lines[2]["context"], serde_json::Value::Null);
    assert_eq!(lines[2]["cited"], false);
    assert_eq!(lines[3]["tier"], "tier0");
    assert_eq!(lines[3]["count"], 2);
    assert_eq!(lines[4]["tier"], "prose_only");
}
