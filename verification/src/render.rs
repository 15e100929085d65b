//! The human-readable report: one line (or a few) per violation and state
//! marker, then a summary line.
use vstd::prelude::*;
use crate::model::{
    edge_label, CohesionViolation, EdgeKind, LocationKind, OwnedUnit, Source, SourceV,
};
use crate::outcome::{
    side_label, CheckOutcome, ContextViolation, PendingRecord, RealizedRecord,
    RetirementCompleteRecord, RetirementIncompleteRecord, SourceWithSig, Violation,
};
use crate::text::{decimal, join, push_decimal, push_join, push_str, text_of};

verus! {

/// `path:line`, or `namespace path:line` for a code location that names a
/// namespace.
pub open spec fn located_text(s: SourceV) -> Seq<char> {
    match s {
        SourceV::Spec { path, line, .. } => path + ":"@ + decimal(line as nat),
        SourceV::Code { path, line, location, .. } => match location {
            LocationKind::Path => path + ":"@ + decimal(line as nat),
            LocationKind::Namespace => "namespace "@ + path + ":"@ + decimal(line as nat),
        },
    }
}

/// The path and line of a source, whichever side it is on.
pub fn source_pair(s: &Source) -> (r: (&str, usize))
    ensures
        match s@ {
            SourceV::Spec { path, line, .. } => r.0@ == path && r.1 == line,
            SourceV::Code { path, line, .. } => r.0@ == path && r.1 == line,
        },
{
    match s {
        Source::Spec { path, line, .. } => (path.as_str(), *line),
        Source::Code { path, line, .. } => (path.as_str(), *line),
    }
}

fn push_located(out: &mut String, s: &Source)
    ensures
        final(out)@ == old(out)@ + located_text(s@),
{
    if let Source::Code { location: LocationKind::Namespace, .. } = s {
        push_str(out, "namespace ");
    }
    let (path, line) = source_pair(s);
    push_str(out, path);
    push_str(out, ":");
    push_decimal(out, line);
    assert(out@ =~= old(out)@ + located_text(s@));
}

/// Where a source points, as the report prints it.
pub fn located(s: &Source) -> (r: String)
    ensures
        r@ == located_text(s@),
{
    let mut r = String::new();
    push_located(&mut r, s);
    assert(r@ =~= located_text(s@));
    r
}

/// `source `sig`` for one side of a within-side drift.
pub open spec fn sig_at(s: SourceWithSig) -> Seq<char> {
    located_text(s.source@) + " `"@ + s.sig@ + "`"@
}

pub open spec fn sigs_at(sources: Seq<SourceWithSig>) -> Seq<char> {
    join(sources.map_values(|s: SourceWithSig| sig_at(s)), " vs "@)
}

pub open spec fn units_text(units: Seq<OwnedUnit>) -> Seq<char> {
    join(units.map_values(|u: OwnedUnit| u@), ", "@)
}

fn sigs_at_exec(sources: &Vec<SourceWithSig>) -> (r: String)
    ensures
        r@ == sigs_at(sources@),
{
    let mut parts: Vec<String> = Vec::new();
    let mut i: usize = 0;
    while i < sources.len()
        invariant
            i <= sources.len(),
            parts@.len() == i,
            forall|j: int| 0 <= j < i ==> (#[trigger] parts@[j])@ == sig_at(sources@[j]),
        decreases sources.len() - i,
    {
        let mut p = String::new();
        push_located(&mut p, &sources[i].source);
        push_str(&mut p, " `");
        push_str(&mut p, sources[i].sig.as_str());
        push_str(&mut p, "`");
        assert(p@ =~= sig_at(sources@[i as int]));
        parts.push(p);
        i = i + 1;
    }
    assert(parts.deep_view() =~= sources@.map_values(|s: SourceWithSig| sig_at(s)));
    let mut r = String::new();
    push_join(&mut r, &parts, " vs ");
    assert(r@ =~= sigs_at(sources@));
    r
}

fn units_text_exec(units: &Vec<OwnedUnit>) -> (r: String)
    ensures
        r@ == units_text(units@),
{
    let mut parts: Vec<String> = Vec::new();
    let mut i: usize = 0;
    while i < units.len()
        invariant
            i <= units.len(),
            parts@.len() == i,
            forall|j: int| 0 <= j < i ==> (#[trigger] parts@[j])@ == units@[j]@,
        decreases units.len() - i,
    {
        parts.push(units[i].0.clone());
        i = i + 1;
    }
    assert(parts.deep_view() =~= units@.map_values(|u: OwnedUnit| u@));
    let mut r = String::new();
    push_join(&mut r, &parts, ", ");
    assert(r@ =~= units_text(units@));
    r
}

/// `, item at <where>` when the code side of a mismatch is known.
pub open spec fn item_text(code_source: Option<Source>) -> Seq<char> {
    match code_source {
        Some(c) => ", item at "@ + located_text(c@),
        None => seq![],
    }
}

fn item_text_exec(code_source: &Option<Source>) -> (r: String)
    ensures
        r@ == item_text(*code_source),
{
    match code_source {
        Some(c) => {
            let mut r = text_of(", item at ");
            let at = located(c);
            push_str(&mut r, at.as_str());
            r
        },
        None => String::new(),
    }
}

/// The text of a cohesion violation.
pub open spec fn cohesion_text(v: CohesionViolation) -> Seq<char> {
    match v {
        CohesionViolation::ContextWithoutCohesionUnit { context, file } =>
            "context without cohesion unit: `"@ + context@
                + "` declares no concept under its H1 ("@ + file@ + ")\n"@,
        CohesionViolation::SubConceptOrphan { sub_concept, file } =>
            "sub-concept orphan: `"@ + sub_concept@
                + "` has no enclosing concept (H3 without an H2) ("@ + file@ + ")\n"@,
        CohesionViolation::ConceptContextMismatch {
            concept,
            declared,
            code_context,
            spec_source,
            code_source,
        } => "concept context mismatch: "@ + concept@ + " declared in `"@ + declared@
            + "` but code resolves to `"@ + code_context@ + "` ("@ + located_text(spec_source@)
            + item_text(code_source) + ")\n"@,
    }
}

/// The report line of a cohesion violation.
pub fn format_cohesion_violation(v: &CohesionViolation) -> (r: String)
    ensures
        r@ == cohesion_text(*v),
{
    match v {
        CohesionViolation::ContextWithoutCohesionUnit { context, file } => {
            let mut r = text_of("context without cohesion unit: `");
            push_str(&mut r, context.as_str());
            push_str(&mut r, "` declares no concept under its H1 (");
            push_str(&mut r, file.as_str());
            push_str(&mut r, ")\n");
            r
        },
        CohesionViolation::SubConceptOrphan { sub_concept, file } => {
            let mut r = text_of("sub-concept orphan: `");
            push_str(&mut r, sub_concept.as_str());
            push_str(&mut r, "` has no enclosing concept (H3 without an H2) (");
            push_str(&mut r, file.as_str());
            push_str(&mut r, ")\n");
            r
        },
        CohesionViolation::ConceptContextMismatch {
            concept,
            declared,
            code_context,
            spec_source,
            code_source,
        } => {
            let mut r = text_of("concept context mismatch: ");
            push_str(&mut r, concept.as_str());
            push_str(&mut r, " declared in `");
            push_str(&mut r, declared.as_str());
            push_str(&mut r, "` but code resolves to `");
            push_str(&mut r, code_context.as_str());
            push_str(&mut r, "` (");
            let at = located(spec_source);
            push_str(&mut r, at.as_str());
            let item = item_text_exec(code_source);
            push_str(&mut r, item.as_str());
            push_str(&mut r, ")\n");
            r
        },
    }
}

/// Who owns the start of a crossing, as the report names it.
pub open spec fn owner_text(owning_context: Option<String>) -> Seq<char> {
    match owning_context {
        Some(c) => c@,
        None => "no declared context"@,
    }
}

/// The text of a context violation.
pub open spec fn context_text(v: ContextViolation) -> Seq<char> {
    match v {
        ContextViolation::MembershipUnknown { concept, owned_unit, code_source } =>
            "context membership unknown: "@ + concept@ + " in `"@ + owned_unit@ + "` ("@
                + located_text(code_source@) + ")\n"@,
        ContextViolation::CrossEdgeUnauthorized {
            concept,
            owning_context,
            edge_kind,
            target,
            target_context,
            spec_source,
        } => "cross-context edge unauthorized: "@ + concept@ + " ("@ + owning_context@ + ") --"@
            + edge_label(edge_kind) + "--> "@ + target@ + " ("@ + target_context@ + ") at "@
            + located_text(spec_source@) + "\n"@,
        ContextViolation::CrossEdgeUndeclared {
            concept,
            owning_context,
            edge_kind,
            target,
            target_context,
            spec_source,
        } => "cross-context edge undeclared: "@ + concept@ + " ("@ + owning_context@ + ") --"@
            + edge_label(edge_kind) + "--> "@ + target@ + " ("@ + target_context@ + ") at "@
            + located_text(spec_source@) + "\n"@,
        ContextViolation::SurfaceAdmitsNothing {
            declared_prefixes,
            concept_rung_items,
            keyspace,
        } => "declared surface admits nothing: "@ + decimal(concept_rung_items as nat)
            + " concept-rung item(s) in "@ + keyspace@
            + " and not one is owned by a declared prefix ("@ + units_text(declared_prefixes@)
            + ")\n"@,
        ContextViolation::CrossEdgeOffSurface {
            concept,
            owning_context,
            edge_kind,
            target,
            code_source,
        } => "crossing out of the declared surface: "@ + concept@ + " ("@ + owner_text(
            owning_context,
        ) + ") --"@ + edge_label(edge_kind) + "--> "@ + target@
            + ", which no declared prefix owns, at "@ + located_text(code_source@) + "\n"@,
        ContextViolation::CrossVerbUnauthorized {
            concept,
            qname,
            owning_context,
            target_context,
            spec_source,
        } => "cross-context verb unauthorized: "@ + concept@ + " ("@ + owning_context@
            + ") claims `"@ + qname@ + "` which belongs to "@ + target_context@ + " ("@
            + located_text(spec_source@) + ")\n"@,
    }
}

/// The report line of a context violation.
pub fn format_context_violation(v: &ContextViolation) -> (r: String)
    ensures
        r@ == context_text(*v),
{
    match v {
        ContextViolation::MembershipUnknown { concept, owned_unit, code_source } => {
            let mut r = text_of("context membership unknown: ");
            push_str(&mut r, concept.as_str());
            push_str(&mut r, " in `");
            push_str(&mut r, owned_unit.0.as_str());
            push_str(&mut r, "` (");
            let at = located(code_source);
            push_str(&mut r, at.as_str());
            push_str(&mut r, ")\n");
            r
        },
        ContextViolation::CrossEdgeUnauthorized {
            concept,
            owning_context,
            edge_kind,
            target,
            target_context,
            spec_source,
        } => {
            let mut r = text_of("cross-context edge unauthorized: ");
            push_str(&mut r, concept.as_str());
            push_str(&mut r, " (");
            push_str(&mut r, owning_context.as_str());
            push_str(&mut r, ") --");
            push_str(&mut r, edge_kind.as_label());
            push_str(&mut r, "--> ");
            push_str(&mut r, target.as_str());
            push_str(&mut r, " (");
            push_str(&mut r, target_context.as_str());
            push_str(&mut r, ") at ");
            let at = located(spec_source);
            push_str(&mut r, at.as_str());
            push_str(&mut r, "\n");
            r
        },
        ContextViolation::CrossEdgeUndeclared {
            concept,
            owning_context,
            edge_kind,
            target,
            target_context,
            spec_source,
        } => {
            let mut r = text_of("cross-context edge undeclared: ");
            push_str(&mut r, concept.as_str());
            push_str(&mut r, " (");
            push_str(&mut r, owning_context.as_str());
            push_str(&mut r, ") --");
            push_str(&mut r, edge_kind.as_label());
            push_str(&mut r, "--> ");
            push_str(&mut r, target.as_str());
            push_str(&mut r, " (");
            push_str(&mut r, target_context.as_str());
            push_str(&mut r, ") at ");
            let at = located(spec_source);
            push_str(&mut r, at.as_str());
            push_str(&mut r, "\n");
            r
        },
        ContextViolation::SurfaceAdmitsNothing {
            declared_prefixes,
            concept_rung_items,
            keyspace,
        } => {
            let mut r = text_of("declared surface admits nothing: ");
            push_decimal(&mut r, *concept_rung_items);
            push_str(&mut r, " concept-rung item(s) in ");
            push_str(&mut r, keyspace.as_str());
            push_str(&mut r, " and not one is owned by a declared prefix (");
            let units = units_text_exec(declared_prefixes);
            push_str(&mut r, units.as_str());
            push_str(&mut r, ")\n");
            r
        },
        ContextViolation::CrossEdgeOffSurface {
            concept,
            owning_context,
            edge_kind,
            target,
            code_source,
        } => {
            let mut r = text_of("crossing out of the declared surface: ");
            push_str(&mut r, concept.as_str());
            push_str(&mut r, " (");
            let owner: &str = match owning_context {
                Some(c) => c.as_str(),
                None => "no declared context",
            };
            push_str(&mut r, owner);
            push_str(&mut r, ") --");
            push_str(&mut r, edge_kind.as_label());
            push_str(&mut r, "--> ");
            push_str(&mut r, target.as_str());
            push_str(&mut r, ", which no declared prefix owns, at ");
            let at = located(code_source);
            push_str(&mut r, at.as_str());
            push_str(&mut r, "\n");
            r
        },
        ContextViolation::CrossVerbUnauthorized {
            concept,
            qname,
            owning_context,
            target_context,
            spec_source,
        } => {
            let mut r = text_of("cross-context verb unauthorized: ");
            push_str(&mut r, concept.as_str());
            push_str(&mut r, " (");
            push_str(&mut r, owning_context.as_str());
            push_str(&mut r, ") claims `");
            push_str(&mut r, qname.as_str());
            push_str(&mut r, "` which belongs to ");
            push_str(&mut r, target_context.as_str());
            push_str(&mut r, " (");
            let at = located(spec_source);
            push_str(&mut r, at.as_str());
            push_str(&mut r, ")\n");
            r
        },
    }
}

/// The report line (or lines) of a violation.
pub open spec fn violation_text(v: Violation) -> Seq<char> {
    match v {
        Violation::MissingInCode { name, spec_source } =>
            "missing in code: "@ + name@ + " ("@ + located_text(spec_source@) + ")\n"@,
        Violation::MissingInSpecs { name, code_source } =>
            "missing in specs: "@ + name@ + " ("@ + located_text(code_source@) + ")\n"@,
        Violation::SignatureDrift { name, spec_sig, code_sig, spec_source, code_source } =>
            "signature drift: "@ + name@ + "\n  spec ("@ + located_text(spec_source@) + "): "@
                + spec_sig@ + "\n  code ("@ + located_text(code_source@) + "): "@ + code_sig@
                + "\n"@,
        Violation::SignatureMissingInSpec { name, code_sig, code_source } =>
            "signature missing in spec: "@ + name@ + " ("@ + located_text(code_source@)
                + ")\n  code: "@ + code_sig@ + "\n"@,
        Violation::SignatureUnparseable { name, raw, error, source } =>
            "signature unparseable: "@ + name@ + " ("@ + located_text(source@) + ")\n  raw: "@
                + raw@ + "\n  error: "@ + error@ + "\n"@,
        Violation::MalformedAnchorBullet { concept, bullet, qname, spec_source } =>
            "malformed anchor bullet: "@ + concept@ + " writes `- "@ + bullet@ + ": "@ + qname@
                + MALFORMED_TAIL@ + located_text(spec_source@) + ")\n"@,
        Violation::EdgeUnanswerable { concept, edge_kind, target, spec_source } =>
            "edge unanswerable: "@ + concept@ + " --"@ + edge_label(edge_kind) + "--> "@
                + target@ + UNANSWERABLE_TAIL@ + located_text(spec_source@) + ")\n"@,
        Violation::EdgeMissingInCode { concept, edge_kind, target, spec_source } =>
            "edge missing in code: "@ + concept@ + " --"@ + edge_label(edge_kind) + "--> "@
                + target@ + " ("@ + located_text(spec_source@) + ")\n"@,
        Violation::EdgeMissingInSpec { concept, edge_kind, target, code_source } =>
            "edge missing in spec: "@ + concept@ + " --"@ + edge_label(edge_kind) + "--> "@
                + target@ + " ("@ + located_text(code_source@) + ")\n"@,
        Violation::EdgeTargetUnknown { concept, edge_kind, target, spec_source } =>
            "edge target unknown: "@ + concept@ + " --"@ + edge_label(edge_kind) + "--> "@
                + target@ + " (not a concept in either graph) ("@ + located_text(spec_source@)
                + ")\n"@,
        Violation::Context(c) => context_text(c),
        Violation::VerbMissingInCode { concept, qname, spec_source } =>
            "verb missing in code: "@ + concept@ + " claims `"@ + qname@
                + "` but no pub fn found ("@ + located_text(spec_source@) + ")\n"@,
        Violation::VerbMissingInSpec { qname, code_source } =>
            "verb missing in spec: `"@ + qname@ + "` is unclaimed in its context ("@
                + located_text(code_source@) + ")\n"@,
        Violation::VerbTargetUnknown { concept, qname, spec_source } =>
            "verb target unknown: "@ + concept@ + " claims `"@ + qname@
                + "` but fn belongs to no context ("@ + located_text(spec_source@) + ")\n"@,
        Violation::ForbiddenConceptReintroduced { name, spec_source, code_source } =>
            "forbidden concept reintroduced: "@ + name@ + "\n  expelled by ("@ + located_text(
                spec_source@,
            ) + ")\n  reintroduced at ("@ + located_text(code_source@) + ")\n"@,
        Violation::Cohesion(c) => cohesion_text(c),
        Violation::DanglingAnchor { concept, target, spec_source } =>
            "dangling anchor: "@ + concept@ + " anchors `"@ + target@
                + "` but no such code item exists ("@ + located_text(spec_source@) + ")\n"@,
        Violation::UnknownAttributeKey { concept, key, spec_source } =>
            "unknown attribute key: "@ + concept@ + " carries `"@ + key@ + UNKNOWN_KEY_TAIL@
                + located_text(spec_source@) + ")\n"@,
        Violation::SignatureDriftWithinSide { name, side, sources } =>
            "signature drift within the "@ + side_label(side) + " side: "@ + name@
                + " is given two signatures \u{2014} "@ + sigs_at(sources@) + "\n"@,
    }
}

/// What follows the bullet in a malformed-anchor line, up to its location.
pub const MALFORMED_TAIL: &'static str = "`, which the anchor grammar cannot read \u{2014} a bare identifier (`rename`) or `Type::method` (`Course::rename`) are the two forms specs/dialect.md admits; a namespace-qualified name is not one of them (";

/// What follows the edge in an unanswerable-edge line, up to its location.
pub const UNANSWERABLE_TAIL: &'static str = " \u{2014} the code input this run read emits no fact of that kind, so the bullet is unanswered rather than unmet (";

/// What follows the key in an unknown-attribute-key line, up to its location.
pub const UNKNOWN_KEY_TAIL: &'static str = "`, which the `#[Spec(...)]` channel does not define (";

fn edge_line(prefix: &str, concept: &str, kind: EdgeKind, target: &str, tail: &str, at: &Source) -> (r: String)
    ensures
        r@ == prefix@ + concept@ + " --"@ + edge_label(kind) + "--> "@ + target@ + tail@
            + located_text(at@) + ")\n"@,
{
    let mut r = text_of(prefix);
    push_str(&mut r, concept);
    push_str(&mut r, " --");
    push_str(&mut r, kind.as_label());
    push_str(&mut r, "--> ");
    push_str(&mut r, target);
    push_str(&mut r, tail);
    let l = located(at);
    push_str(&mut r, l.as_str());
    push_str(&mut r, ")\n");
    r
}

/// `<prefix><a><middle><b><tail><where>)\n`: the shape most report lines take.
fn plain_line(prefix: &str, a: &str, middle: &str, b: &str, tail: &str, at: &Source) -> (r: String)
    ensures
        r@ == prefix@ + a@ + middle@ + b@ + tail@ + located_text(at@) + ")\n"@,
{
    let mut r = text_of(prefix);
    push_str(&mut r, a);
    push_str(&mut r, middle);
    push_str(&mut r, b);
    push_str(&mut r, tail);
    let l = located(at);
    push_str(&mut r, l.as_str());
    push_str(&mut r, ")\n");
    r
}

/// `<prefix><a> (<where>)\n`.
fn short_line(prefix: &str, a: &str, at: &Source) -> (r: String)
    ensures
        r@ == prefix@ + a@ + " ("@ + located_text(at@) + ")\n"@,
{
    let mut r = text_of(prefix);
    push_str(&mut r, a);
    push_str(&mut r, " (");
    let l = located(at);
    push_str(&mut r, l.as_str());
    push_str(&mut r, ")\n");
    r
}

/// The report line (or lines) of a violation.
pub fn format_violation(v: &Violation) -> (r: String)
    ensures
        r@ == violation_text(*v),
{
    match v {
        Violation::MissingInCode { name, spec_source } =>
            short_line("missing in code: ", name.as_str(), spec_source),
        Violation::MissingInSpecs { name, code_source } =>
            short_line("missing in specs: ", name.as_str(), code_source),
        Violation::SignatureDrift { name, spec_sig, code_sig, spec_source, code_source } => {
            let mut r = text_of("signature drift: ");
            push_str(&mut r, name.as_str());
            push_str(&mut r, "\n  spec (");
            let sa = located(spec_source);
            push_str(&mut r, sa.as_str());
            push_str(&mut r, "): ");
            push_str(&mut r, spec_sig.as_str());
            push_str(&mut r, "\n  code (");
            let ca = located(code_source);
            push_str(&mut r, ca.as_str());
            push_str(&mut r, "): ");
            push_str(&mut r, code_sig.as_str());
            push_str(&mut r, "\n");
            r
        },
        Violation::SignatureMissingInSpec { name, code_sig, code_source } => {
            let mut r = text_of("signature missing in spec: ");
            push_str(&mut r, name.as_str());
            push_str(&mut r, " (");
            let at = located(code_source);
            push_str(&mut r, at.as_str());
            push_str(&mut r, ")\n  code: ");
            push_str(&mut r, code_sig.as_str());
            push_str(&mut r, "\n");
            r
        },
        Violation::SignatureUnparseable { name, raw, error, source } => {
            let mut r = text_of("signature unparseable: ");
            push_str(&mut r, name.as_str());
            push_str(&mut r, " (");
            let at = located(source);
            push_str(&mut r, at.as_str());
            push_str(&mut r, ")\n  raw: ");
            push_str(&mut r, raw.as_str());
            push_str(&mut r, "\n  error: ");
            push_str(&mut r, error.as_str());
            push_str(&mut r, "\n");
            r
        },
        Violation::MalformedAnchorBullet { concept, bullet, qname, spec_source } => {
            let mut r = text_of("malformed anchor bullet: ");
            push_str(&mut r, concept.as_str());
            push_str(&mut r, " writes `- ");
            push_str(&mut r, bullet.as_str());
            push_str(&mut r, ": ");
            push_str(&mut r, qname.as_str());
            push_str(&mut r, MALFORMED_TAIL);
            let at = located(spec_source);
            push_str(&mut r, at.as_str());
            push_str(&mut r, ")\n");
            r
        },
        Violation::EdgeUnanswerable { concept, edge_kind, target, spec_source } => edge_line(
            "edge unanswerable: ",
            concept.as_str(),
            *edge_kind,
            target.as_str(),
            UNANSWERABLE_TAIL,
            spec_source,
        ),
        Violation::EdgeMissingInCode { concept, edge_kind, target, spec_source } => edge_line(
            "edge missing in code: ",
            concept.as_str(),
            *edge_kind,
            target.as_str(),
            " (",
            spec_source,
        ),
        Violation::EdgeMissingInSpec { concept, edge_kind, target, code_source } => edge_line(
            "edge missing in spec: ",
            concept.as_str(),
            *edge_kind,
            target.as_str(),
            " (",
            code_source,
        ),
        Violation::EdgeTargetUnknown { concept, edge_kind, target, spec_source } => edge_line(
            "edge target unknown: ",
            concept.as_str(),
            *edge_kind,
            target.as_str(),
            " (not a concept in either graph) (",
            spec_source,
        ),
        Violation::Context(c) => format_context_violation(c),
        Violation::VerbMissingInCode { concept, qname, spec_source } => plain_line(
            "verb missing in code: ",
            concept.as_str(),
            " claims `",
            qname.as_str(),
            "` but no pub fn found (",
            spec_source,
        ),
        Violation::VerbMissingInSpec { qname, code_source } => {
            let mut r = text_of("verb missing in spec: `");
            push_str(&mut r, qname.as_str());
            push_str(&mut r, "` is unclaimed in its context (");
            let at = located(code_source);
            push_str(&mut r, at.as_str());
            push_str(&mut r, ")\n");
            r
        },
        Violation::VerbTargetUnknown { concept, qname, spec_source } => plain_line(
            "verb target unknown: ",
            concept.as_str(),
            " claims `",
            qname.as_str(),
            "` but fn belongs to no context (",
            spec_source,
        ),
        Violation::ForbiddenConceptReintroduced { name, spec_source, code_source } => {
            let mut r = text_of("forbidden concept reintroduced: ");
            push_str(&mut r, name.as_str());
            push_str(&mut r, "\n  expelled by (");
            let sa = located(spec_source);
            push_str(&mut r, sa.as_str());
            push_str(&mut r, ")\n  reintroduced at (");
            let ca = located(code_source);
            push_str(&mut r, ca.as_str());
            push_str(&mut r, ")\n");
            r
        },
        Violation::Cohesion(c) => format_cohesion_violation(c),
        Violation::DanglingAnchor { concept, target, spec_source } => plain_line(
            "dangling anchor: ",
            concept.as_str(),
            " anchors `",
            target.as_str(),
            "` but no such code item exists (",
            spec_source,
        ),
        Violation::UnknownAttributeKey { concept, key, spec_source } => plain_line(
            "unknown attribute key: ",
            concept.as_str(),
            " carries `",
            key.as_str(),
            UNKNOWN_KEY_TAIL,
            spec_source,
        ),
        Violation::SignatureDriftWithinSide { name, side, sources } => {
            let mut r = text_of("signature drift within the ");
            push_str(&mut r, side.as_label());
            push_str(&mut r, " side: ");
            push_str(&mut r, name.as_str());
            push_str(&mut r, " is given two signatures \u{2014} ");
            let at = sigs_at_exec(sources);
            push_str(&mut r, at.as_str());
            push_str(&mut r, "\n");
            r
        },
    }
}

/// `<prefix><concept> (<where>)\n`: a state-marker line.
pub open spec fn marker_text(prefix: Seq<char>, concept: Seq<char>, at: SourceV) -> Seq<char> {
    prefix + concept + " ("@ + located_text(at) + ")\n"@
}

pub open spec fn pending_text(r: PendingRecord) -> Seq<char> {
    marker_text("pending: "@, r.concept@, r.spec_source@)
}

pub open spec fn realized_text(r: RealizedRecord) -> Seq<char> {
    marker_text("realized \u{2014} ratify: "@, r.concept@, r.spec_source@)
}

pub open spec fn retirement_incomplete_text(r: RetirementIncompleteRecord) -> Seq<char> {
    marker_text("retirement incomplete: "@, r.concept@, r.spec_source@)
}

pub open spec fn retirement_complete_text(r: RetirementCompleteRecord) -> Seq<char> {
    marker_text("retirement complete: "@, r.concept@, r.spec_source@)
}

/// The report line of a concept marked draft that the code lacks.
pub fn format_pending(r: &PendingRecord) -> (t: String)
    ensures
        t@ == pending_text(*r),
{
    short_line("pending: ", r.concept.as_str(), &r.spec_source)
}

/// The report line of a concept marked draft that the code has.
pub fn format_realized(r: &RealizedRecord) -> (t: String)
    ensures
        t@ == realized_text(*r),
{
    short_line("realized \u{2014} ratify: ", r.concept.as_str(), &r.spec_source)
}

/// The report line of a concept marked retired that the code still has.
pub fn format_retirement_incomplete(r: &RetirementIncompleteRecord) -> (t: String)
    ensures
        t@ == retirement_incomplete_text(*r),
{
    short_line("retirement incomplete: ", r.concept.as_str(), &r.spec_source)
}

/// The report line of a concept marked retired that the code no longer has.
pub fn format_retirement_complete(r: &RetirementCompleteRecord) -> (t: String)
    ensures
        t@ == retirement_complete_text(*r),
{
    short_line("retirement complete: ", r.concept.as_str(), &r.spec_source)
}

/// The closing line: how many of each kind of finding the check made.
pub open spec fn summary_text(o: CheckOutcome) -> Seq<char> {
    decimal(o.violations@.len()) + " violations, "@ + decimal(o.pending@.len()) + " pending, "@
        + decimal(o.realized@.len()) + " realized-unratified, "@ + decimal(
        o.retirement_incomplete@.len(),
    ) + " retirement-incomplete, "@ + decimal(o.retirement_complete@.len())
        + " retirement-complete\n"@
}

/// The closing line of the report.
pub fn format_summary(outcome: &CheckOutcome) -> (t: String)
    ensures
        t@ == summary_text(*outcome),
{
    let mut t = String::new();
    push_decimal(&mut t, outcome.violations.len());
    assert(t@ =~= decimal(outcome.violations@.len()));
    push_str(&mut t, " violations, ");
    push_decimal(&mut t, outcome.pending.len());
    push_str(&mut t, " pending, ");
    push_decimal(&mut t, outcome.realized.len());
    push_str(&mut t, " realized-unratified, ");
    push_decimal(&mut t, outcome.retirement_incomplete.len());
    push_str(&mut t, " retirement-incomplete, ");
    push_decimal(&mut t, outcome.retirement_complete.len());
    push_str(&mut t, " retirement-complete\n");
    t
}

/// The report's lines, in the order they are printed: violations, then
/// pending, realized, retirement-incomplete and retirement-complete markers,
/// then the summary.
pub open spec fn report_lines(o: CheckOutcome) -> Seq<Seq<char>> {
    o.violations@.map_values(|x: Violation| violation_text(x)) + o.pending@.map_values(
        |x: PendingRecord| pending_text(x),
    ) + o.realized@.map_values(|x: RealizedRecord| realized_text(x))
        + o.retirement_incomplete@.map_values(
        |x: RetirementIncompleteRecord| retirement_incomplete_text(x),
    ) + o.retirement_complete@.map_values(
        |x: RetirementCompleteRecord| retirement_complete_text(x),
    ) + seq![summary_text(o)]
}

/// The whole text report of an outcome.
pub open spec fn report_text(o: CheckOutcome) -> Seq<char> {
    join(report_lines(o), ""@)
}

/// The text report of an outcome, as `check --format text` prints it.
pub fn write_text(outcome: &CheckOutcome) -> (t: String)
    ensures
        t@ == report_text(*outcome),
{
    let mut lines: Vec<String> = Vec::new();
    let ghost mut g: Seq<Seq<char>> = seq![];
    let ghost base = g;
    let mut i: usize = 0;
    while i < outcome.violations.len()
        invariant
            i <= outcome.violations.len(),
            lines@.len() == g.len(),
            forall|j: int| 0 <= j < g.len() ==> (#[trigger] lines@[j])@ == g[j],
            g =~= base + outcome.violations@.take(i as int).map_values(|x: Violation| violation_text(x)),
        decreases outcome.violations.len() - i,
    {
        let line = format_violation(&outcome.violations[i]);
        proof {
            g = g.push(line@);
        }
        lines.push(line);
        i = i + 1;
        assert(outcome.violations@.take(i as int).map_values(|x: Violation| violation_text(x))
            =~= outcome.violations@.take(i - 1).map_values(|x: Violation| violation_text(x)).push(
            violation_text(outcome.violations@[i - 1]),
        ));
    }
    assert(outcome.violations@.take(i as int) =~= outcome.violations@);
    let ghost base = g;
    let mut i: usize = 0;
    while i < outcome.pending.len()
        invariant
            i <= outcome.pending.len(),
            lines@.len() == g.len(),
            forall|j: int| 0 <= j < g.len() ==> (#[trigger] lines@[j])@ == g[j],
            g =~= base + outcome.pending@.take(i as int).map_values(|x: PendingRecord| pending_text(x)),
        decreases outcome.pending.len() - i,
    {
        let line = format_pending(&outcome.pending[i]);
        proof {
            g = g.push(line@);
        }
        lines.push(line);
        i = i + 1;
        assert(outcome.pending@.take(i as int).map_values(|x: PendingRecord| pending_text(x))
            =~= outcome.pending@.take(i - 1).map_values(|x: PendingRecord| pending_text(x)).push(
            pending_text(outcome.pending@[i - 1]),
        ));
    }
    assert(outcome.pending@.take(i as int) =~= outcome.pending@);
    let ghost base = g;
    let mut i: usize = 0;
    while i < outcome.realized.len()
        invariant
            i <= outcome.realized.len(),
            lines@.len() == g.len(),
            forall|j: int| 0 <= j < g.len() ==> (#[trigger] lines@[j])@ == g[j],
            g =~= base + outcome.realized@.take(i as int).map_values(|x: RealizedRecord| realized_text(x)),
        decreases outcome.realized.len() - i,
    {
        let line = format_realized(&outcome.realized[i]);
        proof {
            g = g.push(line@);
        }
        lines.push(line);
        i = i + 1;
        assert(outcome.realized@.take(i as int).map_values(|x: RealizedRecord| realized_text(x))
            =~= outcome.realized@.take(i - 1).map_values(|x: RealizedRecord| realized_text(x)).push(
            realized_text(outcome.realized@[i - 1]),
        ));
    }
    assert(outcome.realized@.take(i as int) =~= outcome.realized@);
    let ghost base = g;
    let mut i: usize = 0;
    while i < outcome.retirement_incomplete.len()
        invariant
            i <= outcome.retirement_incomplete.len(),
            lines@.len() == g.len(),
            forall|j: int| 0 <= j < g.len() ==> (#[trigger] lines@[j])@ == g[j],
            g =~= base + outcome.retirement_incomplete@.take(i as int).map_values(|x: RetirementIncompleteRecord| retirement_incomplete_text(x)),
        decreases outcome.retirement_incomplete.len() - i,
    {
        let line = format_retirement_incomplete(&outcome.retirement_incomplete[i]);
        proof {
            g = g.push(line@);
        }
        lines.push(line);
        i = i + 1;
        assert(outcome.retirement_incomplete@.take(i as int).map_values(|x: RetirementIncompleteRecord| retirement_incomplete_text(x))
            =~= outcome.retirement_incomplete@.take(i - 1).map_values(|x: RetirementIncompleteRecord| retirement_incomplete_text(x)).push(
            retirement_incomplete_text(outcome.retirement_incomplete@[i - 1]),
        ));
    }
    assert(outcome.retirement_incomplete@.take(i as int) =~= outcome.retirement_incomplete@);
    let ghost base = g;
    let mut i: usize = 0;
    while i < outcome.retirement_complete.len()
        invariant
            i <= outcome.retirement_complete.len(),
            lines@.len() == g.len(),
            forall|j: int| 0 <= j < g.len() ==> (#[trigger] lines@[j])@ == g[j],
            g =~= base + outcome.retirement_complete@.take(i as int).map_values(|x: RetirementCompleteRecord| retirement_complete_text(x)),
        decreases outcome.retirement_complete.len() - i,
    {
        let line = format_retirement_complete(&outcome.retirement_complete[i]);
        proof {
            g = g.push(line@);
        }
        lines.push(line);
        i = i + 1;
        assert(outcome.retirement_complete@.take(i as int).map_values(|x: RetirementCompleteRecord| retirement_complete_text(x))
            =~= outcome.retirement_complete@.take(i - 1).map_values(|x: RetirementCompleteRecord| retirement_complete_text(x)).push(
            retirement_complete_text(outcome.retirement_complete@[i - 1]),
        ));
    }
    assert(outcome.retirement_complete@.take(i as int) =~= outcome.retirement_complete@);
    let last = format_summary(outcome);
    proof {
        g = g.push(last@);
    }
    lines.push(last);
    assert(g =~= report_lines(*outcome));
    assert(lines.deep_view() =~= g);
    let mut t = String::new();
    push_join(&mut t, &lines, "");
    assert(t@ =~= report_text(*outcome));
    t
}

/// Whether a text is a finished report entry: not empty, and its last
/// character ends the line.
pub open spec fn ends_line(t: Seq<char>) -> bool {
    t.len() > 0 && t.last() == '\n'
}

/// Every violation, of every kind, is reported as text that ends its line,
/// so consecutive entries of a report never run together.
pub proof fn every_violation_text_ends_its_line(v: Violation)
    ensures
        ends_line(violation_text(v)),
{
    reveal_strlit(")\n");
    reveal_strlit("\n");
}

} // verus!
