//! The machine-readable report: one JSON record per violation and state
//! marker. Records are built here as plain values; turning them into JSON
//! text is left to the caller.
use vstd::prelude::*;
use crate::model::{edge_label, CohesionViolation, EdgeKind, Source, SourceV};
use crate::outcome::{
    CheckOutcome, ContextViolation, PendingRecord, RealizedRecord, RetirementCompleteRecord,
    RetirementIncompleteRecord, Violation,
};

verus! {

/// The version of the record schema every record carries.
pub const SCHEMA_VERSION: &'static str = "4";

/// A JSON string, non-negative integer, boolean or `null`.
#[derive(Debug, Clone, PartialEq, Eq)]
pub enum Scalar {
    Str(String),
    Num(usize),
    Bool(bool),
    Null,
}

pub enum ScalarV {
    Str(Seq<char>),
    Num(usize),
    Bool(bool),
    Null,
}

impl View for Scalar {
    type V = ScalarV;

    open spec fn view(&self) -> ScalarV {
        match self {
            Scalar::Str(s) => ScalarV::Str(s@),
            Scalar::Num(n) => ScalarV::Num(*n),
            Scalar::Bool(b) => ScalarV::Bool(*b),
            Scalar::Null => ScalarV::Null,
        }
    }
}

/// The entries of a flat JSON object, in insertion order.
pub open spec fn object_view(o: Seq<(String, Scalar)>) -> Seq<(Seq<char>, ScalarV)> {
    o.map_values(|e: (String, Scalar)| (e.0@, e.1@))
}

/// A value a record holds under a key: a scalar or a flat object.
#[derive(Debug, Clone, PartialEq, Eq)]
pub enum Value {
    Scalar(Scalar),
    Object(Vec<(String, Scalar)>),
}

pub enum ValueV {
    Scalar(ScalarV),
    Object(Seq<(Seq<char>, ScalarV)>),
}

impl View for Value {
    type V = ValueV;

    open spec fn view(&self) -> ValueV {
        match self {
            Value::Scalar(s) => ValueV::Scalar(s@),
            Value::Object(o) => ValueV::Object(object_view(o@)),
        }
    }
}

/// One report record: a JSON object whose keys are kept in insertion order.
#[derive(Debug, Clone, PartialEq, Eq)]
pub struct Record {
    pub fields: Vec<(String, Value)>,
}

impl View for Record {
    type V = Seq<(Seq<char>, ValueV)>;

    open spec fn view(&self) -> Seq<(Seq<char>, ValueV)> {
        self.fields@.map_values(|e: (String, Value)| (e.0@, e.1@))
    }
}

pub open spec fn str_entry(key: Seq<char>, value: Seq<char>) -> (Seq<char>, ValueV) {
    (key, ValueV::Scalar(ScalarV::Str(value)))
}

pub open spec fn object_entry(key: Seq<char>, o: Seq<(Seq<char>, ScalarV)>) -> (Seq<char>, ValueV) {
    (key, ValueV::Object(o))
}

pub open spec fn schema_entry() -> (Seq<char>, ValueV) {
    str_entry("schema_version"@, SCHEMA_VERSION@)
}

impl Record {
    pub fn new() -> (r: Record)
        ensures
            r@ == Seq::<(Seq<char>, ValueV)>::empty(),
    {
        let r = Record { fields: Vec::new() };
        assert(r@ =~= Seq::<(Seq<char>, ValueV)>::empty());
        r
    }

    /// Adds a string under `key`.
    pub fn push_str(&mut self, key: &str, value: &str)
        ensures
            final(self)@ == old(self)@.push(str_entry(key@, value@)),
    {
        let k = key.to_string();
        let v = value.to_string();
        self.fields.push((k, Value::Scalar(Scalar::Str(v))));
        assert(self@ =~= old(self)@.push(str_entry(key@, value@)));
    }

    /// Adds a flat object under `key`.
    pub fn push_object(&mut self, key: &str, o: Vec<(String, Scalar)>)
        ensures
            final(self)@ == old(self)@.push(object_entry(key@, object_view(o@))),
    {
        let k = key.to_string();
        let ghost ov = object_view(o@);
        self.fields.push((k, Value::Object(o)));
        assert(self@ =~= old(self)@.push(object_entry(key@, ov)));
    }
}

/// Adds a scalar under `key` to a flat object.
pub fn object_push(o: &mut Vec<(String, Scalar)>, key: &str, value: Scalar)
    ensures
        object_view(final(o)@) == object_view(old(o)@).push((key@, value@)),
{
    let k = key.to_string();
    let ghost vv = value@;
    o.push((k, value));
    assert(object_view(o@) =~= object_view(old(o)@).push((key@, vv)));
}

/// `{"kind", "path", "line"}` of a source.
pub open spec fn source_object(s: SourceV) -> Seq<(Seq<char>, ScalarV)> {
    match s {
        SourceV::Spec { path, line, .. } => seq![
            ("kind"@, ScalarV::Str("spec"@)),
            ("path"@, ScalarV::Str(path)),
            ("line"@, ScalarV::Num(line)),
        ],
        SourceV::Code { path, line, .. } => seq![
            ("kind"@, ScalarV::Str("code"@)),
            ("path"@, ScalarV::Str(path)),
            ("line"@, ScalarV::Num(line)),
        ],
    }
}

pub open spec fn optional_entry(key: Seq<char>, v: Option<Seq<char>>) -> Seq<(Seq<char>, ScalarV)> {
    match v {
        Some(x) => seq![(key, ScalarV::Str(x))],
        None => seq![],
    }
}

/// A source object, and for a code source whatever of its module path, unit
/// and context is known.
pub open spec fn code_source_object(s: SourceV) -> Seq<(Seq<char>, ScalarV)> {
    match s {
        SourceV::Code { provenance, .. } => source_object(s) + optional_entry(
            "module_path"@,
            provenance.module,
        ) + optional_entry("unit"@, provenance.unit) + optional_entry(
            "context"@,
            provenance.context,
        ),
        SourceV::Spec { .. } => source_object(s),
    }
}

/// The JSON object of a source: its kind, path and line.
pub fn source_json(s: &Source) -> (o: Vec<(String, Scalar)>)
    ensures
        object_view(o@) == source_object(s@),
{
    let mut o: Vec<(String, Scalar)> = Vec::new();
    let ghost empty = object_view(o@);
    assert(empty =~= seq![]);
    match s {
        Source::Spec { path, line, .. } => {
            object_push(&mut o, "kind", Scalar::Str("spec".to_string()));
            object_push(&mut o, "path", Scalar::Str(path.clone()));
            object_push(&mut o, "line", Scalar::Num(*line));
        },
        Source::Code { path, line, .. } => {
            object_push(&mut o, "kind", Scalar::Str("code".to_string()));
            object_push(&mut o, "path", Scalar::Str(path.clone()));
            object_push(&mut o, "line", Scalar::Num(*line));
        },
    }
    assert(object_view(o@) =~= source_object(s@));
    o
}

fn push_optional(o: &mut Vec<(String, Scalar)>, key: &str, v: &Option<String>)
    ensures
        object_view(final(o)@) == object_view(old(o)@) + optional_entry(key@, v.deep_view()),
{
    match v {
        Some(x) => {
            object_push(o, key, Scalar::Str(x.clone()));
        },
        None => {},
    }
    assert(object_view(o@) =~= object_view(old(o)@) + optional_entry(key@, v.deep_view()));
}

/// The JSON object of a code source: kind, path, line and whatever of the
/// provenance triple is known.
pub fn code_source_json(s: &Source) -> (o: Vec<(String, Scalar)>)
    ensures
        object_view(o@) == code_source_object(s@),
{
    let mut o = source_json(s);
    if let Source::Code { provenance, .. } = s {
        push_optional(&mut o, "module_path", &provenance.module);
        push_optional(&mut o, "unit", &provenance.unit);
        push_optional(&mut o, "context", &provenance.context);
    }
    o
}

/// The record of a cohesion violation.
pub open spec fn cohesion_record(v: CohesionViolation) -> Seq<(Seq<char>, ValueV)> {
    match v {
        CohesionViolation::ContextWithoutCohesionUnit { context, file } => seq![
            schema_entry(),
            str_entry("violation"@, "context_without_cohesion_unit"@),
            str_entry("context"@, context@),
            str_entry("file"@, file@),
        ],
        CohesionViolation::SubConceptOrphan { sub_concept, file } => seq![
            schema_entry(),
            str_entry("violation"@, "sub_concept_orphan"@),
            str_entry("sub_concept"@, sub_concept@),
            str_entry("file"@, file@),
        ],
        CohesionViolation::ConceptContextMismatch {
            concept,
            declared,
            code_context,
            spec_source,
            code_source,
        } => seq![
            schema_entry(),
            str_entry("violation"@, "concept_context_mismatch"@),
            str_entry("concept"@, concept@),
            str_entry("declared"@, declared@),
            str_entry("code_context"@, code_context@),
            object_entry("spec_source"@, source_object(spec_source@)),
        ] + match code_source {
            Some(c) => seq![object_entry("code_source"@, source_object(c@))],
            None => seq![],
        },
    }
}

/// The record of a cohesion violation.
pub fn cohesion_violation_to_record(v: &CohesionViolation) -> (r: Record)
    ensures
        r@ == cohesion_record(*v),
{
    match v {
        CohesionViolation::ContextWithoutCohesionUnit { context, file } => {
            let mut r = Record::new();
            r.push_str("schema_version", SCHEMA_VERSION);
            r.push_str("violation", "context_without_cohesion_unit");
            r.push_str("context", context.as_str());
            r.push_str("file", file.as_str());
            assert(r@ =~= cohesion_record(*v));
            r
        },
        CohesionViolation::SubConceptOrphan { sub_concept, file } => {
            let mut r = Record::new();
            r.push_str("schema_version", SCHEMA_VERSION);
            r.push_str("violation", "sub_concept_orphan");
            r.push_str("sub_concept", sub_concept.as_str());
            r.push_str("file", file.as_str());
            assert(r@ =~= cohesion_record(*v));
            r
        },
        CohesionViolation::ConceptContextMismatch {
            concept,
            declared,
            code_context,
            spec_source,
            code_source,
        } => {
            let mut r = Record::new();
            r.push_str("schema_version", SCHEMA_VERSION);
            r.push_str("violation", "concept_context_mismatch");
            r.push_str("concept", concept.as_str());
            r.push_str("declared", declared.as_str());
            r.push_str("code_context", code_context.as_str());
            r.push_object("spec_source", source_json(spec_source));
            if let Some(c) = code_source {
                r.push_object("code_source", source_json(c));
            }
            assert(r@ =~= cohesion_record(*v));
            r
        },
    }
}

/// The concept a context violation is about; a surface that admits
/// nothing is about no one concept and names none.
pub open spec fn context_concept(v: ContextViolation) -> Seq<char> {
    match v {
        ContextViolation::MembershipUnknown { concept, .. } => concept@,
        ContextViolation::CrossEdgeUnauthorized { concept, .. } => concept@,
        ContextViolation::CrossEdgeUndeclared { concept, .. } => concept@,
        ContextViolation::SurfaceAdmitsNothing { .. } => seq![],
        ContextViolation::CrossEdgeOffSurface { concept, .. } => concept@,
        ContextViolation::CrossVerbUnauthorized { concept, .. } => concept@,
    }
}

impl ContextViolation {
    pub fn concept(&self) -> (c: &str)
        ensures
            c@ == context_concept(*self),
    {
        match self {
            ContextViolation::MembershipUnknown { concept, .. } => concept.as_str(),
            ContextViolation::CrossEdgeUnauthorized { concept, .. } => concept.as_str(),
            ContextViolation::CrossEdgeUndeclared { concept, .. } => concept.as_str(),
            ContextViolation::SurfaceAdmitsNothing { .. } => {
                proof {
                    reveal_strlit("");
                }
                ""
            },
            ContextViolation::CrossEdgeOffSurface { concept, .. } => concept.as_str(),
            ContextViolation::CrossVerbUnauthorized { concept, .. } => concept.as_str(),
        }
    }
}

/// The record of a context violation. The surface findings have no record
/// of their own and are written as an unknown context violation.
pub open spec fn context_record(v: ContextViolation) -> Seq<(Seq<char>, ValueV)> {
    match v {
        ContextViolation::MembershipUnknown { concept, owned_unit, code_source } => seq![
            schema_entry(),
            str_entry("violation"@, "context_membership_unknown"@),
            str_entry("concept"@, concept@),
            str_entry("owned_unit"@, owned_unit@),
            object_entry("source"@, code_source_object(code_source@)),
        ],
        ContextViolation::CrossEdgeUnauthorized { concept, owning_context, edge_kind, target, target_context, spec_source } => seq![
            schema_entry(),
            str_entry("violation"@, "cross_context_edge_unauthorized"@),
            str_entry("concept"@, concept@),
            str_entry("owning_context"@, owning_context@),
            str_entry("edge_kind"@, edge_label(edge_kind)),
            str_entry("target"@, target@),
            str_entry("target_context"@, target_context@),
            object_entry("spec_source"@, source_object(spec_source@)),
        ],
        ContextViolation::CrossEdgeUndeclared { concept, owning_context, edge_kind, target, target_context, spec_source } => seq![
            schema_entry(),
            str_entry("violation"@, "cross_context_edge_undeclared"@),
            str_entry("concept"@, concept@),
            str_entry("owning_context"@, owning_context@),
            str_entry("edge_kind"@, edge_label(edge_kind)),
            str_entry("target"@, target@),
            str_entry("target_context"@, target_context@),
            object_entry("spec_source"@, source_object(spec_source@)),
        ],
        ContextViolation::CrossVerbUnauthorized { concept, qname, owning_context, target_context, spec_source } => seq![
            schema_entry(),
            str_entry("violation"@, "cross_verb_unauthorized"@),
            str_entry("concept"@, concept@),
            str_entry("qname"@, qname@),
            str_entry("owning_context"@, owning_context@),
            str_entry("target_context"@, target_context@),
            object_entry("spec_source"@, source_object(spec_source@)),
        ],
        _ => seq![
            schema_entry(),
            str_entry("violation"@, "unknown_context_violation"@),
            str_entry("concept"@, context_concept(v)),
        ],
    }
}

/// The record of a context violation.
pub fn context_violation_to_record(v: &ContextViolation) -> (r: Record)
    ensures
        r@ == context_record(*v),
{
    match v {
        ContextViolation::MembershipUnknown { concept, owned_unit, code_source } => {
            let mut r = Record::new();
            r.push_str("schema_version", SCHEMA_VERSION);
            r.push_str("violation", "context_membership_unknown");
            r.push_str("concept", concept.as_str());
            r.push_str("owned_unit", owned_unit.0.as_str());
            r.push_object("source", code_source_json(code_source));
            assert(r@ =~= context_record(*v));
            r
        },
        ContextViolation::CrossEdgeUnauthorized { concept, owning_context, edge_kind, target, target_context, spec_source } => {
            let mut r = Record::new();
            r.push_str("schema_version", SCHEMA_VERSION);
            r.push_str("violation", "cross_context_edge_unauthorized");
            r.push_str("concept", concept.as_str());
            r.push_str("owning_context", owning_context.as_str());
            r.push_str("edge_kind", edge_kind.as_label());
            r.push_str("target", target.as_str());
            r.push_str("target_context", target_context.as_str());
            r.push_object("spec_source", source_json(spec_source));
            assert(r@ =~= context_record(*v));
            r
        },
        ContextViolation::CrossEdgeUndeclared { concept, owning_context, edge_kind, target, target_context, spec_source } => {
            let mut r = Record::new();
            r.push_str("schema_version", SCHEMA_VERSION);
            r.push_str("violation", "cross_context_edge_undeclared");
            r.push_str("concept", concept.as_str());
            r.push_str("owning_context", owning_context.as_str());
            r.push_str("edge_kind", edge_kind.as_label());
            r.push_str("target", target.as_str());
            r.push_str("target_context", target_context.as_str());
            r.push_object("spec_source", source_json(spec_source));
            assert(r@ =~= context_record(*v));
            r
        },
        ContextViolation::CrossVerbUnauthorized { concept, qname, owning_context, target_context, spec_source } => {
            let mut r = Record::new();
            r.push_str("schema_version", SCHEMA_VERSION);
            r.push_str("violation", "cross_verb_unauthorized");
            r.push_str("concept", concept.as_str());
            r.push_str("qname", qname.as_str());
            r.push_str("owning_context", owning_context.as_str());
            r.push_str("target_context", target_context.as_str());
            r.push_object("spec_source", source_json(spec_source));
            assert(r@ =~= context_record(*v));
            r
        },
        _ => {
            let mut r = Record::new();
            r.push_str("schema_version", SCHEMA_VERSION);
            r.push_str("violation", "unknown_context_violation");
            r.push_str("concept", v.concept());
            assert(r@ =~= context_record(*v));
            r
        },
    }
}

/// The record of a violation. The kinds that have no record of their own
/// are written as an unknown violation.
pub open spec fn violation_record(v: Violation) -> Seq<(Seq<char>, ValueV)> {
    match v {
        Violation::MissingInCode { name, spec_source } => seq![
            schema_entry(),
            str_entry("violation"@, "missing_in_code"@),
            str_entry("concept"@, name@),
            object_entry("source"@, source_object(spec_source@)),
        ],
        Violation::MissingInSpecs { name, code_source } => seq![
            schema_entry(),
            str_entry("violation"@, "missing_in_specs"@),
            str_entry("concept"@, name@),
            object_entry("source"@, code_source_object(code_source@)),
        ],
        Violation::SignatureDrift { name, spec_sig, code_sig, spec_source, code_source } => seq![
            schema_entry(),
            str_entry("violation"@, "signature_drift"@),
            str_entry("concept"@, name@),
            str_entry("spec_sig"@, spec_sig@),
            str_entry("code_sig"@, code_sig@),
            object_entry("spec_source"@, source_object(spec_source@)),
            object_entry("code_source"@, code_source_object(code_source@)),
        ],
        Violation::SignatureMissingInSpec { name, code_sig, code_source } => seq![
            schema_entry(),
            str_entry("violation"@, "signature_missing_in_spec"@),
            str_entry("concept"@, name@),
            str_entry("code_sig"@, code_sig@),
            object_entry("code_source"@, code_source_object(code_source@)),
        ],
        Violation::SignatureUnparseable { name, raw, error, source } => seq![
            schema_entry(),
            str_entry("violation"@, "signature_unparseable"@),
            str_entry("concept"@, name@),
            str_entry("raw"@, raw@),
            str_entry("error"@, error@),
            object_entry("source"@, source_object(source@)),
        ],
        Violation::EdgeMissingInCode { concept, edge_kind, target, spec_source } => seq![
            schema_entry(),
            str_entry("violation"@, "edge_missing_in_code"@),
            str_entry("concept"@, concept@),
            str_entry("edge_kind"@, edge_label(edge_kind)),
            str_entry("target"@, target@),
            object_entry("spec_source"@, source_object(spec_source@)),
        ],
        Violation::EdgeMissingInSpec { concept, edge_kind, target, code_source } => seq![
            schema_entry(),
            str_entry("violation"@, "edge_missing_in_spec"@),
            str_entry("concept"@, concept@),
            str_entry("edge_kind"@, edge_label(edge_kind)),
            str_entry("target"@, target@),
            object_entry("code_source"@, code_source_object(code_source@)),
        ],
        Violation::EdgeTargetUnknown { concept, edge_kind, target, spec_source } => seq![
            schema_entry(),
            str_entry("violation"@, "edge_target_unknown"@),
            str_entry("concept"@, concept@),
            str_entry("edge_kind"@, edge_label(edge_kind)),
            str_entry("target"@, target@),
            object_entry("spec_source"@, source_object(spec_source@)),
        ],
        Violation::VerbMissingInCode { concept, qname, spec_source } => seq![
            schema_entry(),
            str_entry("violation"@, "verb_missing_in_code"@),
            str_entry("concept"@, concept@),
            str_entry("qname"@, qname@),
            object_entry("spec_source"@, source_object(spec_source@)),
        ],
        Violation::VerbMissingInSpec { qname, code_source } => seq![
            schema_entry(),
            str_entry("violation"@, "verb_missing_in_spec"@),
            str_entry("qname"@, qname@),
            object_entry("code_source"@, code_source_object(code_source@)),
        ],
        Violation::VerbTargetUnknown { concept, qname, spec_source } => seq![
            schema_entry(),
            str_entry("violation"@, "verb_target_unknown"@),
            str_entry("concept"@, concept@),
            str_entry("qname"@, qname@),
            object_entry("spec_source"@, source_object(spec_source@)),
        ],
        Violation::ForbiddenConceptReintroduced { name, spec_source, code_source } => seq![
            schema_entry(),
            str_entry("violation"@, "forbidden_concept_reintroduced"@),
            str_entry("concept"@, name@),
            object_entry("spec_source"@, source_object(spec_source@)),
            object_entry("code_source"@, code_source_object(code_source@)),
        ],
        Violation::DanglingAnchor { concept, target, spec_source } => seq![
            schema_entry(),
            str_entry("violation"@, "dangling_anchor"@),
            str_entry("concept"@, concept@),
            str_entry("target"@, target@),
            object_entry("source"@, source_object(spec_source@)),
        ],
        Violation::Context(c) => context_record(c),
        Violation::Cohesion(c) => cohesion_record(c),
        _ => seq![schema_entry(), str_entry("violation"@, "unknown_violation"@)],
    }
}

/// The value a record holds under `key`: that of its first entry with it.
pub open spec fn entry_value(r: Seq<(Seq<char>, ValueV)>, key: Seq<char>) -> Option<ValueV>
    decreases r.len(),
{
    if r.len() == 0 {
        None
    } else if r[0].0 == key {
        Some(r[0].1)
    } else {
        entry_value(r.drop_first(), key)
    }
}

/// The concept a violation is about: its `name` or `concept` field.
pub open spec fn named_concept(v: Violation) -> Option<Seq<char>> {
    match v {
        Violation::MissingInCode { name, .. } => Some(name@),
        Violation::MissingInSpecs { name, .. } => Some(name@),
        Violation::SignatureDrift { name, .. } => Some(name@),
        Violation::SignatureMissingInSpec { name, .. } => Some(name@),
        Violation::SignatureUnparseable { name, .. } => Some(name@),
        Violation::ForbiddenConceptReintroduced { name, .. } => Some(name@),
        Violation::EdgeMissingInCode { concept, .. } => Some(concept@),
        Violation::EdgeMissingInSpec { concept, .. } => Some(concept@),
        Violation::EdgeTargetUnknown { concept, .. } => Some(concept@),
        Violation::VerbMissingInCode { concept, .. } => Some(concept@),
        Violation::VerbTargetUnknown { concept, .. } => Some(concept@),
        Violation::DanglingAnchor { concept, .. } => Some(concept@),
        _ => None,
    }
}

/// The concept a violation's relationship or anchor points at: its
/// `target` field.
pub open spec fn named_target(v: Violation) -> Option<Seq<char>> {
    match v {
        Violation::EdgeMissingInCode { target, .. } => Some(target@),
        Violation::EdgeMissingInSpec { target, .. } => Some(target@),
        Violation::EdgeTargetUnknown { target, .. } => Some(target@),
        Violation::DanglingAnchor { target, .. } => Some(target@),
        _ => None,
    }
}

/// The relationship kind a violation is about: its `edge_kind` field.
pub open spec fn named_edge_kind(v: Violation) -> Option<EdgeKind> {
    match v {
        Violation::EdgeMissingInCode { edge_kind, .. } => Some(edge_kind),
        Violation::EdgeMissingInSpec { edge_kind, .. } => Some(edge_kind),
        Violation::EdgeTargetUnknown { edge_kind, .. } => Some(edge_kind),
        _ => None,
    }
}

/// A violation's signatures as the spec and the code give them, and the
/// qualified name it cites.
pub open spec fn named_texts(v: Violation) -> (Option<Seq<char>>, Option<Seq<char>>, Option<Seq<char>>) {
    match v {
        Violation::SignatureDrift { spec_sig, code_sig, .. } => (Some(spec_sig@), Some(code_sig@), None),
        Violation::SignatureMissingInSpec { code_sig, .. } => (None, Some(code_sig@), None),
        Violation::VerbMissingInCode { qname, .. } => (None, None, Some(qname@)),
        Violation::VerbMissingInSpec { qname, .. } => (None, None, Some(qname@)),
        Violation::VerbTargetUnknown { qname, .. } => (None, None, Some(qname@)),
        _ => (None, None, None),
    }
}

/// A violation's record carries the concept it is about under `concept`,
/// the concept it points at under `target` and the relationship's label
/// under `edge_kind`, and its signatures and cited name under `spec_sig`,
/// `code_sig` and `qname`, each as the violation holds it.
#[verifier::spinoff_prover]
pub proof fn a_record_carries_its_violation_fields(v: Violation)
    ensures
        named_concept(v) matches Some(c) ==> entry_value(violation_record(v), "concept"@) == Some(
            ValueV::Scalar(ScalarV::Str(c)),
        ),
        named_target(v) matches Some(t) ==> entry_value(violation_record(v), "target"@) == Some(
            ValueV::Scalar(ScalarV::Str(t)),
        ),
        named_edge_kind(v) matches Some(k) ==> entry_value(violation_record(v), "edge_kind"@)
            == Some(ValueV::Scalar(ScalarV::Str(edge_label(k)))),
        named_texts(v).0 matches Some(t) ==> entry_value(violation_record(v), "spec_sig"@) == Some(
            ValueV::Scalar(ScalarV::Str(t)),
        ),
        named_texts(v).1 matches Some(t) ==> entry_value(violation_record(v), "code_sig"@) == Some(
            ValueV::Scalar(ScalarV::Str(t)),
        ),
        named_texts(v).2 matches Some(t) ==> entry_value(violation_record(v), "qname"@) == Some(
            ValueV::Scalar(ScalarV::Str(t)),
        ),
{
    reveal_strlit("spec_sig");
    reveal_strlit("code_sig");
    reveal_strlit("qname");
    reveal_strlit("schema_version");
    reveal_strlit("violation");
    reveal_strlit("concept");
    reveal_strlit("edge_kind");
    reveal_strlit("target");
    reveal_with_fuel(entry_value, 6);
    assert("schema_version"@.len() == 14 && "violation"@.len() == 9 && "concept"@.len() == 7
        && "edge_kind"@.len() == 9 && "target"@.len() == 6);
    assert("violation"@[0] != "edge_kind"@[0]);
    assert("spec_sig"@.len() == 8 && "code_sig"@.len() == 8 && "qname"@.len() == 5);
    assert("spec_sig"@[0] != "code_sig"@[0] && "violation"@[0] != "qname"@[0]);
}

/// Which kind of violation a record is written for, numbered in the order
/// the violations are declared; nothing for a context or cohesion
/// violation, which have records of their own.
pub open spec fn violation_kind(v: Violation) -> Option<int> {
    match v {
        Violation::MissingInCode { .. } => Some(0int),
        Violation::MissingInSpecs { .. } => Some(1int),
        Violation::SignatureDrift { .. } => Some(2int),
        Violation::SignatureMissingInSpec { .. } => Some(3int),
        Violation::SignatureUnparseable { .. } => Some(4int),
        Violation::EdgeMissingInCode { .. } => Some(5int),
        Violation::EdgeMissingInSpec { .. } => Some(6int),
        Violation::EdgeTargetUnknown { .. } => Some(7int),
        Violation::VerbMissingInCode { .. } => Some(8int),
        Violation::VerbMissingInSpec { .. } => Some(9int),
        Violation::VerbTargetUnknown { .. } => Some(10int),
        Violation::ForbiddenConceptReintroduced { .. } => Some(11int),
        Violation::DanglingAnchor { .. } => Some(12int),
        _ => None,
    }
}

spec fn kind_wire(k: int) -> Seq<char> {
    if k == 0 {
        "missing_in_code"@
    } else if k == 1 {
        "missing_in_specs"@
    } else if k == 2 {
        "signature_drift"@
    } else if k == 3 {
        "signature_missing_in_spec"@
    } else if k == 4 {
        "signature_unparseable"@
    } else if k == 5 {
        "edge_missing_in_code"@
    } else if k == 6 {
        "edge_missing_in_spec"@
    } else if k == 7 {
        "edge_target_unknown"@
    } else if k == 8 {
        "verb_missing_in_code"@
    } else if k == 9 {
        "verb_missing_in_spec"@
    } else if k == 10 {
        "verb_target_unknown"@
    } else if k == 11 {
        "forbidden_concept_reintroduced"@
    } else if k == 12 {
        "dangling_anchor"@
    } else {
        seq![]
    }
}

spec fn wire_print(w: Seq<char>) -> (nat, char, char) {
    (w.len(), w[0], if w.len() > 16 { w[16] } else { ' ' })
}

proof fn lemma_kind_wires_differ(x: int, y: int)
    requires
        0 <= x < 13,
        0 <= y < 13,
        x != y,
    ensures
        kind_wire(x) != kind_wire(y),
{
    reveal_strlit("missing_in_code");
    reveal_strlit("missing_in_specs");
    reveal_strlit("signature_drift");
    reveal_strlit("signature_missing_in_spec");
    reveal_strlit("signature_unparseable");
    reveal_strlit("edge_missing_in_code");
    reveal_strlit("edge_missing_in_spec");
    reveal_strlit("edge_target_unknown");
    reveal_strlit("verb_missing_in_code");
    reveal_strlit("verb_missing_in_spec");
    reveal_strlit("verb_target_unknown");
    reveal_strlit("forbidden_concept_reintroduced");
    reveal_strlit("dangling_anchor");
    assert(wire_print(kind_wire(x)) != wire_print(kind_wire(y)));
}

#[verifier::rlimit(40)]
proof fn lemma_violation_wire(v: Violation)
    ensures
        violation_kind(v) is Some ==> entry_value(violation_record(v), "violation"@) == Some(
            ValueV::Scalar(ScalarV::Str(kind_wire(violation_kind(v)->0))),
        ),
{
    reveal_strlit("schema_version");
    reveal_strlit("violation");
    reveal_with_fuel(entry_value, 3);
    assert("schema_version"@.len() == 14 && "violation"@.len() == 9);
}

/// Violations of different kinds are told apart by their records'
/// `violation` value.
pub proof fn violation_kinds_have_distinct_records(a: Violation, b: Violation)
    ensures
        violation_kind(a) is Some ==> entry_value(violation_record(a), "violation"@) is Some,
        violation_kind(a) matches Some(x) && violation_kind(b) matches Some(y) && x != y
            ==> entry_value(violation_record(a), "violation"@) != entry_value(
            violation_record(b),
            "violation"@,
        ),
{
    lemma_violation_wire(a);
    lemma_violation_wire(b);
    if violation_kind(a) is Some && violation_kind(b) is Some && violation_kind(a)->0 != violation_kind(b)->0 {
        lemma_kind_wires_differ(violation_kind(a)->0, violation_kind(b)->0);
    }
}

/// The record of a violation.
pub fn violation_to_record(v: &Violation) -> (r: Record)
    ensures
        r@ == violation_record(*v),
{
    match v {
        Violation::MissingInCode { name, spec_source } => {
            let mut r = Record::new();
            r.push_str("schema_version", SCHEMA_VERSION);
            r.push_str("violation", "missing_in_code");
            r.push_str("concept", name.as_str());
            r.push_object("source", source_json(spec_source));
            assert(r@ =~= violation_record(*v));
            r
        },
        Violation::MissingInSpecs { name, code_source } => {
            let mut r = Record::new();
            r.push_str("schema_version", SCHEMA_VERSION);
            r.push_str("violation", "missing_in_specs");
            r.push_str("concept", name.as_str());
            r.push_object("source", code_source_json(code_source));
            assert(r@ =~= violation_record(*v));
            r
        },
        Violation::SignatureDrift { name, spec_sig, code_sig, spec_source, code_source } => {
            let mut r = Record::new();
            r.push_str("schema_version", SCHEMA_VERSION);
            r.push_str("violation", "signature_drift");
            r.push_str("concept", name.as_str());
            r.push_str("spec_sig", spec_sig.as_str());
            r.push_str("code_sig", code_sig.as_str());
            r.push_object("spec_source", source_json(spec_source));
            r.push_object("code_source", code_source_json(code_source));
            assert(r@ =~= violation_record(*v));
            r
        },
        Violation::SignatureMissingInSpec { name, code_sig, code_source } => {
            let mut r = Record::new();
            r.push_str("schema_version", SCHEMA_VERSION);
            r.push_str("violation", "signature_missing_in_spec");
            r.push_str("concept", name.as_str());
            r.push_str("code_sig", code_sig.as_str());
            r.push_object("code_source", code_source_json(code_source));
            assert(r@ =~= violation_record(*v));
            r
        },
        Violation::SignatureUnparseable { name, raw, error, source } => {
            let mut r = Record::new();
            r.push_str("schema_version", SCHEMA_VERSION);
            r.push_str("violation", "signature_unparseable");
            r.push_str("concept", name.as_str());
            r.push_str("raw", raw.as_str());
            r.push_str("error", error.as_str());
            r.push_object("source", source_json(source));
            assert(r@ =~= violation_record(*v));
            r
        },
        Violation::EdgeMissingInCode { concept, edge_kind, target, spec_source } => {
            let mut r = Record::new();
            r.push_str("schema_version", SCHEMA_VERSION);
            r.push_str("violation", "edge_missing_in_code");
            r.push_str("concept", concept.as_str());
            r.push_str("edge_kind", edge_kind.as_label());
            r.push_str("target", target.as_str());
            r.push_object("spec_source", source_json(spec_source));
            assert(r@ =~= violation_record(*v));
            r
        },
        Violation::EdgeMissingInSpec { concept, edge_kind, target, code_source } => {
            let mut r = Record::new();
            r.push_str("schema_version", SCHEMA_VERSION);
            r.push_str("violation", "edge_missing_in_spec");
            r.push_str("concept", concept.as_str());
            r.push_str("edge_kind", edge_kind.as_label());
            r.push_str("target", target.as_str());
            r.push_object("code_source", code_source_json(code_source));
            assert(r@ =~= violation_record(*v));
            r
        },
        Violation::EdgeTargetUnknown { concept, edge_kind, target, spec_source } => {
            let mut r = Record::new();
            r.push_str("schema_version", SCHEMA_VERSION);
            r.push_str("violation", "edge_target_unknown");
            r.push_str("concept", concept.as_str());
            r.push_str("edge_kind", edge_kind.as_label());
            r.push_str("target", target.as_str());
            r.push_object("spec_source", source_json(spec_source));
            assert(r@ =~= violation_record(*v));
            r
        },
        Violation::VerbMissingInCode { concept, qname, spec_source } => {
            let mut r = Record::new();
            r.push_str("schema_version", SCHEMA_VERSION);
            r.push_str("violation", "verb_missing_in_code");
            r.push_str("concept", concept.as_str());
            r.push_str("qname", qname.as_str());
            r.push_object("spec_source", source_json(spec_source));
            assert(r@ =~= violation_record(*v));
            r
        },
        Violation::VerbMissingInSpec { qname, code_source } => {
            let mut r = Record::new();
            r.push_str("schema_version", SCHEMA_VERSION);
            r.push_str("violation", "verb_missing_in_spec");
            r.push_str("qname", qname.as_str());
            r.push_object("code_source", code_source_json(code_source));
            assert(r@ =~= violation_record(*v));
            r
        },
        Violation::VerbTargetUnknown { concept, qname, spec_source } => {
            let mut r = Record::new();
            r.push_str("schema_version", SCHEMA_VERSION);
            r.push_str("violation", "verb_target_unknown");
            r.push_str("concept", concept.as_str());
            r.push_str("qname", qname.as_str());
            r.push_object("spec_source", source_json(spec_source));
            assert(r@ =~= violation_record(*v));
            r
        },
        Violation::ForbiddenConceptReintroduced { name, spec_source, code_source } => {
            let mut r = Record::new();
            r.push_str("schema_version", SCHEMA_VERSION);
            r.push_str("violation", "forbidden_concept_reintroduced");
            r.push_str("concept", name.as_str());
            r.push_object("spec_source", source_json(spec_source));
            r.push_object("code_source", code_source_json(code_source));
            assert(r@ =~= violation_record(*v));
            r
        },
        Violation::DanglingAnchor { concept, target, spec_source } => {
            let mut r = Record::new();
            r.push_str("schema_version", SCHEMA_VERSION);
            r.push_str("violation", "dangling_anchor");
            r.push_str("concept", concept.as_str());
            r.push_str("target", target.as_str());
            r.push_object("source", source_json(spec_source));
            assert(r@ =~= violation_record(*v));
            r
        },
        Violation::Context(c) => context_violation_to_record(c),
        Violation::Cohesion(c) => cohesion_violation_to_record(c),
        _ => {
            let mut r = Record::new();
            r.push_str("schema_version", SCHEMA_VERSION);
            r.push_str("violation", "unknown_violation");
            assert(r@ =~= violation_record(*v));
            r
        },
    }
}

/// The record of a state marker: `pending`, `realized`,
/// `retirement_incomplete` or `retirement_complete`.
pub open spec fn marker_record(marker: Seq<char>, concept: Seq<char>, s: SourceV) -> Seq<(Seq<char>, ValueV)> {
    seq![
        schema_entry(),
        str_entry("marker"@, marker),
        str_entry("concept"@, concept),
        object_entry("source"@, source_object(s)),
    ]
}

/// The record of a state marker.
pub fn retirement_record(marker: &str, concept: &str, source: &Source) -> (r: Record)
    ensures
        r@ == marker_record(marker@, concept@, source@),
{
    let mut r = Record::new();
    r.push_str("schema_version", SCHEMA_VERSION);
    r.push_str("marker", marker);
    r.push_str("concept", concept);
    r.push_object("source", source_json(source));
    assert(r@ =~= marker_record(marker@, concept@, source@));
    r
}

/// The record of a concept marked draft that the code lacks.
pub fn pending_to_record(p: &PendingRecord) -> (r: Record)
    ensures
        r@ == marker_record("pending"@, p.concept@, p.spec_source@),
{
    retirement_record("pending", p.concept.as_str(), &p.spec_source)
}

/// The record of a concept marked draft that the code has.
pub fn realized_to_record(p: &RealizedRecord) -> (r: Record)
    ensures
        r@ == marker_record("realized"@, p.concept@, p.spec_source@),
{
    retirement_record("realized", p.concept.as_str(), &p.spec_source)
}

/// Every record of an outcome, in the order they are written: violations,
/// then pending, realized, retirement-incomplete and retirement-complete
/// markers.
pub open spec fn outcome_records(o: CheckOutcome) -> Seq<Seq<(Seq<char>, ValueV)>> {
    o.violations@.map_values(|x: Violation| violation_record(x)) + o.pending@.map_values(
        |x: PendingRecord| marker_record("pending"@, x.concept@, x.spec_source@),
    ) + o.realized@.map_values(
        |x: RealizedRecord| marker_record("realized"@, x.concept@, x.spec_source@),
    ) + o.retirement_incomplete@.map_values(
        |x: RetirementIncompleteRecord|
            marker_record("retirement_incomplete"@, x.concept@, x.spec_source@),
    ) + o.retirement_complete@.map_values(
        |x: RetirementCompleteRecord|
            marker_record("retirement_complete"@, x.concept@, x.spec_source@),
    )
}

/// The records `check --format ndjson` writes, one per line.
pub fn write_ndjson(outcome: &CheckOutcome) -> (rs: Vec<Record>)
    ensures
        rs@.map_values(|r: Record| r@) == outcome_records(*outcome),
{
    let mut rs: Vec<Record> = Vec::new();
    let ghost mut g: Seq<Seq<(Seq<char>, ValueV)>> = seq![];
    let ghost base = g;
    let mut i: usize = 0;
    while i < outcome.violations.len()
        invariant
            i <= outcome.violations.len(),
            rs@.len() == g.len(),
            forall|j: int| 0 <= j < g.len() ==> (#[trigger] rs@[j])@ == g[j],
            g =~= base + outcome.violations@.take(i as int).map_values(|x: Violation| violation_record(x)),
        decreases outcome.violations.len() - i,
    {
        let rec = violation_to_record(&outcome.violations[i]);
        proof {
            g = g.push(rec@);
        }
        rs.push(rec);
        i = i + 1;
        assert(outcome.violations@.take(i as int).map_values(|x: Violation| violation_record(x))
            =~= outcome.violations@.take(i - 1).map_values(|x: Violation| violation_record(x)).push(
            { let x = outcome.violations@[i - 1]; violation_record(x) },
        ));
    }
    assert(outcome.violations@.take(i as int) =~= outcome.violations@);
    let ghost base = g;
    let mut i: usize = 0;
    while i < outcome.pending.len()
        invariant
            i <= outcome.pending.len(),
            rs@.len() == g.len(),
            forall|j: int| 0 <= j < g.len() ==> (#[trigger] rs@[j])@ == g[j],
            g =~= base + outcome.pending@.take(i as int).map_values(|x: PendingRecord| marker_record("pending"@, x.concept@, x.spec_source@)),
        decreases outcome.pending.len() - i,
    {
        let rec = pending_to_record(&outcome.pending[i]);
        proof {
            g = g.push(rec@);
        }
        rs.push(rec);
        i = i + 1;
        assert(outcome.pending@.take(i as int).map_values(|x: PendingRecord| marker_record("pending"@, x.concept@, x.spec_source@))
            =~= outcome.pending@.take(i - 1).map_values(|x: PendingRecord| marker_record("pending"@, x.concept@, x.spec_source@)).push(
            { let x = outcome.pending@[i - 1]; marker_record("pending"@, x.concept@, x.spec_source@) },
        ));
    }
    assert(outcome.pending@.take(i as int) =~= outcome.pending@);
    let ghost base = g;
    let mut i: usize = 0;
    while i < outcome.realized.len()
        invariant
            i <= outcome.realized.len(),
            rs@.len() == g.len(),
            forall|j: int| 0 <= j < g.len() ==> (#[trigger] rs@[j])@ == g[j],
            g =~= base + outcome.realized@.take(i as int).map_values(|x: RealizedRecord| marker_record("realized"@, x.concept@, x.spec_source@)),
        decreases outcome.realized.len() - i,
    {
        let rec = realized_to_record(&outcome.realized[i]);
        proof {
            g = g.push(rec@);
        }
        rs.push(rec);
        i = i + 1;
        assert(outcome.realized@.take(i as int).map_values(|x: RealizedRecord| marker_record("realized"@, x.concept@, x.spec_source@))
            =~= outcome.realized@.take(i - 1).map_values(|x: RealizedRecord| marker_record("realized"@, x.concept@, x.spec_source@)).push(
            { let x = outcome.realized@[i - 1]; marker_record("realized"@, x.concept@, x.spec_source@) },
        ));
    }
    assert(outcome.realized@.take(i as int) =~= outcome.realized@);
    let ghost base = g;
    let mut i: usize = 0;
    while i < outcome.retirement_incomplete.len()
        invariant
            i <= outcome.retirement_incomplete.len(),
            rs@.len() == g.len(),
            forall|j: int| 0 <= j < g.len() ==> (#[trigger] rs@[j])@ == g[j],
            g =~= base + outcome.retirement_incomplete@.take(i as int).map_values(|x: RetirementIncompleteRecord| marker_record("retirement_incomplete"@, x.concept@, x.spec_source@)),
        decreases outcome.retirement_incomplete.len() - i,
    {
        let rec = retirement_record("retirement_incomplete", outcome.retirement_incomplete[i].concept.as_str(), &outcome.retirement_incomplete[i].spec_source);
        proof {
            g = g.push(rec@);
        }
        rs.push(rec);
        i = i + 1;
        assert(outcome.retirement_incomplete@.take(i as int).map_values(|x: RetirementIncompleteRecord| marker_record("retirement_incomplete"@, x.concept@, x.spec_source@))
            =~= outcome.retirement_incomplete@.take(i - 1).map_values(|x: RetirementIncompleteRecord| marker_record("retirement_incomplete"@, x.concept@, x.spec_source@)).push(
            { let x = outcome.retirement_incomplete@[i - 1]; marker_record("retirement_incomplete"@, x.concept@, x.spec_source@) },
        ));
    }
    assert(outcome.retirement_incomplete@.take(i as int) =~= outcome.retirement_incomplete@);
    let ghost base = g;
    let mut i: usize = 0;
    while i < outcome.retirement_complete.len()
        invariant
            i <= outcome.retirement_complete.len(),
            rs@.len() == g.len(),
            forall|j: int| 0 <= j < g.len() ==> (#[trigger] rs@[j])@ == g[j],
            g =~= base + outcome.retirement_complete@.take(i as int).map_values(|x: RetirementCompleteRecord| marker_record("retirement_complete"@, x.concept@, x.spec_source@)),
        decreases outcome.retirement_complete.len() - i,
    {
        let rec = retirement_record("retirement_complete", outcome.retirement_complete[i].concept.as_str(), &outcome.retirement_complete[i].spec_source);
        proof {
            g = g.push(rec@);
        }
        rs.push(rec);
        i = i + 1;
        assert(outcome.retirement_complete@.take(i as int).map_values(|x: RetirementCompleteRecord| marker_record("retirement_complete"@, x.concept@, x.spec_source@))
            =~= outcome.retirement_complete@.take(i - 1).map_values(|x: RetirementCompleteRecord| marker_record("retirement_complete"@, x.concept@, x.spec_source@)).push(
            { let x = outcome.retirement_complete@[i - 1]; marker_record("retirement_complete"@, x.concept@, x.spec_source@) },
        ));
    }
    assert(outcome.retirement_complete@.take(i as int) =~= outcome.retirement_complete@);
    assert(g =~= outcome_records(*outcome));
    assert(rs@.map_values(|r: Record| r@) =~= g);
    rs
}

/// Whether a record opens with the schema version and then names its
/// kind under `key`.
pub open spec fn leads_with(r: Seq<(Seq<char>, ValueV)>, key: Seq<char>) -> bool {
    r.len() >= 2 && r[0] == schema_entry() && r[1].0 == key
}

proof fn lemma_cohesion_record_leads(v: CohesionViolation)
    ensures
        leads_with(cohesion_record(v), "violation"@),
{
    match v {
        CohesionViolation::ConceptContextMismatch { code_source, .. } => {
            assert(cohesion_record(v)[0] == schema_entry());
            assert(cohesion_record(v)[1] == str_entry("violation"@, "concept_context_mismatch"@));
        },
        _ => {},
    }
}

/// Every record the ndjson stream carries opens with `schema_version` and
/// then its one discriminator: `violation` for each violation, which come
/// first, and `marker` for each state marker after them.
#[verifier::spinoff_prover]
#[verifier::rlimit(40)]
pub proof fn every_record_leads_with_schema_and_kind(o: CheckOutcome)
    ensures
        outcome_records(o).len() == o.violations@.len() + o.pending@.len() + o.realized@.len()
            + o.retirement_incomplete@.len() + o.retirement_complete@.len(),
        forall|i: int|
            0 <= i < o.violations@.len() ==> leads_with(
                #[trigger] outcome_records(o)[i],
                "violation"@,
            ),
        forall|i: int|
            o.violations@.len() <= i < outcome_records(o).len() ==> leads_with(
                #[trigger] outcome_records(o)[i],
                "marker"@,
            ),
{
    let vs = o.violations@.map_values(|x: Violation| violation_record(x));
    assert forall|i: int| 0 <= i < o.violations@.len() implies leads_with(
        #[trigger] outcome_records(o)[i],
        "violation"@,
    ) by {
        assert(outcome_records(o)[i] == vs[i]);
        let v = o.violations@[i];
        match v {
            Violation::Cohesion(c) => {
                lemma_cohesion_record_leads(c);
            },
            _ => {},
        }
    }
}


} // verus!
