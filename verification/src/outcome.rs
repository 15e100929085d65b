//! What a check finds: the violations, the state markers and the outcome
//! that carries them.
use vstd::prelude::*;
use crate::model::{CohesionViolation, EdgeKind, OwnedUnit, Source};

verus! {

/// The side of the comparison a finding was made on.
#[derive(Debug, Clone, Copy, PartialEq, Eq, Structural)]
pub enum DiffSide {
    Spec,
    Code,
}

pub open spec fn side_label(s: DiffSide) -> Seq<char> {
    match s {
        DiffSide::Spec => "spec"@,
        DiffSide::Code => "code"@,
    }
}

impl DiffSide {
    pub fn as_label(&self) -> (r: &'static str)
        ensures
            r@ == side_label(*self),
    {
        match self {
            DiffSide::Spec => "spec",
            DiffSide::Code => "code",
        }
    }
}

/// A signature together with where it was read.
#[derive(Debug, Clone, PartialEq, Eq)]
pub struct SourceWithSig {
    pub source: Source,
    pub sig: String,
}

/// A finding about bounded contexts: membership, crossings, the surface.
#[derive(Debug, Clone, PartialEq, Eq)]
pub enum ContextViolation {
    MembershipUnknown { concept: String, owned_unit: OwnedUnit, code_source: Source },
    CrossEdgeUnauthorized {
        concept: String,
        owning_context: String,
        edge_kind: EdgeKind,
        target: String,
        target_context: String,
        spec_source: Source,
    },
    CrossEdgeUndeclared {
        concept: String,
        owning_context: String,
        edge_kind: EdgeKind,
        target: String,
        target_context: String,
        spec_source: Source,
    },
    SurfaceAdmitsNothing {
        declared_prefixes: Vec<OwnedUnit>,
        concept_rung_items: usize,
        keyspace: String,
    },
    CrossEdgeOffSurface {
        concept: String,
        owning_context: Option<String>,
        edge_kind: EdgeKind,
        target: String,
        code_source: Source,
    },
    CrossVerbUnauthorized {
        concept: String,
        qname: String,
        owning_context: String,
        target_context: String,
        spec_source: Source,
    },
}

/// A disagreement between the specs and the code, or within one side.
#[derive(Debug, Clone, PartialEq, Eq)]
pub enum Violation {
    MissingInCode { name: String, spec_source: Source },
    MissingInSpecs { name: String, code_source: Source },
    SignatureDrift {
        name: String,
        spec_sig: String,
        code_sig: String,
        spec_source: Source,
        code_source: Source,
    },
    SignatureMissingInSpec { name: String, code_sig: String, code_source: Source },
    SignatureUnparseable { name: String, raw: String, error: String, source: Source },
    MalformedAnchorBullet { concept: String, bullet: String, qname: String, spec_source: Source },
    EdgeUnanswerable {
        concept: String,
        edge_kind: EdgeKind,
        target: String,
        spec_source: Source,
    },
    EdgeMissingInCode {
        concept: String,
        edge_kind: EdgeKind,
        target: String,
        spec_source: Source,
    },
    EdgeMissingInSpec {
        concept: String,
        edge_kind: EdgeKind,
        target: String,
        code_source: Source,
    },
    EdgeTargetUnknown {
        concept: String,
        edge_kind: EdgeKind,
        target: String,
        spec_source: Source,
    },
    Context(ContextViolation),
    VerbMissingInCode { concept: String, qname: String, spec_source: Source },
    VerbMissingInSpec { qname: String, code_source: Source },
    VerbTargetUnknown { concept: String, qname: String, spec_source: Source },
    ForbiddenConceptReintroduced { name: String, spec_source: Source, code_source: Source },
    Cohesion(CohesionViolation),
    DanglingAnchor { concept: String, target: String, spec_source: Source },
    UnknownAttributeKey { concept: String, key: String, spec_source: Source },
    SignatureDriftWithinSide { name: String, side: DiffSide, sources: Vec<SourceWithSig> },
}

/// A concept whose heading is marked draft and that the code does not
/// have yet.
#[derive(Debug, Clone, PartialEq, Eq)]
pub struct PendingRecord {
    pub concept: String,
    pub spec_source: Source,
}

/// A concept marked draft that the code already has: ready to ratify.
#[derive(Debug, Clone, PartialEq, Eq)]
pub struct RealizedRecord {
    pub concept: String,
    pub spec_source: Source,
}

/// A concept marked retired that the code still has.
#[derive(Debug, Clone, PartialEq, Eq)]
pub struct RetirementIncompleteRecord {
    pub concept: String,
    pub spec_source: Source,
}

/// A concept marked retired that the code no longer has.
#[derive(Debug, Clone, PartialEq, Eq)]
pub struct RetirementCompleteRecord {
    pub concept: String,
    pub spec_source: Source,
}

/// Everything one check found, in the order it is reported.
#[derive(Debug, Clone, PartialEq, Eq)]
pub struct CheckOutcome {
    pub violations: Vec<Violation>,
    pub pending: Vec<PendingRecord>,
    pub realized: Vec<RealizedRecord>,
    pub retirement_incomplete: Vec<RetirementIncompleteRecord>,
    pub retirement_complete: Vec<RetirementCompleteRecord>,
}

impl CheckOutcome {
    /// An outcome with nothing in it.
    pub fn empty() -> (o: CheckOutcome)
        ensures
            o.violations@.len() == 0,
            o.pending@.len() == 0,
            o.realized@.len() == 0,
            o.retirement_incomplete@.len() == 0,
            o.retirement_complete@.len() == 0,
    {
        CheckOutcome {
            violations: Vec::new(),
            pending: Vec::new(),
            realized: Vec::new(),
            retirement_incomplete: Vec::new(),
            retirement_complete: Vec::new(),
        }
    }
}

/// A run whose signatures could not all be read fails harder than one that
/// found disagreements.
pub open spec fn is_unparseable(v: Violation) -> bool {
    v is SignatureUnparseable
}

pub open spec fn exit_code_spec(violations: Seq<Violation>) -> u8 {
    if violations.len() == 0 {
        0
    } else if exists|i: int| 0 <= i < violations.len() && is_unparseable(#[trigger] violations[i]) {
        2
    } else {
        1
    }
}

/// The process exit code for an outcome: 0 when nothing disagrees, 2 when a
/// signature could not be parsed, 1 otherwise.
pub fn exit_code_for(outcome: &CheckOutcome) -> (c: u8)
    ensures
        c == exit_code_spec(outcome.violations@),
{
    if outcome.violations.len() == 0 {
        return 0;
    }
    let mut i: usize = 0;
    while i < outcome.violations.len()
        invariant
            i <= outcome.violations.len(),
            forall|j: int| 0 <= j < i ==> !is_unparseable(#[trigger] outcome.violations@[j]),
        decreases outcome.violations.len() - i,
    {
        if let Violation::SignatureUnparseable { .. } = &outcome.violations[i] {
            return 2;
        }
        i = i + 1;
    }
    1
}

/// The output format of a report.
#[derive(Debug, Clone, Copy, PartialEq, Eq, Structural)]
pub enum ReportFormat {
    Text,
    Ndjson,
}

/// The sort key of a context in a report: named contexts first, in name
/// order, then the concepts no context claims.
pub open spec fn context_key_spec(ctx: Option<Seq<char>>) -> (bool, Seq<char>) {
    match ctx {
        Some(s) => (false, s),
        None => (true, seq![]),
    }
}

pub fn context_key(ctx: Option<&str>) -> (r: (bool, &str))
    ensures
        (r.0, r.1@) == context_key_spec(
            match ctx {
                Some(s) => Some(s@),
                None => None,
            },
        ),
{
    match ctx {
        Some(s) => (false, s),
        None => {
            proof {
                reveal_strlit("");
            }
            (true, "")
        },
    }
}

} // verus!
