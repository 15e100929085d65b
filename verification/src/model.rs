//! The data the readers produce: context declarations, anchors, annotations,
//! sources and the reader's own error.
use vstd::prelude::*;

verus! {

/// Which spec dialect a spec-side fact was read from.
#[derive(Debug, Clone, Copy, PartialEq, Eq, Structural)]
pub enum SpecFormat {
    Markdown,
    InlineAttribute,
}

/// How a code location is to be read: a file path or a namespace.
#[derive(Debug, Clone, Copy, PartialEq, Eq, Structural)]
pub enum LocationKind {
    Path,
    Namespace,
}

/// Where in the code a fact sits: its module path, its unit and the context
/// that owns the unit, each where known.
#[derive(Debug, Clone, PartialEq, Eq)]
pub struct Provenance {
    pub module: Option<String>,
    pub unit: Option<String>,
    pub context: Option<String>,
}

pub struct ProvenanceV {
    pub module: Option<Seq<char>>,
    pub unit: Option<Seq<char>>,
    pub context: Option<Seq<char>>,
}

impl View for Provenance {
    type V = ProvenanceV;

    open spec fn view(&self) -> ProvenanceV {
        ProvenanceV {
            module: self.module.deep_view(),
            unit: self.unit.deep_view(),
            context: self.context.deep_view(),
        }
    }
}

impl Provenance {
    /// A provenance that knows nothing.
    pub fn empty() -> (p: Provenance)
        ensures
            p@ == (ProvenanceV { module: None, unit: None, context: None }),
    {
        Provenance { module: None, unit: None, context: None }
    }
}

/// Where a fact was read.
#[derive(Debug, Clone, PartialEq, Eq)]
pub enum Source {
    Spec { format: SpecFormat, path: String, line: usize, context: Option<String> },
    Code { path: String, line: usize, provenance: Provenance, location: LocationKind },
}

pub enum SourceV {
    Spec { format: SpecFormat, path: Seq<char>, line: usize, context: Option<Seq<char>> },
    Code { path: Seq<char>, line: usize, provenance: ProvenanceV, location: LocationKind },
}

impl View for Source {
    type V = SourceV;

    open spec fn view(&self) -> SourceV {
        match self {
            Source::Spec { format, path, line, context } => SourceV::Spec {
                format: *format,
                path: path@,
                line: *line,
                context: context.deep_view(),
            },
            Source::Code { path, line, provenance, location } => SourceV::Code {
                path: path@,
                line: *line,
                provenance: provenance@,
                location: *location,
            },
        }
    }
}

impl DeepView for Source {
    type V = SourceV;

    open spec fn deep_view(&self) -> SourceV {
        self@
    }
}

/// Why a reader could not produce its answer.
#[derive(Debug, Clone, PartialEq, Eq)]
pub enum ReaderError {
    ParseFailed { path: String, line: usize, message: String },
    WalkFailed { root: String, cause: String },
    IoFailed { path: String, cause: String },
}

pub enum ReaderErrorV {
    ParseFailed { path: Seq<char>, line: usize, message: Seq<char> },
    WalkFailed { root: Seq<char>, cause: Seq<char> },
    IoFailed { path: Seq<char>, cause: Seq<char> },
}

impl View for ReaderError {
    type V = ReaderErrorV;

    open spec fn view(&self) -> ReaderErrorV {
        match self {
            ReaderError::ParseFailed { path, line, message } => ReaderErrorV::ParseFailed {
                path: path@,
                line: *line,
                message: message@,
            },
            ReaderError::WalkFailed { root, cause } => ReaderErrorV::WalkFailed {
                root: root@,
                cause: cause@,
            },
            ReaderError::IoFailed { path, cause } => ReaderErrorV::IoFailed {
                path: path@,
                cause: cause@,
            },
        }
    }
}

impl DeepView for ReaderError {
    type V = ReaderErrorV;

    open spec fn deep_view(&self) -> ReaderErrorV {
        self@
    }
}

/// A unit of code (a crate directory, a namespace prefix) a context owns.
#[derive(Debug, Clone, PartialEq, Eq)]
pub struct OwnedUnit(pub String);

impl View for OwnedUnit {
    type V = Seq<char>;

    open spec fn view(&self) -> Seq<char> {
        self.0@
    }
}

impl DeepView for OwnedUnit {
    type V = Seq<char>;

    open spec fn deep_view(&self) -> Seq<char> {
        self.0@
    }
}

/// A context-map relationship pattern.
#[derive(Debug, Clone, Copy, PartialEq, Eq, Structural)]
pub enum ContextPattern {
    PublishedLanguage,
    SharedKernel,
    Conformist,
    CustomerSupplier,
}

impl DeepView for ContextPattern {
    type V = ContextPattern;

    open spec fn deep_view(&self) -> ContextPattern {
        *self
    }
}

/// The label a spec writes for a pattern.
pub open spec fn pattern_label(p: ContextPattern) -> Seq<char> {
    match p {
        ContextPattern::PublishedLanguage => "PublishedLanguage"@,
        ContextPattern::SharedKernel => "SharedKernel"@,
        ContextPattern::Conformist => "Conformist"@,
        ContextPattern::CustomerSupplier => "CustomerSupplier"@,
    }
}

/// Every pattern, in the order the reader tries them.
pub open spec fn pattern_variants() -> Seq<ContextPattern> {
    seq![
        ContextPattern::PublishedLanguage,
        ContextPattern::SharedKernel,
        ContextPattern::Conformist,
        ContextPattern::CustomerSupplier,
    ]
}

impl ContextPattern {
    pub fn variants() -> (r: Vec<ContextPattern>)
        ensures
            r@ == pattern_variants(),
    {
        vec![
            ContextPattern::PublishedLanguage,
            ContextPattern::SharedKernel,
            ContextPattern::Conformist,
            ContextPattern::CustomerSupplier,
        ]
    }

    pub fn as_label(&self) -> (r: &'static str)
        ensures
            r@ == pattern_label(*self),
    {
        match self {
            ContextPattern::PublishedLanguage => "PublishedLanguage",
            ContextPattern::SharedKernel => "SharedKernel",
            ContextPattern::Conformist => "Conformist",
            ContextPattern::CustomerSupplier => "CustomerSupplier",
        }
    }
}

/// `- <Concept> (<Pattern>)` under `## Exports`.
#[derive(Debug, Clone, PartialEq, Eq)]
pub struct ContextExport {
    pub concept: String,
    pub pattern: ContextPattern,
}

impl View for ContextExport {
    type V = (Seq<char>, ContextPattern);

    open spec fn view(&self) -> (Seq<char>, ContextPattern) {
        (self.concept@, self.pattern)
    }
}

impl DeepView for ContextExport {
    type V = (Seq<char>, ContextPattern);

    open spec fn deep_view(&self) -> (Seq<char>, ContextPattern) {
        self@
    }
}

/// `- <Concept> from <Context> (<Pattern>)` under `## Imports`.
#[derive(Debug, Clone, PartialEq, Eq)]
pub struct ContextImport {
    pub from_context: String,
    pub pattern: ContextPattern,
    pub concept: String,
}

pub struct ContextImportV {
    pub from_context: Seq<char>,
    pub pattern: ContextPattern,
    pub concept: Seq<char>,
}

impl View for ContextImport {
    type V = ContextImportV;

    open spec fn view(&self) -> ContextImportV {
        ContextImportV {
            from_context: self.from_context@,
            pattern: self.pattern,
            concept: self.concept@,
        }
    }
}

impl DeepView for ContextImport {
    type V = ContextImportV;

    open spec fn deep_view(&self) -> ContextImportV {
        self@
    }
}

/// What one `specs/contexts/*.md` file declares.
#[derive(Debug, Clone, PartialEq, Eq)]
pub struct ContextDecl {
    pub name: String,
    pub owned_units: Vec<OwnedUnit>,
    pub exports: Vec<ContextExport>,
    pub imports: Vec<ContextImport>,
    pub source: Source,
}

pub struct ContextDeclV {
    pub name: Seq<char>,
    pub owned_units: Seq<Seq<char>>,
    pub exports: Seq<(Seq<char>, ContextPattern)>,
    pub imports: Seq<ContextImportV>,
    pub source: SourceV,
}

impl View for ContextDecl {
    type V = ContextDeclV;

    open spec fn view(&self) -> ContextDeclV {
        ContextDeclV {
            name: self.name@,
            owned_units: self.owned_units.deep_view(),
            exports: self.exports.deep_view(),
            imports: self.imports.deep_view(),
            source: self.source@,
        }
    }
}

impl ContextDecl {
    pub fn new(
        name: String,
        owned_units: Vec<OwnedUnit>,
        exports: Vec<ContextExport>,
        imports: Vec<ContextImport>,
        source: Source,
    ) -> (d: ContextDecl)
        ensures
            d.name == name,
            d.owned_units == owned_units,
            d.exports == exports,
            d.imports == imports,
            d.source == source,
    {
        ContextDecl { name, owned_units, exports, imports, source }
    }
}

/// The kind of a relationship bullet or code relationship; `Uses` is a
/// crossing read from the code alone.
#[derive(Debug, Clone, Copy, PartialEq, Eq, Hash, Structural)]
pub enum EdgeKind {
    Implements,
    DependsOn,
    Returns,
    Uses,
}

/// The label an edge kind carries in reports: `IMPLEMENTS`, `DEPENDS_ON`,
/// `RETURNS`, `USES`.
pub open spec fn edge_label(k: EdgeKind) -> Seq<char> {
    match k {
        EdgeKind::Implements => "IMPLEMENTS"@,
        EdgeKind::DependsOn => "DEPENDS_ON"@,
        EdgeKind::Returns => "RETURNS"@,
        EdgeKind::Uses => "USES"@,
    }
}

impl EdgeKind {
    pub fn as_label(&self) -> (r: &'static str)
        ensures
            r@ == edge_label(*self),
    {
        match self {
            EdgeKind::Implements => "IMPLEMENTS",
            EdgeKind::DependsOn => "DEPENDS_ON",
            EdgeKind::Returns => "RETURNS",
            EdgeKind::Uses => "USES",
        }
    }
}

/// The spec source a bullet carries before its heading and line are known.
pub open spec fn blank_spec_source() -> SourceV {
    SourceV::Spec { format: SpecFormat::Markdown, path: seq![], line: 0, context: None }
}

pub fn blank_source() -> (s: Source)
    ensures
        s@ == blank_spec_source(),
{
    Source::Spec { format: SpecFormat::Markdown, path: String::new(), line: 0, context: None }
}

/// `- verb: <qname>` under a concept heading: the concept claims the function.
#[derive(Debug, Clone, PartialEq, Eq)]
pub struct VerbAnchor {
    pub concept: String,
    pub qname: String,
    pub raw_target: String,
    pub source: Source,
}

/// `- impl: <qname>` under a concept heading: the function realises the concept.
#[derive(Debug, Clone, PartialEq, Eq)]
pub struct ConceptAnchor {
    pub concept: String,
    pub target: String,
    pub source: Source,
}


/// The rung a heading stands on: `#` a context, `##` a concept, `###` a
/// sub-concept, deeper a member.
#[derive(Debug, Clone, Copy, PartialEq, Eq, Structural)]
pub enum AbstractionLevel {
    Context,
    Concept,
    SubConcept,
    Member,
}

pub open spec fn level_of_depth(depth: u8) -> AbstractionLevel {
    if depth == 1 {
        AbstractionLevel::Context
    } else if depth == 2 {
        AbstractionLevel::Concept
    } else if depth == 3 {
        AbstractionLevel::SubConcept
    } else {
        AbstractionLevel::Member
    }
}

impl AbstractionLevel {
    pub fn from_heading_depth(depth: u8) -> (l: AbstractionLevel)
        ensures
            l == level_of_depth(depth),
    {
        if depth == 1 {
            AbstractionLevel::Context
        } else if depth == 2 {
            AbstractionLevel::Concept
        } else if depth == 3 {
            AbstractionLevel::SubConcept
        } else {
            AbstractionLevel::Member
        }
    }
}

/// A document whose structure leaves a context or a sub-concept without
/// what it needs, or a concept declared in one context whose code another
/// context owns.
#[derive(Debug, Clone, PartialEq, Eq)]
pub enum CohesionViolation {
    ContextWithoutCohesionUnit { context: String, file: String },
    SubConceptOrphan { sub_concept: String, file: String },
    ConceptContextMismatch {
        concept: String,
        declared: String,
        code_context: String,
        spec_source: Source,
        code_source: Option<Source>,
    },
}

pub enum CohesionViolationV {
    ContextWithoutCohesionUnit { context: Seq<char>, file: Seq<char> },
    SubConceptOrphan { sub_concept: Seq<char>, file: Seq<char> },
    ConceptContextMismatch {
        concept: Seq<char>,
        declared: Seq<char>,
        code_context: Seq<char>,
        spec_source: SourceV,
        code_source: Option<SourceV>,
    },
}

impl View for CohesionViolation {
    type V = CohesionViolationV;

    open spec fn view(&self) -> CohesionViolationV {
        match self {
            CohesionViolation::ContextWithoutCohesionUnit { context, file } =>
                CohesionViolationV::ContextWithoutCohesionUnit { context: context@, file: file@ },
            CohesionViolation::SubConceptOrphan { sub_concept, file } =>
                CohesionViolationV::SubConceptOrphan { sub_concept: sub_concept@, file: file@ },
            CohesionViolation::ConceptContextMismatch {
                concept,
                declared,
                code_context,
                spec_source,
                code_source,
            } => CohesionViolationV::ConceptContextMismatch {
                concept: concept@,
                declared: declared@,
                code_context: code_context@,
                spec_source: spec_source@,
                code_source: match code_source {
                    Some(c) => Some(c@),
                    None => None,
                },
            },
        }
    }
}

impl DeepView for CohesionViolation {
    type V = CohesionViolationV;

    open spec fn deep_view(&self) -> CohesionViolationV {
        self@
    }
}

/// A behavioral context with behavioral substance owes no cohesion unit.
pub open spec fn exemption_applies(behavioral: bool, has_substance: bool) -> bool {
    behavioral && has_substance
}

pub fn behavioral_exemption_applies(behavioral: bool, has_substance: bool) -> (b: bool)
    ensures
        b == exemption_applies(behavioral, has_substance),
{
    behavioral && has_substance
}


/// A heading's state marker: `- status: draft` / `- status: retired`.
#[derive(Debug, Clone, Copy, PartialEq, Eq, Structural)]
pub enum Marker {
    Unmarked,
    Draft,
    Retired,
}

/// What a grounded heading says of its concept.
#[derive(Debug, Clone, Copy, PartialEq, Eq, Structural)]
pub enum Polarity {
    Declared,
    Forbidden,
    Illustrative,
}


/// How an operational invariant is enforced.
#[derive(Debug, Clone, Copy, PartialEq, Eq, Structural)]
pub enum TierKind {
    Tier0,
    Cypher,
    ScriptFence,
    ProseOnly,
}

/// `- INV-x: ... [enforced-by: <artifact>; retire-when: <cond>]` or
/// `[prose-only: <why>]` under an `Operational invariants` heading.
#[derive(Debug, Clone, PartialEq, Eq)]
pub struct InvariantAnnotation {
    pub inv_id: String,
    pub tier: TierKind,
    pub artifact: Option<String>,
    pub retire_when: Option<String>,
    pub prose_only_why: Option<String>,
    pub source: Source,
}

pub struct InvariantAnnotationV {
    pub inv_id: Seq<char>,
    pub tier: TierKind,
    pub artifact: Option<Seq<char>>,
    pub retire_when: Option<Seq<char>>,
    pub prose_only_why: Option<Seq<char>>,
    pub source: SourceV,
}

impl View for InvariantAnnotation {
    type V = InvariantAnnotationV;

    open spec fn view(&self) -> InvariantAnnotationV {
        InvariantAnnotationV {
            inv_id: self.inv_id@,
            tier: self.tier,
            artifact: self.artifact.deep_view(),
            retire_when: self.retire_when.deep_view(),
            prose_only_why: self.prose_only_why.deep_view(),
            source: self.source@,
        }
    }
}

impl DeepView for InvariantAnnotation {
    type V = InvariantAnnotationV;

    open spec fn deep_view(&self) -> InvariantAnnotationV {
        self@
    }
}

} // verus!
