//! The concept graph each side of the comparison is read into.
use vstd::prelude::*;
use crate::model::{EdgeKind, Marker, OwnedUnit, Polarity, Provenance, ProvenanceV, Source, SourceV};

verus! {

/// What a concept's signature is known to be.
#[derive(Debug, Clone, PartialEq, Eq)]
pub enum SignatureState {
    Absent,
    Normalized(String),
    Unparseable { raw: String, error: String },
}

pub enum SignatureStateV {
    Absent,
    Normalized(Seq<char>),
    Unparseable { raw: Seq<char>, error: Seq<char> },
}

impl View for SignatureState {
    type V = SignatureStateV;

    open spec fn view(&self) -> SignatureStateV {
        match self {
            SignatureState::Absent => SignatureStateV::Absent,
            SignatureState::Normalized(s) => SignatureStateV::Normalized(s@),
            SignatureState::Unparseable { raw, error } => SignatureStateV::Unparseable {
                raw: raw@,
                error: error@,
            },
        }
    }
}

/// A concept: a named type on one side of the comparison.
#[derive(Debug, Clone, PartialEq, Eq)]
pub struct ConceptNode {
    pub name: String,
    pub source: Source,
    pub signature: SignatureState,
    pub declared_context: Option<String>,
    pub polarity: Polarity,
    pub marker: Marker,
}

pub struct ConceptNodeV {
    pub name: Seq<char>,
    pub source: SourceV,
    pub signature: SignatureStateV,
    pub declared_context: Option<Seq<char>>,
    pub polarity: Polarity,
    pub marker: Marker,
}

impl View for ConceptNode {
    type V = ConceptNodeV;

    open spec fn view(&self) -> ConceptNodeV {
        ConceptNodeV {
            name: self.name@,
            source: self.source@,
            signature: self.signature@,
            declared_context: self.declared_context.deep_view(),
            polarity: self.polarity,
            marker: self.marker,
        }
    }
}

impl DeepView for ConceptNode {
    type V = ConceptNodeV;

    open spec fn deep_view(&self) -> ConceptNodeV {
        self@
    }
}

/// `source` with its provenance replaced, when it is a code source.
pub open spec fn with_provenance_spec(source: SourceV, p: ProvenanceV) -> SourceV {
    match source {
        SourceV::Code { path, line, location, .. } => SourceV::Code {
            path,
            line,
            provenance: p,
            location,
        },
        SourceV::Spec { .. } => source,
    }
}

impl ConceptNode {
    pub fn new(name: String, source: Source, signature: SignatureState) -> (n: ConceptNode)
        ensures
            n.name == name,
            n.source == source,
            n.signature == signature,
            n.declared_context.is_none(),
            n.polarity == Polarity::Declared,
            n.marker == Marker::Unmarked,
    {
        ConceptNode {
            name,
            source,
            signature,
            declared_context: None,
            polarity: Polarity::Declared,
            marker: Marker::Unmarked,
        }
    }

    /// The concept with the polarity its heading gives it.
    pub fn with_polarity(self, polarity: Polarity) -> (n: ConceptNode)
        ensures
            n@ == (ConceptNodeV { polarity, ..self@ }),
    {
        ConceptNode { polarity, ..self }
    }

    /// The concept with the module path, unit and context of its code source
    /// set; a spec source carries none and is left as it is.
    pub fn with_provenance(
        self,
        module: Option<String>,
        unit: Option<String>,
        context: Option<String>,
    ) -> (n: ConceptNode)
        ensures
            n.name == self.name,
            n.signature == self.signature,
            n.declared_context == self.declared_context,
            n.polarity == self.polarity,
            n.marker == self.marker,
            n.source@ == with_provenance_spec(
                self.source@,
                ProvenanceV {
                    module: module.deep_view(),
                    unit: unit.deep_view(),
                    context: context.deep_view(),
                },
            ),
    {
        let ConceptNode { name, source, signature, declared_context, polarity, marker } = self;
        let source = match source {
            Source::Code { path, line, location, .. } => Source::Code {
                path,
                line,
                provenance: Provenance { module, unit, context },
                location,
            },
            other => other,
        };
        ConceptNode { name, source, signature, declared_context, polarity, marker }
    }

    /// The concept with the context its spec document declares.
    pub fn with_declared_context(self, context: Option<String>) -> (n: ConceptNode)
        ensures
            n.name == self.name,
            n.source == self.source,
            n.signature == self.signature,
            n.declared_context == context,
            n.polarity == self.polarity,
            n.marker == self.marker,
    {
        ConceptNode { declared_context: context, ..self }
    }

    /// The unit the concept's code lives in, when known.
    pub fn unit(&self) -> (u: Option<&str>)
        ensures
            u.is_some() <==> (self.source@ matches SourceV::Code { provenance, .. }
                && provenance.unit.is_some()),
            u matches Some(x) ==> (self.source@ matches SourceV::Code { provenance, .. }
                && provenance.unit == Some(x@)),
    {
        match &self.source {
            Source::Code { provenance, .. } => match &provenance.unit {
                Some(u) => Some(u.as_str()),
                None => None,
            },
            Source::Spec { .. } => None,
        }
    }

    /// The module path of the concept's code, when known.
    pub fn module(&self) -> (m: Option<&str>)
        ensures
            m.is_some() <==> (self.source@ matches SourceV::Code { provenance, .. }
                && provenance.module.is_some()),
            m matches Some(x) ==> (self.source@ matches SourceV::Code { provenance, .. }
                && provenance.module == Some(x@)),
    {
        match &self.source {
            Source::Code { provenance, .. } => match &provenance.module {
                Some(u) => Some(u.as_str()),
                None => None,
            },
            Source::Spec { .. } => None,
        }
    }
}

/// One end of a relationship: a concept name and, where known, the unit
/// that owns it.
#[derive(Debug, Clone, PartialEq, Eq)]
pub struct ConceptRef {
    pub name: String,
    pub context: Option<String>,
    pub unit: Option<OwnedUnit>,
}

pub struct ConceptRefV {
    pub name: Seq<char>,
    pub context: Option<Seq<char>>,
    pub unit: Option<Seq<char>>,
}

impl View for ConceptRef {
    type V = ConceptRefV;

    open spec fn view(&self) -> ConceptRefV {
        ConceptRefV {
            name: self.name@,
            context: self.context.deep_view(),
            unit: match self.unit {
                Some(u) => Some(u@),
                None => None,
            },
        }
    }
}

impl ConceptRef {
    /// A reference by name alone.
    pub fn named(name: String) -> (r: ConceptRef)
        ensures
            r@ == (ConceptRefV { name: name@, context: None, unit: None }),
    {
        ConceptRef { name, context: None, unit: None }
    }
}

/// A relationship between two concepts.
#[derive(Debug, Clone, PartialEq, Eq)]
pub struct Edge {
    pub source_concept: ConceptRef,
    pub kind: EdgeKind,
    pub target: ConceptRef,
    pub raw_target: String,
    pub source: Source,
}

pub struct EdgeV {
    pub source_concept: ConceptRefV,
    pub kind: EdgeKind,
    pub target: ConceptRefV,
    pub raw_target: Seq<char>,
    pub source: SourceV,
}

impl View for Edge {
    type V = EdgeV;

    open spec fn view(&self) -> EdgeV {
        EdgeV {
            source_concept: self.source_concept@,
            kind: self.kind,
            target: self.target@,
            raw_target: self.raw_target@,
            source: self.source@,
        }
    }
}

impl Edge {
    /// A copy of the edge.
    pub fn clone_edge(&self) -> (e: Edge)
        ensures
            e@ == self@,
    {
        Edge {
            source_concept: ConceptRef {
                name: self.source_concept.name.clone(),
                context: match &self.source_concept.context {
                    Some(c) => Some(c.clone()),
                    None => None,
                },
                unit: match &self.source_concept.unit {
                    Some(u) => Some(OwnedUnit(u.0.clone())),
                    None => None,
                },
            },
            kind: self.kind,
            target: ConceptRef {
                name: self.target.name.clone(),
                context: match &self.target.context {
                    Some(c) => Some(c.clone()),
                    None => None,
                },
                unit: match &self.target.unit {
                    Some(u) => Some(OwnedUnit(u.0.clone())),
                    None => None,
                },
            },
            raw_target: self.raw_target.clone(),
            source: crate::assembly::source_copy(&self.source),
        }
    }
}

impl DeepView for Edge {
    type V = EdgeV;

    open spec fn deep_view(&self) -> EdgeV {
        self@
    }
}

/// The concepts and relationships one side declares.
#[derive(Debug, Clone, PartialEq, Eq)]
pub struct Graph {
    pub nodes: Vec<ConceptNode>,
    pub edges: Vec<Edge>,
}

impl Graph {
    pub fn new(nodes: Vec<ConceptNode>, edges: Vec<Edge>) -> (g: Graph)
        ensures
            g.nodes == nodes,
            g.edges == edges,
    {
        Graph { nodes, edges }
    }
}

/// A public function of the code: its key, where it is, and the unit that
/// owns it where known.
#[derive(Debug, Clone, PartialEq, Eq)]
pub struct PubFnDecl {
    pub name: String,
    pub source: Source,
    pub owned_unit: Option<String>,
}

} // verus!
