//! A check's reading of both sides: the facts the specs declare and the
//! facts the code holds, gathered into what the comparison of the two takes.
//! Reading the files is left to the caller, which hands in their text, the
//! dialect's parse of each document and the syntax of each source.
use vstd::prelude::*;
use crate::assembly::{admits_nothing, ambiguous_ownership, declared_prefixes, surface_admits_nothing, AMBIGUITY_TAIL};
use crate::graph::{ConceptNode, Edge, Graph, PubFnDecl};
use crate::keyspace::{discriminate_spec, is_item_concept, rust_concepts_spec, FactEdge, FactNode, Producer};
use crate::keyspace_reader::{
    is_pub_fn, keyspace_concept_rung_items, keyspace_concepts, keyspace_pub_fns, keyspace_relationships,
    pub_fns_spec,
};
use crate::model::{ContextDecl, Marker, Polarity, ReaderError, ReaderErrorV};
use crate::outcome::CheckOutcome;
use crate::php_keyspace::{php_concepts_spec, relationships_result, rung_count};
use crate::rust_syntax::{
    files_concepts, files_edges, files_pub_fns, known_edges, pub_fn_view, rust_graph, rust_pub_fns,
    RustSource,
};
use crate::surface::{first_nesting, owned_entries, DeclaredSurface};
use crate::rust_keyspace::rust_relationships_spec;
use crate::assembly::{
    all_decls, declared_contexts_per_document, reports_drift, union_run, union_spec_graphs, with_declared,
    DriftV,
};
use crate::anchors::{entries_spec, entries_view, first_entry, AnchorKind, AnchorTarget, CfdbAnchorResolver};
use crate::assembly::source_copy;
use crate::graph::{ConceptNodeV, EdgeV};
use crate::model::SourceV;
use crate::rust_syntax::{files_anchors, RustAnchorResolver};
use crate::markdown::grounding::ParsedSpec;
use crate::markdown::reader::{
    assemble_spec_trees, concept_indices, contexts_upto, facts_match, files_run, trees_run, walk_contexts,
    LoadedFile, MarkdownReader, SpecFacts,
};
use crate::markdown::section::SignatureNormalizer;
use crate::markdown::tree::{violations_upto, SpecTree, SpecTreeV};
use crate::model::{CohesionViolation, CohesionViolationV, ConceptAnchor, ContextDeclV, VerbAnchor};
use crate::outcome::Violation;
use crate::php::{
    attribute_findings, attribute_key_findings, attributed_edges, attributed_facts, attributed_node_view,
    is_key_finding, Attributed,
};

verus! {

/// The code side of a check.
pub enum CodeInput {
    /// The Rust sources of a walk of the code directory `root`.
    Sources { root: String, files: Vec<RustSource> },
    /// The facts of the keyspace at `path`, whose items lie under the code
    /// directory `root`.
    Keyspace { path: String, root: String, nodes: Vec<FactNode>, edges: Vec<FactEdge> },
}

/// What the code side reads.
pub enum CodeSide {
    /// The code's graph and public functions.
    Read { graph: Graph, pub_fns: Vec<PubFnDecl> },
    /// The declared surface admits no concept of a keyspace that holds
    /// concept-rung items: the run ends with that one finding.
    AdmitsNothing(CheckOutcome),
}

/// The path a refusal of the code side names: the code directory a walk
/// reads, or the keyspace.
pub open spec fn input_path(code: CodeInput) -> Seq<char> {
    match code {
        CodeInput::Sources { root, .. } => root@,
        CodeInput::Keyspace { path, .. } => path@,
    }
}

/// The refusal of a declaration in which the owned unit `es[i]` nests in
/// `es[o]`, owned by another context.
pub open spec fn nesting_error(path: Seq<char>, es: Seq<(int, Seq<char>, Seq<char>)>, o: int, i: int) -> ReaderErrorV {
    ReaderErrorV::ParseFailed {
        path,
        line: 0,
        message: "could not run the declared surface: context `"@ + es[o].1 + "` owns `"@ + es[o].2
            + "` and context `"@ + es[i].1 + "` owns `"@ + es[i].2 + AMBIGUITY_TAIL@,
    }
}

/// `s` is the surface the contexts declare.
pub open spec fn surface_of(contexts: Seq<ContextDecl>, s: DeclaredSurface) -> bool {
    &&& s.prefixes@.map_values(|p: (String, crate::model::OwnedUnit)| (p.0@, p.1@)) == owned_entries(
        contexts,
    ).map_values(|e: (int, Seq<char>, Seq<char>)| (e.1, e.2))
    &&& s.test_prefixes@.len() == 0
}

/// A keyspace concept: its item's name and site, with nothing declared
/// beyond them.
pub open spec fn concepts_are(out: Seq<ConceptNode>, cs: Seq<(Seq<char>, crate::model::SourceV)>) -> bool {
    &&& out.len() == cs.len()
    &&& forall|i: int| 0 <= i < out.len() ==> is_item_concept(#[trigger] out[i], cs[i])
}

/// What the code side of a keyspace reads, given the declared surface `s`.
pub open spec fn keyspace_side(
    s: DeclaredSurface,
    contexts: Seq<ContextDecl>,
    path: Seq<char>,
    root: Seq<char>,
    nodes: Seq<FactNode>,
    edges: Seq<FactEdge>,
    r: Result<CodeSide, ReaderError>,
) -> bool {
    match discriminate_spec(path, nodes) {
        Err(e) => r matches Err(x) && x@ == e,
        Ok(Producer::Rust) => r matches Ok(CodeSide::Read { graph, pub_fns }) && concepts_are(
            graph.nodes@,
            rust_concepts_spec(nodes, root),
        ) && graph.edges.deep_view() == rust_relationships_spec(nodes, edges, root) && pub_fns@.len()
            == 0,
        Ok(Producer::Php) => match php_concepts_spec(s, nodes, edges) {
            Err(e) => r matches Err(x) && x@ == e,
            Ok(cs) => if cs.len() == 0 && rung_count(nodes) > 0 {
                r matches Ok(CodeSide::AdmitsNothing(o)) && o.violations@.len() == 1 && admits_nothing(
                    o.violations@[0],
                    declared_prefixes(contexts.map_values(|c: ContextDecl| c@)),
                    rung_count(nodes) as usize,
                    path,
                ) && o.pending@.len() == 0 && o.realized@.len() == 0 && o.retirement_incomplete@.len()
                    == 0 && o.retirement_complete@.len() == 0
            } else {
                exists|rel: Result<Vec<Edge>, ReaderError>|
                    #[trigger] relationships_result(s, nodes, edges, rel) && match rel {
                        Err(e) => r matches Err(x) && x@ == e@,
                        Ok(es) => r matches Ok(CodeSide::Read { graph, pub_fns }) && concepts_are(
                            graph.nodes@,
                            cs,
                        ) && graph.edges@ == es@ && pub_fns@.len() == pub_fns_spec(s, nodes).len()
                            && forall|i: int|
                            0 <= i < pub_fns@.len() ==> is_pub_fn(
                                #[trigger] pub_fns@[i],
                                pub_fns_spec(s, nodes)[i],
                            ),
                    }
            },
        },
    }
}

/// What the code side reads: refused when the contexts' declared surface
/// gives an item two owners; else the graph and public functions of the
/// Rust sources, or of the keyspace read on the declared surface.
pub open spec fn code_side_result(code: CodeInput, contexts: Seq<ContextDecl>, r: Result<CodeSide, ReaderError>) -> bool {
    let es = owned_entries(contexts);
    match first_nesting(es, es.len()) {
        Some((o, i)) => r matches Err(x) && x@ == nesting_error(input_path(code), es, o, i),
        None => match code {
            CodeInput::Sources { files, .. } => r matches Ok(CodeSide::Read { graph, pub_fns })
                && graph.nodes.deep_view() == files_concepts(files@) && graph.edges.deep_view()
                == known_edges(files_edges(files@), files_concepts(files@)) && pub_fns@.map_values(
                |d: PubFnDecl| pub_fn_view(d),
            ) == files_pub_fns(files@),
            CodeInput::Keyspace { path, root, nodes, edges } => exists|s: DeclaredSurface|
                #[trigger] surface_of(contexts, s) && keyspace_side(
                    s,
                    contexts,
                    path@,
                    root@,
                    nodes@,
                    edges@,
                    r,
                ),
        },
    }
}

fn keyspace_code_side(
    surface: &DeclaredSurface,
    contexts: &Vec<ContextDecl>,
    path: &str,
    root: &str,
    nodes: &Vec<FactNode>,
    edges: &Vec<FactEdge>,
) -> (r: Result<CodeSide, ReaderError>)
    ensures
        keyspace_side(*surface, contexts@, path@, root@, nodes@, edges@, r),
{
    let concepts = match keyspace_concepts(path, surface, nodes, edges, root) {
        Ok(c) => c,
        Err(e) => return Err(e),
    };
    let rung_items = match keyspace_concept_rung_items(path, nodes) {
        Ok(n) => n,
        Err(e) => return Err(e),
    };
    if let Some(outcome) = surface_admits_nothing(concepts.len() == 0, rung_items, contexts, path) {
        return Ok(CodeSide::AdmitsNothing(outcome));
    }
    let rel = keyspace_relationships(path, surface, nodes, edges, root);
    let ghost relg = rel;
    let relationships = match rel {
        Ok(es) => es,
        Err(e) => {
            proof {
                if discriminate_spec(path@, nodes@) == Ok::<Producer, ReaderErrorV>(Producer::Php) {
                    assert(relationships_result(*surface, nodes@, edges@, relg));
                }
            }
            return Err(e);
        },
    };
    let pub_fns = match keyspace_pub_fns(path, surface, nodes) {
        Ok(p) => p,
        Err(e) => return Err(e),
    };
    let r = Ok(CodeSide::Read { graph: Graph::new(concepts, relationships), pub_fns });
    proof {
        if discriminate_spec(path@, nodes@) == Ok::<Producer, ReaderErrorV>(Producer::Php) {
            assert(relationships_result(*surface, nodes@, edges@, relg));
        }
    }
    r
}

/// Reads the code side against the contexts the specs declare.
pub fn code_side(code: &CodeInput, contexts: &Vec<ContextDecl>) -> (r: Result<CodeSide, ReaderError>)
    ensures
        code_side_result(*code, contexts@, r),
{
    let surface = match DeclaredSurface::from_contexts(contexts) {
        Ok(s) => s,
        Err(a) => {
            let path = match code {
                CodeInput::Sources { root, .. } => root.as_str(),
                CodeInput::Keyspace { path, .. } => path.as_str(),
            };
            return Err(ambiguous_ownership(path, &a));
        },
    };
    match code {
        CodeInput::Sources { files, .. } => Ok(
            CodeSide::Read { graph: rust_graph(files), pub_fns: rust_pub_fns(files) },
        ),
        CodeInput::Keyspace { path, root, nodes, edges } => {
            let r = keyspace_code_side(&surface, contexts, path.as_str(), root.as_str(), nodes, edges);
            assert(surface_of(contexts@, surface));
            r
        },
    }
}

/// The concepts the `#[Spec(...)]` declarations of PHP sources declare,
/// source by source.
pub open spec fn php_nodes(php: Seq<(String, Vec<Attributed>)>) -> Seq<ConceptNodeV>
    decreases php.len(),
{
    if php.len() == 0 {
        seq![]
    } else {
        php_nodes(php.drop_last()) + php.last().1@.map_values(
            |a: Attributed| attributed_node_view(php.last().0@, a),
        )
    }
}

/// The `IMPLEMENTS` edges of those declarations.
pub open spec fn php_edges(php: Seq<(String, Vec<Attributed>)>) -> Seq<EdgeV>
    decreases php.len(),
{
    if php.len() == 0 {
        seq![]
    } else {
        php_edges(php.drop_last()) + attributed_edges(php.last().0@, php.last().1@)
    }
}

/// Each argument of those declarations whose key the channel does not
/// define, with the path of its source.
pub open spec fn php_key_findings(php: Seq<(String, Vec<Attributed>)>) -> Seq<(Seq<char>, (Seq<char>, Seq<char>, usize))>
    decreases php.len(),
{
    if php.len() == 0 {
        seq![]
    } else {
        php_key_findings(php.drop_last()) + attribute_findings(php.last().1@).map_values(
            |f: (Seq<char>, Seq<char>, usize)| (php.last().0@, f),
        )
    }
}

pub open spec fn key_findings_are(vs: Seq<Violation>, fs: Seq<(Seq<char>, (Seq<char>, Seq<char>, usize))>) -> bool {
    &&& vs.len() == fs.len()
    &&& forall|i: int| 0 <= i < vs.len() ==> is_key_finding(#[trigger] vs[i], fs[i].0, fs[i].1)
}

pub open spec fn drift_is(vs: Seq<Violation>, ds: Seq<DriftV>) -> bool {
    &&& vs.len() == ds.len()
    &&& forall|i: int| 0 <= i < vs.len() ==> reports_drift(#[trigger] vs[i], ds[i])
}

/// The cohesion violations of the spec trees, tree by tree.
pub open spec fn tree_cohesion(ts: Seq<SpecTreeV>) -> Seq<CohesionViolationV>
    decreases ts.len(),
{
    if ts.len() == 0 {
        seq![]
    } else {
        tree_cohesion(ts.drop_last()) + violations_upto(ts.last(), ts.last().nodes.len())
    }
}

/// What the spec side reads.
pub struct SpecSide {
    /// The markdown concepts united with the attribute channel's, each
    /// with the context its document declares; and all their edges.
    pub graph: Graph,
    pub contexts: Vec<ContextDecl>,
    pub verb_anchors: Vec<VerbAnchor>,
    pub concept_anchors: Vec<ConceptAnchor>,
    /// The malformed bullets, the attribute arguments of no known key and
    /// the signatures the two channels give one concept differently.
    pub findings: Vec<Violation>,
    pub cohesion: Vec<CohesionViolation>,
}

/// `side` is what the spec side reads from the markdown facts `f`, the PHP
/// declarations, the context declarations `cs` and the spec trees `ts`.
pub open spec fn spec_side_holds(
    side: SpecSide,
    f: SpecFacts,
    php: Seq<(String, Vec<Attributed>)>,
    cs: Seq<ContextDeclV>,
    ts: Seq<SpecTreeV>,
) -> bool {
    let u = union_run(f.graph.nodes.deep_view(), php_nodes(php));
    let m = f.malformed@.len() as int;
    let p = php_key_findings(php).len() as int;
    &&& side.graph.nodes.deep_view() == u.0.map_values(|n: ConceptNodeV| with_declared(n, all_decls(ts)))
    &&& side.graph.edges.deep_view() == f.graph.edges.deep_view() + php_edges(php)
    &&& side.contexts@.map_values(|c: ContextDecl| c@) == cs
    &&& side.verb_anchors@ == f.verb_anchors@
    &&& side.concept_anchors@ == f.concept_anchors@
    &&& side.cohesion.deep_view() == tree_cohesion(ts)
    &&& side.findings@.len() == m + p + u.1.len()
    &&& side.findings@.subrange(0, m) == f.malformed@
    &&& key_findings_are(side.findings@.subrange(m, m + p), php_key_findings(php))
    &&& drift_is(side.findings@.subrange(m + p, side.findings@.len() as int), u.1)
}

/// What the spec side reads: refused at the first concept document the
/// reader refuses, then at the first context document, then at the first
/// spec tree that cannot be assembled.
pub open spec fn spec_side_result(
    files: Seq<LoadedFile>,
    parsed: Seq<ParsedSpec>,
    php: Seq<(String, Vec<Attributed>)>,
    tags: Seq<Seq<char>>,
    r: Result<SpecSide, ReaderError>,
) -> bool {
    match files_run(files, parsed, concept_indices(files, files.len())) {
        Err(e) => r matches Err(x) && x@ == e,
        Ok((ns, bf)) => match contexts_upto(files, files.len()) {
            Err(e) => r matches Err(x) && x@ == e,
            Ok(cs) => match trees_run(files, concept_indices(files, files.len())) {
                Err(e) => r matches Err(x) && x@ == e,
                Ok(ts) => r matches Ok(side) && exists|f: SpecFacts|
                    #[trigger] facts_match(f, ns, bf, tags) && spec_side_holds(side, f, php, cs, ts),
            },
        },
    }
}

fn php_side(php: &Vec<(String, Vec<Attributed>)>) -> (r: (Graph, Vec<Violation>))
    ensures
        r.0.nodes.deep_view() == php_nodes(php@),
        r.0.edges.deep_view() == php_edges(php@),
        key_findings_are(r.1@, php_key_findings(php@)),
{
    let mut nodes: Vec<ConceptNode> = Vec::new();
    let mut edges: Vec<Edge> = Vec::new();
    let mut findings: Vec<Violation> = Vec::new();
    let mut i: usize = 0;
    while i < php.len()
        invariant
            i <= php.len(),
            nodes.deep_view() == php_nodes(php@.take(i as int)),
            edges.deep_view() == php_edges(php@.take(i as int)),
            key_findings_are(findings@, php_key_findings(php@.take(i as int))),
        decreases php.len() - i,
    {
        let path = php[i].0.as_str();
        let attrs = &php[i].1;
        assert(php@.take(i + 1).drop_last() =~= php@.take(i as int));
        assert(php@.take(i + 1).last() == php@[i as int]);
        let (mut ns, mut es) = attributed_facts(path, attrs);
        let mut fs = attribute_key_findings(path, attrs);
        let ghost n0 = nodes@;
        let ghost e0 = edges@;
        let ghost f0 = findings@;
        let ghost nsv = ns@;
        let ghost esv = es@;
        let ghost fsv = fs@;
        nodes.append(&mut ns);
        edges.append(&mut es);
        findings.append(&mut fs);
        assert(nodes@ == n0 + nsv);
        assert(nodes.deep_view() =~= php_nodes(php@.take(i as int)) + attrs@.map_values(
            |a: Attributed| attributed_node_view(path@, a),
        ));
        assert(edges.deep_view() =~= php_edges(php@.take(i as int)) + attributed_edges(path@, attrs@));
        let ghost kf = php_key_findings(php@.take(i as int));
        let ghost af = attribute_findings(attrs@).map_values(|f: (Seq<char>, Seq<char>, usize)| (path@, f));
        assert(php_key_findings(php@.take(i + 1)) == kf + af);
        assert forall|j: int| 0 <= j < findings@.len() implies is_key_finding(
            #[trigger] findings@[j],
            (kf + af)[j].0,
            (kf + af)[j].1,
        ) by {
            if j < f0.len() {
                assert(findings@[j] == f0[j]);
            } else {
                assert(findings@[j] == fsv[j - f0.len()]);
            }
        }
        i = i + 1;
    }
    assert(php@.take(i as int) =~= php@);
    (Graph::new(nodes, edges), findings)
}

fn cohesion_of(trees: &Vec<SpecTree>) -> (r: Vec<CohesionViolation>)
    ensures
        r.deep_view() == tree_cohesion(trees@.map_values(|t: SpecTree| t@)),
{
    let ghost tv = trees@.map_values(|t: SpecTree| t@);
    let mut out: Vec<CohesionViolation> = Vec::new();
    let mut i: usize = 0;
    while i < trees.len()
        invariant
            i <= trees.len(),
            tv == trees@.map_values(|t: SpecTree| t@),
            out.deep_view() == tree_cohesion(tv.take(i as int)),
        decreases trees.len() - i,
    {
        let mut vs = trees[i].cohesion_violations();
        let ghost o0 = out@;
        let ghost vsv = vs@;
        out.append(&mut vs);
        assert(tv.take(i + 1).drop_last() =~= tv.take(i as int));
        assert(tv.take(i + 1).last() == trees@[i as int]@);
        assert(out@ == o0 + vsv);
        assert(out.deep_view() =~= tree_cohesion(tv.take(i as int)) + violations_upto(
            trees@[i as int]@,
            trees@[i as int]@.nodes.len(),
        ));
        i = i + 1;
    }
    assert(tv.take(i as int) =~= tv);
    out
}

/// Reads the spec side: the concept documents' facts (`parsed[i]` the
/// dialect's parse of `files[i]`), united with what the PHP sources'
/// `#[Spec(...)]` declarations say; the context documents; and the spec
/// trees, which give each concept the context its document declares and
/// their cohesion violations.
pub fn spec_side<N: SignatureNormalizer>(
    reader: &MarkdownReader,
    files: &Vec<LoadedFile>,
    parsed: &Vec<ParsedSpec>,
    normalizer: &N,
    php: &Vec<(String, Vec<Attributed>)>,
) -> (r: Result<SpecSide, ReaderError>)
    requires
        parsed.len() == files.len(),
    ensures
        spec_side_result(files@, parsed@, php@, reader.tags.deep_view(), r),
{
    let facts = match reader.extract(files, parsed, normalizer) {
        Ok(f) => f,
        Err(e) => return Err(e),
    };
    let ghost f0 = facts;
    let (attribute, php_findings) = php_side(php);
    let SpecFacts { graph, verb_anchors, concept_anchors, malformed } = facts;
    let mut graph = graph;
    let drift = union_spec_graphs(&mut graph, attribute);
    let contexts = match walk_contexts(files) {
        Ok(c) => c,
        Err(e) => return Err(e),
    };
    let trees = match assemble_spec_trees(files) {
        Ok(t) => t,
        Err(e) => return Err(e),
    };
    let Graph { nodes, edges } = graph;
    let nodes = declared_contexts_per_document(nodes, &trees);
    let cohesion = cohesion_of(&trees);
    let mut findings = malformed;
    let mut php_findings = php_findings;
    let mut drift = drift;
    let ghost mv = findings@;
    let ghost pv = php_findings@;
    let ghost dv = drift@;
    findings.append(&mut php_findings);
    findings.append(&mut drift);
    assert(findings@ == mv + pv + dv);
    assert(findings@.subrange(0, mv.len() as int) =~= mv);
    assert(findings@.subrange(mv.len() as int, (mv.len() + pv.len()) as int) =~= pv);
    assert(findings@.subrange((mv.len() + pv.len()) as int, findings@.len() as int) =~= dv);
    let side = SpecSide {
        graph: Graph { nodes, edges },
        contexts,
        verb_anchors,
        concept_anchors,
        findings,
        cohesion,
    };
    assert(spec_side_holds(side, f0, php@, contexts_upto(files@, files@.len())->Ok_0, trees_run(files@, concept_indices(files@, files@.len()))->Ok_0));
    Ok(side)
}

/// A concept anchor and the code item it names, if any.
pub struct ResolvedAnchor {
    pub anchor: ConceptAnchor,
    pub target: Option<AnchorTarget>,
}

/// The items the code side's anchors can name: the Rust sources' items, or
/// the keyspace's.
pub open spec fn anchor_entries(code: CodeInput) -> Seq<(Seq<char>, AnchorKind, SourceV)> {
    match code {
        CodeInput::Sources { files, .. } => files_anchors(files@),
        CodeInput::Keyspace { root, nodes, .. } => entries_spec(nodes@, root@),
    }
}

pub open spec fn target_view(t: Option<AnchorTarget>) -> Option<(AnchorKind, SourceV)> {
    match t {
        Some(x) => Some((x.kind, x.source@)),
        None => None,
    }
}

fn target_copy(t: Option<&AnchorTarget>) -> (r: Option<AnchorTarget>)
    ensures
        target_view(r) == match t {
            Some(x) => Some((x.kind, x.source@)),
            None => None::<(AnchorKind, SourceV)>,
        },
{
    match t {
        Some(x) => Some(AnchorTarget { kind: x.kind, source: source_copy(&x.source) }),
        None => None,
    }
}

/// Each concept anchor with the first item of the code side that its
/// target names.
pub fn resolve_concept_anchors(anchors: Vec<ConceptAnchor>, code: &CodeInput) -> (r: Vec<ResolvedAnchor>)
    ensures
        r.len() == anchors.len(),
        forall|i: int|
            0 <= i < r.len() ==> (#[trigger] r@[i]).anchor == anchors@[i] && target_view(r@[i].target)
                == first_entry(anchor_entries(*code), anchors@[i].target@),
{
    let mut out: Vec<ResolvedAnchor> = Vec::new();
    if anchors.len() == 0 {
        return out;
    }
    let ghost av = anchors@;
    let mut rest = anchors;
    match code {
        CodeInput::Sources { files, .. } => {
            let resolver = RustAnchorResolver::index(files);
            while rest.len() > 0
                invariant
                    out.len() + rest.len() == av.len(),
                    rest@ == av.subrange(out.len() as int, av.len() as int),
                    forall|i: int|
                        0 <= i < out.len() ==> (#[trigger] out@[i]).anchor == av[i] && target_view(
                            out@[i].target,
                        ) == first_entry(anchor_entries(*code), av[i].target@),
                    anchor_entries(*code) == entries_view(resolver.entries@),
                decreases rest.len(),
            {
                let anchor = rest.remove(0);
                let target = target_copy(resolver.resolve(anchor.target.as_str()));
                out.push(ResolvedAnchor { anchor, target });
            }
        },
        CodeInput::Keyspace { root, nodes, .. } => {
            let resolver = CfdbAnchorResolver::index(nodes, root.as_str());
            while rest.len() > 0
                invariant
                    out.len() + rest.len() == av.len(),
                    rest@ == av.subrange(out.len() as int, av.len() as int),
                    forall|i: int|
                        0 <= i < out.len() ==> (#[trigger] out@[i]).anchor == av[i] && target_view(
                            out@[i].target,
                        ) == first_entry(anchor_entries(*code), av[i].target@),
                    anchor_entries(*code) == entries_view(resolver.entries@),
                decreases rest.len(),
            {
                let anchor = rest.remove(0);
                let target = target_copy(resolver.resolve(anchor.target.as_str()));
                out.push(ResolvedAnchor { anchor, target });
            }
        },
    }
    out
}

/// Everything the comparison of the two sides takes.
pub struct CheckInput {
    pub specs_graph: Graph,
    pub spec_contexts: Vec<ContextDecl>,
    pub verb_anchors: Vec<VerbAnchor>,
    /// The public functions of the code, the verbs the anchors may name.
    pub verb_decls: Vec<PubFnDecl>,
    pub spec_cohesion: Vec<CohesionViolation>,
    pub spec_findings: Vec<Violation>,
    pub concept_anchors: Vec<ResolvedAnchor>,
    pub code_graph: Graph,
}

/// What a check reads: the input of the comparison, or an outcome that
/// settles the run before any comparison.
pub enum Reading {
    Compare(CheckInput),
    Settled(CheckOutcome),
}

/// `r` is what a check reads once both sides have been read: `side` from
/// the specs and `code` from the code.
pub open spec fn reading_of(side: SpecSide, code: CodeInput, c: Result<CodeSide, ReaderError>, r: Result<Reading, ReaderError>) -> bool {
    match c {
        Err(e) => r matches Err(x) && x@ == e@,
        Ok(CodeSide::AdmitsNothing(o)) => r matches Ok(Reading::Settled(p)) && p == o,
        Ok(CodeSide::Read { graph, pub_fns }) => r matches Ok(Reading::Compare(input)) && input.specs_graph
            == side.graph && input.spec_contexts == side.contexts && input.verb_anchors == side.verb_anchors
            && input.verb_decls == pub_fns && input.spec_cohesion == side.cohesion && input.spec_findings
            == side.findings && input.code_graph == graph && input.concept_anchors.len()
            == side.concept_anchors.len() && forall|i: int|
            0 <= i < input.concept_anchors.len() ==> (#[trigger] input.concept_anchors@[i]).anchor
                == side.concept_anchors@[i] && target_view(input.concept_anchors@[i].target) == first_entry(
                anchor_entries(code),
                side.concept_anchors@[i].target@,
            ),
    }
}

/// Reads both sides of a check: the spec side (see `spec_side`), then the
/// code side against the contexts the specs declare (see `code_side`), then
/// each concept anchor against the code side's items. Refused at the first
/// refusal of a side; settled where the code side ends the run.
pub fn read_check<N: SignatureNormalizer>(
    reader: &MarkdownReader,
    files: &Vec<LoadedFile>,
    parsed: &Vec<ParsedSpec>,
    normalizer: &N,
    php: &Vec<(String, Vec<Attributed>)>,
    code: &CodeInput,
) -> (r: Result<Reading, ReaderError>)
    requires
        parsed.len() == files.len(),
    ensures
        exists|s: Result<SpecSide, ReaderError>|
            #[trigger] spec_side_result(files@, parsed@, php@, reader.tags.deep_view(), s) && match s {
                Err(e) => r matches Err(x) && x@ == e@,
                Ok(side) => exists|c: Result<CodeSide, ReaderError>|
                    #[trigger] code_side_result(*code, side.contexts@, c) && reading_of(side, *code, c, r),
            },
{
    let s = spec_side(reader, files, parsed, normalizer, php);
    let side = match s {
        Ok(side) => side,
        Err(e) => return Err(e),
    };
    let c = code_side(code, &side.contexts);
    let ghost cg = c;
    let r = match c {
        Err(e) => Err(e),
        Ok(CodeSide::AdmitsNothing(o)) => Ok(Reading::Settled(o)),
        Ok(CodeSide::Read { graph, pub_fns }) => {
            let SpecSide { graph: specs_graph, contexts, verb_anchors, concept_anchors, findings, cohesion } = side;
            let resolved = resolve_concept_anchors(concept_anchors, code);
            let input = CheckInput {
                specs_graph,
                spec_contexts: contexts,
                verb_anchors,
                verb_decls: pub_fns,
                spec_cohesion: cohesion,
                spec_findings: findings,
                concept_anchors: resolved,
                code_graph: graph,
            };
            Ok(Reading::Compare(input))
        },
    };
    assert(reading_of(side, *code, cg, r));
    r
}

/// The concepts of the code side on the surface `surface`: the Rust
/// sources' types, or the keyspace's concepts.
pub fn code_facts(code: &CodeInput, surface: &DeclaredSurface) -> (r: Result<Vec<ConceptNode>, ReaderError>)
    ensures
        match code {
            CodeInput::Sources { files, .. } => r matches Ok(out) && out.deep_view() == files_concepts(files@),
            CodeInput::Keyspace { path, root, nodes, edges } => match discriminate_spec(path@, nodes@) {
                Err(e) => r matches Err(x) && x@ == e,
                Ok(Producer::Rust) => r matches Ok(out) && concepts_are(out@, rust_concepts_spec(nodes@, root@)),
                Ok(Producer::Php) => match php_concepts_spec(*surface, nodes@, edges@) {
                    Err(e) => r matches Err(x) && x@ == e,
                    Ok(cs) => r matches Ok(out) && concepts_are(out@, cs),
                },
            },
        },
{
    match code {
        CodeInput::Sources { files, .. } => Ok(rust_graph(files).nodes),
        CodeInput::Keyspace { path, root, nodes, edges } => keyspace_concepts(
            path.as_str(),
            surface,
            nodes,
            edges,
            root.as_str(),
        ),
    }
}

} // verus!
