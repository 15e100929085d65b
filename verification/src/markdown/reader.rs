//! The markdown reader over a set of spec files: which files are concept
//! documents and which are context documents, and what they declare
//! together.
use vstd::prelude::*;
use vstd::string::StringSliceAdditionalSpecFns;
use crate::graph::{ConceptNode, Edge, Graph};
use crate::markdown::contexts::{context_outcome, parse_context_file};
use crate::markdown::events::markdown_events;
use crate::markdown::front_matter::blanked;
use crate::markdown::grounding::{concept_rungs, ladder_of, refusal_of, DialectHeadingV, ParsedSpec};
use crate::markdown::markdown_utils::{has_component, line_starts, path_under_dir};
use crate::markdown::tree::{assemble_tree, assembled, SpecTree, SpecTreeV};
use crate::markdown::section::{
    bullet_facts, collected_of, extract_from_source, is_malformed, malformed_view, no_facts,
    section_node, sections_facts, BulletFactsV, CollectedV, SectionFacts, SignatureNormalizer,
};
use crate::model::{ConceptAnchor, ContextDecl, ContextDeclV, ReaderError, ReaderErrorV, VerbAnchor};
use crate::outcome::Violation;

verus! {

/// A spec file: its path and its text.
#[derive(Debug, Clone, PartialEq, Eq)]
pub struct LoadedFile {
    pub path: String,
    pub text: String,
}

/// Whether a file is a concept document of the set: not under `contexts/`,
/// and under `concepts/` when any file of the set is.
pub open spec fn is_concept_file(files: Seq<LoadedFile>, f: LoadedFile) -> bool {
    let scoped = exists|i: int| 0 <= i < files.len() && has_component(#[trigger] files[i].path@, "concepts"@);
    !has_component(f.path@, "contexts"@) && (!scoped || has_component(f.path@, "concepts"@))
}

/// The indices of the concept documents, in order.
pub open spec fn concept_indices(files: Seq<LoadedFile>, n: nat) -> Seq<int>
    decreases n,
{
    if n == 0 {
        seq![]
    } else {
        let rest = concept_indices(files, (n - 1) as nat);
        if is_concept_file(files, files[n - 1]) {
            rest.push(n - 1)
        } else {
            rest
        }
    }
}

/// The positions of the concept documents of a file set, in order.
pub fn concept_files(files: &Vec<LoadedFile>) -> (r: Vec<usize>)
    ensures
        r@.map_values(|i: usize| i as int) == concept_indices(files@, files@.len()),
        forall|j: int| 0 <= j < r.len() ==> (#[trigger] r@[j]) < files.len(),
{
    let mut scoped = false;
    let mut i: usize = 0;
    while i < files.len()
        invariant
            i <= files.len(),
            scoped == exists|j: int| 0 <= j < i && has_component(#[trigger] files@[j].path@, "concepts"@),
        decreases files.len() - i,
    {
        if path_under_dir(files[i].path.as_str(), "concepts") {
            scoped = true;
        }
        i = i + 1;
    }
    let mut out: Vec<usize> = Vec::new();
    let mut k: usize = 0;
    while k < files.len()
        invariant
            k <= files.len(),
            scoped == exists|j: int| 0 <= j < files.len() && has_component(#[trigger] files@[j].path@, "concepts"@),
            out@.map_values(|i: usize| i as int) =~= concept_indices(files@, k as nat),
            forall|j: int| 0 <= j < out.len() ==> (#[trigger] out@[j]) < k,
        decreases files.len() - k,
    {
        let p = files[k].path.as_str();
        if !path_under_dir(p, "contexts") && (!scoped || path_under_dir(p, "concepts")) {
            let ghost ob = out@;
            out.push(k);
            assert(out@.map_values(|i: usize| i as int) =~= ob.map_values(|i: usize| i as int).push(k as int));
        }
        k = k + 1;
    }
    out
}

/// The context documents' declarations, in file order; refused at the
/// first document that does not read.
pub open spec fn contexts_upto(files: Seq<LoadedFile>, n: nat) -> Result<Seq<ContextDeclV>, ReaderErrorV>
    decreases n,
{
    if n == 0 {
        Ok(seq![])
    } else {
        match contexts_upto(files, (n - 1) as nat) {
            Err(e) => Err(e),
            Ok(acc) => {
                let f = files[n - 1];
                if has_component(f.path@, "contexts"@) {
                    match context_outcome(
                        markdown_events(f.text@),
                        line_starts(vstd::utf8::encode_utf8(f.text@)),
                        f.path@,
                    ) {
                        Ok(d) => Ok(acc.push(d)),
                        Err(e) => Err(e),
                    }
                } else {
                    Ok(acc)
                }
            },
        }
    }
}

/// The declarations of the context documents (those under `contexts/`).
pub fn walk_contexts(files: &Vec<LoadedFile>) -> (r: Result<Vec<ContextDecl>, ReaderError>)
    ensures
        match r {
            Ok(ds) => contexts_upto(files@, files@.len()) == Ok::<Seq<ContextDeclV>, ReaderErrorV>(
                ds@.map_values(|d: ContextDecl| d@),
            ),
            Err(e) => contexts_upto(files@, files@.len()) == Err::<Seq<ContextDeclV>, ReaderErrorV>(e@),
        },
{
    let mut out: Vec<ContextDecl> = Vec::new();
    let mut i: usize = 0;
    assert(out@.map_values(|d: ContextDecl| d@) =~= Seq::<ContextDeclV>::empty());
    while i < files.len()
        invariant
            i <= files.len(),
            contexts_upto(files@, i as nat) == Ok::<Seq<ContextDeclV>, ReaderErrorV>(
                out@.map_values(|d: ContextDecl| d@),
            ),
        decreases files.len() - i,
    {
        let f = &files[i];
        if path_under_dir(f.path.as_str(), "contexts") {
            match parse_context_file(f.path.as_str(), f.text.as_str()) {
                Ok(d) => {
                    let ghost ob = out@;
                    let ghost dv = d@;
                    out.push(d);
                    assert(out@.map_values(|d: ContextDecl| d@) =~= ob.map_values(|d: ContextDecl| d@).push(dv));
                },
                Err(e) => {
                    proof {
                        lemma_contexts_err_stays(files@, (i + 1) as nat, files@.len());
                    }
                    return Err(e);
                },
            }
        }
        i = i + 1;
    }
    Ok(out)
}

proof fn lemma_contexts_err_stays(files: Seq<LoadedFile>, m: nat, n: nat)
    requires
        m <= n,
        contexts_upto(files, m) is Err,
    ensures
        contexts_upto(files, n) == contexts_upto(files, m),
    decreases n - m,
{
    if m < n {
        lemma_contexts_err_stays(files, m, (n - 1) as nat);
    }
}

/// Reads markdown spec documents; its normalizers read the fenced blocks
/// whose tags it lists.
#[derive(Debug)]
pub struct MarkdownReader {
    pub tags: Vec<String>,
}

/// Everything the concept documents of a set declare.
#[derive(Debug)]
pub struct SpecFacts {
    pub graph: Graph,
    pub verb_anchors: Vec<VerbAnchor>,
    pub concept_anchors: Vec<ConceptAnchor>,
    pub malformed: Vec<Violation>,
}

/// The bullet facts a set of facts holds.
pub open spec fn spec_facts(f: SpecFacts) -> BulletFactsV {
    BulletFactsV {
        edges: f.graph.edges.deep_view(),
        verbs: f.verb_anchors@.map_values(
            |a: VerbAnchor| (a.concept@, a.qname@, a.raw_target@, a.source@),
        ),
        impls: f.concept_anchors@.map_values(|a: ConceptAnchor| (a.concept@, a.target@, a.source@)),
        malformed: f.malformed@.map_values(|v: Violation| malformed_view(v)),
    }
}

pub open spec fn merge_facts(a: BulletFactsV, b: BulletFactsV) -> BulletFactsV {
    BulletFactsV {
        edges: a.edges + b.edges,
        verbs: a.verbs + b.verbs,
        impls: a.impls + b.impls,
        malformed: a.malformed + b.malformed,
    }
}

/// What each concept of a document is read from: the document, its
/// heading, its ladder and what its events hold.
pub open spec fn file_nodes(f: LoadedFile, p: ParsedSpec) -> Seq<(Seq<char>, DialectHeadingV, Seq<DialectHeadingV>, CollectedV)> {
    let l = ladder_of(f.text@, p);
    let c = collected_of(blanked(f.text@));
    concept_rungs(l).map_values(|h: DialectHeadingV| (f.path@, h, l, c))
}

pub open spec fn file_facts(f: LoadedFile, p: ParsedSpec) -> BulletFactsV {
    let l = ladder_of(f.text@, p);
    sections_facts(f.path@, concept_rungs(l), l, collected_of(blanked(f.text@)))
}

/// The concepts and bullet facts of the documents `ids`, in order; refused
/// at the first document the dialect reader refuses.
pub open spec fn files_run(files: Seq<LoadedFile>, parsed: Seq<ParsedSpec>, ids: Seq<int>) -> Result<(Seq<(Seq<char>, DialectHeadingV, Seq<DialectHeadingV>, CollectedV)>, BulletFactsV), ReaderErrorV>
    decreases ids.len(),
{
    if ids.len() == 0 {
        Ok((seq![], no_facts()))
    } else {
        match files_run(files, parsed, ids.drop_last()) {
            Err(e) => Err(e),
            Ok((ns, bf)) => {
                let i = ids.last();
                match refusal_of(files[i].path@, files[i].path@, parsed[i]) {
                    Some(e) => Err(e),
                    None => Ok(
                        (ns + file_nodes(files[i], parsed[i]), merge_facts(bf, file_facts(files[i], parsed[i]))),
                    ),
                }
            },
        }
    }
}

/// Whether `f` holds the concepts and bullet facts `run` gives.
pub open spec fn facts_match(f: SpecFacts, ns: Seq<(Seq<char>, DialectHeadingV, Seq<DialectHeadingV>, CollectedV)>, bf: BulletFactsV, tags: Seq<Seq<char>>) -> bool {
    &&& f.graph.nodes.len() == ns.len()
    &&& forall|k: int|
        0 <= k < ns.len() ==> section_node(#[trigger] f.graph.nodes@[k], ns[k].0, ns[k].1, ns[k].2, ns[k].3, tags)
    &&& spec_facts(f) == bf
}

impl MarkdownReader {
    pub fn new(tags: Vec<String>) -> (r: MarkdownReader)
        ensures
            r.tags == tags,
    {
        MarkdownReader { tags }
    }

    /// The facts of the concept documents, document by document in file
    /// order, each read by `extract_from_source` with the parse of its
    /// grounding (`parsed[i]` for `files[i]`). Refused at the first
    /// document the dialect reader refuses.
    pub fn extract<N: SignatureNormalizer>(
        &self,
        files: &Vec<LoadedFile>,
        parsed: &Vec<ParsedSpec>,
        normalizer: &N,
    ) -> (r: Result<SpecFacts, ReaderError>)
        requires
            parsed.len() == files.len(),
        ensures
            match r {
                Err(e) => files_run(files@, parsed@, concept_indices(files@, files@.len())) == Err::<
                    (Seq<(Seq<char>, DialectHeadingV, Seq<DialectHeadingV>, CollectedV)>, BulletFactsV),
                    ReaderErrorV,
                >(e@),
                Ok(f) => files_run(files@, parsed@, concept_indices(files@, files@.len())) matches Ok(
                    (ns, bf),
                ) && facts_match(f, ns, bf, self.tags.deep_view()),
            },
    {
        let idx = concept_files(files);
        let ghost ids = concept_indices(files@, files@.len());
        let mut facts = SpecFacts {
            graph: Graph { nodes: Vec::new(), edges: Vec::new() },
            verb_anchors: Vec::new(),
            concept_anchors: Vec::new(),
            malformed: Vec::new(),
        };
        assert(spec_facts(facts).edges =~= no_facts().edges);
        assert(spec_facts(facts).verbs =~= no_facts().verbs);
        assert(spec_facts(facts).impls =~= no_facts().impls);
        assert(spec_facts(facts).malformed =~= no_facts().malformed);
        assert(ids.take(0) =~= Seq::<int>::empty());
        let mut k: usize = 0;
        while k < idx.len()
            invariant
                k <= idx.len(),
                parsed.len() == files.len(),
                ids == concept_indices(files@, files@.len()),
                idx@.map_values(|i: usize| i as int) == ids,
                forall|j: int| 0 <= j < idx.len() ==> (#[trigger] idx@[j]) < files.len(),
                files_run(files@, parsed@, ids.take(k as int)) matches Ok((ns, bf)) && facts_match(
                    facts,
                    ns,
                    bf,
                    self.tags.deep_view(),
                ),
            decreases idx.len() - k,
        {
            let i = idx[k];
            assert(ids[k as int] == i as int);
            assert(ids.take(k + 1).drop_last() =~= ids.take(k as int));
            assert(ids.take(k + 1).last() == i as int);
            let f = &files[i];
            let one = extract_from_source(
                f.text.as_str(),
                f.path.as_str(),
                &parsed[i],
                &self.tags,
                normalizer,
            );
            let mut one = match one {
                Err(e) => {
                    proof {
                        lemma_run_err_stays(files@, parsed@, ids, (k + 1) as nat, ids.len());
                        assert(ids.take(ids.len() as int) =~= ids);
                    }
                    return Err(e);
                },
                Ok(x) => x,
            };
            let ghost prev = files_run(files@, parsed@, ids.take(k as int));
            let ghost nodes_before = facts.graph.nodes@;
            let ghost one_nodes = one.nodes@;
            let ghost bf_before = spec_facts(facts);
            let ghost one_facts = bullet_facts(one);
            facts.graph.nodes.append(&mut one.nodes);
            facts.graph.edges.append(&mut one.edges);
            facts.verb_anchors.append(&mut one.verb_anchors);
            facts.concept_anchors.append(&mut one.concept_anchors);
            facts.malformed.append(&mut one.malformed);
            proof {
                let ns = prev->Ok_0.0;
                let bf = prev->Ok_0.1;
                let fn_ = file_nodes(files@[i as int], parsed@[i as int]);
                assert(fn_.len() == one_nodes.len());
                assert forall|q: int|
                    0 <= q < (ns + fn_).len() implies section_node(
                        #[trigger] facts.graph.nodes@[q],
                        (ns + fn_)[q].0,
                        (ns + fn_)[q].1,
                        (ns + fn_)[q].2,
                        (ns + fn_)[q].3,
                        self.tags.deep_view(),
                    ) by {
                    if q < ns.len() {
                        assert(facts.graph.nodes@[q] == nodes_before[q]);
                    } else {
                        assert(facts.graph.nodes@[q] == one_nodes[q - ns.len()]);
                    }
                }
                assert(spec_facts(facts).edges =~= bf_before.edges + one_facts.edges);
                assert(spec_facts(facts).verbs =~= bf_before.verbs + one_facts.verbs);
                assert(spec_facts(facts).impls =~= bf_before.impls + one_facts.impls);
                assert(spec_facts(facts).malformed =~= bf_before.malformed + one_facts.malformed);
            }
            k = k + 1;
        }
        assert(ids.take(k as int) =~= ids);
        Ok(facts)
    }
}

proof fn lemma_run_err_stays(files: Seq<LoadedFile>, parsed: Seq<ParsedSpec>, ids: Seq<int>, m: nat, n: nat)
    requires
        m <= n <= ids.len(),
        files_run(files, parsed, ids.take(m as int)) is Err,
    ensures
        files_run(files, parsed, ids.take(n as int)) == files_run(files, parsed, ids.take(m as int)),
    decreases n - m,
{
    if m < n {
        lemma_run_err_stays(files, parsed, ids, m, (n - 1) as nat);
        assert(ids.take(n as int).drop_last() =~= ids.take(n - 1));
    }
}

/// The spec trees of the concept documents `ids`, in order: a document
/// whose H1 does not name a context (a parse refusal) is passed over, and
/// any other refusal ends the run.
pub open spec fn trees_run(files: Seq<LoadedFile>, ids: Seq<int>) -> Result<Seq<SpecTreeV>, ReaderErrorV>
    decreases ids.len(),
{
    if ids.len() == 0 {
        Ok(seq![])
    } else {
        match trees_run(files, ids.drop_last()) {
            Err(e) => Err(e),
            Ok(ts) => {
                let f = files[ids.last()];
                match assembled(f.text@, f.path@) {
                    Ok(t) => Ok(ts.push(t)),
                    Err(ReaderErrorV::ParseFailed { .. }) => Ok(ts),
                    Err(e) => Err(e),
                }
            },
        }
    }
}

proof fn lemma_trees_err_stays(files: Seq<LoadedFile>, ids: Seq<int>, m: nat, n: nat)
    requires
        m <= n <= ids.len(),
        trees_run(files, ids.take(m as int)) is Err,
    ensures
        trees_run(files, ids.take(n as int)) == trees_run(files, ids.take(m as int)),
    decreases n - m,
{
    if m < n {
        lemma_trees_err_stays(files, ids, m, (n - 1) as nat);
        assert(ids.take(n as int).drop_last() =~= ids.take(n - 1));
    }
}

/// The spec tree of every concept document of the set, in file order.
pub fn assemble_spec_trees(files: &Vec<LoadedFile>) -> (r: Result<Vec<SpecTree>, ReaderError>)
    ensures
        match r {
            Ok(ts) => trees_run(files@, concept_indices(files@, files@.len())) == Ok::<
                Seq<SpecTreeV>,
                ReaderErrorV,
            >(ts@.map_values(|t: SpecTree| t@)),
            Err(e) => trees_run(files@, concept_indices(files@, files@.len())) == Err::<
                Seq<SpecTreeV>,
                ReaderErrorV,
            >(e@),
        },
{
    let idx = concept_files(files);
    let ghost ids = concept_indices(files@, files@.len());
    let mut trees: Vec<SpecTree> = Vec::new();
    let mut k: usize = 0;
    assert(ids.take(0) =~= Seq::<int>::empty());
    assert(trees@.map_values(|t: SpecTree| t@) =~= Seq::<SpecTreeV>::empty());
    while k < idx.len()
        invariant
            k <= idx.len(),
            ids == concept_indices(files@, files@.len()),
            idx@.map_values(|i: usize| i as int) == ids,
            forall|j: int| 0 <= j < idx.len() ==> (#[trigger] idx@[j]) < files.len(),
            trees_run(files@, ids.take(k as int)) == Ok::<Seq<SpecTreeV>, ReaderErrorV>(
                trees@.map_values(|t: SpecTree| t@),
            ),
        decreases idx.len() - k,
    {
        let i = idx[k];
        assert(ids[k as int] == i as int);
        assert(ids.take(k + 1).drop_last() =~= ids.take(k as int));
        assert(ids.take(k + 1).last() == i as int);
        let f = &files[i];
        match assemble_tree(f.text.as_str(), f.path.as_str()) {
            Ok(t) => {
                let ghost before = trees@.map_values(|t: SpecTree| t@);
                trees.push(t);
                assert(trees@.map_values(|t: SpecTree| t@) =~= before.push(t@));
            },
            Err(e) => {
                if let ReaderError::ParseFailed { .. } = e {
                } else {
                    proof {
                        lemma_trees_err_stays(files@, ids, (k + 1) as nat, ids.len());
                        assert(ids.take(ids.len() as int) =~= ids);
                    }
                    return Err(e);
                }
            },
        }
        k = k + 1;
    }
    assert(ids.take(k as int) =~= ids);
    Ok(trees)
}

} // verus!
