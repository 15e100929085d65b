//! Putting the check's inputs together: the spec graphs of the two spec
//! channels, the contexts each document declares for its concepts, and the
//! refusal of an ownership that nests across contexts.
use vstd::prelude::*;
use crate::graph::{ConceptNode, ConceptNodeV, Edge, EdgeV, Graph, SignatureState, SignatureStateV};
use crate::markdown::tree::{concept_names, context_id_spec, SpecTree, SpecTreeV};
use crate::model::{ContextDecl, ContextDeclV, OwnedUnit, Provenance, ReaderError, ReaderErrorV, Source, SourceV};
use crate::outcome::{CheckOutcome, ContextViolation, DiffSide, SourceWithSig, Violation};
use crate::paths::{components, is_absolute, parts_equal, path_parts, same_text};
use crate::text::{push_str, text_of};

verus! {

fn opt_copy(o: &Option<String>) -> (r: Option<String>)
    ensures
        r.deep_view() == o.deep_view(),
{
    match o {
        Some(s) => Some(s.clone()),
        None => None,
    }
}

/// A copy of a source.
pub fn source_copy(s: &Source) -> (r: Source)
    ensures
        r@ == s@,
{
    match s {
        Source::Spec { format, path, line, context } => Source::Spec {
            format: *format,
            path: path.clone(),
            line: *line,
            context: opt_copy(context),
        },
        Source::Code { path, line, provenance, location } => Source::Code {
            path: path.clone(),
            line: *line,
            provenance: Provenance {
                module: opt_copy(&provenance.module),
                unit: opt_copy(&provenance.unit),
                context: opt_copy(&provenance.context),
            },
            location: *location,
        },
    }
}

/// The path of a source, whichever side it is on.
pub open spec fn source_path(s: SourceV) -> Seq<char> {
    match s {
        SourceV::Spec { path, .. } => path,
        SourceV::Code { path, .. } => path,
    }
}

/// A signature drift within the spec side: a concept both channels declare
/// with two different normalized signatures.
pub struct DriftV {
    pub name: Seq<char>,
    pub first: (SourceV, Seq<char>),
    pub second: (SourceV, Seq<char>),
}

/// The first node named `name`.
pub open spec fn find_named(nodes: Seq<ConceptNodeV>, name: Seq<char>) -> Option<int>
    decreases nodes.len(),
{
    if nodes.len() == 0 {
        None
    } else if nodes[0].name == name {
        Some(0)
    } else {
        match find_named(nodes.drop_first(), name) {
            Some(i) => Some(i + 1),
            None => None,
        }
    }
}

/// One attribute-channel concept joined into the markdown graph: added when
/// the markdown graph lacks it; when it has it and both signatures are
/// normalized and differ, a drift.
pub open spec fn union_step(st: (Seq<ConceptNodeV>, Seq<DriftV>), n: ConceptNodeV) -> (Seq<ConceptNodeV>, Seq<DriftV>) {
    match find_named(st.0, n.name) {
        None => (st.0.push(n), st.1),
        Some(i) => {
            let up = st.0[i];
            match (up.signature, n.signature) {
                (SignatureStateV::Normalized(a), SignatureStateV::Normalized(b)) => if a != b {
                    (st.0, st.1.push(DriftV { name: n.name, first: (up.source, a), second: (n.source, b) }))
                } else {
                    st
                },
                _ => st,
            }
        },
    }
}

pub open spec fn union_run(markdown: Seq<ConceptNodeV>, attrs: Seq<ConceptNodeV>) -> (Seq<ConceptNodeV>, Seq<DriftV>)
    decreases attrs.len(),
{
    if attrs.len() == 0 {
        (markdown, seq![])
    } else {
        union_step(union_run(markdown, attrs.drop_last()), attrs.last())
    }
}

/// Whether `v` reports the drift `d`.
pub open spec fn reports_drift(v: Violation, d: DriftV) -> bool {
    v matches Violation::SignatureDriftWithinSide { name, side, sources } && name@ == d.name
        && side == DiffSide::Spec && sources@.len() == 2 && sources@[0].source@ == d.first.0
        && sources@[0].sig@ == d.first.1 && sources@[1].source@ == d.second.0
        && sources@[1].sig@ == d.second.1
}

fn find_named_exec(nodes: &Vec<ConceptNode>, name: &str) -> (r: Option<usize>)
    ensures
        match r {
            Some(i) => find_named(nodes.deep_view(), name@) == Some(i as int) && i < nodes.len(),
            None => find_named(nodes.deep_view(), name@) is None,
        },
{
    let ghost nv = nodes.deep_view();
    let mut i: usize = 0;
    assert(nv.subrange(0, nv.len() as int) =~= nv);
    while i < nodes.len()
        invariant
            i <= nodes.len(),
            nv == nodes.deep_view(),
            find_named(nv, name@) == match find_named(nv.subrange(i as int, nv.len() as int), name@) {
                Some(k) => Some(k + i),
                None => None::<int>,
            },
        decreases nodes.len() - i,
    {
        assert(nv.subrange(i as int, nv.len() as int).drop_first() =~= nv.subrange(
            i + 1,
            nv.len() as int,
        ));
        if same_text(nodes[i].name.as_str(), name) {
            return Some(i);
        }
        i = i + 1;
    }
    None
}

/// Joins the attribute channel's graph into the markdown channel's: each
/// attribute concept the markdown graph lacks is added, in order; a concept
/// both declare keeps its markdown node, and where both signatures are
/// normalized and differ it is reported as a drift within the spec side.
/// The attribute channel's edges follow the markdown channel's.
pub fn union_spec_graphs(markdown: &mut Graph, attribute: Graph) -> (drift: Vec<Violation>)
    ensures
        final(markdown).nodes.deep_view() == union_run(
            old(markdown).nodes.deep_view(),
            attribute.nodes.deep_view(),
        ).0,
        final(markdown).edges.deep_view() == old(markdown).edges.deep_view()
            + attribute.edges.deep_view(),
        drift.len() == union_run(old(markdown).nodes.deep_view(), attribute.nodes.deep_view()).1.len(),
        forall|i: int|
            0 <= i < drift.len() ==> reports_drift(
                #[trigger] drift@[i],
                union_run(old(markdown).nodes.deep_view(), attribute.nodes.deep_view()).1[i],
            ),
{
    let ghost start = markdown.nodes.deep_view();
    let ghost attrs = attribute.nodes.deep_view();
    let Graph { nodes: mut incoming, edges: mut incoming_edges } = attribute;
    let mut drift: Vec<Violation> = Vec::new();
    let mut taken: usize = 0;
    let ghost total = incoming.len();
    while incoming.len() > 0
        invariant
            taken + incoming.len() == total,
            total == attrs.len(),
            incoming.deep_view() == attrs.skip(taken as int),
            markdown.nodes.deep_view() == union_run(start, attrs.take(taken as int)).0,
            markdown.edges == old(markdown).edges,
            drift.len() == union_run(start, attrs.take(taken as int)).1.len(),
            forall|i: int|
                0 <= i < drift.len() ==> reports_drift(
                    #[trigger] drift@[i],
                    union_run(start, attrs.take(taken as int)).1[i],
                ),
        decreases incoming.len(),
    {
        let ghost before = incoming.deep_view();
        let ghost old_vec = incoming@;
        let node = incoming.remove(0);
        assert(before[0] == old_vec[0].deep_view());
        assert(attrs.skip(taken as int)[0] == attrs[taken as int]);
        assert(incoming.deep_view() =~= before.drop_first());
        assert(node@ == attrs[taken as int]);
        assert(attrs.take(taken + 1).drop_last() =~= attrs.take(taken as int));
        assert(attrs.take(taken + 1).last() == attrs[taken as int]);
        assert(attrs.skip(taken + 1) =~= attrs.skip(taken as int).drop_first());
        let ghost st = union_run(start, attrs.take(taken as int));
        match find_named_exec(&markdown.nodes, node.name.as_str()) {
            None => {
                let ghost nodes_before = markdown.nodes.deep_view();
                markdown.nodes.push(node);
                assert(markdown.nodes.deep_view() =~= nodes_before.push(attrs[taken as int]));
            },
            Some(i) => {
                let upstream = &markdown.nodes[i];
                assert(upstream@ == st.0[i as int]);
                if let (SignatureState::Normalized(up), SignatureState::Normalized(down)) = (
                    &upstream.signature,
                    &node.signature,
                ) {
                    if !same_text(up.as_str(), down.as_str()) {
                        let mut sources: Vec<SourceWithSig> = Vec::new();
                        sources.push(
                            SourceWithSig { source: source_copy(&upstream.source), sig: up.clone() },
                        );
                        sources.push(
                            SourceWithSig { source: source_copy(&node.source), sig: down.clone() },
                        );
                        drift.push(
                            Violation::SignatureDriftWithinSide {
                                name: node.name.clone(),
                                side: DiffSide::Spec,
                                sources,
                            },
                        );
                    }
                }
            },
        }
        taken = taken + 1;
    }
    assert(attrs.take(taken as int) =~= attrs);
    let ghost edges_start = markdown.edges.deep_view();
    let ghost incoming_view = incoming_edges.deep_view();
    let mut moved: usize = 0;
    let ghost edge_total = incoming_edges.len();
    while incoming_edges.len() > 0
        invariant
            moved + incoming_edges.len() == edge_total,
            edge_total == incoming_view.len(),
            incoming_edges.deep_view() == incoming_view.skip(moved as int),
            markdown.edges.deep_view() == edges_start + incoming_view.take(moved as int),
            markdown.nodes.deep_view() == union_run(start, attrs).0,
        decreases incoming_edges.len(),
    {
        let ghost before = incoming_edges.deep_view();
        let ghost old_vec = incoming_edges@;
        let e = incoming_edges.remove(0);
        assert(before[0] == old_vec[0].deep_view());
        assert(incoming_view.skip(moved as int)[0] == incoming_view[moved as int]);
        assert(incoming_edges.deep_view() =~= before.drop_first());
        assert(e@ == incoming_view[moved as int]);
        assert(incoming_view.skip(moved + 1) =~= incoming_view.skip(moved as int).drop_first());
        let ghost edges_before = markdown.edges.deep_view();
        markdown.edges.push(e);
        assert(markdown.edges.deep_view() =~= edges_before.push(incoming_view[moved as int]));
        assert(incoming_view.take(moved + 1) =~= incoming_view.take(moved as int).push(
            incoming_view[moved as int],
        ));
        moved = moved + 1;
    }
    assert(incoming_view.take(moved as int) =~= incoming_view);
    drift
}

/// Whether some node of `nodes` is named `name`.
pub open spec fn names(nodes: Seq<ConceptNodeV>, name: Seq<char>) -> bool {
    exists|i: int| 0 <= i < nodes.len() && (#[trigger] nodes[i]).name == name
}

proof fn lemma_find_named(nodes: Seq<ConceptNodeV>, name: Seq<char>)
    ensures
        find_named(nodes, name) matches Some(i) ==> 0 <= i < nodes.len() && nodes[i].name == name,
        find_named(nodes, name) is None ==> !names(nodes, name),
    decreases nodes.len(),
{
    if nodes.len() > 0 && nodes[0].name != name {
        lemma_find_named(nodes.drop_first(), name);
        if find_named(nodes, name) is None {
            assert forall|i: int| 0 <= i < nodes.len() implies (#[trigger] nodes[i]).name != name by {
                if i > 0 {
                    assert(nodes[i] == nodes.drop_first()[i - 1]);
                }
            }
        }
    }
}

/// Joining the attribute channel into the markdown channel loses nothing
/// and invents nothing: every markdown node stays, first and unchanged;
/// every attribute concept is named in the result; every node added is an
/// attribute node; and each drift is about a concept the attribute channel
/// declares.
pub proof fn union_keeps_markdown_and_names_every_attribute(markdown: Seq<ConceptNodeV>, attrs: Seq<ConceptNodeV>)
    ensures
        union_run(markdown, attrs).0.len() >= markdown.len(),
        union_run(markdown, attrs).0.take(markdown.len() as int) == markdown,
        forall|j: int| 0 <= j < attrs.len() ==> names(union_run(markdown, attrs).0, (#[trigger] attrs[j]).name),
        forall|i: int|
            markdown.len() <= i < union_run(markdown, attrs).0.len() ==> attrs.contains(
                #[trigger] union_run(markdown, attrs).0[i],
            ),
        forall|k: int|
            0 <= k < union_run(markdown, attrs).1.len() ==> names(
                attrs,
                (#[trigger] union_run(markdown, attrs).1[k]).name,
            ),
    decreases attrs.len(),
{
    if attrs.len() > 0 {
        let rest = attrs.drop_last();
        let n = attrs.last();
        union_keeps_markdown_and_names_every_attribute(markdown, rest);
        let st = union_run(markdown, rest);
        lemma_find_named(st.0, n.name);
        let r = union_run(markdown, attrs);
        assert(r == union_step(st, n));
        match find_named(st.0, n.name) {
            None => {
                assert(r.0 == st.0.push(n));
                assert(r.0.take(markdown.len() as int) =~= st.0.take(markdown.len() as int));
                assert(r.0[st.0.len() as int] == n);
                assert forall|j: int| 0 <= j < attrs.len() implies names(r.0, (#[trigger] attrs[j]).name) by {
                    if j < rest.len() {
                        assert(rest[j] == attrs[j]);
                        let w = choose|w: int| 0 <= w < st.0.len() && (#[trigger] st.0[w]).name == rest[j].name;
                        assert(r.0[w] == st.0[w]);
                    } else {
                        assert(r.0[st.0.len() as int].name == attrs[j].name);
                    }
                }
                assert forall|i: int| markdown.len() <= i < r.0.len() implies attrs.contains(#[trigger] r.0[i]) by {
                    if i < st.0.len() {
                        assert(r.0[i] == st.0[i]);
                        assert(rest.contains(st.0[i]));
                        let w = choose|w: int| 0 <= w < rest.len() && rest[w] == st.0[i];
                        assert(attrs[w] == rest[w]);
                    } else {
                        assert(attrs[attrs.len() - 1] == n);
                    }
                }
                assert forall|k: int| 0 <= k < r.1.len() implies names(attrs, (#[trigger] r.1[k]).name) by {
                    assert(r.1[k] == st.1[k]);
                    let w = choose|w: int| 0 <= w < rest.len() && (#[trigger] rest[w]).name == st.1[k].name;
                    assert(attrs[w] == rest[w]);
                }
            },
            Some(i) => {
                assert(r.0 == st.0);
                assert forall|j: int| 0 <= j < attrs.len() implies names(r.0, (#[trigger] attrs[j]).name) by {
                    if j < rest.len() {
                        assert(rest[j] == attrs[j]);
                    } else {
                        assert(st.0[i].name == attrs[j].name);
                    }
                }
                assert forall|q: int| markdown.len() <= q < r.0.len() implies attrs.contains(#[trigger] r.0[q]) by {
                    assert(rest.contains(st.0[q]));
                    let w = choose|w: int| 0 <= w < rest.len() && rest[w] == st.0[q];
                    assert(attrs[w] == rest[w]);
                }
                assert forall|k: int| 0 <= k < r.1.len() implies names(attrs, (#[trigger] r.1[k]).name) by {
                    if k < st.1.len() {
                        assert(r.1[k] == st.1[k]);
                        let w = choose|w: int| 0 <= w < rest.len() && (#[trigger] rest[w]).name == st.1[k].name;
                        assert(attrs[w] == rest[w]);
                    } else {
                        assert(r.1[k].name == n.name);
                        assert(attrs[attrs.len() - 1] == n);
                    }
                }
            },
        }
    } else {
        assert(markdown.take(markdown.len() as int) =~= markdown);
    }
}

/// The (file, concept, context) declarations of a spec document.
pub open spec fn tree_decls(t: SpecTreeV) -> Seq<(Seq<char>, Seq<char>, Seq<char>)> {
    match context_id_spec(t.nodes) {
        None => seq![],
        Some(ctx) => concept_names(t.nodes).map_values(|n: Seq<char>| (t.file, n, ctx)),
    }
}

pub open spec fn all_decls(trees: Seq<SpecTreeV>) -> Seq<(Seq<char>, Seq<char>, Seq<char>)>
    decreases trees.len(),
{
    if trees.len() == 0 {
        seq![]
    } else {
        all_decls(trees.drop_last()) + tree_decls(trees.last())
    }
}

/// Whether two paths have the same components (`Path`'s `==`).
pub open spec fn same_path(a: Seq<char>, b: Seq<char>) -> bool {
    is_absolute(a) == is_absolute(b) && path_parts(a) == path_parts(b)
}

/// The context the last declaration of `name` in the document at `path`
/// gives it.
pub open spec fn declared_for(decls: Seq<(Seq<char>, Seq<char>, Seq<char>)>, path: Seq<char>, name: Seq<char>) -> Option<Seq<char>>
    decreases decls.len(),
{
    if decls.len() == 0 {
        None
    } else if same_path(decls.last().0, path) && decls.last().1 == name {
        Some(decls.last().2)
    } else {
        declared_for(decls.drop_last(), path, name)
    }
}

/// A node carrying the context its own document declares for it, where it
/// declares one.
pub open spec fn with_declared(n: ConceptNodeV, decls: Seq<(Seq<char>, Seq<char>, Seq<char>)>) -> ConceptNodeV {
    match declared_for(decls, source_path(n.source), n.name) {
        Some(c) => ConceptNodeV { declared_context: Some(c), ..n },
        None => n,
    }
}

fn source_path_exec(s: &Source) -> (p: &str)
    ensures
        p@ == source_path(s@),
{
    match s {
        Source::Spec { path, .. } => path.as_str(),
        Source::Code { path, .. } => path.as_str(),
    }
}

/// Each spec node with the context declared by the document it was read
/// from: a concept's context is per document, not per name.
pub fn declared_contexts_per_document(nodes: Vec<ConceptNode>, trees: &Vec<SpecTree>) -> (r: Vec<ConceptNode>)
    ensures
        r.deep_view() == nodes.deep_view().map_values(
            |n: ConceptNodeV| with_declared(n, all_decls(trees@.map_values(|t: SpecTree| t@))),
        ),
{
    let ghost tv = trees@.map_values(|t: SpecTree| t@);
    let mut decls: Vec<(bool, Vec<String>, String, String)> = Vec::new();
    let ghost mut dv: Seq<(Seq<char>, Seq<char>, Seq<char>)> = seq![];
    let mut t: usize = 0;
    while t < trees.len()
        invariant
            t <= trees.len(),
            tv == trees@.map_values(|t: SpecTree| t@),
            dv == all_decls(tv.take(t as int)),
            decls.len() == dv.len(),
            forall|j: int|
                0 <= j < decls.len() ==> (#[trigger] decls@[j]).0 == is_absolute(dv[j].0)
                    && decls@[j].1.deep_view() == path_parts(dv[j].0) && decls@[j].2@ == dv[j].1
                    && decls@[j].3@ == dv[j].2,
        decreases trees.len() - t,
    {
        let tree = &trees[t];
        assert(tv[t as int] == tree@);
        assert(tv.take(t + 1).drop_last() =~= tv.take(t as int));
        assert(tv.take(t + 1).last() == tree@);
        let ds = tree.concept_declarations();
        let (abs, parts) = components(tree.file.as_str());
        let ghost base = dv;
        let ghost td = tree_decls(tree@);
        assert(ds.len() == td.len());
        let mut k: usize = 0;
        while k < ds.len()
            invariant
                k <= ds.len() == td.len(),
                td == tree_decls(tree@),
                abs == is_absolute(tree@.file),
                parts.deep_view() == path_parts(tree@.file),
                context_id_spec(tree@.nodes) matches Some(ctx) ==> forall|q: int|
                    0 <= q < ds.len() ==> (#[trigger] ds@[q]).0@ == concept_names(tree@.nodes)[q]
                        && ds@[q].1@ == ctx,
                dv == base + td.take(k as int),
                decls.len() == dv.len(),
                forall|j: int|
                    0 <= j < decls.len() ==> (#[trigger] decls@[j]).0 == is_absolute(dv[j].0)
                        && decls@[j].1.deep_view() == path_parts(dv[j].0) && decls@[j].2@ == dv[j].1
                        && decls@[j].3@ == dv[j].2,
            decreases ds.len() - k,
        {
            let (name, ctx) = ds[k];
            let mut copy: Vec<String> = Vec::new();
            let mut q: usize = 0;
            while q < parts.len()
                invariant
                    q <= parts.len(),
                    copy.deep_view() =~= parts.deep_view().take(q as int),
                decreases parts.len() - q,
            {
                let ghost cb = copy.deep_view();
                let c = parts[q].clone();
                copy.push(c);
                assert(copy.deep_view() =~= cb.push(parts@[q as int]@));
                q = q + 1;
            }
            assert(parts.deep_view().take(q as int) =~= parts.deep_view());
            proof {
                dv = dv.push(td[k as int]);
            }
            decls.push((abs, copy, text_of(name), text_of(ctx)));
            assert(base + td.take(k + 1) =~= dv);
            k = k + 1;
        }
        assert(td.take(k as int) =~= td);
        t = t + 1;
    }
    assert(tv.take(t as int) =~= tv);
    let ghost decl_view = dv;
    let ghost nv = nodes.deep_view();
    let mut out: Vec<ConceptNode> = Vec::new();
    let mut rest = nodes;
    let ghost total = nv.len();
    let mut done: usize = 0;
    while rest.len() > 0
        invariant
            done + rest.len() == total,
            total == nv.len(),
            total <= usize::MAX,
            rest.deep_view() == nv.skip(done as int),
            decl_view == all_decls(tv),
            decls.len() == decl_view.len(),
            forall|j: int|
                0 <= j < decls.len() ==> (#[trigger] decls@[j]).0 == is_absolute(decl_view[j].0)
                    && decls@[j].1.deep_view() == path_parts(decl_view[j].0) && decls@[j].2@
                    == decl_view[j].1 && decls@[j].3@ == decl_view[j].2,
            out.deep_view() =~= nv.take(done as int).map_values(
                |n: ConceptNodeV| with_declared(n, decl_view),
            ),
        decreases rest.len(),
    {
        let ghost before = rest.deep_view();
        let ghost old_vec = rest@;
        let node = rest.remove(0);
        assert(before[0] == old_vec[0].deep_view());
        assert(nv.skip(done as int)[0] == nv[done as int]);
        assert(rest.deep_view() =~= before.drop_first());
        assert(nv.skip(done + 1) =~= nv.skip(done as int).drop_first());
        assert(node@ == nv[done as int]);
        let (nabs, nparts) = components(source_path_exec(&node.source));
        let mut j = decls.len();
        let mut found: Option<usize> = None;
        assert(decl_view.take(j as int) =~= decl_view);
        while j > 0
            invariant
                j <= decls.len(),
                decls.len() == decl_view.len(),
                forall|q: int|
                    0 <= q < decls.len() ==> (#[trigger] decls@[q]).0 == is_absolute(decl_view[q].0)
                        && decls@[q].1.deep_view() == path_parts(decl_view[q].0) && decls@[q].2@
                        == decl_view[q].1 && decls@[q].3@ == decl_view[q].2,
                nabs == is_absolute(source_path(node@.source)),
                nparts.deep_view() == path_parts(source_path(node@.source)),
                found is None ==> declared_for(decl_view, source_path(node@.source), node@.name)
                    == declared_for(decl_view.take(j as int), source_path(node@.source), node@.name),
                found matches Some(q) ==> q < decls.len() && declared_for(
                    decl_view,
                    source_path(node@.source),
                    node@.name,
                ) == Some(decl_view[q as int].2),
            decreases j,
        {
            assert(decl_view.take(j as int).drop_last() =~= decl_view.take(j - 1));
            assert(decl_view.take(j as int).last() == decl_view[j - 1]);
            if found.is_none() && decls[j - 1].0 == nabs && parts_equal(&decls[j - 1].1, &nparts)
                && same_text(decls[j - 1].2.as_str(), node.name.as_str()) {
                found = Some(j - 1);
            }
            j = j - 1;
        }
        assert(decl_view.take(0) =~= Seq::<(Seq<char>, Seq<char>, Seq<char>)>::empty());
        let updated = match found {
            Some(q) => node.with_declared_context(Some(decls[q].3.clone())),
            None => node,
        };
        let ghost ob = out.deep_view();
        out.push(updated);
        assert(out.deep_view() =~= ob.push(with_declared(nv[done as int], decl_view)));
        done = done + 1;
    }
    assert(nv.take(done as int) =~= nv);
    out
}

/// Two contexts whose owned units nest: the outer context's unit contains
/// the inner context's.
#[derive(Debug, Clone, PartialEq, Eq)]
pub struct OwnershipAmbiguity {
    pub outer_context: String,
    pub outer: OwnedUnit,
    pub inner_context: String,
    pub inner: OwnedUnit,
}

pub open spec fn ambiguity_message(a: OwnershipAmbiguity) -> Seq<char> {
    "could not run the declared surface: context `"@ + a.outer_context@ + "` owns `"@ + a.outer@
        + "` and context `"@ + a.inner_context@ + "` owns `"@ + a.inner@ + AMBIGUITY_TAIL@
}

pub const AMBIGUITY_TAIL: &'static str = "`, which nests inside it, so which context owns an item beneath the inner prefix has two answers; resolving it by length would pick one silently (graph-specs-011-php-ladder#3.2). Longest-wins still stands inside a single context's own Owns block";

/// The refusal of a keyspace whose declared surface has two answers for
/// who owns an item.
pub fn ambiguous_ownership(keyspace: &str, a: &OwnershipAmbiguity) -> (e: ReaderError)
    ensures
        e@ == (ReaderErrorV::ParseFailed { path: keyspace@, line: 0, message: ambiguity_message(*a) }),
{
    let mut m = text_of("could not run the declared surface: context `");
    push_str(&mut m, a.outer_context.as_str());
    push_str(&mut m, "` owns `");
    push_str(&mut m, a.outer.0.as_str());
    push_str(&mut m, "` and context `");
    push_str(&mut m, a.inner_context.as_str());
    push_str(&mut m, "` owns `");
    push_str(&mut m, a.inner.0.as_str());
    push_str(&mut m, AMBIGUITY_TAIL);
    ReaderError::ParseFailed { path: text_of(keyspace), line: 0, message: m }
}

/// Every prefix the contexts declare, context by context, each in the order
/// its `Owns` block lists it.
pub open spec fn declared_prefixes(cs: Seq<ContextDeclV>) -> Seq<Seq<char>>
    decreases cs.len(),
{
    if cs.len() == 0 {
        seq![]
    } else {
        declared_prefixes(cs.drop_last()) + cs.last().owned_units
    }
}

/// Whether `v` is the finding that the declared surface admits nothing of
/// a keyspace that has concept-rung items.
pub open spec fn admits_nothing(v: Violation, prefixes: Seq<Seq<char>>, items: usize, keyspace: Seq<char>) -> bool {
    v matches Violation::Context(ContextViolation::SurfaceAdmitsNothing { declared_prefixes, concept_rung_items, keyspace: k })
        && declared_prefixes@.map_values(|u: OwnedUnit| u@) == prefixes
        && concept_rung_items == items && k@ == keyspace
}

/// The check's answer when the declared surface reads no concept from a
/// keyspace: where the keyspace does hold concept-rung items, the run ends
/// with that one finding in place of a report of every spec concept as
/// missing; otherwise the run goes on (`None`).
pub fn surface_admits_nothing(
    facts_empty: bool,
    concept_rung_items: usize,
    contexts: &Vec<ContextDecl>,
    keyspace: &str,
) -> (r: Option<CheckOutcome>)
    ensures
        r is Some <==> facts_empty && concept_rung_items > 0,
        r matches Some(o) ==> o.violations@.len() == 1 && admits_nothing(
            o.violations@[0],
            declared_prefixes(contexts@.map_values(|c: ContextDecl| c@)),
            concept_rung_items,
            keyspace@,
        ) && o.pending@.len() == 0 && o.realized@.len() == 0
            && o.retirement_incomplete@.len() == 0 && o.retirement_complete@.len() == 0,
{
    if !(facts_empty && concept_rung_items > 0) {
        return None;
    }
    let ghost cv = contexts@.map_values(|c: ContextDecl| c@);
    let mut prefixes: Vec<OwnedUnit> = Vec::new();
    let mut i: usize = 0;
    while i < contexts.len()
        invariant
            i <= contexts.len(),
            cv == contexts@.map_values(|c: ContextDecl| c@),
            prefixes@.map_values(|u: OwnedUnit| u@) == declared_prefixes(cv.take(i as int)),
        decreases contexts.len() - i,
    {
        let units = &contexts[i].owned_units;
        assert(cv.take(i + 1).drop_last() =~= cv.take(i as int));
        assert(cv.take(i + 1).last() == contexts@[i as int]@);
        let ghost base = prefixes@.map_values(|u: OwnedUnit| u@);
        let mut k: usize = 0;
        while k < units.len()
            invariant
                k <= units.len(),
                units@.map_values(|u: OwnedUnit| u@) == contexts@[i as int]@.owned_units,
                prefixes@.map_values(|u: OwnedUnit| u@) == base + units@.map_values(
                    |u: OwnedUnit| u@,
                ).take(k as int),
            decreases units.len() - k,
        {
            let ghost pb = prefixes@;
            prefixes.push(OwnedUnit(units[k].0.clone()));
            assert(prefixes@ == pb.push(prefixes@[pb.len() as int]));
            assert(prefixes@.map_values(|u: OwnedUnit| u@) =~= pb.map_values(|u: OwnedUnit| u@).push(
                units@[k as int]@,
            ));
            assert(units@.map_values(|u: OwnedUnit| u@).take(k + 1) =~= units@.map_values(
                |u: OwnedUnit| u@,
            ).take(k as int).push(units@[k as int]@));
            k = k + 1;
        }
        assert(units@.map_values(|u: OwnedUnit| u@).take(k as int) =~= units@.map_values(
            |u: OwnedUnit| u@,
        ));
        i = i + 1;
    }
    assert(cv.take(i as int) =~= cv);
    let mut o = CheckOutcome::empty();
    o.violations.push(
        Violation::Context(
            ContextViolation::SurfaceAdmitsNothing {
                declared_prefixes: prefixes,
                concept_rung_items,
                keyspace: text_of(keyspace),
            },
        ),
    );
    Some(o)
}

} // verus!
