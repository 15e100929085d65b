//! The relationships a Rust keyspace records, read into the shape the
//! source walk gives: an impl block's `IMPLEMENTS_FOR` and `IMPLEMENTS`
//! edges joined into one type-to-trait edge, a field's type read as
//! `DEPENDS_ON` edges from the type that holds it, and a function's return
//! type as a `RETURNS` edge from the type that owns it (its inner types as
//! `DEPENDS_ON`). As in the walk, an edge whose target is no concept is
//! dropped.
use vstd::prelude::*;
use crate::graph::{ConceptNode, ConceptRef, ConceptRefV, Edge, EdgeV};
use crate::keyspace::{
    is_item, is_item_concept, item_concept, item_to_concept, prop, prop_str, rust_concepts,
    rust_concepts_spec, FactEdge, FactNode,
};
use crate::model::{EdgeKind, Source, SourceV};
use crate::paths::same_text;
use crate::php_keyspace::{node_of, node_of_exec};
use crate::text::{chars_of, find_in, find_str, rfind_in, rfind_str, string_of};

verus! {

/// A character of a Rust identifier.
pub open spec fn is_ident_char(c: char) -> bool {
    ('a' <= c && c <= 'z') || ('A' <= c && c <= 'Z') || ('0' <= c && c <= '9') || c == '_'
}

pub open spec fn emit(hs: Seq<Seq<char>>, cur: Seq<char>) -> Seq<Seq<char>> {
    if cur.len() == 0 {
        hs
    } else {
        hs.push(cur)
    }
}

/// The heads read so far and the segment being read.
pub open spec fn head_scan(s: Seq<char>) -> (Seq<Seq<char>>, Seq<char>)
    decreases s.len(),
{
    if s.len() == 0 {
        (seq![], seq![])
    } else {
        let (hs, cur) = head_scan(s.drop_last());
        let c = s.last();
        if is_ident_char(c) {
            (hs, cur.push(c))
        } else if c == ':' {
            (hs, seq![])
        } else {
            (emit(hs, cur), seq![])
        }
    }
}

/// Every head of a type expression, in order: each path it names, by its
/// last segment (`Vec<other::Held>` gives `Vec` and `Held`).
pub open spec fn type_heads(s: Seq<char>) -> Seq<Seq<char>> {
    emit(head_scan(s).0, head_scan(s).1)
}

/// The heads of a signature's return type: none without `->`.
pub open spec fn return_heads(sig: Seq<char>) -> Seq<Seq<char>> {
    match find_str(sig, "->"@) {
        Some(k) => type_heads(sig.skip(k + 2)),
        None => seq![],
    }
}

/// An edge between two concepts named by their names alone.
pub open spec fn rel_edge(source: Seq<char>, kind: EdgeKind, target: Seq<char>, at: SourceV) -> EdgeV {
    EdgeV {
        source_concept: ConceptRefV { name: source, context: None, unit: None },
        kind,
        target: ConceptRefV { name: target, context: None, unit: None },
        raw_target: target,
        source: at,
    }
}

/// One edge of `kind` from `source` to each head.
pub open spec fn head_edges(source: Seq<char>, kind: EdgeKind, hs: Seq<Seq<char>>, at: SourceV) -> Seq<EdgeV> {
    hs.map_values(|h: Seq<char>| rel_edge(source, kind, h, at))
}

/// A return type's edges: `RETURNS` to its first head, `DEPENDS_ON` to the
/// rest.
pub open spec fn return_edges(source: Seq<char>, hs: Seq<Seq<char>>, at: SourceV) -> Seq<EdgeV> {
    if hs.len() == 0 {
        seq![]
    } else {
        seq![rel_edge(source, EdgeKind::Returns, hs[0], at)] + head_edges(
            source,
            EdgeKind::DependsOn,
            hs.skip(1),
            at,
        )
    }
}

/// The concept of the first item of the first `k` nodes whose qualified
/// name is `q`.
pub open spec fn owner_upto(nodes: Seq<FactNode>, root: Seq<char>, q: Seq<char>, k: nat) -> Option<(Seq<char>, SourceV)>
    decreases k,
{
    if k == 0 {
        None
    } else {
        match owner_upto(nodes, root, q, (k - 1) as nat) {
            Some(x) => Some(x),
            None => {
                let n = nodes[k - 1];
                if is_item(n) && prop_str(n, "qname"@) == Some(q) {
                    item_concept(n, root)
                } else {
                    None
                }
            },
        }
    }
}

pub open spec fn owner_concept(nodes: Seq<FactNode>, root: Seq<char>, q: Seq<char>) -> Option<(Seq<char>, SourceV)> {
    owner_upto(nodes, root, q, nodes.len())
}

/// The target of the first edge of the first `k` labelled `label` out of
/// the node `id`.
pub open spec fn first_dst_upto(edges: Seq<FactEdge>, id: Seq<char>, label: Seq<char>, k: nat) -> Option<Seq<char>>
    decreases k,
{
    if k == 0 {
        None
    } else {
        match first_dst_upto(edges, id, label, (k - 1) as nat) {
            Some(x) => Some(x),
            None => {
                let e = edges[k - 1];
                if e.src@ == id && e.label@ == label {
                    Some(e.dst@)
                } else {
                    None
                }
            },
        }
    }
}

pub open spec fn first_dst(edges: Seq<FactEdge>, id: Seq<char>, label: Seq<char>) -> Option<Seq<char>> {
    first_dst_upto(edges, id, label, edges.len())
}

/// The type-to-trait edge of an impl block: the concept its
/// `IMPLEMENTS_FOR` edge reaches implements the item its `IMPLEMENTS` edge
/// reaches; nothing where either half is missing.
pub open spec fn impl_edges(nodes: Seq<FactNode>, edges: Seq<FactEdge>, root: Seq<char>, id: Seq<char>) -> Seq<EdgeV> {
    match (first_dst(edges, id, "IMPLEMENTS_FOR"@), first_dst(edges, id, "IMPLEMENTS"@)) {
        (Some(t), Some(r)) => match (node_of(nodes, t), node_of(nodes, r)) {
            (Some(tn), Some(rn)) => match (item_concept(tn, root), prop_str(rn, "name"@)) {
                (Some(c), Some(name)) => seq![rel_edge(c.0, EdgeKind::Implements, name, c.1)],
                _ => seq![],
            },
            _ => seq![],
        },
        _ => seq![],
    }
}

/// The edges one node records.
pub open spec fn node_edges(nodes: Seq<FactNode>, edges: Seq<FactEdge>, root: Seq<char>, n: FactNode) -> Seq<EdgeV> {
    if is_item(n) && prop_str(n, "kind"@) == Some("impl_block"@) {
        impl_edges(nodes, edges, root, n.id@)
    } else if n.label@ == "Field"@ {
        match (prop_str(n, "parent_qname"@), prop_str(n, "type_normalized"@)) {
            (Some(p), Some(t)) => match owner_concept(nodes, root, p) {
                Some(c) => head_edges(c.0, EdgeKind::DependsOn, type_heads(t), c.1),
                None => seq![],
            },
            _ => seq![],
        }
    } else if is_item(n) {
        match (prop_str(n, "signature"@), prop_str(n, "qname"@)) {
            (Some(sig), Some(q)) => match rfind_str(q, "::"@) {
                Some(k) => match owner_concept(nodes, root, q.take(k)) {
                    Some(c) => return_edges(c.0, return_heads(sig), c.1),
                    None => seq![],
                },
                None => seq![],
            },
            _ => seq![],
        }
    } else {
        seq![]
    }
}

pub open spec fn raw_upto(nodes: Seq<FactNode>, edges: Seq<FactEdge>, root: Seq<char>, k: nat) -> Seq<EdgeV>
    decreases k,
{
    if k == 0 {
        seq![]
    } else {
        raw_upto(nodes, edges, root, (k - 1) as nat) + node_edges(nodes, edges, root, nodes[k - 1])
    }
}

pub open spec fn has_name(cs: Seq<(Seq<char>, SourceV)>, name: Seq<char>) -> bool {
    exists|j: int| 0 <= j < cs.len() && (#[trigger] cs[j]).0 == name
}

/// The edges whose target is one of the concepts `cs`.
pub open spec fn keep_known(es: Seq<EdgeV>, cs: Seq<(Seq<char>, SourceV)>) -> Seq<EdgeV>
    decreases es.len(),
{
    if es.len() == 0 {
        seq![]
    } else if has_name(cs, es.last().target.name) {
        keep_known(es.drop_last(), cs).push(es.last())
    } else {
        keep_known(es.drop_last(), cs)
    }
}

/// The relationships of a Rust keyspace, node by node.
pub open spec fn rust_relationships_spec(nodes: Seq<FactNode>, edges: Seq<FactEdge>, root: Seq<char>) -> Seq<EdgeV> {
    keep_known(raw_upto(nodes, edges, root, nodes.len()), rust_concepts_spec(nodes, root))
}

fn is_ident_char_exec(c: char) -> (b: bool)
    ensures
        b == is_ident_char(c),
{
    ('a' <= c && c <= 'z') || ('A' <= c && c <= 'Z') || ('0' <= c && c <= '9') || c == '_'
}

fn push_char(s: &mut String, c: char)
    ensures
        final(s)@ == old(s)@.push(c),
{
    s.push(c);
}

/// The heads of `v[from..]`.
fn heads_of(v: &Vec<char>, from: usize) -> (r: Vec<String>)
    requires
        from <= v.len(),
    ensures
        r.deep_view() == type_heads(v@.skip(from as int)),
{
    let ghost s = v@.skip(from as int);
    let mut hs: Vec<String> = Vec::new();
    let mut cur = String::new();
    let mut i: usize = from;
    assert(s.take(0) =~= Seq::<char>::empty());
    assert(hs.deep_view() =~= Seq::<Seq<char>>::empty());
    while i < v.len()
        invariant
            from <= i <= v.len(),
            s == v@.skip(from as int),
            head_scan(s.take(i - from)) == (hs.deep_view(), cur@),
        decreases v.len() - i,
    {
        let c = v[i];
        assert(s.take(i - from + 1).drop_last() =~= s.take(i - from));
        assert(s.take(i - from + 1).last() == c);
        if is_ident_char_exec(c) {
            push_char(&mut cur, c);
        } else if c == ':' {
            cur = String::new();
        } else {
            let ghost h0 = hs.deep_view();
            let ghost cv = cur@;
            if cur.unicode_len() > 0 {
                hs.push(cur);
                assert(hs.deep_view() =~= h0.push(cv));
            }
            cur = String::new();
        }
        i = i + 1;
    }
    assert(s.take(i - from) =~= s);
    if cur.unicode_len() > 0 {
        let ghost h0 = hs.deep_view();
        let ghost cv = cur@;
        hs.push(cur);
        assert(hs.deep_view() =~= h0.push(cv));
    }
    hs
}

fn edge_of(source: &str, kind: EdgeKind, target: &str, at: &Source) -> (e: Edge)
    ensures
        e@ == rel_edge(source@, kind, target@, at@),
{
    Edge {
        source_concept: ConceptRef::named(source.to_string()),
        kind,
        target: ConceptRef::named(target.to_string()),
        raw_target: target.to_string(),
        source: crate::assembly::source_copy(at),
    }
}

fn push_head_edges(out: &mut Vec<Edge>, source: &str, kind: EdgeKind, hs: &Vec<String>, from: usize, at: &Source)
    requires
        from <= hs.len(),
    ensures
        final(out).deep_view() == old(out).deep_view() + head_edges(
            source@,
            kind,
            hs.deep_view().skip(from as int),
            at@,
        ),
{
    let ghost base = out.deep_view();
    let ghost hv = hs.deep_view().skip(from as int);
    let mut i: usize = from;
    while i < hs.len()
        invariant
            from <= i <= hs.len(),
            hv == hs.deep_view().skip(from as int),
            out.deep_view() == base + head_edges(source@, kind, hv.take(i - from), at@),
        decreases hs.len() - i,
    {
        let ghost o0 = out.deep_view();
        out.push(edge_of(source, kind, hs[i].as_str(), at));
        assert(hv.take(i - from + 1) =~= hv.take(i - from).push(hs[i as int]@));
        assert(out.deep_view() =~= o0.push(rel_edge(source@, kind, hs[i as int]@, at@)));
        assert(head_edges(source@, kind, hv.take(i - from + 1), at@) =~= head_edges(
            source@,
            kind,
            hv.take(i - from),
            at@,
        ).push(rel_edge(source@, kind, hs[i as int]@, at@)));
        i = i + 1;
    }
    assert(hv.take(i - from) =~= hv);
}

fn owner_exec(nodes: &Vec<FactNode>, root: &str, q: &str) -> (r: Option<ConceptNode>)
    ensures
        r.is_some() == owner_concept(nodes@, root@, q@).is_some(),
        r matches Some(c) ==> is_item_concept(c, owner_concept(nodes@, root@, q@).unwrap()),
{
    let mut i: usize = 0;
    while i < nodes.len()
        invariant
            i <= nodes.len(),
            owner_upto(nodes@, root@, q@, i as nat) is None,
        decreases nodes.len() - i,
    {
        let n = &nodes[i];
        if same_text(n.label.as_str(), "Item") {
            if let Some(qn) = prop(n, "qname") {
                if same_text(qn, q) {
                    let c = item_to_concept(n, root);
                    if c.is_some() {
                        proof { lemma_owner_stays(nodes@, root@, q@, (i + 1) as nat, nodes@.len()); }
                        return c;
                    }
                }
            }
        }
        i = i + 1;
    }
    None
}

proof fn lemma_owner_stays(nodes: Seq<FactNode>, root: Seq<char>, q: Seq<char>, k: nat, m: nat)
    requires
        k <= m <= nodes.len(),
        owner_upto(nodes, root, q, k).is_some(),
    ensures
        owner_upto(nodes, root, q, m) == owner_upto(nodes, root, q, k),
    decreases m - k,
{
    if k < m {
        lemma_owner_stays(nodes, root, q, k, (m - 1) as nat);
    }
}

proof fn lemma_first_dst_stays(edges: Seq<FactEdge>, id: Seq<char>, label: Seq<char>, k: nat, m: nat)
    requires
        k <= m <= edges.len(),
        first_dst_upto(edges, id, label, k).is_some(),
    ensures
        first_dst_upto(edges, id, label, m) == first_dst_upto(edges, id, label, k),
    decreases m - k,
{
    if k < m {
        lemma_first_dst_stays(edges, id, label, k, (m - 1) as nat);
    }
}

fn first_dst_exec<'a>(edges: &'a Vec<FactEdge>, id: &str, label: &str) -> (r: Option<&'a str>)
    ensures
        r.is_some() == first_dst(edges@, id@, label@).is_some(),
        r matches Some(d) ==> first_dst(edges@, id@, label@) == Some(d@),
{
    let mut i: usize = 0;
    while i < edges.len()
        invariant
            i <= edges.len(),
            first_dst_upto(edges@, id@, label@, i as nat) is None,
        decreases edges.len() - i,
    {
        let e = &edges[i];
        if same_text(e.src.as_str(), id) && same_text(e.label.as_str(), label) {
            proof { lemma_first_dst_stays(edges@, id@, label@, (i + 1) as nat, edges@.len()); }
            return Some(e.dst.as_str());
        }
        i = i + 1;
    }
    None
}

fn push_impl_edges(out: &mut Vec<Edge>, nodes: &Vec<FactNode>, edges: &Vec<FactEdge>, root: &str, id: &str)
    ensures
        final(out).deep_view() == old(out).deep_view() + impl_edges(nodes@, edges@, root@, id@),
{
    let t = match first_dst_exec(edges, id, "IMPLEMENTS_FOR") {
        Some(t) => t,
        None => return,
    };
    let r = match first_dst_exec(edges, id, "IMPLEMENTS") {
        Some(r) => r,
        None => return,
    };
    let tn = match node_of_exec(nodes, t) {
        Some(n) => n,
        None => return,
    };
    let rn = match node_of_exec(nodes, r) {
        Some(n) => n,
        None => return,
    };
    let c = match item_to_concept(tn, root) {
        Some(c) => c,
        None => return,
    };
    let name = match prop(rn, "name") {
        Some(x) => x,
        None => return,
    };
    let ghost o0 = out.deep_view();
    out.push(edge_of(c.name.as_str(), EdgeKind::Implements, name, &c.source));
    assert(out.deep_view() =~= o0 + impl_edges(nodes@, edges@, root@, id@));
}

fn push_node_edges(out: &mut Vec<Edge>, nodes: &Vec<FactNode>, edges: &Vec<FactEdge>, root: &str, n: &FactNode)
    ensures
        final(out).deep_view() == old(out).deep_view() + node_edges(nodes@, edges@, root@, *n),
{
    let item = same_text(n.label.as_str(), "Item");
    let impl_block = match prop(n, "kind") {
        Some(k) => same_text(k, "impl_block"),
        None => false,
    };
    if item && impl_block {
        push_impl_edges(out, nodes, edges, root, n.id.as_str());
        return;
    }
    if same_text(n.label.as_str(), "Field") {
        let (p, t) = match (prop(n, "parent_qname"), prop(n, "type_normalized")) {
            (Some(p), Some(t)) => (p, t),
            _ => {
                assert(old(out).deep_view() =~= old(out).deep_view() + Seq::<EdgeV>::empty());
                return;
            },
        };
        let c = match owner_exec(nodes, root, p) {
            Some(c) => c,
            None => {
                assert(old(out).deep_view() =~= old(out).deep_view() + Seq::<EdgeV>::empty());
                return;
            },
        };
        let tv = chars_of(t);
        let hs = heads_of(&tv, 0);
        assert(tv@.skip(0) =~= t@);
        assert(hs.deep_view().skip(0) =~= hs.deep_view());
        push_head_edges(out, c.name.as_str(), EdgeKind::DependsOn, &hs, 0, &c.source);
        return;
    }
    if !item {
        assert(old(out).deep_view() =~= old(out).deep_view() + Seq::<EdgeV>::empty());
        return;
    }
    let (sig, q) = match (prop(n, "signature"), prop(n, "qname")) {
        (Some(sig), Some(q)) => (sig, q),
        _ => {
            assert(old(out).deep_view() =~= old(out).deep_view() + Seq::<EdgeV>::empty());
            return;
        },
    };
    let qv = chars_of(q);
    let k = match rfind_in(&qv, "::") {
        Some(k) => k,
        None => {
            assert(old(out).deep_view() =~= old(out).deep_view() + Seq::<EdgeV>::empty());
            return;
        },
    };
    let owner = string_of(&qv, 0, k);
    assert(qv@.subrange(0, k as int) =~= q@.take(k as int));
    let c = match owner_exec(nodes, root, owner.as_str()) {
        Some(c) => c,
        None => {
            assert(old(out).deep_view() =~= old(out).deep_view() + Seq::<EdgeV>::empty());
            return;
        },
    };
    let sv = chars_of(sig);
    proof {
        reveal_strlit("->");
    }
    let hs = match find_in(&sv, "->") {
        Some(a) => heads_of(&sv, a + 2),
        None => Vec::new(),
    };
    assert(hs.deep_view() =~= return_heads(sig@));
    if hs.len() == 0 {
        assert(old(out).deep_view() =~= old(out).deep_view() + Seq::<EdgeV>::empty());
        return;
    }
    let ghost o0 = out.deep_view();
    out.push(edge_of(c.name.as_str(), EdgeKind::Returns, hs[0].as_str(), &c.source));
    push_head_edges(out, c.name.as_str(), EdgeKind::DependsOn, &hs, 1, &c.source);
    assert(out.deep_view() =~= o0 + return_edges(c.name@, hs.deep_view(), c.source@));
}

fn is_concept_name(cs: &Vec<ConceptNode>, name: &str) -> (b: bool)
    ensures
        b == exists|j: int| 0 <= j < cs.len() && (#[trigger] cs@[j]).name@ == name@,
{
    let mut j: usize = 0;
    while j < cs.len()
        invariant
            j <= cs.len(),
            forall|k: int| 0 <= k < j ==> (#[trigger] cs@[k]).name@ != name@,
        decreases cs.len() - j,
    {
        if same_text(cs[j].name.as_str(), name) {
            return true;
        }
        j = j + 1;
    }
    false
}

/// The relationships of a Rust keyspace whose items lie under `root`: for
/// each node in order, the type-to-trait edge of an impl block, the
/// `DEPENDS_ON` edges of a field, the `RETURNS` (and `DEPENDS_ON`) edges of
/// a signature; of them, those whose target is one of the keyspace's
/// concepts.
pub fn rust_relationships(nodes: &Vec<FactNode>, edges: &Vec<FactEdge>, root: &str) -> (r: Vec<Edge>)
    ensures
        r.deep_view() == rust_relationships_spec(nodes@, edges@, root@),
{
    let mut raw: Vec<Edge> = Vec::new();
    let mut i: usize = 0;
    assert(raw.deep_view() =~= Seq::<EdgeV>::empty());
    while i < nodes.len()
        invariant
            i <= nodes.len(),
            raw.deep_view() == raw_upto(nodes@, edges@, root@, i as nat),
        decreases nodes.len() - i,
    {
        push_node_edges(&mut raw, nodes, edges, root, &nodes[i]);
        i = i + 1;
    }
    let concepts = rust_concepts(nodes, root);
    let ghost cs = rust_concepts_spec(nodes@, root@);
    let ghost rv = raw.deep_view();
    let mut out: Vec<Edge> = Vec::new();
    let mut k: usize = 0;
    assert(out.deep_view() =~= keep_known(rv.take(0), cs));
    while k < raw.len()
        invariant
            k <= raw.len(),
            rv == raw.deep_view(),
            cs == rust_concepts_spec(nodes@, root@),
            concepts.len() == cs.len(),
            forall|j: int| 0 <= j < concepts.len() ==> is_item_concept(#[trigger] concepts@[j], cs[j]),
            out.deep_view() == keep_known(rv.take(k as int), cs),
        decreases raw.len() - k,
    {
        assert(rv.take(k + 1).drop_last() =~= rv.take(k as int));
        assert(rv.take(k + 1).last() == raw@[k as int]@);
        let known = is_concept_name(&concepts, raw[k].target.name.as_str());
        assert(known == has_name(cs, raw@[k as int]@.target.name)) by {
            if known {
                let j = choose|j: int| 0 <= j < concepts.len() && (#[trigger] concepts@[j]).name@ == raw@[k as int].target.name@;
                assert(cs[j].0 == raw@[k as int]@.target.name);
            }
            if has_name(cs, raw@[k as int]@.target.name) {
                let j = choose|j: int| 0 <= j < cs.len() && (#[trigger] cs[j]).0 == raw@[k as int]@.target.name;
                assert(concepts@[j].name@ == raw@[k as int].target.name@);
            }
        }
        if known {
            let ghost o0 = out.deep_view();
            out.push(raw[k].clone_edge());
            assert(out.deep_view() =~= o0.push(raw@[k as int]@));
        }
        k = k + 1;
    }
    assert(rv.take(k as int) =~= rv);
    out
}

} // verus!
