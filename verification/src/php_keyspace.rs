//! The PHP producer's keyspace: containment read by traversing `IN_MODULE`
//! and `IN_CRATE` edges, concepts on the class/interface rung, and the
//! relationships between them.
use vstd::prelude::*;
use crate::graph::{ConceptNode, ConceptRef, ConceptRefV, Edge, EdgeV, SignatureState};
use crate::keyspace::{is_item, prop, prop_line, prop_str, prop_usize, FactEdge, FactNode};
use crate::model::{EdgeKind, LocationKind, Marker, OwnedUnit, Polarity, Provenance, ProvenanceV, ReaderError, ReaderErrorV, Source, SourceV};
use crate::paths::same_text;
use crate::surface::{surface_test_unit, surface_unit, DeclaredSurface};
use crate::order::{holds, insert_sorted, strictly_sorted, triple_lt, tview};
use crate::paths::trim_start_char;
use crate::text::{chars_of, find_in, find_str, string_of};
use crate::paths::skip_char;
use crate::text::{push_str, text_of};

verus! {

/// The constructs on the concept rung.
pub open spec fn is_concept_rung(c: Seq<char>) -> bool {
    c == "class_declaration"@ || c == "interface_declaration"@
}

/// The constructs the reader knows: those on the concept rung and those
/// ratified as below it. Any other value is refused, never dropped.
pub open spec fn is_known_construct(c: Seq<char>) -> bool {
    is_concept_rung(c) || c == "trait_declaration"@ || c == "method_declaration"@ || c
        == "function_definition"@
}

pub fn concept_rung(c: &str) -> (r: bool)
    ensures
        r == is_concept_rung(c@),
{
    same_text(c, "class_declaration") || same_text(c, "interface_declaration")
}

fn known_construct(c: &str) -> (r: bool)
    ensures
        r == is_known_construct(c@),
{
    concept_rung(c) || same_text(c, "trait_declaration") || same_text(c, "method_declaration")
        || same_text(c, "function_definition")
}

/// Whether any node carries a PHP construct.
pub fn declares_php(nodes: &Vec<FactNode>) -> (r: bool)
    ensures
        r == exists|i: int|
            0 <= i < nodes.len() && prop_str(#[trigger] nodes@[i], "php_construct"@).is_some(),
{
    let mut i: usize = 0;
    while i < nodes.len()
        invariant
            i <= nodes.len(),
            forall|j: int| 0 <= j < i ==> prop_str(#[trigger] nodes@[j], "php_construct"@).is_none(),
        decreases nodes.len() - i,
    {
        if prop(&nodes[i], "php_construct").is_some() {
            return true;
        }
        i = i + 1;
    }
    false
}

/// Whether a node is an item on the concept rung.
pub open spec fn is_rung_item(n: FactNode) -> bool {
    is_item(n) && (prop_str(n, "php_construct"@) matches Some(c) && is_concept_rung(c))
}

pub open spec fn rung_count(nodes: Seq<FactNode>) -> nat
    decreases nodes.len(),
{
    if nodes.len() == 0 {
        0
    } else {
        rung_count(nodes.drop_last()) + if is_rung_item(nodes.last()) {
            1nat
        } else {
            0nat
        }
    }
}

proof fn lemma_rung_count_le(nodes: Seq<FactNode>)
    ensures
        rung_count(nodes) <= nodes.len(),
    decreases nodes.len(),
{
    if nodes.len() > 0 {
        lemma_rung_count_le(nodes.drop_last());
    }
}

/// How many items stand on the concept rung.
pub fn concept_rung_items(nodes: &Vec<FactNode>) -> (r: usize)
    ensures
        r == rung_count(nodes@),
{
    let mut count: usize = 0;
    let mut i: usize = 0;
    while i < nodes.len()
        invariant
            i <= nodes.len(),
            count == rung_count(nodes@.take(i as int)),
        decreases nodes.len() - i,
    {
        assert(nodes@.take(i + 1).drop_last() =~= nodes@.take(i as int));
        proof {
            lemma_rung_count_le(nodes@.take(i as int));
        }
        let n = &nodes[i];
        if same_text(n.label.as_str(), "Item") {
            if let Some(c) = prop(n, "php_construct") {
                if concept_rung(c) {
                    count = count + 1;
                }
            }
        }
        i = i + 1;
    }
    assert(nodes@.take(i as int) =~= nodes@);
    count
}

/// The name a PHP item is called by in a refusal.
pub open spec fn refused_name(n: FactNode) -> Seq<char> {
    match prop_str(n, "qname"@) {
        Some(q) => q,
        None => match prop_str(n, "name"@) {
            Some(x) => x,
            None => "<unnamed>"@,
        },
    }
}

pub const RUNG_TAIL: &'static str = "; the concept rung is told by `php_construct` alone (graph-specs-011-php-ladder#3.1) over the producer vocabulary cfdb-045-polyglot-relationship-edges#3.2 records, and a value outside it is refused rather than dropped off the rung in silence";

/// The refusal of an item whose construct is missing or unknown.
pub open spec fn unknown_rung_spec(n: FactNode, construct: Option<Seq<char>>) -> ReaderErrorV {
    let named = refused_name(n);
    let cause = match construct {
        None => "php item `"@ + named + "` carries no `php_construct`"@,
        Some(c) => "php item `"@ + named + "` carries the unknown `php_construct` `"@ + c + "`"@,
    };
    ReaderErrorV::ParseFailed { path: named, line: 0, message: cause + RUNG_TAIL@ }
}

pub fn unknown_rung(n: &FactNode, construct: Option<&str>) -> (e: ReaderError)
    ensures
        e@ == unknown_rung_spec(
            *n,
            match construct {
                Some(c) => Some(c@),
                None => None,
            },
        ),
{
    let named: &str = match prop(n, "qname") {
        Some(q) => q,
        None => match prop(n, "name") {
            Some(x) => x,
            None => "<unnamed>",
        },
    };
    let mut message = text_of("php item `");
    push_str(&mut message, named);
    match construct {
        None => push_str(&mut message, "` carries no `php_construct`"),
        Some(c) => {
            push_str(&mut message, "` carries the unknown `php_construct` `");
            push_str(&mut message, c);
            push_str(&mut message, "`");
        },
    }
    push_str(&mut message, RUNG_TAIL);
    ReaderError::ParseFailed { path: text_of(named), line: 0, message }
}

pub const CONTAINMENT_TAIL: &'static str = "; containment on the PHP path is read by traversing `IN_MODULE` and `IN_CRATE` because the PHP `:Item` is prop-less (graph-specs-010-abstraction-level-equivalence#11.5), and a malformed traversal is a could-not-run rather than a silent fallback";

/// The refusal of a containment traversal that has no single answer.
pub open spec fn malformed_spec(node: Option<FactNode>, id: Seq<char>, cause: Seq<char>) -> ReaderErrorV {
    let named = match node {
        Some(n) => match prop_str(n, "qname"@) {
            Some(q) => q,
            None => match prop_str(n, "name"@) {
                Some(x) => x,
                None => id,
            },
        },
        None => id,
    };
    ReaderErrorV::ParseFailed {
        path: named,
        line: 0,
        message: "could not run the containment traversal for `"@ + named + "`: "@ + cause
            + CONTAINMENT_TAIL@,
    }
}

pub fn malformed_containment(node: Option<&FactNode>, id: &str, cause: &str) -> (e: ReaderError)
    ensures
        e@ == malformed_spec(
            match node {
                Some(n) => Some(*n),
                None => None,
            },
            id@,
            cause@,
        ),
{
    let named: &str = match node {
        Some(n) => match prop(n, "qname") {
            Some(q) => q,
            None => match prop(n, "name") {
                Some(x) => x,
                None => id,
            },
        },
        None => id,
    };
    let mut message = text_of("could not run the containment traversal for `");
    push_str(&mut message, named);
    push_str(&mut message, "`: ");
    push_str(&mut message, cause);
    push_str(&mut message, CONTAINMENT_TAIL);
    ReaderError::ParseFailed { path: text_of(named), line: 0, message }
}

/// The name of the last non-item node with id `id` that has one.
pub open spec fn named_of(nodes: Seq<FactNode>, id: Seq<char>) -> Option<Seq<char>>
    decreases nodes.len(),
{
    if nodes.len() == 0 {
        None
    } else {
        let n = nodes.last();
        if !is_item(n) && n.id@ == id && prop_str(n, "name"@).is_some() {
            prop_str(n, "name"@)
        } else {
            named_of(nodes.drop_last(), id)
        }
    }
}

/// The last node with id `id`.
pub open spec fn node_of(nodes: Seq<FactNode>, id: Seq<char>) -> Option<FactNode>
    decreases nodes.len(),
{
    if nodes.len() == 0 {
        None
    } else if nodes.last().id@ == id {
        Some(nodes.last())
    } else {
        node_of(nodes.drop_last(), id)
    }
}

fn named_of_exec<'a>(nodes: &'a Vec<FactNode>, id: &str) -> (r: Option<&'a str>)
    ensures
        r.is_some() == named_of(nodes@, id@).is_some(),
        r matches Some(x) ==> named_of(nodes@, id@) == Some(x@),
{
    let mut k = nodes.len();
    assert(nodes@.take(k as int) =~= nodes@);
    while k > 0
        invariant
            k <= nodes.len(),
            named_of(nodes@, id@) == named_of(nodes@.take(k as int), id@),
        decreases k,
    {
        assert(nodes@.take(k as int).drop_last() =~= nodes@.take(k - 1));
        let n = &nodes[k - 1];
        if !same_text(n.label.as_str(), "Item") && same_text(n.id.as_str(), id) {
            if let Some(x) = prop(n, "name") {
                return Some(x);
            }
        }
        k = k - 1;
    }
    None
}

pub(crate) fn node_of_exec<'a>(nodes: &'a Vec<FactNode>, id: &str) -> (r: Option<&'a FactNode>)
    ensures
        match r {
            Some(n) => node_of(nodes@, id@) == Some(*n),
            None => node_of(nodes@, id@) is None,
        },
{
    let mut k = nodes.len();
    assert(nodes@.take(k as int) =~= nodes@);
    while k > 0
        invariant
            k <= nodes.len(),
            node_of(nodes@, id@) == node_of(nodes@.take(k as int), id@),
        decreases k,
    {
        assert(nodes@.take(k as int).drop_last() =~= nodes@.take(k - 1));
        if same_text(nodes[k - 1].id.as_str(), id) {
            return Some(&nodes[k - 1]);
        }
        k = k - 1;
    }
    None
}

pub open spec fn is_in_module(e: FactEdge) -> bool {
    e.label@ == "IN_MODULE"@
}

pub open spec fn is_containment(e: FactEdge) -> bool {
    e.label@ == "IN_MODULE"@ || e.label@ == "IN_CRATE"@
}

/// Whether an `IN_MODULE` edge before the `k`-th leaves `s`.
pub open spec fn module_before(edges: Seq<FactEdge>, k: int, s: Seq<char>) -> bool {
    exists|j: int| 0 <= j < k && is_in_module(#[trigger] edges[j]) && edges[j].src@ == s
}

/// Whether an `IN_MODULE` edge before the `k`-th leaves the same node.
pub open spec fn earlier_module_edge(edges: Seq<FactEdge>, k: int) -> bool {
    module_before(edges, k, edges[k].src@)
}

pub open spec fn in_list(ms: Seq<String>, s: Seq<char>) -> bool {
    exists|j: int| 0 <= j < ms.len() && (#[trigger] ms[j])@ == s
}

/// Whether the `k`-th edge makes containment malformed: it points at no
/// named node, or it is a second `IN_MODULE` edge of its node.
pub open spec fn bad_edge(nodes: Seq<FactNode>, edges: Seq<FactEdge>, k: int) -> bool {
    is_containment(edges[k]) && (named_of(nodes, edges[k].dst@).is_none() || (is_in_module(
        edges[k],
    ) && earlier_module_edge(edges, k)))
}

/// The first malformed edge among the first `n`.
pub open spec fn first_bad(nodes: Seq<FactNode>, edges: Seq<FactEdge>, n: nat) -> Option<int>
    decreases n,
{
    if n == 0 {
        None
    } else {
        match first_bad(nodes, edges, (n - 1) as nat) {
            Some(k) => Some(k),
            None => if bad_edge(nodes, edges, n - 1) {
                Some(n - 1)
            } else {
                None
            },
        }
    }
}

/// The refusal for the malformed edge `k`.
pub open spec fn bad_edge_error(nodes: Seq<FactNode>, edges: Seq<FactEdge>, k: int) -> ReaderErrorV {
    let e = edges[k];
    if named_of(nodes, e.dst@).is_none() {
        malformed_spec(
            node_of(nodes, e.src@),
            e.src@,
            "its `"@ + e.label@ + "` edge points at `"@ + e.dst@
                + "`, which the keyspace's node set does not carry"@,
        )
    } else {
        malformed_spec(node_of(nodes, e.src@), e.src@, TWICE_CAUSE@)
    }
}

pub const TWICE_CAUSE: &'static str = "it carries more than one `IN_MODULE` edge, so which module contains it has no answer";

/// The container of node `id` after the first `n` edges: its `IN_MODULE`
/// target's name, else the name of the target of its first `IN_CRATE` edge.
pub open spec fn container_upto(nodes: Seq<FactNode>, edges: Seq<FactEdge>, n: nat, id: Seq<char>) -> Option<Seq<char>>
    decreases n,
{
    if n == 0 {
        None
    } else {
        let prev = container_upto(nodes, edges, (n - 1) as nat, id);
        let e = edges[n - 1];
        if e.src@ == id && is_in_module(e) {
            named_of(nodes, e.dst@)
        } else if e.src@ == id && e.label@ == "IN_CRATE"@ && prev.is_none() {
            named_of(nodes, e.dst@)
        } else {
            prev
        }
    }
}

/// The first entry under `key` of a list of pairs.
pub open spec fn pair_get(m: Seq<(String, String)>, key: Seq<char>) -> Option<Seq<char>>
    decreases m.len(),
{
    if m.len() == 0 {
        None
    } else if m[0].0@ == key {
        Some(m[0].1@)
    } else {
        pair_get(m.drop_first(), key)
    }
}

proof fn lemma_pair_get_index(m: Seq<(String, String)>, key: Seq<char>)
    ensures
        pair_get(m, key) is None <==> forall|j: int| 0 <= j < m.len() ==> (#[trigger] m[j]).0@ != key,
        pair_get(m, key) matches Some(v) ==> exists|j: int|
            0 <= j < m.len() && (#[trigger] m[j]).0@ == key && m[j].1@ == v && forall|q: int|
                0 <= q < j ==> m[q].0@ != key,
    decreases m.len(),
{
    if m.len() > 0 {
        lemma_pair_get_index(m.drop_first(), key);
        if m[0].0@ != key {
            assert forall|j: int| 0 <= j < m.drop_first().len() implies m.drop_first()[j] == m[j
                + 1] by {}
            if let Some(v) = pair_get(m, key) {
                let j = choose|j: int|
                    0 <= j < m.drop_first().len() && (#[trigger] m.drop_first()[j]).0@ == key
                        && m.drop_first()[j].1@ == v && forall|q: int|
                        0 <= q < j ==> m.drop_first()[q].0@ != key;
                assert(m[j + 1].0@ == key);
                assert forall|q: int| 0 <= q < j + 1 implies m[q].0@ != key by {
                    if q > 0 {
                        assert(m.drop_first()[q - 1] == m[q]);
                    }
                }
            }
            if pair_get(m, key) is None {
                assert forall|j: int| 0 <= j < m.len() implies (#[trigger] m[j]).0@ != key by {
                    if j > 0 {
                        assert(m.drop_first()[j - 1] == m[j]);
                    }
                }
            }
        }
    }
}

fn pair_find(m: &Vec<(String, String)>, key: &str) -> (r: Option<usize>)
    ensures
        match r {
            Some(i) => i < m.len() && pair_get(m@, key@) == Some(m@[i as int].1@) && m@[i as int].0@
                == key@ && forall|q: int| 0 <= q < i ==> m@[q].0@ != key@,
            None => pair_get(m@, key@) is None,
        },
{
    let n = m.len();
    let mut i: usize = 0;
    assert(m@.subrange(0, n as int) =~= m@);
    while i < n
        invariant
            i <= n == m.len(),
            pair_get(m@, key@) == pair_get(m@.subrange(i as int, n as int), key@),
            forall|q: int| 0 <= q < i ==> m@[q].0@ != key@,
        decreases n - i,
    {
        assert(m@.subrange(i as int, n as int).drop_first() =~= m@.subrange(i + 1, n as int));
        if same_text(m[i].0.as_str(), key) {
            return Some(i);
        }
        i = i + 1;
    }
    None
}

/// The containers of the items: which module (or, wanting one, which crate)
/// each node is in. Refused at the first edge that points at no named node
/// or that gives a node a second module.
pub fn containers(nodes: &Vec<FactNode>, edges: &Vec<FactEdge>) -> (r: Result<Vec<(String, String)>, ReaderError>)
    ensures
        match r {
            Ok(m) => first_bad(nodes@, edges@, edges@.len()) is None && forall|id: Seq<char>|
                #[trigger] pair_get(m@, id) == container_upto(nodes@, edges@, edges@.len(), id),
            Err(e) => first_bad(nodes@, edges@, edges@.len()) matches Some(k) && e@
                == bad_edge_error(nodes@, edges@, k),
        },
{
    let mut out: Vec<(String, String)> = Vec::new();
    let mut modules_seen: Vec<String> = Vec::new();
    let mut k: usize = 0;
    while k < edges.len()
        invariant
            k <= edges.len(),
            first_bad(nodes@, edges@, k as nat) is None,
            forall|id: Seq<char>|
                #[trigger] pair_get(out@, id) == container_upto(nodes@, edges@, k as nat, id),
            forall|s: Seq<char>| #[trigger] in_list(modules_seen@, s) == module_before(edges@, k as int, s),
        decreases edges.len() - k,
    {
        let e = &edges[k];
        let is_module = same_text(e.label.as_str(), "IN_MODULE");
        let is_crate = same_text(e.label.as_str(), "IN_CRATE");
        if !is_module && !is_crate {
            assert(!bad_edge(nodes@, edges@, k as int));
            assert forall|id: Seq<char>| #[trigger]
                pair_get(out@, id) == container_upto(nodes@, edges@, (k + 1) as nat, id) by {}
            assert forall|s: Seq<char>| #[trigger] in_list(modules_seen@, s) == module_before(
                edges@,
                k + 1,
                s,
            ) by {
                if module_before(edges@, k + 1, s) {
                    let j = choose|j: int|
                        0 <= j < k + 1 && is_in_module(#[trigger] edges@[j]) && edges@[j].src@ == s;
                    assert(j < k);
                    assert(module_before(edges@, k as int, s));
                }
                if module_before(edges@, k as int, s) {
                    let j = choose|j: int|
                        0 <= j < k && is_in_module(#[trigger] edges@[j]) && edges@[j].src@ == s;
                    assert(module_before(edges@, k + 1, s));
                }
            }
            k = k + 1;
            continue;
        }
        let container = match named_of_exec(nodes, e.dst.as_str()) {
            Some(c) => c,
            None => {
                let mut cause = text_of("its `");
                push_str(&mut cause, e.label.as_str());
                push_str(&mut cause, "` edge points at `");
                push_str(&mut cause, e.dst.as_str());
                push_str(&mut cause, "`, which the keyspace's node set does not carry");
                proof {
                    assert(bad_edge(nodes@, edges@, k as int));
                    lemma_first_bad_stays(nodes@, edges@, (k + 1) as nat, edges@.len());
                }
                return Err(
                    malformed_containment(node_of_exec(nodes, e.src.as_str()), e.src.as_str(), cause.as_str()),
                );
            },
        };
        if is_module {
            let mut seen = false;
            let mut q: usize = 0;
            while q < modules_seen.len()
                invariant
                    q <= modules_seen.len(),
                    seen == in_list(modules_seen@.take(q as int), e.src@),
                decreases modules_seen.len() - q,
            {
                if same_text(modules_seen[q].as_str(), e.src.as_str()) {
                    seen = true;
                }
                proof {
                    let t = modules_seen@.take(q + 1);
                    if in_list(t, e.src@) {
                        let j = choose|j: int| 0 <= j < t.len() && (#[trigger] t[j])@ == e.src@;
                        if j < q {
                            assert(modules_seen@.take(q as int)[j] == t[j]);
                        }
                    }
                    if in_list(modules_seen@.take(q as int), e.src@) {
                        let j = choose|j: int|
                            0 <= j < q && (#[trigger] modules_seen@.take(q as int)[j])@ == e.src@;
                        assert(t[j] == modules_seen@.take(q as int)[j]);
                    }
                    if seen && !in_list(modules_seen@.take(q as int), e.src@) {
                        assert(t[q as int]@ == e.src@);
                    }
                }
                q = q + 1;
            }
            assert(modules_seen@.take(q as int) =~= modules_seen@);
            if seen {
                proof {
                    assert(earlier_module_edge(edges@, k as int));
                    assert(bad_edge(nodes@, edges@, k as int));
                    lemma_first_bad_stays(nodes@, edges@, (k + 1) as nat, edges@.len());
                }
                return Err(malformed_containment(node_of_exec(nodes, e.src.as_str()), e.src.as_str(), TWICE_CAUSE));
            }
            assert(!bad_edge(nodes@, edges@, k as int));
            let ghost before = modules_seen@;
            modules_seen.push(e.src.clone());
            assert forall|s: Seq<char>| #[trigger] in_list(modules_seen@, s) == module_before(
                edges@,
                k + 1,
                s,
            ) by {
                if in_list(modules_seen@, s) {
                    let j = choose|j: int| 0 <= j < modules_seen@.len() && (#[trigger] modules_seen@[j])@ == s;
                    if j < before.len() {
                        assert(before[j] == modules_seen@[j]);
                        assert(in_list(before, s));
                        let q = choose|q: int|
                            0 <= q < k && is_in_module(#[trigger] edges@[q]) && edges@[q].src@ == s;
                        assert(module_before(edges@, k + 1, s));
                    } else {
                        assert(is_in_module(edges@[k as int]) && edges@[k as int].src@ == s);
                        assert(module_before(edges@, k + 1, s));
                    }
                }
                if module_before(edges@, k + 1, s) {
                    let j = choose|j: int|
                        0 <= j < k + 1 && is_in_module(#[trigger] edges@[j]) && edges@[j].src@ == s;
                    if j == k {
                        assert(modules_seen@[before.len() as int]@ == s);
                    } else {
                        assert(module_before(edges@, k as int, s));
                        assert(in_list(before, s));
                        let i = choose|i: int| 0 <= i < before.len() && (#[trigger] before[i])@ == s;
                        assert(modules_seen@[i] == before[i]);
                    }
                }
            }
            match pair_find(&out, e.src.as_str()) {
                Some(i) => {
                    let ghost old_out = out@;
                    out.set(i, (e.src.clone(), text_of(container)));
                    proof {
                        lemma_pair_get_index(old_out, e.src@);
                        assert forall|id: Seq<char>| #[trigger]
                            pair_get(out@, id) == container_upto(nodes@, edges@, (k + 1) as nat, id) by {
                            lemma_pair_get_index(out@, id);
                            lemma_pair_get_index(old_out, id);
                            if id == e.src@ {
                                let j = choose|j: int|
                                    0 <= j < old_out.len() && (#[trigger] old_out[j]).0@ == id
                                        && old_out[j].1@ == old_out[i as int].1@ && forall|q: int|
                                        0 <= q < j ==> old_out[q].0@ != id;
                                assert(j == i);
                                assert(out@[i as int].0@ == id);
                                assert forall|q: int| 0 <= q < i implies out@[q].0@ != id by {
                                    assert(out@[q] == old_out[q]);
                                }
                            } else {
                                assert forall|q: int| 0 <= q < out@.len() implies (#[trigger] out@[q]).0@
                                    == id <==> old_out[q].0@ == id by {
                                    if q == i {
                                    } else {
                                        assert(out@[q] == old_out[q]);
                                    }
                                }
                                if let Some(v) = pair_get(old_out, id) {
                                    let j = choose|j: int|
                                        0 <= j < old_out.len() && (#[trigger] old_out[j]).0@ == id
                                            && old_out[j].1@ == v && forall|q: int|
                                            0 <= q < j ==> old_out[q].0@ != id;
                                    assert(out@[j] == old_out[j]);
                                    assert forall|q: int| 0 <= q < j implies out@[q].0@ != id by {
                                        if q != i {
                                            assert(out@[q] == old_out[q]);
                                        }
                                    }
                                }
                            }
                        }
                    }
                },
                None => {
                    let ghost old_out = out@;
                    out.push((e.src.clone(), text_of(container)));
                    proof {
                        lemma_pair_get_index(old_out, e.src@);
                        assert forall|id: Seq<char>| #[trigger]
                            pair_get(out@, id) == container_upto(nodes@, edges@, (k + 1) as nat, id) by {
                            lemma_pair_get_index(out@, id);
                            lemma_pair_get_index(old_out, id);
                            if id != e.src@ {
                                if let Some(v) = pair_get(old_out, id) {
                                    let j = choose|j: int|
                                        0 <= j < old_out.len() && (#[trigger] old_out[j]).0@ == id
                                            && old_out[j].1@ == v && forall|q: int|
                                            0 <= q < j ==> old_out[q].0@ != id;
                                    assert(out@[j] == old_out[j]);
                                    assert forall|q: int| 0 <= q < j implies out@[q].0@ != id by {
                                        assert(out@[q] == old_out[q]);
                                    }
                                } else {
                                    assert forall|q: int| 0 <= q < out@.len() implies (#[trigger] out@[q]).0@
                                        != id by {
                                        if q < old_out.len() {
                                            assert(out@[q] == old_out[q]);
                                        }
                                    }
                                }
                            } else {
                                assert forall|q: int| 0 <= q < old_out.len() implies (#[trigger] out@[q]).0@
                                    != id by {
                                    assert(out@[q] == old_out[q]);
                                }
                                assert(out@[old_out.len() as int].0@ == id);
                                if let Some(v) = pair_get(out@, id) {
                                    let j = choose|j: int|
                                        0 <= j < out@.len() && (#[trigger] out@[j]).0@ == id
                                            && out@[j].1@ == v && forall|q: int|
                                            0 <= q < j ==> out@[q].0@ != id;
                                    assert(j == old_out.len());
                                }
                            }
                        }
                    }
                },
            }
        } else {
            assert(!bad_edge(nodes@, edges@, k as int));
            assert forall|s: Seq<char>| #[trigger] in_list(modules_seen@, s) == module_before(
                edges@,
                k + 1,
                s,
            ) by {
                if module_before(edges@, k + 1, s) {
                    let j = choose|j: int|
                        0 <= j < k + 1 && is_in_module(#[trigger] edges@[j]) && edges@[j].src@ == s;
                    assert(j < k);
                    assert(module_before(edges@, k as int, s));
                }
                if module_before(edges@, k as int, s) {
                    let j = choose|j: int|
                        0 <= j < k && is_in_module(#[trigger] edges@[j]) && edges@[j].src@ == s;
                    assert(module_before(edges@, k + 1, s));
                }
            }
            match pair_find(&out, e.src.as_str()) {
                Some(_) => {
                    assert forall|id: Seq<char>| #[trigger]
                        pair_get(out@, id) == container_upto(nodes@, edges@, (k + 1) as nat, id) by {}
                },
                None => {
                    let ghost old_out = out@;
                    out.push((e.src.clone(), text_of(container)));
                    proof {
                        assert forall|id: Seq<char>| #[trigger]
                            pair_get(out@, id) == container_upto(nodes@, edges@, (k + 1) as nat, id) by {
                            lemma_pair_get_index(out@, id);
                            lemma_pair_get_index(old_out, id);
                            if id != e.src@ {
                                if let Some(v) = pair_get(old_out, id) {
                                    let j = choose|j: int|
                                        0 <= j < old_out.len() && (#[trigger] old_out[j]).0@ == id
                                            && old_out[j].1@ == v && forall|q: int|
                                            0 <= q < j ==> old_out[q].0@ != id;
                                    assert(out@[j] == old_out[j]);
                                    assert forall|q: int| 0 <= q < j implies out@[q].0@ != id by {
                                        assert(out@[q] == old_out[q]);
                                    }
                                } else {
                                    assert forall|q: int| 0 <= q < out@.len() implies (#[trigger] out@[q]).0@
                                        != id by {
                                        if q < old_out.len() {
                                            assert(out@[q] == old_out[q]);
                                        }
                                    }
                                }
                            } else {
                                assert forall|q: int| 0 <= q < old_out.len() implies (#[trigger] out@[q]).0@
                                    != id by {
                                    assert(out@[q] == old_out[q]);
                                }
                                assert(out@[old_out.len() as int].0@ == id);
                                if let Some(v) = pair_get(out@, id) {
                                    let j = choose|j: int|
                                        0 <= j < out@.len() && (#[trigger] out@[j]).0@ == id
                                            && out@[j].1@ == v && forall|q: int|
                                            0 <= q < j ==> out@[q].0@ != id;
                                    assert(j == old_out.len());
                                }
                            }
                        }
                    }
                },
            }
        }
        k = k + 1;
    }
    Ok(out)
}

proof fn lemma_first_bad_stays(nodes: Seq<FactNode>, edges: Seq<FactEdge>, m: nat, n: nat)
    requires
        m <= n,
        first_bad(nodes, edges, m) is Some,
    ensures
        first_bad(nodes, edges, n) == first_bad(nodes, edges, m),
    decreases n - m,
{
    if m < n {
        lemma_first_bad_stays(nodes, edges, m, (n - 1) as nat);
    }
}

/// The container of node `id` once every containment edge is read.
pub open spec fn container_of(nodes: Seq<FactNode>, edges: Seq<FactEdge>, id: Seq<char>) -> Option<Seq<char>> {
    container_upto(nodes, edges, edges.len(), id)
}

/// A PHP concept's code source: located at the namespace that contains it.
pub open spec fn php_source(module: Seq<char>, line: usize, unit: Seq<char>) -> SourceV {
    SourceV::Code {
        path: module,
        line,
        provenance: ProvenanceV { module: Some(module), unit: Some(unit), context: None },
        location: LocationKind::Namespace,
    }
}

/// The concepts of the first `k` nodes: each item on the concept rung whose
/// qualified name a declared prefix owns, located at its containing
/// namespace (or its unit, wanting one). Refused at the first item whose
/// construct is missing or unknown.
pub open spec fn php_scan(surface: DeclaredSurface, nodes: Seq<FactNode>, edges: Seq<FactEdge>, k: nat) -> Result<Seq<(Seq<char>, SourceV)>, ReaderErrorV>
    decreases k,
{
    if k == 0 {
        Ok(seq![])
    } else {
        match php_scan(surface, nodes, edges, (k - 1) as nat) {
            Err(e) => Err(e),
            Ok(acc) => {
                let n = nodes[k - 1];
                if !is_item(n) {
                    Ok(acc)
                } else {
                    match prop_str(n, "php_construct"@) {
                        None => Err(unknown_rung_spec(n, None)),
                        Some(c) => if !is_known_construct(c) {
                            Err(unknown_rung_spec(n, Some(c)))
                        } else if !is_concept_rung(c) {
                            Ok(acc)
                        } else {
                            match prop_str(n, "qname"@) {
                                None => Ok(acc),
                                Some(q) => match surface_unit(surface, q) {
                                    None => Ok(acc),
                                    Some(unit) => match prop_str(n, "name"@) {
                                        None => Ok(acc),
                                        Some(name) => {
                                            let module = match container_of(nodes, edges, n.id@) {
                                                Some(m) => m,
                                                None => unit,
                                            };
                                            Ok(acc.push((name, php_source(module, prop_line(n, "line"@), unit))))
                                        },
                                    },
                                },
                            }
                        },
                    }
                }
            },
        }
    }
}

pub open spec fn php_concepts_spec(surface: DeclaredSurface, nodes: Seq<FactNode>, edges: Seq<FactEdge>) -> Result<Seq<(Seq<char>, SourceV)>, ReaderErrorV> {
    match first_bad(nodes, edges, edges.len()) {
        Some(k) => Err(bad_edge_error(nodes, edges, k)),
        None => php_scan(surface, nodes, edges, nodes.len()),
    }
}

fn container_lookup(m: &Vec<(String, String)>, id: &str) -> (r: Option<String>)
    ensures
        r.deep_view() == pair_get(m@, id@),
{
    match pair_find(m, id) {
        Some(i) => Some(m[i].1.clone()),
        None => None,
    }
}

/// The concepts of a PHP keyspace.
pub fn php_concepts(surface: &DeclaredSurface, nodes: &Vec<FactNode>, edges: &Vec<FactEdge>) -> (r: Result<Vec<ConceptNode>, ReaderError>)
    ensures
        match r {
            Ok(out) => php_concepts_spec(*surface, nodes@, edges@) matches Ok(cs) && out.len()
                == cs.len() && forall|i: int|
                0 <= i < out.len() ==> (#[trigger] out@[i]).name@ == cs[i].0 && out@[i].source@
                    == cs[i].1 && out@[i].signature == SignatureState::Absent
                    && out@[i].declared_context.is_none() && out@[i].polarity == Polarity::Declared
                    && out@[i].marker == Marker::Unmarked,
            Err(e) => php_concepts_spec(*surface, nodes@, edges@) == Err::<Seq<(Seq<char>, SourceV)>, ReaderErrorV>(e@),
        },
{
    let cont = match containers(nodes, edges) {
        Ok(c) => c,
        Err(e) => return Err(e),
    };
    let mut out: Vec<ConceptNode> = Vec::new();
    let mut i: usize = 0;
    while i < nodes.len()
        invariant
            i <= nodes.len(),
            first_bad(nodes@, edges@, edges@.len()) is None,
            forall|id: Seq<char>| #[trigger] pair_get(cont@, id) == container_of(nodes@, edges@, id),
            php_scan(*surface, nodes@, edges@, i as nat) matches Ok(cs) && out.len() == cs.len()
                && forall|j: int|
                0 <= j < out.len() ==> (#[trigger] out@[j]).name@ == cs[j].0 && out@[j].source@
                    == cs[j].1 && out@[j].signature == SignatureState::Absent
                    && out@[j].declared_context.is_none() && out@[j].polarity == Polarity::Declared
                    && out@[j].marker == Marker::Unmarked,
        decreases nodes.len() - i,
    {
        let n = &nodes[i];
        if !same_text(n.label.as_str(), "Item") {
            i = i + 1;
            continue;
        }
        let construct = match prop(n, "php_construct") {
            None => {
                let e = unknown_rung(n, None);
                proof {
                    lemma_scan_err_stays(*surface, nodes@, edges@, (i + 1) as nat, nodes@.len());
                }
                return Err(e);
            },
            Some(c) => c,
        };
        if !known_construct(construct) {
            let e = unknown_rung(n, Some(construct));
            proof {
                lemma_scan_err_stays(*surface, nodes@, edges@, (i + 1) as nat, nodes@.len());
            }
            return Err(e);
        }
        if !concept_rung(construct) {
            i = i + 1;
            continue;
        }
        let q = match prop(n, "qname") {
            None => {
                i = i + 1;
                continue;
            },
            Some(q) => q,
        };
        let unit = match surface.unit_of(q) {
            None => {
                i = i + 1;
                continue;
            },
            Some(u) => u,
        };
        let name = match prop(n, "name") {
            None => {
                i = i + 1;
                continue;
            },
            Some(x) => x,
        };
        let module = match container_lookup(&cont, n.id.as_str()) {
            Some(m) => m,
            None => text_of(unit),
        };
        let line = prop_usize(n, "line");
        let source = Source::Code {
            path: module.clone(),
            line,
            provenance: Provenance { module: Some(module), unit: Some(text_of(unit)), context: None },
            location: LocationKind::Namespace,
        };
        out.push(ConceptNode::new(text_of(name), source, SignatureState::Absent));
        i = i + 1;
    }
    Ok(out)
}

proof fn lemma_scan_err_stays(surface: DeclaredSurface, nodes: Seq<FactNode>, edges: Seq<FactEdge>, m: nat, n: nat)
    requires
        m <= n,
        php_scan(surface, nodes, edges, m) is Err,
    ensures
        php_scan(surface, nodes, edges, n) == php_scan(surface, nodes, edges, m),
    decreases n - m,
{
    if m < n {
        lemma_scan_err_stays(surface, nodes, edges, m, (n - 1) as nat);
    }
}

/// The name and owning unit of the last concept-rung item with id `id`
/// that has a name and a qualified name.
pub open spec fn rung_entry(surface: DeclaredSurface, nodes: Seq<FactNode>, id: Seq<char>) -> Option<(Seq<char>, Option<Seq<char>>)>
    decreases nodes.len(),
{
    if nodes.len() == 0 {
        None
    } else {
        let n = nodes.last();
        if is_rung_item(n) && n.id@ == id && prop_str(n, "name"@).is_some() && prop_str(
            n,
            "qname"@,
        ).is_some() {
            Some((prop_str(n, "name"@).unwrap(), surface_unit(surface, prop_str(n, "qname"@).unwrap())))
        } else {
            rung_entry(surface, nodes.drop_last(), id)
        }
    }
}

/// The first item that carries no PHP construct.
pub open spec fn first_unconstructed(nodes: Seq<FactNode>, k: nat) -> Option<int>
    decreases k,
{
    if k == 0 {
        None
    } else {
        match first_unconstructed(nodes, (k - 1) as nat) {
            Some(i) => Some(i),
            None => if is_item(nodes[k - 1]) && prop_str(nodes[k - 1], "php_construct"@).is_none() {
                Some(k - 1)
            } else {
                None
            },
        }
    }
}

/// A relationship read from a PHP keyspace, located at the namespace that
/// contains its source concept.
pub open spec fn php_edge_spec(
    src_name: Seq<char>,
    src_unit: Seq<char>,
    kind: EdgeKind,
    dst_name: Seq<char>,
    dst_unit: Option<Seq<char>>,
    module: Seq<char>,
    line: usize,
) -> EdgeV {
    EdgeV {
        source_concept: ConceptRefV { name: src_name, context: None, unit: Some(src_unit) },
        kind,
        target: ConceptRefV { name: dst_name, context: None, unit: dst_unit },
        raw_target: dst_name,
        source: php_source(module, line, src_unit),
    }
}

pub fn php_edge(
    src_name: &str,
    src_unit: &str,
    kind: EdgeKind,
    dst_name: &str,
    dst_unit: Option<&str>,
    module: &str,
    line: usize,
) -> (e: Edge)
    ensures
        e@ == php_edge_spec(
            src_name@,
            src_unit@,
            kind,
            dst_name@,
            match dst_unit {
                Some(u) => Some(u@),
                None => None,
            },
            module@,
            line,
        ),
{
    Edge {
        source_concept: ConceptRef {
            name: text_of(src_name),
            context: None,
            unit: Some(OwnedUnit(text_of(src_unit))),
        },
        kind,
        target: ConceptRef {
            name: text_of(dst_name),
            context: None,
            unit: match dst_unit {
                Some(u) => Some(OwnedUnit(text_of(u))),
                None => None,
            },
        },
        raw_target: text_of(dst_name),
        source: Source::Code {
            path: text_of(module),
            line,
            provenance: Provenance {
                module: Some(text_of(module)),
                unit: Some(text_of(src_unit)),
                context: None,
            },
            location: LocationKind::Namespace,
        },
    }
}

/// The `IMPLEMENTS` relationships among the first `k` edges whose source is
/// a concept a declared prefix owns and whose target is a concept.
pub open spec fn implements_scan(surface: DeclaredSurface, nodes: Seq<FactNode>, edges: Seq<FactEdge>, k: nat) -> Seq<EdgeV>
    decreases k,
{
    if k == 0 {
        seq![]
    } else {
        let acc = implements_scan(surface, nodes, edges, (k - 1) as nat);
        let e = edges[k - 1];
        if e.label@ == "IMPLEMENTS"@ {
            match (rung_entry(surface, nodes, e.src@), rung_entry(surface, nodes, e.dst@)) {
                (Some((sn, Some(su))), Some((dn, du))) => {
                    let module = match container_of(nodes, edges, e.src@) {
                        Some(m) => m,
                        None => su,
                    };
                    acc.push(php_edge_spec(sn, su, EdgeKind::Implements, dn, du, module, 0))
                },
                _ => acc,
            }
        } else {
            acc
        }
    }
}

/// The concept name of the concept-rung item `id`.
pub open spec fn rung_name(surface: DeclaredSurface, nodes: Seq<FactNode>, id: Seq<char>) -> Seq<char> {
    match rung_entry(surface, nodes, id) {
        Some(s) => s.0,
        None => seq![],
    }
}

/// Some edge of `es` has kind `kind` and runs from `src` to `dst`.
pub open spec fn carries_edge(es: Seq<EdgeV>, kind: EdgeKind, src: Seq<char>, dst: Seq<char>) -> bool {
    exists|i: int|
        0 <= i < es.len() && #[trigger] es[i].kind == kind && es[i].source_concept.name == src
            && es[i].target.name == dst
}

/// The fact edge `e` is an `IMPLEMENTS` between two concept-rung items, the
/// source owned by a declared unit.
pub open spec fn implements_between_concepts(surface: DeclaredSurface, nodes: Seq<FactNode>, e: FactEdge) -> bool {
    &&& e.label@ == "IMPLEMENTS"@
    &&& rung_entry(surface, nodes, e.src@) matches Some(s) && s.1 is Some
    &&& rung_entry(surface, nodes, e.dst@) is Some
}

proof fn lemma_implements_scan(surface: DeclaredSurface, nodes: Seq<FactNode>, edges: Seq<FactEdge>, k: nat)
    requires
        k <= edges.len(),
    ensures
        forall|j: int|
            0 <= j < k && #[trigger] implements_between_concepts(surface, nodes, edges[j]) ==> carries_edge(
                implements_scan(surface, nodes, edges, k),
                EdgeKind::Implements,
                rung_name(surface, nodes, edges[j].src@),
                rung_name(surface, nodes, edges[j].dst@),
            ),
    decreases k,
{
    if k > 0 {
        let k1 = (k - 1) as nat;
        lemma_implements_scan(surface, nodes, edges, k1);
        let acc = implements_scan(surface, nodes, edges, k1);
        let out = implements_scan(surface, nodes, edges, k);
        assert forall|j: int|
            0 <= j < k && #[trigger] implements_between_concepts(surface, nodes, edges[j]) implies carries_edge(
                out,
                EdgeKind::Implements,
                rung_name(surface, nodes, edges[j].src@),
                rung_name(surface, nodes, edges[j].dst@),
            ) by {
            let sn = rung_name(surface, nodes, edges[j].src@);
            let dn = rung_name(surface, nodes, edges[j].dst@);
            if j < k1 {
                assert(carries_edge(acc, EdgeKind::Implements, sn, dn));
                let i0 = choose|i: int|
                    0 <= i < acc.len() && #[trigger] acc[i].kind == EdgeKind::Implements
                        && acc[i].source_concept.name == sn && acc[i].target.name == dn;
                assert(out.len() >= acc.len() && out[i0] == acc[i0]);
            } else {
                assert(out[acc.len() as int].kind == EdgeKind::Implements);
            }
        }
    }
}

/// Every `IMPLEMENTS` fact edge between two concept-rung items (its source
/// owned by a declared unit) is read as an `IMPLEMENTS` relationship from
/// the source's concept to the destination's, whatever else is read.
pub proof fn php_implements_facts_become_implements_edges(
    surface: DeclaredSurface,
    nodes: Seq<FactNode>,
    edges: Seq<FactEdge>,
    out: Vec<Edge>,
)
    requires
        relationships_result(surface, nodes, edges, Ok(out)),
    ensures
        forall|j: int|
            0 <= j < edges.len() && #[trigger] implements_between_concepts(surface, nodes, edges[j]) ==> carries_edge(
                out.deep_view(),
                EdgeKind::Implements,
                rung_name(surface, nodes, edges[j].src@),
                rung_name(surface, nodes, edges[j].dst@),
            ),
{
    let imp = implements_scan(surface, nodes, edges, edges.len());
    lemma_implements_scan(surface, nodes, edges, edges.len());
    let ov = out.deep_view();
    assert forall|j: int|
        0 <= j < edges.len() && #[trigger] implements_between_concepts(surface, nodes, edges[j]) implies carries_edge(
            ov,
            EdgeKind::Implements,
            rung_name(surface, nodes, edges[j].src@),
            rung_name(surface, nodes, edges[j].dst@),
        ) by {
        let sn = rung_name(surface, nodes, edges[j].src@);
        let dn = rung_name(surface, nodes, edges[j].dst@);
        assert(carries_edge(imp, EdgeKind::Implements, sn, dn));
        let i0 = choose|i: int|
            0 <= i < imp.len() && #[trigger] imp[i].kind == EdgeKind::Implements
                && imp[i].source_concept.name == sn && imp[i].target.name == dn;
        assert(ov.take(imp.len() as int)[i0] == ov[i0]);
    }
}

/// The last entry with id `id` of a list of (id, name, unit).
pub open spec fn entry_last(l: Seq<(String, String, Option<String>)>, id: Seq<char>) -> Option<(Seq<char>, Option<Seq<char>>)>
    decreases l.len(),
{
    if l.len() == 0 {
        None
    } else if l.last().0@ == id {
        Some((l.last().1@, l.last().2.deep_view()))
    } else {
        entry_last(l.drop_last(), id)
    }
}

fn entry_find(l: &Vec<(String, String, Option<String>)>, id: &str) -> (r: Option<usize>)
    ensures
        match r {
            Some(i) => i < l.len() && entry_last(l@, id@) == Some((l@[i as int].1@, l@[i as int].2.deep_view())),
            None => entry_last(l@, id@) is None,
        },
{
    let mut k = l.len();
    assert(l@.take(k as int) =~= l@);
    while k > 0
        invariant
            k <= l.len(),
            entry_last(l@, id@) == entry_last(l@.take(k as int), id@),
        decreases k,
    {
        assert(l@.take(k as int).drop_last() =~= l@.take(k - 1));
        if same_text(l[k - 1].0.as_str(), id) {
            return Some(k - 1);
        }
        k = k - 1;
    }
    None
}

/// The concept-rung items by id, with their names and owning units.
fn rung_entries(surface: &DeclaredSurface, nodes: &Vec<FactNode>) -> (r: Result<Vec<(String, String, Option<String>)>, ReaderError>)
    ensures
        match r {
            Ok(l) => first_unconstructed(nodes@, nodes@.len()) is None && forall|id: Seq<char>|
                #[trigger] entry_last(l@, id) == rung_entry(*surface, nodes@, id),
            Err(e) => first_unconstructed(nodes@, nodes@.len()) matches Some(k) && e@
                == unknown_rung_spec(nodes@[k], None),
        },
{
    let mut l: Vec<(String, String, Option<String>)> = Vec::new();
    let mut i: usize = 0;
    while i < nodes.len()
        invariant
            i <= nodes.len(),
            first_unconstructed(nodes@, i as nat) is None,
            forall|id: Seq<char>| #[trigger]
                entry_last(l@, id) == rung_entry(*surface, nodes@.take(i as int), id),
        decreases nodes.len() - i,
    {
        let n = &nodes[i];
        assert(nodes@.take(i + 1).drop_last() =~= nodes@.take(i as int));
        assert(nodes@.take(i + 1).last() == *n);
        let ghost before_l = l@;
        if !same_text(n.label.as_str(), "Item") {
            assert forall|id: Seq<char>| #[trigger]
                entry_last(l@, id) == rung_entry(*surface, nodes@.take(i + 1), id) by {
                assert(!is_rung_item(*n));
            }
            i = i + 1;
            continue;
        }
        let construct = match prop(n, "php_construct") {
            None => {
                proof {
                    lemma_unconstructed_stays(nodes@, (i + 1) as nat, nodes@.len());
                }
                return Err(unknown_rung(n, None));
            },
            Some(c) => c,
        };
        let name = prop(n, "name");
        let qname = prop(n, "qname");
        if concept_rung(construct) && name.is_some() && qname.is_some() {
            let name = name.unwrap();
            let qname = qname.unwrap();
            let unit = match surface.unit_of(qname) {
                Some(u) => Some(text_of(u)),
                None => None,
            };
            assert(unit.deep_view() == surface_unit(*surface, qname@));
            let idc = n.id.clone();
            let nm = text_of(name);
            let ghost ud = unit.deep_view();
            l.push((idc, nm, unit));
            assert(l@.drop_last() =~= before_l);
            assert(is_rung_item(*n));
            assert(l@.last().0@ == n.id@);
            assert(l@.last().1@ == prop_str(*n, "name"@).unwrap());
            assert(l@.last().2.deep_view() == ud);
            assert forall|id: Seq<char>| #[trigger]
                entry_last(l@, id) == rung_entry(*surface, nodes@.take(i + 1), id) by {
                if n.id@ == id {
                    assert(entry_last(l@, id) == Some((l@.last().1@, l@.last().2.deep_view())));
                } else {
                    assert(entry_last(l@, id) == entry_last(before_l, id));
                }
            }
        } else {
            assert(!(is_rung_item(*n) && prop_str(*n, "name"@).is_some() && prop_str(
                *n,
                "qname"@,
            ).is_some()));
            assert forall|id: Seq<char>| #[trigger]
                entry_last(l@, id) == rung_entry(*surface, nodes@.take(i + 1), id) by {}
        }
        i = i + 1;
    }
    assert(nodes@.take(i as int) =~= nodes@);
    Ok(l)
}

proof fn lemma_unconstructed_stays(nodes: Seq<FactNode>, m: nat, n: nat)
    requires
        m <= n,
        first_unconstructed(nodes, m) is Some,
    ensures
        first_unconstructed(nodes, n) == first_unconstructed(nodes, m),
    decreases n - m,
{
    if m < n {
        lemma_unconstructed_stays(nodes, m, (n - 1) as nat);
    }
}

/// The `IMPLEMENTS` relationships of a PHP keyspace.
pub fn implements_relationships(
    surface: &DeclaredSurface,
    nodes: &Vec<FactNode>,
    edges: &Vec<FactEdge>,
    cont: &Vec<(String, String)>,
    entries: &Vec<(String, String, Option<String>)>,
) -> (out: Vec<Edge>)
    requires
        forall|id: Seq<char>| #[trigger] pair_get(cont@, id) == container_of(nodes@, edges@, id),
        forall|id: Seq<char>| #[trigger] entry_last(entries@, id) == rung_entry(*surface, nodes@, id),
    ensures
        out.deep_view() == implements_scan(*surface, nodes@, edges@, edges@.len()),
{
    let mut out: Vec<Edge> = Vec::new();
    let mut k: usize = 0;
    while k < edges.len()
        invariant
            k <= edges.len(),
            forall|id: Seq<char>| #[trigger] pair_get(cont@, id) == container_of(nodes@, edges@, id),
            forall|id: Seq<char>| #[trigger] entry_last(entries@, id) == rung_entry(*surface, nodes@, id),
            out.deep_view() == implements_scan(*surface, nodes@, edges@, k as nat),
        decreases edges.len() - k,
    {
        let e = &edges[k];
        if same_text(e.label.as_str(), "IMPLEMENTS") {
            let s = entry_find(entries, e.src.as_str());
            let d = entry_find(entries, e.dst.as_str());
            if let (Some(si), Some(di)) = (s, d) {
                if let Some(su) = &entries[si].2 {
                    let module = match container_lookup(cont, e.src.as_str()) {
                        Some(m) => m,
                        None => su.clone(),
                    };
                    let du: Option<&str> = match &entries[di].2 {
                        Some(u) => Some(u.as_str()),
                        None => None,
                    };
                    let edge = php_edge(
                        entries[si].1.as_str(),
                        su.as_str(),
                        EdgeKind::Implements,
                        entries[di].1.as_str(),
                        du,
                        module.as_str(),
                        0,
                    );
                    let ghost before = out.deep_view();
                    out.push(edge);
                    assert(out.deep_view() =~= before.push(edge@));
                }
            }
        }
        k = k + 1;
    }
    out
}

/// The qualified name of the last item with id `id` that has one.
pub open spec fn qname_of(nodes: Seq<FactNode>, id: Seq<char>) -> Option<Seq<char>>
    decreases nodes.len(),
{
    if nodes.len() == 0 {
        None
    } else {
        let n = nodes.last();
        if is_item(n) && n.id@ == id && prop_str(n, "qname"@).is_some() {
            prop_str(n, "qname"@)
        } else {
            qname_of(nodes.drop_last(), id)
        }
    }
}

/// Whether a node is a named concept-rung item with a qualified name.
pub open spec fn is_named_rung(n: FactNode) -> bool {
    is_rung_item(n) && prop_str(n, "qname"@).is_some() && prop_str(n, "name"@).is_some()
}

/// The (id, name, unit) of the last named concept-rung item called `q`
/// that a declared prefix owns: a class of the surface.
pub open spec fn class_of(surface: DeclaredSurface, nodes: Seq<FactNode>, q: Seq<char>) -> Option<(Seq<char>, Seq<char>, Seq<char>)>
    decreases nodes.len(),
{
    if nodes.len() == 0 {
        None
    } else {
        let n = nodes.last();
        if is_named_rung(n) && prop_str(n, "qname"@) == Some(q) && surface_unit(surface, q).is_some() {
            Some((n.id@, prop_str(n, "name"@).unwrap(), surface_unit(surface, q).unwrap()))
        } else {
            class_of(surface, nodes.drop_last(), q)
        }
    }
}

/// The (id, name, unit) of the last named concept-rung item called `q`
/// that no declared prefix owns and a test namespace does: a tester.
pub open spec fn tester_of(surface: DeclaredSurface, nodes: Seq<FactNode>, q: Seq<char>) -> Option<(Seq<char>, Seq<char>, Seq<char>)>
    decreases nodes.len(),
{
    if nodes.len() == 0 {
        None
    } else {
        let n = nodes.last();
        if is_named_rung(n) && prop_str(n, "qname"@) == Some(q) && surface_unit(surface, q).is_none()
            && surface_test_unit(surface, q).is_some() {
            Some((n.id@, prop_str(n, "name"@).unwrap(), surface_test_unit(surface, q).unwrap()))
        } else {
            tester_of(surface, nodes.drop_last(), q)
        }
    }
}

/// The (file, qualified name) of each class or tester that names its file,
/// in node order.
pub open spec fn file_entries(surface: DeclaredSurface, nodes: Seq<FactNode>) -> Seq<(Seq<char>, Seq<char>)>
    decreases nodes.len(),
{
    if nodes.len() == 0 {
        seq![]
    } else {
        let rest = file_entries(surface, nodes.drop_last());
        let n = nodes.last();
        if is_named_rung(n) && (surface_unit(surface, prop_str(n, "qname"@).unwrap()).is_some()
            || surface_test_unit(surface, prop_str(n, "qname"@).unwrap()).is_some()) && prop_str(
            n,
            "file"@,
        ).is_some() {
            rest.push((prop_str(n, "file"@).unwrap(), prop_str(n, "qname"@).unwrap()))
        } else {
            rest
        }
    }
}

/// The class or tester a qualified name belongs to: the part before `::`,
/// when that is a class or a tester.
pub open spec fn owner_of(surface: DeclaredSurface, nodes: Seq<FactNode>, q: Seq<char>) -> Option<Seq<char>> {
    let class = match find_str(q, "::"@) {
        Some(i) => q.take(i),
        None => q,
    };
    if class_of(surface, nodes, class).is_some() || tester_of(surface, nodes, class).is_some() {
        Some(class)
    } else {
        None
    }
}

/// Whether `u` is the crossing node `i`, an import, gives through the
/// `k`-th file entry: a class or tester of the importing file to the
/// imported class, at the import's line.
pub open spec fn import_at_k(surface: DeclaredSurface, nodes: Seq<FactNode>, i: int, k: int, u: (Seq<char>, Seq<char>, usize)) -> bool {
    let n = nodes[i];
    let fe = file_entries(surface, nodes);
    n.label@ == "Import"@ && prop_str(n, "fqn"@).is_some() && prop_str(n, "file"@).is_some()
        && class_of(surface, nodes, trim_start_char(prop_str(n, "fqn"@).unwrap(), '\\')).is_some()
        && 0 <= k < fe.len() && fe[k].0 == prop_str(n, "file"@).unwrap() && u == (
        fe[k].1,
        trim_start_char(prop_str(n, "fqn"@).unwrap(), '\\'),
        prop_line(n, "line"@),
    )
}

pub open spec fn import_at(surface: DeclaredSurface, nodes: Seq<FactNode>, i: int, u: (Seq<char>, Seq<char>, usize)) -> bool {
    exists|k: int| #[trigger] import_at_k(surface, nodes, i, k, u)
}

/// Whether `u` is a crossing one of the first `upto` nodes gives.
pub open spec fn import_pair(surface: DeclaredSurface, nodes: Seq<FactNode>, upto: int, u: (Seq<char>, Seq<char>, usize)) -> bool {
    exists|i: int| 0 <= i < upto && #[trigger] import_at(surface, nodes, i, u)
}

/// Whether `u` is the crossing edge `j`, a call, gives: the owner of the
/// caller to the owner of the callee, at line 0.
pub open spec fn call_at(surface: DeclaredSurface, nodes: Seq<FactNode>, edges: Seq<FactEdge>, j: int, u: (Seq<char>, Seq<char>, usize)) -> bool {
    let e = edges[j];
    e.label@ == "CALLS"@ && qname_of(nodes, e.src@).is_some() && qname_of(nodes, e.dst@).is_some()
        && owner_of(surface, nodes, qname_of(nodes, e.src@).unwrap()) == Some(u.0) && owner_of(
        surface,
        nodes,
        qname_of(nodes, e.dst@).unwrap(),
    ) == Some(u.1) && u.2 == 0
}

pub open spec fn call_pair(surface: DeclaredSurface, nodes: Seq<FactNode>, edges: Seq<FactEdge>, upto: int, u: (Seq<char>, Seq<char>, usize)) -> bool {
    exists|j: int| 0 <= j < upto && #[trigger] call_at(surface, nodes, edges, j, u)
}

pub open spec fn crossing_pair(surface: DeclaredSurface, nodes: Seq<FactNode>, edges: Seq<FactEdge>, t: (Seq<char>, Seq<char>, usize)) -> bool {
    import_pair(surface, nodes, nodes.len() as int, t) || call_pair(
        surface,
        nodes,
        edges,
        edges.len() as int,
        t,
    )
}

/// The crossings of the sorted pairs `s`: for each (source, target) pair in
/// order, the first whose source is a class or tester and whose target is a
/// class of another unit.
pub open spec fn cross_scan(surface: DeclaredSurface, nodes: Seq<FactNode>, edges: Seq<FactEdge>, s: Seq<(Seq<char>, Seq<char>, usize)>) -> (Seq<EdgeV>, Seq<(Seq<char>, Seq<char>)>)
    decreases s.len(),
{
    if s.len() == 0 {
        (seq![], seq![])
    } else {
        let prev = cross_scan(surface, nodes, edges, s.drop_last());
        let t = s.last();
        let source = match class_of(surface, nodes, t.0) {
            Some(c) => Some(c),
            None => tester_of(surface, nodes, t.0),
        };
        match (source, class_of(surface, nodes, t.1)) {
            (Some((sid, sname, sunit)), Some((_, dname, dunit))) => if sunit == dunit
                || prev.1.contains((t.0, t.1)) {
                prev
            } else {
                let module = match container_of(nodes, edges, sid) {
                    Some(m) => m,
                    None => sunit,
                };
                (
                    prev.0.push(
                        php_edge_spec(sname, sunit, EdgeKind::Uses, dname, Some(dunit), module, t.2),
                    ),
                    prev.1.push((t.0, t.1)),
                )
            },
            _ => prev,
        }
    }
}

/// The value of the last pair under `key`.
pub open spec fn last_pair(l: Seq<(String, String)>, key: Seq<char>) -> Option<Seq<char>>
    decreases l.len(),
{
    if l.len() == 0 {
        None
    } else if l.last().0@ == key {
        Some(l.last().1@)
    } else {
        last_pair(l.drop_last(), key)
    }
}

/// The value of the last row under `key`.
pub open spec fn last_row(l: Seq<(String, String, String, String)>, key: Seq<char>) -> Option<(Seq<char>, Seq<char>, Seq<char>)>
    decreases l.len(),
{
    if l.len() == 0 {
        None
    } else if l.last().0@ == key {
        Some((l.last().1@, l.last().2@, l.last().3@))
    } else {
        last_row(l.drop_last(), key)
    }
}

fn find_last_pair(l: &Vec<(String, String)>, key: &str) -> (r: Option<usize>)
    ensures
        match r {
            Some(i) => i < l.len() && last_pair(l@, key@) == Some(l@[i as int].1@),
            None => last_pair(l@, key@) is None,
        },
{
    let mut k = l.len();
    assert(l@.take(k as int) =~= l@);
    while k > 0
        invariant
            k <= l.len(),
            last_pair(l@, key@) == last_pair(l@.take(k as int), key@),
        decreases k,
    {
        assert(l@.take(k as int).drop_last() =~= l@.take(k - 1));
        if same_text(l[k - 1].0.as_str(), key) {
            return Some(k - 1);
        }
        k = k - 1;
    }
    None
}

fn find_last_row(l: &Vec<(String, String, String, String)>, key: &str) -> (r: Option<usize>)
    ensures
        match r {
            Some(i) => i < l.len() && last_row(l@, key@) == Some(
                (l@[i as int].1@, l@[i as int].2@, l@[i as int].3@),
            ),
            None => last_row(l@, key@) is None,
        },
{
    let mut k = l.len();
    assert(l@.take(k as int) =~= l@);
    while k > 0
        invariant
            k <= l.len(),
            last_row(l@, key@) == last_row(l@.take(k as int), key@),
        decreases k,
    {
        assert(l@.take(k as int).drop_last() =~= l@.take(k - 1));
        if same_text(l[k - 1].0.as_str(), key) {
            return Some(k - 1);
        }
        k = k - 1;
    }
    None
}

/// The tables the crossings are read from.
struct CrossTables {
    qnames: Vec<(String, String)>,
    classes: Vec<(String, String, String, String)>,
    testers: Vec<(String, String, String, String)>,
    files: Vec<(String, String)>,
}

spec fn tables_ok(t: CrossTables, surface: DeclaredSurface, nodes: Seq<FactNode>) -> bool {
    &&& forall|id: Seq<char>| #[trigger] last_pair(t.qnames@, id) == qname_of(nodes, id)
    &&& forall|q: Seq<char>| #[trigger] last_row(t.classes@, q) == class_of(surface, nodes, q)
    &&& forall|q: Seq<char>| #[trigger] last_row(t.testers@, q) == tester_of(surface, nodes, q)
    &&& t.files@.map_values(|e: (String, String)| (e.0@, e.1@)) == file_entries(surface, nodes)
}

fn cross_tables(surface: &DeclaredSurface, nodes: &Vec<FactNode>) -> (t: CrossTables)
    ensures
        tables_ok(t, *surface, nodes@),
{
    let mut t = CrossTables {
        qnames: Vec::new(),
        classes: Vec::new(),
        testers: Vec::new(),
        files: Vec::new(),
    };
    assert(t.files@.map_values(|e: (String, String)| (e.0@, e.1@)) =~= file_entries(
        *surface,
        nodes@.take(0),
    ));
    let mut i: usize = 0;
    while i < nodes.len()
        invariant
            i <= nodes.len(),
            tables_ok(t, *surface, nodes@.take(i as int)),
        decreases nodes.len() - i,
    {
        let n = &nodes[i];
        let ghost pre = nodes@.take(i as int);
        let ghost post = nodes@.take(i + 1);
        assert(post.drop_last() =~= pre);
        assert(post.last() == *n);
        let ghost t0 = t;
        let is_item_node = same_text(n.label.as_str(), "Item");
        let qname = prop(n, "qname");
        if is_item_node && qname.is_some() {
            let q = qname.unwrap();
            let idc = n.id.clone();
            let qc = text_of(q);
            t.qnames.push((idc, qc));
            assert(t.qnames@.drop_last() =~= t0.qnames@);
            assert(t.qnames@.last().0@ == n.id@);
            assert(t.qnames@.last().1@ == prop_str(*n, "qname"@).unwrap());
            assert(is_item(*n));
            assert forall|id: Seq<char>| #[trigger] last_pair(t.qnames@, id) == qname_of(post, id) by {
                if n.id@ != id {
                    assert(last_pair(t.qnames@, id) == last_pair(t0.qnames@, id));
                }
            }
        } else {
            assert forall|id: Seq<char>| #[trigger] last_pair(t.qnames@, id) == qname_of(post, id) by {
                assert(t.qnames@ == t0.qnames@);
            }
        }
        let rung = match prop(n, "php_construct") {
            Some(c) => concept_rung(c),
            None => false,
        };
        let name = prop(n, "name");
        if is_item_node && rung && qname.is_some() && name.is_some() {
            let q = qname.unwrap();
            let nm = name.unwrap();
            assert(is_named_rung(*n));
            let unit = surface.unit_of(q);
            let test_unit = surface.test_unit_of(q);
            let placed = unit.is_some() || test_unit.is_some();
            if let Some(u) = unit {
                let row = (text_of(q), n.id.clone(), text_of(nm), text_of(u));
                t.classes.push(row);
                assert(t.classes@.drop_last() =~= t0.classes@);
                assert(t.classes@.last().0@ == q@);
                assert forall|key: Seq<char>| #[trigger] last_row(t.classes@, key) == class_of(*surface, post, key) by {
                    if q@ != key {
                        assert(last_row(t.classes@, key) == last_row(t0.classes@, key));
                    }
                }
            } else if let Some(u) = test_unit {
                let row = (text_of(q), n.id.clone(), text_of(nm), text_of(u));
                t.testers.push(row);
                assert(t.testers@.drop_last() =~= t0.testers@);
                assert(t.testers@.last().0@ == q@);
                assert forall|key: Seq<char>| #[trigger] last_row(t.testers@, key) == tester_of(*surface, post, key) by {
                    if q@ != key {
                        assert(last_row(t.testers@, key) == last_row(t0.testers@, key));
                    }
                }
            }
            if unit.is_none() {
                assert forall|key: Seq<char>| #[trigger] last_row(t.classes@, key) == class_of(*surface, post, key) by {
                    assert(t.classes@ == t0.classes@);
                }
            }
            if !(unit.is_none() && test_unit.is_some()) {
                assert forall|key: Seq<char>| #[trigger] last_row(t.testers@, key) == tester_of(*surface, post, key) by {
                    assert(t.testers@ == t0.testers@);
                }
            }
            if placed {
                if let Some(f) = prop(n, "file") {
                    t.files.push((text_of(f), text_of(q)));
                }
            }
            assert(t.files@.map_values(|e: (String, String)| (e.0@, e.1@)) =~= file_entries(*surface, post));
        } else {
            assert(!is_named_rung(*n));
            assert forall|key: Seq<char>| #[trigger] last_row(t.classes@, key) == class_of(*surface, post, key) by {
                assert(t.classes@ == t0.classes@);
            }
            assert forall|key: Seq<char>| #[trigger] last_row(t.testers@, key) == tester_of(*surface, post, key) by {
                assert(t.testers@ == t0.testers@);
            }
            assert(t.files@.map_values(|e: (String, String)| (e.0@, e.1@)) =~= file_entries(*surface, post));
        }
        i = i + 1;
    }
    assert(nodes@.take(i as int) =~= nodes@);
    t
}

fn trim_backslashes(s: &str) -> (r: String)
    ensures
        r@ == trim_start_char(s@, '\\'),
{
    let v = chars_of(s);
    assert(v@.subrange(0, v.len() as int) =~= s@);
    let st = skip_char(&v, 0, '\\');
    string_of(&v, st, v.len())
}

fn owner_exec(t: &CrossTables, surface: &DeclaredSurface, nodes: &Vec<FactNode>, q: &str) -> (r: Option<String>)
    requires
        tables_ok(*t, *surface, nodes@),
    ensures
        r.deep_view() == owner_of(*surface, nodes@, q@),
{
    let v = chars_of(q);
    let class = match find_in(&v, "::") {
        Some(i) => string_of(&v, 0, i),
        None => {
            assert(v@.subrange(0, v.len() as int) =~= q@);
            string_of(&v, 0, v.len())
        },
    };
    assert(class@ == match find_str(q@, "::"@) {
        Some(i) => q@.take(i),
        None => q@,
    });
    let in_classes = find_last_row(&t.classes, class.as_str()).is_some();
    let in_testers = find_last_row(&t.testers, class.as_str()).is_some();
    if in_classes || in_testers {
        Some(class)
    } else {
        None
    }
}

fn holds_pair(seen: &Vec<(String, String)>, a: &str, b: &str) -> (r: bool)
    ensures
        r == seen@.map_values(|e: (String, String)| (e.0@, e.1@)).contains((a@, b@)),
{
    let ghost sv = seen@.map_values(|e: (String, String)| (e.0@, e.1@));
    let mut i: usize = 0;
    while i < seen.len()
        invariant
            i <= seen.len(),
            sv == seen@.map_values(|e: (String, String)| (e.0@, e.1@)),
            forall|j: int| 0 <= j < i ==> sv[j] != (a@, b@),
        decreases seen.len() - i,
    {
        if same_text(seen[i].0.as_str(), a) && same_text(seen[i].1.as_str(), b) {
            assert(sv[i as int] == (a@, b@));
            return true;
        }
        i = i + 1;
    }
    false
}

/// Each crossing the scan reports joins two different units and is a
/// `USES` edge, and no (source, target) pair of qualified names is
/// reported twice, whatever pairs it scans.
pub proof fn crossings_join_two_units_once(
    surface: DeclaredSurface,
    nodes: Seq<FactNode>,
    edges: Seq<FactEdge>,
    s: Seq<(Seq<char>, Seq<char>, usize)>,
)
    ensures
        cross_scan(surface, nodes, edges, s).0.len() == cross_scan(surface, nodes, edges, s).1.len(),
        forall|i: int|
            0 <= i < cross_scan(surface, nodes, edges, s).0.len() ==> {
                let e = #[trigger] cross_scan(surface, nodes, edges, s).0[i];
                &&& e.kind == EdgeKind::Uses
                &&& e.source_concept.unit is Some
                &&& e.target.unit is Some
                &&& e.source_concept.unit != e.target.unit
            },
        forall|i: int, j: int|
            0 <= i < j < cross_scan(surface, nodes, edges, s).1.len() ==> cross_scan(
                surface,
                nodes,
                edges,
                s,
            ).1[i] != cross_scan(surface, nodes, edges, s).1[j],
    decreases s.len(),
{
    if s.len() > 0 {
        crossings_join_two_units_once(surface, nodes, edges, s.drop_last());
        let prev = cross_scan(surface, nodes, edges, s.drop_last());
        let r = cross_scan(surface, nodes, edges, s);
        if r.1.len() > prev.1.len() {
            let t = s.last();
            assert(r.1 == prev.1.push((t.0, t.1)));
            assert(!prev.1.contains((t.0, t.1)));
            assert forall|i: int, j: int| 0 <= i < j < r.1.len() implies r.1[i] != r.1[j] by {
                if j == prev.1.len() {
                    assert(r.1[i] == prev.1[i]);
                } else {
                    assert(r.1[i] == prev.1[i]);
                    assert(r.1[j] == prev.1[j]);
                }
            }
            assert forall|i: int| 0 <= i < r.0.len() implies {
                let e = #[trigger] r.0[i];
                &&& e.kind == EdgeKind::Uses
                &&& e.source_concept.unit is Some
                &&& e.target.unit is Some
                &&& e.source_concept.unit != e.target.unit
            } by {
                if i < prev.0.len() {
                    assert(r.0[i] == prev.0[i]);
                }
            }
        }
    }
}

/// The crossings between units a PHP keyspace shows: each import of a
/// class into a file of another unit's class or tester, and each call from
/// one class or tester into another unit's class, read from the set of
/// (source, target, line) pairs in sorted order, one edge per (source,
/// target) pair at its lowest line. The sorted sequence of a set is unique,
/// so the edges are determined.
pub fn crossings(surface: &DeclaredSurface, nodes: &Vec<FactNode>, edges: &Vec<FactEdge>, cont: &Vec<(String, String)>) -> (out: Vec<Edge>)
    requires
        forall|id: Seq<char>| #[trigger] pair_get(cont@, id) == container_of(nodes@, edges@, id),
    ensures
        exists|s: Seq<(String, String, usize)>|
            #[trigger] strictly_sorted(s) && (forall|u: (Seq<char>, Seq<char>, usize)|
                #[trigger] holds(s, u) <==> crossing_pair(*surface, nodes@, edges@, u))
                && out.deep_view() == cross_scan(*surface, nodes@, edges@, s.map_values(
                |x: (String, String, usize)| tview(x),
            )).0,
{
    let t = cross_tables(surface, nodes);
    let ghost fe = file_entries(*surface, nodes@);
    let mut pairs: Vec<(String, String, usize)> = Vec::new();
    let mut i: usize = 0;
    while i < nodes.len()
        invariant
            i <= nodes.len(),
            tables_ok(t, *surface, nodes@),
            fe == file_entries(*surface, nodes@),
            strictly_sorted(pairs@),
            forall|u: (Seq<char>, Seq<char>, usize)| #[trigger]
                holds(pairs@, u) <==> import_pair(*surface, nodes@, i as int, u),
        decreases nodes.len() - i,
    {
        let n = &nodes[i];
        let fqn = prop(n, "fqn");
        let file = prop(n, "file");
        let is_import = same_text(n.label.as_str(), "Import");
        let mut matched = false;
        if is_import && fqn.is_some() && file.is_some() {
            let target = trim_backslashes(fqn.unwrap());
            let f = file.unwrap();
            if find_last_row(&t.classes, target.as_str()).is_some() {
                matched = true;
                let line = prop_usize(n, "line");
                let mut k: usize = 0;
                while k < t.files.len()
                    invariant
                        k <= t.files.len(),
                        tables_ok(t, *surface, nodes@),
                        fe == file_entries(*surface, nodes@),
                        fe.len() == t.files.len(),
                        i < nodes.len(),
                        *n == nodes@[i as int],
                        n.label@ == "Import"@,
                        prop_str(*n, "fqn"@).is_some(),
                        prop_str(*n, "file"@) == Some(f@),
                        target@ == trim_start_char(prop_str(*n, "fqn"@).unwrap(), '\\'),
                        class_of(*surface, nodes@, target@).is_some(),
                        line == prop_line(*n, "line"@),
                        strictly_sorted(pairs@),
                        forall|u: (Seq<char>, Seq<char>, usize)| #[trigger]
                            holds(pairs@, u) <==> (import_pair(*surface, nodes@, i as int, u)
                                || exists|kk: int| 0 <= kk < k && #[trigger] import_at_k(*surface, nodes@, i as int, kk, u)),
                    decreases t.files.len() - k,
                {
                    assert(fe[k as int] == (t.files@[k as int].0@, t.files@[k as int].1@));
                    if same_text(t.files[k].0.as_str(), f) {
                        let entry = (t.files[k].1.clone(), target.clone(), line);
                        let ghost ev = tview(entry);
                        insert_sorted(&mut pairs, entry);
                        assert(import_at_k(*surface, nodes@, i as int, k as int, ev));
                        assert forall|u: (Seq<char>, Seq<char>, usize)| #[trigger]
                            holds(pairs@, u) <==> (import_pair(*surface, nodes@, i as int, u)
                                || exists|kk: int| 0 <= kk < k + 1 && #[trigger] import_at_k(*surface, nodes@, i as int, kk, u)) by {
                            if exists|kk: int| 0 <= kk < k + 1 && #[trigger] import_at_k(*surface, nodes@, i as int, kk, u) {
                                let kk = choose|kk: int| 0 <= kk < k + 1 && #[trigger] import_at_k(*surface, nodes@, i as int, kk, u);
                                if kk == k {
                                    assert(u == ev);
                                }
                            }
                        }
                    } else {
                        assert forall|u: (Seq<char>, Seq<char>, usize)| #[trigger]
                            holds(pairs@, u) <==> (import_pair(*surface, nodes@, i as int, u)
                                || exists|kk: int| 0 <= kk < k + 1 && #[trigger] import_at_k(*surface, nodes@, i as int, kk, u)) by {
                            if exists|kk: int| 0 <= kk < k + 1 && #[trigger] import_at_k(*surface, nodes@, i as int, kk, u) {
                                let kk = choose|kk: int| 0 <= kk < k + 1 && #[trigger] import_at_k(*surface, nodes@, i as int, kk, u);
                                assert(kk != k);
                            }
                        }
                    }
                    k = k + 1;
                }
                assert forall|u: (Seq<char>, Seq<char>, usize)| #[trigger]
                    holds(pairs@, u) <==> import_pair(*surface, nodes@, i + 1, u) by {
                    if import_pair(*surface, nodes@, i + 1, u) {
                        let ii = choose|ii: int| 0 <= ii < i + 1 && #[trigger] import_at(*surface, nodes@, ii, u);
                        if ii == i {
                            let kk = choose|kk: int| #[trigger] import_at_k(*surface, nodes@, i as int, kk, u);
                            assert(0 <= kk < t.files.len());
                        } else {
                            assert(import_pair(*surface, nodes@, i as int, u));
                        }
                    }
                    if holds(pairs@, u) {
                        if import_pair(*surface, nodes@, i as int, u) {
                            let ii = choose|ii: int| 0 <= ii < i && #[trigger] import_at(*surface, nodes@, ii, u);
                            assert(import_pair(*surface, nodes@, i + 1, u));
                        } else {
                            let kk = choose|kk: int| 0 <= kk < t.files.len() && #[trigger] import_at_k(*surface, nodes@, i as int, kk, u);
                            assert(import_at(*surface, nodes@, i as int, u));
                            assert(import_pair(*surface, nodes@, i + 1, u));
                        }
                    }
                }
            }
        }
        if !matched {
            assert forall|u: (Seq<char>, Seq<char>, usize)| #[trigger]
                holds(pairs@, u) <==> import_pair(*surface, nodes@, i + 1, u) by {
                if import_pair(*surface, nodes@, i + 1, u) {
                    let ii = choose|ii: int| 0 <= ii < i + 1 && #[trigger] import_at(*surface, nodes@, ii, u);
                    if ii == i {
                        let kk = choose|kk: int| #[trigger] import_at_k(*surface, nodes@, i as int, kk, u);
                        assert(false);
                    }
                    assert(import_pair(*surface, nodes@, i as int, u));
                }
                if import_pair(*surface, nodes@, i as int, u) {
                    let ii = choose|ii: int| 0 <= ii < i && #[trigger] import_at(*surface, nodes@, ii, u);
                    assert(import_pair(*surface, nodes@, i + 1, u));
                }
            }
        }
        i = i + 1;
    }
    let mut j: usize = 0;
    while j < edges.len()
        invariant
            j <= edges.len(),
            tables_ok(t, *surface, nodes@),
            strictly_sorted(pairs@),
            forall|u: (Seq<char>, Seq<char>, usize)| #[trigger]
                holds(pairs@, u) <==> (import_pair(*surface, nodes@, nodes@.len() as int, u)
                    || call_pair(*surface, nodes@, edges@, j as int, u)),
        decreases edges.len() - j,
    {
        let e = &edges[j];
        let mut added = false;
        if same_text(e.label.as_str(), "CALLS") {
            let qs = find_last_pair(&t.qnames, e.src.as_str());
            let qd = find_last_pair(&t.qnames, e.dst.as_str());
            if let (Some(a), Some(b)) = (qs, qd) {
                let os = owner_exec(&t, surface, nodes, t.qnames[a].1.as_str());
                let od = owner_exec(&t, surface, nodes, t.qnames[b].1.as_str());
                if let (Some(x), Some(y)) = (os, od) {
                    let entry = (x, y, 0usize);
                    let ghost ev = tview(entry);
                    insert_sorted(&mut pairs, entry);
                    added = true;
                    assert(call_at(*surface, nodes@, edges@, j as int, ev));
                    assert forall|u: (Seq<char>, Seq<char>, usize)| #[trigger]
                        holds(pairs@, u) <==> (import_pair(*surface, nodes@, nodes@.len() as int, u)
                            || call_pair(*surface, nodes@, edges@, j + 1, u)) by {
                        if call_pair(*surface, nodes@, edges@, j + 1, u) {
                            let jj = choose|jj: int| 0 <= jj < j + 1 && #[trigger] call_at(*surface, nodes@, edges@, jj, u);
                            if jj == j {
                                assert(u == ev);
                            } else {
                                assert(call_pair(*surface, nodes@, edges@, j as int, u));
                            }
                        }
                        if call_pair(*surface, nodes@, edges@, j as int, u) {
                            let jj = choose|jj: int| 0 <= jj < j && #[trigger] call_at(*surface, nodes@, edges@, jj, u);
                            assert(call_pair(*surface, nodes@, edges@, j + 1, u));
                        }
                        if u == ev {
                            assert(call_pair(*surface, nodes@, edges@, j + 1, u));
                        }
                    }
                }
            }
        }
        if !added {
            assert forall|u: (Seq<char>, Seq<char>, usize)| #[trigger]
                holds(pairs@, u) <==> (import_pair(*surface, nodes@, nodes@.len() as int, u)
                    || call_pair(*surface, nodes@, edges@, j + 1, u)) by {
                if call_pair(*surface, nodes@, edges@, j + 1, u) {
                    let jj = choose|jj: int| 0 <= jj < j + 1 && #[trigger] call_at(*surface, nodes@, edges@, jj, u);
                    if jj == j {
                        assert(false);
                    }
                    assert(call_pair(*surface, nodes@, edges@, j as int, u));
                }
                if call_pair(*surface, nodes@, edges@, j as int, u) {
                    let jj = choose|jj: int| 0 <= jj < j && #[trigger] call_at(*surface, nodes@, edges@, jj, u);
                    assert(call_pair(*surface, nodes@, edges@, j + 1, u));
                }
            }
        }
        j = j + 1;
    }
    let ghost sv = pairs@.map_values(|x: (String, String, usize)| tview(x));
    let mut out: Vec<Edge> = Vec::new();
    let mut seen: Vec<(String, String)> = Vec::new();
    let mut k: usize = 0;
    while k < pairs.len()
        invariant
            k <= pairs.len(),
            tables_ok(t, *surface, nodes@),
            forall|id: Seq<char>| #[trigger] pair_get(cont@, id) == container_of(nodes@, edges@, id),
            sv == pairs@.map_values(|x: (String, String, usize)| tview(x)),
            out.deep_view() == cross_scan(*surface, nodes@, edges@, sv.take(k as int)).0,
            seen@.map_values(|e: (String, String)| (e.0@, e.1@)) == cross_scan(*surface, nodes@, edges@, sv.take(k as int)).1,
        decreases pairs.len() - k,
    {
        let p = &pairs[k];
        assert(sv.take(k + 1).drop_last() =~= sv.take(k as int));
        assert(sv.take(k + 1).last() == tview(*p));
        let ghost prev = cross_scan(*surface, nodes@, edges@, sv.take(k as int));
        let src = match find_last_row(&t.classes, p.0.as_str()) {
            Some(r) => Some(r),
            None => None,
        };
        let (src_row, from_classes) = match src {
            Some(r) => (Some(r), true),
            None => (find_last_row(&t.testers, p.0.as_str()), false),
        };
        let dst_row = find_last_row(&t.classes, p.1.as_str());
        if let (Some(si), Some(di)) = (src_row, dst_row) {
            let (sid, sname, sunit) = if from_classes {
                (&t.classes[si].1, &t.classes[si].2, &t.classes[si].3)
            } else {
                (&t.testers[si].1, &t.testers[si].2, &t.testers[si].3)
            };
            let dname = &t.classes[di].2;
            let dunit = &t.classes[di].3;
            if !same_text(sunit.as_str(), dunit.as_str()) && !holds_pair(&seen, p.0.as_str(), p.1.as_str()) {
                let module = match container_lookup(cont, sid.as_str()) {
                    Some(m) => m,
                    None => sunit.clone(),
                };
                let edge = php_edge(
                    sname.as_str(),
                    sunit.as_str(),
                    EdgeKind::Uses,
                    dname.as_str(),
                    Some(dunit.as_str()),
                    module.as_str(),
                    p.2,
                );
                let ghost ob = out.deep_view();
                out.push(edge);
                assert(out.deep_view() =~= ob.push(edge@));
                let ghost sb = seen@;
                seen.push((p.0.clone(), p.1.clone()));
                assert(seen@.map_values(|e: (String, String)| (e.0@, e.1@)) =~= sb.map_values(
                    |e: (String, String)| (e.0@, e.1@),
                ).push((p.0@, p.1@)));
            }
        }
        k = k + 1;
    }
    assert(sv.take(k as int) =~= sv);
    assert(strictly_sorted(pairs@));
    assert forall|u: (Seq<char>, Seq<char>, usize)| #[trigger]
        holds(pairs@, u) <==> crossing_pair(*surface, nodes@, edges@, u) by {}
    out
}

/// What the relationships of a PHP keyspace are: its `IMPLEMENTS` edges,
/// then its crossings. Refused where containment is malformed, or at the
/// first item that carries no PHP construct.
pub open spec fn relationships_result(surface: DeclaredSurface, nodes: Seq<FactNode>, edges: Seq<FactEdge>, r: Result<Vec<Edge>, ReaderError>) -> bool {
    match r {
        Err(e) => match first_bad(nodes, edges, edges.len()) {
            Some(k) => e@ == bad_edge_error(nodes, edges, k),
            None => first_unconstructed(nodes, nodes.len()) matches Some(i) && e@ == unknown_rung_spec(
                nodes[i],
                None,
            ),
        },
        Ok(out) => first_bad(nodes, edges, edges.len()) is None && first_unconstructed(
            nodes,
            nodes.len(),
        ) is None && {
            let imp = implements_scan(surface, nodes, edges, edges.len());
            &&& out.deep_view().take(imp.len() as int) == imp
            &&& imp.len() <= out.deep_view().len()
            &&& exists|s: Seq<(String, String, usize)>|
                #[trigger] strictly_sorted(s) && (forall|u: (Seq<char>, Seq<char>, usize)|
                    #[trigger] holds(s, u) <==> crossing_pair(surface, nodes, edges, u))
                    && out.deep_view().skip(imp.len() as int) == cross_scan(
                    surface,
                    nodes,
                    edges,
                    s.map_values(|x: (String, String, usize)| tview(x)),
                ).0
        },
    }
}

/// The relationships of a PHP keyspace.
pub fn php_relationships(surface: &DeclaredSurface, nodes: &Vec<FactNode>, edges: &Vec<FactEdge>) -> (r: Result<Vec<Edge>, ReaderError>)
    ensures
        relationships_result(*surface, nodes@, edges@, r),
{
    let cont = match containers(nodes, edges) {
        Ok(c) => c,
        Err(e) => return Err(e),
    };
    let entries = match rung_entries(surface, nodes) {
        Ok(l) => l,
        Err(e) => return Err(e),
    };
    let mut out = implements_relationships(surface, nodes, edges, &cont, &entries);
    let ghost imp = out.deep_view();
    let cross = crossings(surface, nodes, edges, &cont);
    let ghost cv = cross.deep_view();
    let mut i: usize = 0;
    while i < cross.len()
        invariant
            i <= cross.len(),
            cv == cross.deep_view(),
            out.deep_view() =~= imp + cv.take(i as int),
        decreases cross.len() - i,
    {
        let e = cross[i].clone_edge();
        let ghost ob = out.deep_view();
        out.push(e);
        assert(out.deep_view() =~= ob.push(cv[i as int]));
        i = i + 1;
    }
    assert(cv.take(i as int) =~= cv);
    assert(out.deep_view().take(imp.len() as int) =~= imp);
    assert(out.deep_view().skip(imp.len() as int) =~= cv);
    Ok(out)
}

} // verus!
