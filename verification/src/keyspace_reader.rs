//! Reading a keyspace's nodes and edges as code facts, by the producer that
//! wrote it.
use vstd::prelude::*;
use crate::graph::{ConceptNode, Edge, PubFnDecl, SignatureState};
use crate::keyspace::{
    anchor_key, anchor_key_spec, discriminate, discriminate_spec, is_item, is_item_concept,
    namespace_of, namespace_spec, prop, prop_line, prop_str, prop_usize, rust_concepts,
    rust_concepts_spec, FactEdge, FactNode, Producer,
};
use crate::model::{LocationKind, Marker, Polarity, Provenance, ProvenanceV, ReaderError, ReaderErrorV, SourceV, Source};
use crate::paths::same_text;
use crate::php_keyspace::{
    concept_rung_items, php_concepts, php_concepts_spec, php_relationships, relationships_result,
    rung_count,
};
use crate::surface::{surface_unit, DeclaredSurface};
use crate::rust_keyspace::{rust_relationships, rust_relationships_spec};
use crate::text::text_of;

verus! {

/// The concepts of a keyspace: the PHP reading when its producer is PHP,
/// the Rust reading otherwise.
pub fn keyspace_concepts(
    keyspace: &str,
    surface: &DeclaredSurface,
    nodes: &Vec<FactNode>,
    edges: &Vec<FactEdge>,
    root: &str,
) -> (r: Result<Vec<ConceptNode>, ReaderError>)
    ensures
        match discriminate_spec(keyspace@, nodes@) {
            Err(e) => r matches Err(x) && x@ == e,
            Ok(Producer::Php) => match r {
                Ok(out) => php_concepts_spec(*surface, nodes@, edges@) matches Ok(cs) && out.len()
                    == cs.len() && forall|i: int|
                    0 <= i < out.len() ==> (#[trigger] out@[i]).name@ == cs[i].0 && out@[i].source@
                        == cs[i].1 && out@[i].signature == SignatureState::Absent
                        && out@[i].declared_context.is_none() && out@[i].polarity == Polarity::Declared
                    && out@[i].marker == Marker::Unmarked,
                Err(e) => php_concepts_spec(*surface, nodes@, edges@) == Err::<
                    Seq<(Seq<char>, SourceV)>,
                    ReaderErrorV,
                >(e@),
            },
            Ok(Producer::Rust) => r matches Ok(out) && out.len() == rust_concepts_spec(
                nodes@,
                root@,
            ).len() && forall|i: int|
                0 <= i < out.len() ==> is_item_concept(
                    #[trigger] out@[i],
                    rust_concepts_spec(nodes@, root@)[i],
                ),
        },
{
    match discriminate(keyspace, nodes) {
        Err(e) => Err(e),
        Ok(Producer::Php) => php_concepts(surface, nodes, edges),
        Ok(Producer::Rust) => Ok(rust_concepts(nodes, root)),
    }
}

/// The relationships of a keyspace: the PHP reading of a PHP keyspace, the
/// Rust reading (items under `root`) of a Rust one.
pub fn keyspace_relationships(
    keyspace: &str,
    surface: &DeclaredSurface,
    nodes: &Vec<FactNode>,
    edges: &Vec<FactEdge>,
    root: &str,
) -> (r: Result<Vec<Edge>, ReaderError>)
    ensures
        match discriminate_spec(keyspace@, nodes@) {
            Err(e) => r matches Err(x) && x@ == e,
            Ok(Producer::Rust) => r matches Ok(out) && out.deep_view() == rust_relationships_spec(
                nodes@,
                edges@,
                root@,
            ),
            Ok(Producer::Php) => relationships_result(*surface, nodes@, edges@, r),
        },
{
    match discriminate(keyspace, nodes) {
        Err(e) => Err(e),
        Ok(Producer::Php) => php_relationships(surface, nodes, edges),
        Ok(Producer::Rust) => Ok(rust_relationships(nodes, edges, root)),
    }
}

/// How many items of a PHP keyspace stand on the concept rung; none for a
/// Rust keyspace.
pub fn keyspace_concept_rung_items(keyspace: &str, nodes: &Vec<FactNode>) -> (r: Result<usize, ReaderError>)
    ensures
        match discriminate_spec(keyspace@, nodes@) {
            Err(e) => r matches Err(x) && x@ == e,
            Ok(Producer::Rust) => r == Ok::<usize, ReaderError>(0),
            Ok(Producer::Php) => r matches Ok(n) && n == rung_count(nodes@),
        },
{
    match discriminate(keyspace, nodes) {
        Err(e) => Err(e),
        Ok(Producer::Php) => Ok(concept_rung_items(nodes)),
        Ok(Producer::Rust) => Ok(0),
    }
}

/// Whether a PHP construct is a function or a method.
pub open spec fn is_verb_construct(c: Seq<char>) -> bool {
    c == "method_declaration"@ || c == "function_definition"@
}

/// The public function a PHP item declares: a method or function whose
/// qualified name a declared prefix owns, keyed by `anchor_key` and located
/// at its namespace.
pub open spec fn pub_fn_of(surface: DeclaredSurface, n: FactNode) -> Option<(Seq<char>, SourceV, Seq<char>)> {
    if !is_item(n) {
        None
    } else {
        match prop_str(n, "php_construct"@) {
            None => None,
            Some(c) => if !is_verb_construct(c) {
                None
            } else {
                match prop_str(n, "qname"@) {
                    None => None,
                    Some(q) => match surface_unit(surface, q) {
                        None => None,
                        Some(unit) => Some(
                            (
                                anchor_key_spec(q, c),
                                SourceV::Code {
                                    path: namespace_spec(q),
                                    line: prop_line(n, "line"@),
                                    provenance: ProvenanceV { module: None, unit: None, context: None },
                                    location: LocationKind::Namespace,
                                },
                                unit,
                            ),
                        ),
                    },
                }
            },
        }
    }
}

pub open spec fn pub_fns_spec(surface: DeclaredSurface, nodes: Seq<FactNode>) -> Seq<(Seq<char>, SourceV, Seq<char>)>
    decreases nodes.len(),
{
    if nodes.len() == 0 {
        seq![]
    } else {
        let rest = pub_fns_spec(surface, nodes.drop_last());
        match pub_fn_of(surface, nodes.last()) {
            Some(d) => rest.push(d),
            None => rest,
        }
    }
}

pub open spec fn is_pub_fn(d: PubFnDecl, v: (Seq<char>, SourceV, Seq<char>)) -> bool {
    d.name@ == v.0 && d.source@ == v.1 && d.owned_unit.deep_view() == Some(v.2)
}

/// The public functions of a PHP keyspace; none for a Rust keyspace.
pub fn keyspace_pub_fns(keyspace: &str, surface: &DeclaredSurface, nodes: &Vec<FactNode>) -> (r: Result<Vec<PubFnDecl>, ReaderError>)
    ensures
        match discriminate_spec(keyspace@, nodes@) {
            Err(e) => r matches Err(x) && x@ == e,
            Ok(Producer::Rust) => r matches Ok(out) && out.len() == 0,
            Ok(Producer::Php) => r matches Ok(out) && out.len() == pub_fns_spec(*surface, nodes@).len()
                && forall|i: int|
                0 <= i < out.len() ==> is_pub_fn(#[trigger] out@[i], pub_fns_spec(*surface, nodes@)[i]),
        },
{
    match discriminate(keyspace, nodes) {
        Err(e) => return Err(e),
        Ok(Producer::Rust) => return Ok(Vec::new()),
        Ok(Producer::Php) => {},
    }
    let mut out: Vec<PubFnDecl> = Vec::new();
    let mut i: usize = 0;
    while i < nodes.len()
        invariant
            i <= nodes.len(),
            out.len() == pub_fns_spec(*surface, nodes@.take(i as int)).len(),
            forall|j: int|
                0 <= j < out.len() ==> is_pub_fn(
                    #[trigger] out@[j],
                    pub_fns_spec(*surface, nodes@.take(i as int))[j],
                ),
        decreases nodes.len() - i,
    {
        let n = &nodes[i];
        assert(nodes@.take(i + 1).drop_last() =~= nodes@.take(i as int));
        assert(nodes@.take(i + 1).last() == *n);
        if same_text(n.label.as_str(), "Item") {
            if let Some(c) = prop(n, "php_construct") {
                if same_text(c, "method_declaration") || same_text(c, "function_definition") {
                    if let Some(q) = prop(n, "qname") {
                        if let Some(unit) = surface.unit_of(q) {
                            let line = prop_usize(n, "line");
                            out.push(
                                PubFnDecl {
                                    name: anchor_key(q, c),
                                    source: Source::Code {
                                        path: namespace_of(q),
                                        line,
                                        provenance: Provenance::empty(),
                                        location: LocationKind::Namespace,
                                    },
                                    owned_unit: Some(text_of(unit)),
                                },
                            );
                        }
                    }
                }
            }
        }
        i = i + 1;
    }
    assert(nodes@.take(i as int) =~= nodes@);
    Ok(out)
}

} // verus!
