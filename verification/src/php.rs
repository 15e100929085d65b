//! The PHP attribute channel: `#[Spec(...)]` attributes on classes,
//! interfaces and enums, read as spec-side facts.
use vstd::prelude::*;
use crate::graph::{ConceptNode, ConceptNodeV, ConceptRef, ConceptRefV, Edge, EdgeV, SignatureState, SignatureStateV};
use crate::model::{EdgeKind, Marker, Polarity, Source, SourceV, SpecFormat};
use crate::outcome::Violation;
use crate::paths::same_text;
use crate::text::{
    chars_of, push_decimal, push_str, starts_with, starts_with_at, text_of, trim_start,
    trim_start_at,
};

verus! {

/// The keys the `#[Spec(...)]` channel defines.
pub open spec fn is_accepted_key(k: Seq<char>) -> bool {
    k == "implements"@ || k == "extends"@ || k == "signature"@
}

pub fn accepted_key(k: &str) -> (r: bool)
    ensures
        r == is_accepted_key(k@),
{
    same_text(k, "implements") || same_text(k, "extends") || same_text(k, "signature")
}

/// Reads `#[Spec(...)]` attributes from PHP sources.
#[derive(Debug, Clone, Copy, PartialEq, Eq)]
pub struct PhpAttributeReader;

impl PhpAttributeReader {
    pub fn new() -> (r: PhpAttributeReader)
        ensures
            r == PhpAttributeReader,
    {
        PhpAttributeReader
    }
}

/// Normalizes signatures written in `php` fences.
#[derive(Debug, Clone, Copy, PartialEq, Eq)]
pub struct PhpSignatures;

impl PhpSignatures {
    /// The fence tag whose blocks this normalizer reads.
    pub fn fence_tag(&self) -> (r: &'static str)
        ensures
            r@ == "php"@,
    {
        "php"
    }
}

/// A concept construct carrying a `#[Spec(...)]` attribute: its name, the
/// line of the construct and the attribute's `key: "value"` arguments with
/// their lines.
#[derive(Debug, Clone, PartialEq, Eq)]
pub struct Attributed {
    pub concept: String,
    pub line: usize,
    pub keys: Vec<(String, String, usize)>,
}

/// The spec source of a fact read from an attribute.
pub open spec fn attribute_site(path: Seq<char>, line: usize) -> SourceV {
    SourceV::Spec { format: SpecFormat::InlineAttribute, path, line, context: None }
}

fn site(path: &str, line: usize) -> (s: Source)
    ensures
        s@ == attribute_site(path@, line),
{
    Source::Spec { format: SpecFormat::InlineAttribute, path: text_of(path), line, context: None }
}

/// The first `signature` argument's value, when there is one.
pub open spec fn signature_of(keys: Seq<(String, String, usize)>) -> SignatureStateV
    decreases keys.len(),
{
    if keys.len() == 0 {
        SignatureStateV::Absent
    } else if keys[0].0@ == "signature"@ {
        SignatureStateV::Normalized(keys[0].1@)
    } else {
        signature_of(keys.drop_first())
    }
}

fn signature_exec(keys: &Vec<(String, String, usize)>) -> (s: SignatureState)
    ensures
        s@ == signature_of(keys@),
{
    let mut i: usize = 0;
    assert(keys@.subrange(0, keys.len() as int) =~= keys@);
    while i < keys.len()
        invariant
            i <= keys.len(),
            signature_of(keys@) == signature_of(keys@.subrange(i as int, keys.len() as int)),
        decreases keys.len() - i,
    {
        assert(keys@.subrange(i as int, keys.len() as int).drop_first() =~= keys@.subrange(
            i + 1,
            keys.len() as int,
        ));
        if same_text(keys[i].0.as_str(), "signature") {
            return SignatureState::Normalized(keys[i].1.clone());
        }
        i = i + 1;
    }
    SignatureState::Absent
}

/// The concept an attributed construct declares.
pub open spec fn attributed_node(path: Seq<char>, a: Attributed) -> (Seq<char>, SourceV, SignatureStateV) {
    (a.concept@, attribute_site(path, a.line), signature_of(a.keys@))
}

/// The `implements` edges of an attributed construct, in argument order.
pub open spec fn implements_edges(path: Seq<char>, concept: Seq<char>, line: usize, keys: Seq<(String, String, usize)>) -> Seq<EdgeV>
    decreases keys.len(),
{
    if keys.len() == 0 {
        seq![]
    } else {
        let rest = implements_edges(path, concept, line, keys.drop_last());
        let k = keys.last();
        if k.0@ == "implements"@ {
            rest.push(
                EdgeV {
                    source_concept: ConceptRefV { name: concept, context: None, unit: None },
                    kind: EdgeKind::Implements,
                    target: ConceptRefV { name: k.1@, context: None, unit: None },
                    raw_target: k.1@,
                    source: attribute_site(path, line),
                },
            )
        } else {
            rest
        }
    }
}

/// The edges of the first `n` attributed constructs.
pub open spec fn attributed_edges(path: Seq<char>, attrs: Seq<Attributed>) -> Seq<EdgeV>
    decreases attrs.len(),
{
    if attrs.len() == 0 {
        seq![]
    } else {
        let a = attrs.last();
        attributed_edges(path, attrs.drop_last()) + implements_edges(
            path,
            a.concept@,
            a.line,
            a.keys@,
        )
    }
}

/// An argument named `implements`.
pub open spec fn implements_arg(k: (String, String, usize)) -> bool {
    k.0@ == "implements"@
}

/// `e` is an `IMPLEMENTS` edge from `concept` to `target`.
pub open spec fn implements_edge_of(e: EdgeV, concept: Seq<char>, target: Seq<char>) -> bool {
    e.kind == EdgeKind::Implements && e.source_concept.name == concept && e.target.name == target
}

/// Some edge of `es` runs from `concept` to `target` as an `IMPLEMENTS`.
pub open spec fn has_implements(es: Seq<EdgeV>, concept: Seq<char>, target: Seq<char>) -> bool {
    exists|j: int| 0 <= j < es.len() && #[trigger] implements_edge_of(es[j], concept, target)
}

/// The `k`-th argument of the `i`-th attributed construct is an
/// `implements` whose edge is `e`.
pub open spec fn edge_from_argument(attrs: Seq<Attributed>, i: int, k: int, e: EdgeV) -> bool {
    &&& 0 <= i < attrs.len() && 0 <= k < attrs[i].keys@.len()
    &&& implements_arg(attrs[i].keys@[k])
    &&& implements_edge_of(e, attrs[i].concept@, attrs[i].keys@[k].1@)
}

/// `e` is the edge of an `implements` argument among `keys`.
pub open spec fn from_some_arg(keys: Seq<(String, String, usize)>, concept: Seq<char>, e: EdgeV) -> bool {
    exists|k: int| 0 <= k < keys.len() && implements_arg(keys[k]) && #[trigger] implements_edge_of(e, concept, keys[k].1@)
}

/// `e` is the edge of an `implements` argument of an attributed construct.
pub open spec fn from_some_construct(attrs: Seq<Attributed>, e: EdgeV) -> bool {
    exists|i: int, k: int| #[trigger] edge_from_argument(attrs, i, k, e)
}

proof fn lemma_implements_edges(path: Seq<char>, concept: Seq<char>, line: usize, keys: Seq<(String, String, usize)>)
    ensures
        forall|j: int|
            #![trigger implements_edges(path, concept, line, keys)[j]]
            0 <= j < implements_edges(path, concept, line, keys).len() ==> from_some_arg(
                keys,
                concept,
                implements_edges(path, concept, line, keys)[j],
            ),
        forall|k: int|
            0 <= k < keys.len() && #[trigger] implements_arg(keys[k]) ==> has_implements(
                implements_edges(path, concept, line, keys),
                concept,
                keys[k].1@,
            ),
    decreases keys.len(),
{
    if keys.len() > 0 {
        let rest = keys.drop_last();
        lemma_implements_edges(path, concept, line, rest);
        let es = implements_edges(path, concept, line, keys);
        let rs = implements_edges(path, concept, line, rest);
        assert forall|j: int|
            #![trigger implements_edges(path, concept, line, keys)[j]]
            0 <= j < implements_edges(path, concept, line, keys).len() implies from_some_arg(
                keys,
                concept,
                implements_edges(path, concept, line, keys)[j],
            ) by {
            if j < rs.len() {
                assert(es[j] == rs[j]);
                assert(from_some_arg(rest, concept, rs[j]));
                let k0 = choose|k: int|
                    0 <= k < rest.len() && implements_arg(rest[k]) && #[trigger] implements_edge_of(
                        rs[j],
                        concept,
                        rest[k].1@,
                    );
                assert(keys[k0] == rest[k0]);
                assert(implements_edge_of(es[j], concept, keys[k0].1@));
            } else {
                assert(implements_edge_of(es[j], concept, keys[keys.len() - 1].1@));
            }
        }
        assert forall|k: int|
            0 <= k < keys.len() && #[trigger] implements_arg(keys[k]) implies has_implements(
                es,
                concept,
                keys[k].1@,
            ) by {
            if k < rest.len() {
                assert(rest[k] == keys[k]);
                assert(implements_arg(rest[k]));
                assert(has_implements(rs, concept, rest[k].1@));
                let j0 = choose|j: int| 0 <= j < rs.len() && #[trigger] implements_edge_of(rs[j], concept, keys[k].1@);
                assert(es[j0] == rs[j0]);
            } else {
                assert(implements_edge_of(es[rs.len() as int], concept, keys[k].1@));
            }
        }
    } else {
        assert(implements_edges(path, concept, line, keys).len() == 0);
    }
}

/// The facts read from `#[Spec(...)]` attributes hold one `IMPLEMENTS`
/// edge per `implements` argument, from the attributed construct's concept
/// to the argument's value, and no other edge.
pub proof fn attribute_edges_run_from_their_construct(path: Seq<char>, attrs: Seq<Attributed>)
    ensures
        forall|j: int|
            #![trigger attributed_edges(path, attrs)[j]]
            0 <= j < attributed_edges(path, attrs).len() ==> from_some_construct(
                attrs,
                attributed_edges(path, attrs)[j],
            ),
        forall|i: int, k: int|
            0 <= i < attrs.len() && 0 <= k < attrs[i].keys@.len() && #[trigger] implements_arg(attrs[i].keys@[k]) ==> has_implements(
                attributed_edges(path, attrs),
                attrs[i].concept@,
                attrs[i].keys@[k].1@,
            ),
    decreases attrs.len(),
{
    if attrs.len() > 0 {
        let rest = attrs.drop_last();
        let a = attrs.last();
        let n = attrs.len() - 1;
        attribute_edges_run_from_their_construct(path, rest);
        lemma_implements_edges(path, a.concept@, a.line, a.keys@);
        let es = attributed_edges(path, attrs);
        let rs = attributed_edges(path, rest);
        let ls = implements_edges(path, a.concept@, a.line, a.keys@);
        assert(es == rs + ls);
        assert forall|j: int|
            #![trigger attributed_edges(path, attrs)[j]]
            0 <= j < attributed_edges(path, attrs).len() implies from_some_construct(
                attrs,
                attributed_edges(path, attrs)[j],
            ) by {
            if j < rs.len() {
                assert(es[j] == rs[j]);
                assert(from_some_construct(rest, rs[j]));
                let (i0, k0) = choose|i: int, k: int| #[trigger] edge_from_argument(rest, i, k, rs[j]);
                assert(rest[i0] == attrs[i0]);
                assert(edge_from_argument(attrs, i0, k0, es[j]));
            } else {
                assert(es[j] == ls[j - rs.len()]);
                assert(from_some_arg(a.keys@, a.concept@, ls[j - rs.len()]));
                let k0 = choose|k: int|
                    0 <= k < a.keys@.len() && implements_arg(a.keys@[k]) && #[trigger] implements_edge_of(
                        ls[j - rs.len()],
                        a.concept@,
                        a.keys@[k].1@,
                    );
                assert(edge_from_argument(attrs, n, k0, es[j]));
            }
        }
        assert forall|i: int, k: int|
            0 <= i < attrs.len() && 0 <= k < attrs[i].keys@.len() && #[trigger] implements_arg(attrs[i].keys@[k]) implies has_implements(es, attrs[i].concept@, attrs[i].keys@[k].1@) by {
            if i < n {
                assert(rest[i] == attrs[i]);
                assert(implements_arg(rest[i].keys@[k]));
                assert(has_implements(rs, rest[i].concept@, rest[i].keys@[k].1@));
                let j0 = choose|j: int|
                    0 <= j < rs.len() && #[trigger] implements_edge_of(rs[j], attrs[i].concept@, attrs[i].keys@[k].1@);
                assert(es[j0] == rs[j0]);
            } else {
                assert(attrs[i] == a);
                assert(implements_arg(a.keys@[k]));
                assert(has_implements(ls, a.concept@, a.keys@[k].1@));
                let j0 = choose|j: int|
                    0 <= j < ls.len() && #[trigger] implements_edge_of(ls[j], a.concept@, a.keys@[k].1@);
                assert(es[rs.len() + j0] == ls[j0]);
            }
        }
    } else {
        assert(attributed_edges(path, attrs).len() == 0);
    }
}

/// The concept an attributed construct declares.
pub open spec fn attributed_node_view(path: Seq<char>, a: Attributed) -> ConceptNodeV {
    let (name, source, sig) = attributed_node(path, a);
    ConceptNodeV {
        name,
        source,
        signature: sig,
        declared_context: None,
        polarity: Polarity::Declared,
        marker: Marker::Unmarked,
    }
}

/// The spec facts of one PHP file: one concept per attributed construct,
/// whose signature is its first `signature` argument, and one `IMPLEMENTS`
/// edge per `implements` argument.
pub fn attributed_facts(path: &str, attrs: &Vec<Attributed>) -> (r: (Vec<ConceptNode>, Vec<Edge>))
    ensures
        r.0.len() == attrs.len(),
        forall|i: int|
            0 <= i < attrs.len() ==> {
                let (name, source, sig) = attributed_node(path@, #[trigger] attrs@[i]);
                r.0@[i].name@ == name && r.0@[i].source@ == source && r.0@[i].signature@ == sig
                    && r.0@[i].declared_context.is_none() && r.0@[i].polarity == Polarity::Declared
                    && r.0@[i].marker == Marker::Unmarked
            },
        r.1.deep_view() == attributed_edges(path@, attrs@),
        r.0.deep_view() == attrs@.map_values(|a: Attributed| attributed_node_view(path@, a)),
{
    let mut nodes: Vec<ConceptNode> = Vec::new();
    let mut edges: Vec<Edge> = Vec::new();
    let mut i: usize = 0;
    while i < attrs.len()
        invariant
            i <= attrs.len(),
            nodes.len() == i,
            forall|j: int|
                0 <= j < i ==> {
                    let (name, source, sig) = attributed_node(path@, #[trigger] attrs@[j]);
                    nodes@[j].name@ == name && nodes@[j].source@ == source && nodes@[j].signature@
                        == sig && nodes@[j].declared_context.is_none() && nodes@[j].polarity
                        == Polarity::Declared && nodes@[j].marker == Marker::Unmarked
                },
            edges.deep_view() == attributed_edges(path@, attrs@.take(i as int)),
        decreases attrs.len() - i,
    {
        let a = &attrs[i];
        let signature = signature_exec(&a.keys);
        nodes.push(ConceptNode::new(a.concept.clone(), site(path, a.line), signature));
        let ghost base = edges.deep_view();
        let mut k: usize = 0;
        while k < a.keys.len()
            invariant
                k <= a.keys.len(),
                edges.deep_view() == base + implements_edges(
                    path@,
                    a.concept@,
                    a.line,
                    a.keys@.take(k as int),
                ),
            decreases a.keys.len() - k,
        {
            assert(a.keys@.take(k + 1).drop_last() =~= a.keys@.take(k as int));
            assert(a.keys@.take(k + 1).last() == a.keys@[k as int]);
            if same_text(a.keys[k].0.as_str(), "implements") {
                let e = Edge {
                    source_concept: ConceptRef::named(a.concept.clone()),
                    kind: EdgeKind::Implements,
                    target: ConceptRef::named(a.keys[k].1.clone()),
                    raw_target: a.keys[k].1.clone(),
                    source: site(path, a.line),
                };
                let ghost before = edges.deep_view();
                edges.push(e);
                assert(edges.deep_view() =~= before.push(e@));
            }
            assert(base + implements_edges(path@, a.concept@, a.line, a.keys@.take(k + 1))
                =~= edges.deep_view());
            k = k + 1;
        }
        assert(a.keys@.take(k as int) =~= a.keys@);
        assert(attrs@.take(i + 1).drop_last() =~= attrs@.take(i as int));
        assert(attrs@.take(i + 1).last() == attrs@[i as int]);
        i = i + 1;
    }
    assert(attrs@.take(i as int) =~= attrs@);
    assert(nodes.deep_view() =~= attrs@.map_values(|a: Attributed| attributed_node_view(path@, a)));
    (nodes, edges)
}

/// The (concept, key, line) of each argument the channel does not define,
/// construct by construct and argument by argument.
pub open spec fn key_findings(concept: Seq<char>, keys: Seq<(String, String, usize)>) -> Seq<(Seq<char>, Seq<char>, usize)>
    decreases keys.len(),
{
    if keys.len() == 0 {
        seq![]
    } else {
        let rest = key_findings(concept, keys.drop_last());
        let k = keys.last();
        if is_accepted_key(k.0@) {
            rest
        } else {
            rest.push((concept, k.0@, k.2))
        }
    }
}

pub open spec fn attribute_findings(attrs: Seq<Attributed>) -> Seq<(Seq<char>, Seq<char>, usize)>
    decreases attrs.len(),
{
    if attrs.len() == 0 {
        seq![]
    } else {
        attribute_findings(attrs.drop_last()) + key_findings(attrs.last().concept@, attrs.last().keys@)
    }
}

/// Whether a violation is the unknown-key finding of `f` in `path`.
pub open spec fn is_key_finding(v: Violation, path: Seq<char>, f: (Seq<char>, Seq<char>, usize)) -> bool {
    v matches Violation::UnknownAttributeKey { concept, key, spec_source } && concept@ == f.0
        && key@ == f.1 && spec_source@ == attribute_site(path, f.2)
}

/// One finding per attribute argument whose key the channel does not
/// define, at the argument's line.
pub fn attribute_key_findings(path: &str, attrs: &Vec<Attributed>) -> (r: Vec<Violation>)
    ensures
        r.len() == attribute_findings(attrs@).len(),
        forall|i: int|
            0 <= i < r.len() ==> is_key_finding(
                #[trigger] r@[i],
                path@,
                attribute_findings(attrs@)[i],
            ),
{
    let mut out: Vec<Violation> = Vec::new();
    let mut i: usize = 0;
    while i < attrs.len()
        invariant
            i <= attrs.len(),
            out.len() == attribute_findings(attrs@.take(i as int)).len(),
            forall|j: int|
                0 <= j < out.len() ==> is_key_finding(
                    #[trigger] out@[j],
                    path@,
                    attribute_findings(attrs@.take(i as int))[j],
                ),
        decreases attrs.len() - i,
    {
        let a = &attrs[i];
        let ghost base = attribute_findings(attrs@.take(i as int));
        let mut k: usize = 0;
        while k < a.keys.len()
            invariant
                k <= a.keys.len(),
                out.len() == base.len() + key_findings(a.concept@, a.keys@.take(k as int)).len(),
                forall|j: int|
                    0 <= j < out.len() ==> is_key_finding(
                        #[trigger] out@[j],
                        path@,
                        (base + key_findings(a.concept@, a.keys@.take(k as int)))[j],
                    ),
            decreases a.keys.len() - k,
        {
            assert(a.keys@.take(k + 1).drop_last() =~= a.keys@.take(k as int));
            assert(a.keys@.take(k + 1).last() == a.keys@[k as int]);
            let ghost prev = base + key_findings(a.concept@, a.keys@.take(k as int));
            if !accepted_key(a.keys[k].0.as_str()) {
                out.push(
                    Violation::UnknownAttributeKey {
                        concept: a.concept.clone(),
                        key: a.keys[k].0.clone(),
                        spec_source: site(path, a.keys[k].2),
                    },
                );
                assert(base + key_findings(a.concept@, a.keys@.take(k + 1)) =~= prev.push(
                    (a.concept@, a.keys@[k as int].0@, a.keys@[k as int].2),
                ));
            } else {
                assert(base + key_findings(a.concept@, a.keys@.take(k + 1)) =~= prev);
            }
            k = k + 1;
        }
        assert(a.keys@.take(k as int) =~= a.keys@);
        assert(attrs@.take(i + 1).drop_last() =~= attrs@.take(i as int));
        assert(attrs@.take(i + 1).last() == attrs@[i as int]);
        i = i + 1;
    }
    assert(attrs@.take(i as int) =~= attrs@);
    out
}

/// A signature block as the PHP grammar is given it: with an opening
/// `<?php` tag when the block has none.
pub open spec fn tagged_block_spec(block: Seq<char>) -> Seq<char> {
    if starts_with(trim_start(block), "<?php"@) {
        block
    } else {
        "<?php\n"@ + block
    }
}

/// The outcome of normalizing a block from the declarations it holds: the
/// one declaration, or why there is not exactly one.
pub open spec fn declaration_outcome_spec(decls: Seq<Seq<char>>) -> Result<Seq<char>, Seq<char>> {
    if decls.len() == 0 {
        Err("the block declares nothing the php grammar recognises"@)
    } else if decls.len() == 1 {
        Ok(decls[0])
    } else {
        Err("the block declares "@ + crate::text::decimal(decls.len())
            + " constructs; a signature block declares one"@)
    }
}

pub fn declaration_outcome(decls: &Vec<String>) -> (r: Result<String, String>)
    ensures
        match r {
            Ok(s) => declaration_outcome_spec(decls.deep_view()) == Ok::<Seq<char>, Seq<char>>(s@),
            Err(e) => declaration_outcome_spec(decls.deep_view()) == Err::<Seq<char>, Seq<char>>(e@),
        },
{
    if decls.len() == 0 {
        Err(text_of("the block declares nothing the php grammar recognises"))
    } else if decls.len() == 1 {
        Ok(decls[0].clone())
    } else {
        let mut e = text_of("the block declares ");
        push_decimal(&mut e, decls.len());
        push_str(&mut e, " constructs; a signature block declares one");
        Err(e)
    }
}

/// A signature block with an opening `<?php` tag when it has none.
pub fn tagged_block(block: &str) -> (r: String)
    ensures
        r@ == tagged_block_spec(block@),
{
    let v = chars_of(block);
    let i = trim_start_at(&v, 0, v.len());
    assert(v@.subrange(0, v.len() as int) =~= block@);
    if starts_with_at(&v, i, v.len(), "<?php") {
        text_of(block)
    } else {
        let mut r = text_of("<?php\n");
        push_str(&mut r, block);
        r
    }
}

/// Whether the walk for PHP sources passes over a directory: a vendor or
/// node_modules tree, or a hidden directory.
pub fn php_walk_skips(name: &str) -> (r: bool)
    ensures
        r == (name@ == "vendor"@ || name@ == "node_modules"@ || (name@.len() > 0 && name@[0] == '.')),
{
    if same_text(name, "vendor") || same_text(name, "node_modules") {
        return true;
    }
    let v = chars_of(name);
    v.len() > 0 && v[0] == '.'
}

} // verus!
