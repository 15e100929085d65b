//! What the source walk reads from Rust code: the items of a file as plain
//! values, and the concepts, relationships, public functions and anchor
//! targets they give.
use vstd::prelude::*;
use crate::anchors::{entries_view, first_entry, AnchorKind, AnchorTarget};
use crate::keyspace::is_excluded_dir;
use crate::graph::{ConceptNode, ConceptNodeV, ConceptRef, ConceptRefV, Edge, EdgeV, PubFnDecl, SignatureState};
use crate::markdown::bullets::{target_token, tokenise_target};
use crate::model::{EdgeKind, LocationKind, Provenance, ProvenanceV, Source, SourceV};
use crate::paths::{find_owned_unit, module_path_of, owned_unit, rust_module_path, same_text};
use crate::text::{chars_of, contains, contains_at, join, push_join, push_str, split_on, split_str, text_of};

verus! {

/// The visibility an item is declared with.
#[derive(Debug, Clone, Copy, PartialEq, Eq, Structural)]
pub enum ItemVisibility {
    Public,
    Restricted,
    Inherited,
}

/// The shape of a type expression.
#[derive(Debug, Clone, Copy, PartialEq, Eq, Structural)]
pub enum TypeShape {
    Path,
    Reference,
    Paren,
    Group,
    Slice,
    Array,
    Tuple,
    Other,
}

/// A type expression as plain values. For a path: its first and last
/// segments, whether it has a qualified self, and the type arguments of its
/// last segment as `args`; for a reference, a parenthesised or grouped
/// type, a slice or an array: the element as the one entry of `args`; for
/// a tuple: its elements. `text` is the type as printed and `line` the line
/// it starts on.
#[derive(Debug)]
pub struct RustType {
    pub shape: TypeShape,
    pub first_segment: Option<String>,
    pub last_segment: Option<String>,
    pub qualified_self: bool,
    pub args: Vec<RustType>,
    pub text: String,
    pub line: usize,
}

/// A function signature: the function's visibility, the `(path, value)` of
/// each meta its `cfg` attributes hold, whether that gate keeps it to tests
/// (which `rust_source` decides), its name and line, its typed parameters
/// and its return type.
#[derive(Debug)]
pub struct RustFn {
    pub vis: ItemVisibility,
    pub cfg_metas: Vec<(String, Option<String>)>,
    pub test_gated: bool,
    pub ident: String,
    pub line: usize,
    pub inputs: Vec<RustType>,
    pub output: Option<RustType>,
}

/// The kind of a top-level item.
#[derive(Debug, Clone, Copy, PartialEq, Eq, Structural)]
pub enum ItemShape {
    Struct,
    Enum,
    Trait,
    TypeAlias,
    Fn,
    Const,
    Static,
    Impl,
    Other,
}

/// A top-level item as plain values: its kind, visibility, the `(path,
/// value)` of each meta its `cfg` attributes hold and whether that gate
/// keeps it to tests (which `rust_source` decides), name and line (the
/// name's line); for a concept item its normalized
/// signature; the field types of a struct, or of every variant of an enum,
/// in order; the methods of a trait or the functions of an impl block; and
/// for an impl block its self type and the last segment of the trait it
/// implements, with that path's line.
#[derive(Debug)]
pub struct RustItem {
    pub shape: ItemShape,
    pub vis: ItemVisibility,
    pub cfg_metas: Vec<(String, Option<String>)>,
    pub test_gated: bool,
    pub ident: String,
    pub line: usize,
    pub signature: String,
    pub field_types: Vec<RustType>,
    pub fns: Vec<RustFn>,
    pub self_ty: Option<RustType>,
    pub trait_path: Option<(String, usize)>,
}

/// A code source at a line of a file, with nothing known of its provenance.
pub open spec fn code_at(path: Seq<char>, line: usize) -> SourceV {
    SourceV::Code {
        path,
        line,
        provenance: ProvenanceV { module: None, unit: None, context: None },
        location: LocationKind::Path,
    }
}

fn code_source(path: &str, line: usize) -> (s: Source)
    ensures
        s@ == code_at(path@, line),
{
    Source::Code {
        path: text_of(path),
        line,
        provenance: Provenance::empty(),
        location: LocationKind::Path,
    }
}

/// `Self` stands for the item that owns the signature.
pub open spec fn resolve_self(head: Seq<char>, owner: Seq<char>) -> Seq<char> {
    if head == "Self"@ {
        owner
    } else {
        head
    }
}

fn resolve_self_exec(head: &str, owner: &str) -> (r: String)
    ensures
        r@ == resolve_self(head@, owner@),
{
    if same_text(head, "Self") {
        text_of(owner)
    } else {
        text_of(head)
    }
}

/// The heads of the paths a type names, outermost first: each path's last
/// segment, then the heads of its type arguments.
pub open spec fn heads(t: RustType) -> Seq<Seq<char>>
    decreases t, 1int,
{
    let own = if t.shape == TypeShape::Path && t.last_segment is Some {
        seq![t.last_segment->Some_0@]
    } else {
        seq![]
    };
    own + heads_list(t.args@)
}

pub open spec fn heads_list(ts: Seq<RustType>) -> Seq<Seq<char>>
    decreases ts, 0int,
{
    if ts.len() == 0 {
        seq![]
    } else {
        heads_list(ts.drop_last()) + heads(ts.last())
    }
}

fn collect_heads(t: &RustType, out: &mut Vec<String>)
    ensures
        final(out).deep_view() == old(out).deep_view() + heads(*t),
    decreases t,
{
    if t.shape == TypeShape::Path {
        if let Some(h) = &t.last_segment {
            out.push(h.clone());
        }
    }
    let ghost mid = out.deep_view();
    assert(mid =~= old(out).deep_view() + (if t.shape == TypeShape::Path && t.last_segment is Some {
        seq![t.last_segment->Some_0@]
    } else {
        Seq::<Seq<char>>::empty()
    }));
    let cs = &t.args;
    let mut i: usize = 0;
    assert(heads_list(cs@.take(0)) =~= Seq::<Seq<char>>::empty());
    while i < cs.len()
        invariant
            i <= cs.len(),
            cs == t.args,
            out.deep_view() == mid + heads_list(cs@.take(i as int)),
        decreases cs.len() - i,
    {
        assert(cs@.take(i + 1).drop_last() =~= cs@.take(i as int));
        assert(cs@.take(i + 1).last() == cs@[i as int]);
        let ghost before = out.deep_view();
        assert(decreases_to!(*t => t.args@[i as int]));
        collect_heads(&cs[i], out);
        assert(mid + heads_list(cs@.take(i + 1)) =~= before + heads(cs@[i as int]));
        i = i + 1;
    }
    assert(cs@.take(i as int) =~= cs@);
}

/// A relationship read from the code, from `owner` to the concept `target`.
pub open spec fn code_edge(owner: Seq<char>, kind: EdgeKind, target: Seq<char>, raw: Seq<char>, path: Seq<char>, line: usize) -> EdgeV {
    EdgeV {
        source_concept: ConceptRefV { name: owner, context: None, unit: None },
        kind,
        target: ConceptRefV { name: resolve_self(target, owner), context: None, unit: None },
        raw_target: raw,
        source: code_at(path, line),
    }
}

fn make_edge(owner: &str, kind: EdgeKind, target: &str, raw: &str, path: &str, line: usize) -> (e: Edge)
    ensures
        e@ == code_edge(owner@, kind, target@, raw@, path@, line),
{
    Edge {
        source_concept: ConceptRef::named(text_of(owner)),
        kind,
        target: ConceptRef::named(resolve_self_exec(target, owner)),
        raw_target: text_of(raw),
        source: code_source(path, line),
    }
}

/// A `DEPENDS_ON` edge for each non-empty head of `hs`.
pub open spec fn depends_edges(owner: Seq<char>, hs: Seq<Seq<char>>, path: Seq<char>, line: usize) -> Seq<EdgeV>
    decreases hs.len(),
{
    if hs.len() == 0 {
        seq![]
    } else {
        let rest = depends_edges(owner, hs.drop_last(), path, line);
        let h = hs.last();
        if h.len() == 0 {
            rest
        } else {
            rest.push(code_edge(owner, EdgeKind::DependsOn, h, h, path, line))
        }
    }
}

fn push_depends(owner: &str, hs: &Vec<String>, from: usize, path: &str, line: usize, out: &mut Vec<Edge>)
    requires
        from <= hs.len(),
    ensures
        final(out).deep_view() == old(out).deep_view() + depends_edges(
            owner@,
            hs.deep_view().skip(from as int),
            path@,
            line,
        ),
{
    let ghost hv = hs.deep_view().skip(from as int);
    let ghost base = out.deep_view();
    let mut i = from;
    assert(hv.take(0) =~= Seq::<Seq<char>>::empty());
    while i < hs.len()
        invariant
            from <= i <= hs.len(),
            hv == hs.deep_view().skip(from as int),
            out.deep_view() == base + depends_edges(owner@, hv.take(i - from), path@, line),
        decreases hs.len() - i,
    {
        assert(hv.take(i - from + 1).drop_last() =~= hv.take(i - from));
        assert(hv.take(i - from + 1).last() == hs@[i as int]@);
        let h = hs[i].as_str();
        if h.unicode_len() > 0 {
            let ghost before = out.deep_view();
            out.push(make_edge(owner, EdgeKind::DependsOn, h, h, path, line));
            assert(out.deep_view() =~= before.push(
                code_edge(owner@, EdgeKind::DependsOn, h@, h@, path@, line),
            ));
        }
        i = i + 1;
    }
    assert(hv.take(i - from) =~= hv);
}

/// The relationships a signature gives its owner: a `DEPENDS_ON` for each
/// head of each parameter type; for the return type a `RETURNS` to the
/// concept its text names, and a `DEPENDS_ON` for each head inside it.
pub open spec fn fn_edges(f: RustFn, owner: Seq<char>, path: Seq<char>) -> Seq<EdgeV> {
    inputs_edges(f.inputs@, owner, path) + match f.output {
        None => seq![],
        Some(t) => returns_edges(t, owner, path) + inner_edges(t, owner, path),
    }
}

/// A `DEPENDS_ON` for each head inside a return type, after its own.
pub open spec fn inner_edges(t: RustType, owner: Seq<char>, path: Seq<char>) -> Seq<EdgeV> {
    if heads(t).len() == 0 {
        seq![]
    } else {
        depends_edges(owner, heads(t).skip(1), path, t.line)
    }
}

pub open spec fn inputs_edges(ts: Seq<RustType>, owner: Seq<char>, path: Seq<char>) -> Seq<EdgeV>
    decreases ts.len(),
{
    if ts.len() == 0 {
        seq![]
    } else {
        inputs_edges(ts.drop_last(), owner, path) + depends_edges(owner, heads(ts.last()), path, ts.last().line)
    }
}

/// The `RETURNS` edge of a return type, when its text names a concept.
pub open spec fn returns_edges(t: RustType, owner: Seq<char>, path: Seq<char>) -> Seq<EdgeV> {
    if target_token(t.text@).len() == 0 {
        seq![]
    } else {
        seq![code_edge(owner, EdgeKind::Returns, target_token(t.text@), t.text@, path, t.line)]
    }
}

fn push_type_depends(owner: &str, t: &RustType, path: &str, out: &mut Vec<Edge>)
    ensures
        final(out).deep_view() == old(out).deep_view() + depends_edges(owner@, heads(*t), path@, t.line),
{
    let mut hs: Vec<String> = Vec::new();
    collect_heads(t, &mut hs);
    assert(hs.deep_view() =~= heads(*t));
    assert(hs.deep_view().skip(0) =~= hs.deep_view());
    push_depends(owner, &hs, 0, path, t.line, out);
}

fn push_fn_edges(f: &RustFn, owner: &str, path: &str, out: &mut Vec<Edge>)
    ensures
        final(out).deep_view() == old(out).deep_view() + fn_edges(*f, owner@, path@),
{
    let ghost base = out.deep_view();
    let mut i: usize = 0;
    assert(inputs_edges(f.inputs@.take(0), owner@, path@) =~= Seq::<EdgeV>::empty());
    while i < f.inputs.len()
        invariant
            i <= f.inputs.len(),
            out.deep_view() == base + inputs_edges(f.inputs@.take(i as int), owner@, path@),
        decreases f.inputs.len() - i,
    {
        assert(f.inputs@.take(i + 1).drop_last() =~= f.inputs@.take(i as int));
        assert(f.inputs@.take(i + 1).last() == f.inputs@[i as int]);
        let ghost before = out.deep_view();
        push_type_depends(owner, &f.inputs[i], path, out);
        assert(base + inputs_edges(f.inputs@.take(i + 1), owner@, path@) =~= before + depends_edges(
            owner@,
            heads(f.inputs@[i as int]),
            path@,
            f.inputs@[i as int].line,
        ));
        i = i + 1;
    }
    assert(f.inputs@.take(i as int) =~= f.inputs@);
    let ghost mid = out.deep_view();
    match &f.output {
        None => {
            assert(out.deep_view() =~= base + fn_edges(*f, owner@, path@));
        },
        Some(t) => {
            let raw = t.text.as_str();
            let head = tokenise_target(raw);
            if head.as_str().unicode_len() > 0 {
                out.push(make_edge(owner, EdgeKind::Returns, head.as_str(), raw, path, t.line));
            }
            let ghost after_returns = out.deep_view();
            assert(after_returns =~= mid + returns_edges(*t, owner@, path@));
            let mut hs: Vec<String> = Vec::new();
            collect_heads(t, &mut hs);
            assert(hs.deep_view() =~= heads(*t));
            if hs.len() > 0 {
                push_depends(owner, &hs, 1, path, t.line, out);
            }
            assert(out.deep_view() =~= base + fn_edges(*f, owner@, path@));
        },
    }
}

/// The relationships of the functions `fs` of `owner`: every one when
/// `all`, else the public ones.
pub open spec fn fns_edges(fs: Seq<RustFn>, owner: Seq<char>, path: Seq<char>, all: bool) -> Seq<EdgeV>
    decreases fs.len(),
{
    if fs.len() == 0 {
        seq![]
    } else {
        let f = fs.last();
        fns_edges(fs.drop_last(), owner, path, all) + if all || f.vis == ItemVisibility::Public {
            fn_edges(f, owner, path)
        } else {
            seq![]
        }
    }
}

fn push_fns_edges(fs: &Vec<RustFn>, owner: &str, path: &str, all: bool, out: &mut Vec<Edge>)
    ensures
        final(out).deep_view() == old(out).deep_view() + fns_edges(fs@, owner@, path@, all),
{
    let ghost base = out.deep_view();
    let mut i: usize = 0;
    assert(fns_edges(fs@.take(0), owner@, path@, all) =~= Seq::<EdgeV>::empty());
    while i < fs.len()
        invariant
            i <= fs.len(),
            out.deep_view() == base + fns_edges(fs@.take(i as int), owner@, path@, all),
        decreases fs.len() - i,
    {
        assert(fs@.take(i + 1).drop_last() =~= fs@.take(i as int));
        assert(fs@.take(i + 1).last() == fs@[i as int]);
        let ghost before = out.deep_view();
        if all || fs[i].vis == ItemVisibility::Public {
            push_fn_edges(&fs[i], owner, path, out);
        }
        assert(out.deep_view() =~= base + fns_edges(fs@.take(i + 1), owner@, path@, all));
        i = i + 1;
    }
    assert(fs@.take(i as int) =~= fs@);
}

fn push_fields_edges(ts: &Vec<RustType>, owner: &str, path: &str, out: &mut Vec<Edge>)
    ensures
        final(out).deep_view() == old(out).deep_view() + inputs_edges(ts@, owner@, path@),
{
    let ghost base = out.deep_view();
    let mut i: usize = 0;
    assert(inputs_edges(ts@.take(0), owner@, path@) =~= Seq::<EdgeV>::empty());
    while i < ts.len()
        invariant
            i <= ts.len(),
            out.deep_view() == base + inputs_edges(ts@.take(i as int), owner@, path@),
        decreases ts.len() - i,
    {
        assert(ts@.take(i + 1).drop_last() =~= ts@.take(i as int));
        assert(ts@.take(i + 1).last() == ts@[i as int]);
        let ghost before = out.deep_view();
        push_type_depends(owner, &ts[i], path, out);
        assert(out.deep_view() =~= base + inputs_edges(ts@.take(i + 1), owner@, path@));
        i = i + 1;
    }
    assert(ts@.take(i as int) =~= ts@);
}

/// The concept an impl block's self type names: a path's last segment,
/// through any references.
pub open spec fn impl_target(t: RustType) -> Option<Seq<char>>
    decreases t,
{
    match t.shape {
        TypeShape::Path => match t.last_segment {
            Some(s) => Some(s@),
            None => None,
        },
        TypeShape::Reference => if t.args@.len() > 0 {
            impl_target(t.args@[0])
        } else {
            None
        },
        _ => None,
    }
}

fn impl_target_exec(t: &RustType) -> (r: Option<String>)
    ensures
        r.deep_view() == impl_target(*t),
    decreases t,
{
    match t.shape {
        TypeShape::Path => match &t.last_segment {
            Some(s) => Some(s.clone()),
            None => None,
        },
        TypeShape::Reference => if t.args.len() > 0 {
            assert(decreases_to!(*t => t.args@[0]));
            impl_target_exec(&t.args[0])
        } else {
            None
        },
        _ => None,
    }
}

/// The `IMPLEMENTS` edge of a trait impl, when the trait path names one.
pub open spec fn implements_edges(owner: Seq<char>, trait_path: Option<(String, usize)>, path: Seq<char>) -> Seq<EdgeV> {
    match trait_path {
        Some((name, line)) => if name@.len() > 0 {
            seq![
                EdgeV {
                    source_concept: ConceptRefV { name: owner, context: None, unit: None },
                    kind: EdgeKind::Implements,
                    target: ConceptRefV { name: name@, context: None, unit: None },
                    raw_target: name@,
                    source: code_at(path, line),
                },
            ]
        } else {
            seq![]
        },
        None => seq![],
    }
}

/// The relationships an item gives, before they are matched against the
/// concepts: field types of public structs and enums, the signatures of
/// public traits, and for an impl block its trait and the signatures of
/// its public functions (all of them in a trait impl).
pub open spec fn item_edges(item: RustItem, path: Seq<char>) -> Seq<EdgeV> {
    match item.shape {
        ItemShape::Struct | ItemShape::Enum => if item.vis == ItemVisibility::Public {
            inputs_edges(item.field_types@, item.ident@, path)
        } else {
            seq![]
        },
        ItemShape::Trait => if item.vis == ItemVisibility::Public {
            fns_edges(item.fns@, item.ident@, path, true)
        } else {
            seq![]
        },
        ItemShape::Impl => match item.self_ty {
            None => seq![],
            Some(t) => match impl_target(t) {
                None => seq![],
                Some(owner) => implements_edges(owner, item.trait_path, path) + fns_edges(
                    item.fns@,
                    owner,
                    path,
                    item.trait_path is Some,
                ),
            },
        },
        _ => seq![],
    }
}

fn push_item_edges(item: &RustItem, path: &str, out: &mut Vec<Edge>)
    ensures
        final(out).deep_view() == old(out).deep_view() + item_edges(*item, path@),
{
    match item.shape {
        ItemShape::Struct | ItemShape::Enum => {
            if item.vis == ItemVisibility::Public {
                push_fields_edges(&item.field_types, item.ident.as_str(), path, out);
            } else {
                assert(out.deep_view() =~= old(out).deep_view() + item_edges(*item, path@));
            }
        },
        ItemShape::Trait => {
            if item.vis == ItemVisibility::Public {
                push_fns_edges(&item.fns, item.ident.as_str(), path, true, out);
            } else {
                assert(out.deep_view() =~= old(out).deep_view() + item_edges(*item, path@));
            }
        },
        ItemShape::Impl => {
            let owner = match &item.self_ty {
                None => {
                    assert(out.deep_view() =~= old(out).deep_view() + item_edges(*item, path@));
                    return;
                },
                Some(t) => match impl_target_exec(t) {
                    None => {
                        assert(out.deep_view() =~= old(out).deep_view() + item_edges(*item, path@));
                        return;
                    },
                    Some(o) => o,
                },
            };
            if let Some((name, line)) = &item.trait_path {
                if name.as_str().unicode_len() > 0 {
                    out.push(
                        Edge {
                            source_concept: ConceptRef::named(owner.clone()),
                            kind: EdgeKind::Implements,
                            target: ConceptRef::named(name.clone()),
                            raw_target: name.clone(),
                            source: code_source(path, *line),
                        },
                    );
                }
            }
            let ghost mid = out.deep_view();
            assert(mid =~= old(out).deep_view() + implements_edges(owner@, item.trait_path, path@));
            push_fns_edges(&item.fns, owner.as_str(), path, item.trait_path.is_some(), out);
        },
        _ => {
            assert(out.deep_view() =~= old(out).deep_view() + item_edges(*item, path@));
        },
    }
}

/// Whether an item kind declares a concept.
pub open spec fn is_concept_shape(s: ItemShape) -> bool {
    s == ItemShape::Struct || s == ItemShape::Enum || s == ItemShape::Trait || s == ItemShape::TypeAlias
}

/// Whether an item is a concept the source walk reads: a public struct,
/// enum, trait or type alias no `cfg` gate keeps to tests.
pub open spec fn is_concept_item(item: RustItem) -> bool {
    is_concept_shape(item.shape) && item.vis == ItemVisibility::Public && !item.test_gated
}

/// The concept a file's item declares: its name, its line with the file's
/// module path and unit, and its normalized signature.
pub open spec fn item_concept(item: RustItem, path: Seq<char>, module: Option<Seq<char>>, unit: Option<Seq<char>>) -> ConceptNodeV {
    ConceptNodeV {
        name: item.ident@,
        source: SourceV::Code {
            path,
            line: item.line,
            provenance: ProvenanceV { module, unit, context: None },
            location: LocationKind::Path,
        },
        signature: crate::graph::SignatureStateV::Normalized(item.signature@),
        declared_context: None,
        polarity: crate::model::Polarity::Declared,
        marker: crate::model::Marker::Unmarked,
    }
}

/// A file of Rust source as the source walk reads it: its path, the unit
/// that owns it, its module path and its top-level items.
#[derive(Debug)]
pub struct RustSource {
    pub path: String,
    pub unit: Option<String>,
    pub module: Option<String>,
    pub items: Vec<RustItem>,
}

/// A `cfg` meta that keeps what it gates to tests: `test`, or a `feature`
/// whose value names `test`.
pub open spec fn gates_to_tests(m: (String, Option<String>)) -> bool {
    m.0@ == "test"@ || (m.0@ == "feature"@ && match m.1 {
        Some(v) => contains(v@, "test"@),
        None => false,
    })
}

/// Whether the `cfg` metas of an item keep it to tests.
pub open spec fn cfg_gate(ms: Seq<(String, Option<String>)>) -> bool {
    exists|k: int| 0 <= k < ms.len() && gates_to_tests(#[trigger] ms[k])
}

/// `a` is the function `b` with its test gate decided from its `cfg` metas.
pub open spec fn gated_fn(a: RustFn, b: RustFn) -> bool {
    &&& a.vis == b.vis && a.cfg_metas == b.cfg_metas && a.ident == b.ident && a.line == b.line
    &&& a.inputs == b.inputs && a.output == b.output
    &&& a.test_gated == cfg_gate(b.cfg_metas@)
}

/// `a` is the item `b` with its test gate, and those of its functions,
/// decided from their `cfg` metas.
pub open spec fn gated_item(a: RustItem, b: RustItem) -> bool {
    &&& a.shape == b.shape && a.vis == b.vis && a.cfg_metas == b.cfg_metas && a.ident == b.ident
    &&& a.line == b.line && a.signature == b.signature && a.field_types == b.field_types
    &&& a.self_ty == b.self_ty && a.trait_path == b.trait_path
    &&& a.test_gated == cfg_gate(b.cfg_metas@)
    &&& a.fns.len() == b.fns.len()
    &&& forall|j: int| 0 <= j < a.fns.len() ==> gated_fn(#[trigger] a.fns@[j], b.fns@[j])
}

fn cfg_gate_exec(ms: &Vec<(String, Option<String>)>) -> (b: bool)
    ensures
        b == cfg_gate(ms@),
{
    let mut k: usize = 0;
    while k < ms.len()
        invariant
            k <= ms.len(),
            forall|j: int| 0 <= j < k ==> !gates_to_tests(#[trigger] ms@[j]),
        decreases ms.len() - k,
    {
        let m = &ms[k];
        let hit = same_text(m.0.as_str(), "test") || (same_text(m.0.as_str(), "feature") && match &m.1 {
            Some(v) => {
                let vv = chars_of(v.as_str());
                let c = contains_at(&vv, 0, vv.len(), "test");
                assert(vv@.subrange(0, vv.len() as int) =~= v@);
                c
            },
            None => false,
        });
        if hit {
            return true;
        }
        k = k + 1;
    }
    false
}

fn gate_fns(fns: Vec<RustFn>) -> (r: Vec<RustFn>)
    ensures
        r.len() == fns.len(),
        forall|j: int| 0 <= j < r.len() ==> gated_fn(#[trigger] r@[j], fns@[j]),
{
    let ghost fv = fns@;
    let mut rest = fns;
    let mut out: Vec<RustFn> = Vec::new();
    while rest.len() > 0
        invariant
            out.len() + rest.len() == fv.len(),
            rest@ == fv.subrange(out.len() as int, fv.len() as int),
            forall|j: int| 0 <= j < out.len() ==> gated_fn(#[trigger] out@[j], fv[j]),
        decreases rest.len(),
    {
        let mut f = rest.remove(0);
        f.test_gated = cfg_gate_exec(&f.cfg_metas);
        out.push(f);
    }
    out
}

fn gate_items(items: Vec<RustItem>) -> (r: Vec<RustItem>)
    ensures
        r.len() == items.len(),
        forall|j: int| 0 <= j < r.len() ==> gated_item(#[trigger] r@[j], items@[j]),
{
    let ghost iv = items@;
    let mut rest = items;
    let mut out: Vec<RustItem> = Vec::new();
    while rest.len() > 0
        invariant
            out.len() + rest.len() == iv.len(),
            rest@ == iv.subrange(out.len() as int, iv.len() as int),
            forall|j: int| 0 <= j < out.len() ==> gated_item(#[trigger] out@[j], iv[j]),
        decreases rest.len(),
    {
        let mut item = rest.remove(0);
        item.test_gated = cfg_gate_exec(&item.cfg_metas);
        let mut fns: Vec<RustFn> = Vec::new();
        std::mem::swap(&mut fns, &mut item.fns);
        item.fns = gate_fns(fns);
        out.push(item);
    }
    out
}

/// A file of Rust source with the unit that owns it (the nearest directory
/// holding a manifest, among `manifest_dirs`) and its module path; each of
/// its items, and each function of an item, kept to tests where its `cfg`
/// metas say so.
pub fn rust_source(path: String, root: &str, manifest_dirs: &Vec<String>, items: Vec<RustItem>) -> (r: RustSource)
    ensures
        r.path == path,
        r.items.len() == items.len(),
        forall|j: int| 0 <= j < r.items.len() ==> gated_item(#[trigger] r.items@[j], items@[j]),
        r.unit.deep_view() == owned_unit(path@, root@, manifest_dirs.deep_view()),
        r.module.deep_view() == rust_module_path(path@, root@, r.unit.deep_view()),
{
    let items = gate_items(items);
    let unit = find_owned_unit(path.as_str(), root, manifest_dirs);
    let module = module_path_of(
        path.as_str(),
        root,
        match &unit {
            Some(u) => Some(u.as_str()),
            None => None,
        },
    );
    RustSource { path, unit, module, items }
}

/// The concepts of a file's items, in order.
pub open spec fn file_concepts(f: RustSource) -> Seq<ConceptNodeV>
{
    file_concepts_upto(f, f.items@.len() as int)
}

pub open spec fn file_concepts_upto(f: RustSource, k: int) -> Seq<ConceptNodeV>
    decreases k,
{
    if k <= 0 {
        seq![]
    } else {
        let rest = file_concepts_upto(f, k - 1);
        let item = f.items@[k - 1];
        if is_concept_item(item) {
            rest.push(item_concept(item, f.path@, f.module.deep_view(), f.unit.deep_view()))
        } else {
            rest
        }
    }
}

/// The relationships of a file's items, in order, before they are matched
/// against the concepts.
pub open spec fn file_edges_upto(f: RustSource, k: int) -> Seq<EdgeV>
    decreases k,
{
    if k <= 0 {
        seq![]
    } else {
        file_edges_upto(f, k - 1) + item_edges(f.items@[k - 1], f.path@)
    }
}

pub open spec fn files_concepts(fs: Seq<RustSource>) -> Seq<ConceptNodeV>
    decreases fs.len(),
{
    if fs.len() == 0 {
        seq![]
    } else {
        files_concepts(fs.drop_last()) + file_concepts(fs.last())
    }
}

pub open spec fn files_edges(fs: Seq<RustSource>) -> Seq<EdgeV>
    decreases fs.len(),
{
    if fs.len() == 0 {
        seq![]
    } else {
        files_edges(fs.drop_last()) + file_edges_upto(fs.last(), fs.last().items@.len() as int)
    }
}

fn read_file(f: &RustSource, nodes: &mut Vec<ConceptNode>, edges: &mut Vec<Edge>)
    ensures
        final(nodes).deep_view() == old(nodes).deep_view() + file_concepts(*f),
        final(edges).deep_view() == old(edges).deep_view() + file_edges_upto(*f, f.items@.len() as int),
{
    let ghost nbase = nodes.deep_view();
    let ghost ebase = edges.deep_view();
    let mut i: usize = 0;
    assert(nbase + file_concepts_upto(*f, 0) =~= nbase);
    assert(ebase + file_edges_upto(*f, 0) =~= ebase);
    while i < f.items.len()
        invariant
            i <= f.items.len(),
            nodes.deep_view() == nbase + file_concepts_upto(*f, i as int),
            edges.deep_view() == ebase + file_edges_upto(*f, i as int),
        decreases f.items.len() - i,
    {
        let item = &f.items[i];
        if (item.shape == ItemShape::Struct || item.shape == ItemShape::Enum || item.shape
            == ItemShape::Trait || item.shape == ItemShape::TypeAlias) && item.vis
            == ItemVisibility::Public && !item.test_gated {
            let module = match &f.module {
                Some(m) => Some(m.clone()),
                None => None,
            };
            let unit = match &f.unit {
                Some(u) => Some(u.clone()),
                None => None,
            };
            let n = ConceptNode::new(
                item.ident.clone(),
                code_source(f.path.as_str(), item.line),
                SignatureState::Normalized(item.signature.clone()),
            ).with_provenance(module, unit, None);
            let ghost before = nodes.deep_view();
            nodes.push(n);
            assert(nodes.deep_view() =~= before.push(
                item_concept(*item, f.path@, f.module.deep_view(), f.unit.deep_view()),
            ));
        }
        let ghost eb = edges.deep_view();
        push_item_edges(item, f.path.as_str(), edges);
        assert(edges.deep_view() =~= ebase + file_edges_upto(*f, i + 1));
        i = i + 1;
    }
}

/// Whether some concept of `nodes` is named `name`.
pub open spec fn known(nodes: Seq<ConceptNodeV>, name: Seq<char>) -> bool {
    exists|i: int| 0 <= i < nodes.len() && (#[trigger] nodes[i]).name == name
}

/// The edges whose target is one of the concepts, in order.
pub open spec fn known_edges(edges: Seq<EdgeV>, nodes: Seq<ConceptNodeV>) -> Seq<EdgeV>
    decreases edges.len(),
{
    if edges.len() == 0 {
        seq![]
    } else {
        let rest = known_edges(edges.drop_last(), nodes);
        if known(nodes, edges.last().target.name) {
            rest.push(edges.last())
        } else {
            rest
        }
    }
}

fn is_known(nodes: &Vec<ConceptNode>, name: &str) -> (r: bool)
    ensures
        r == known(nodes.deep_view(), name@),
{
    let mut i: usize = 0;
    while i < nodes.len()
        invariant
            i <= nodes.len(),
            forall|j: int| 0 <= j < i ==> (#[trigger] nodes.deep_view()[j]).name != name@,
        decreases nodes.len() - i,
    {
        if same_text(nodes[i].name.as_str(), name) {
            assert(nodes.deep_view()[i as int].name == name@);
            return true;
        }
        i = i + 1;
    }
    false
}

/// Keeps the edges whose target is a concept of `nodes`, in order.
pub fn filter_by_known_concepts(edges: Vec<Edge>, nodes: &Vec<ConceptNode>) -> (r: Vec<Edge>)
    ensures
        r.deep_view() == known_edges(edges.deep_view(), nodes.deep_view()),
{
    let ghost ev = edges.deep_view();
    let mut out: Vec<Edge> = Vec::new();
    let mut rest = edges;
    let ghost total = ev.len();
    let mut done: usize = 0;
    assert(ev.len() == rest.len());
    assert(known_edges(ev.take(0), nodes.deep_view()) =~= Seq::<EdgeV>::empty());
    while rest.len() > 0
        invariant
            done + rest.len() == total,
            total == ev.len(),
            total <= usize::MAX,
            rest.deep_view() == ev.skip(done as int),
            out.deep_view() == known_edges(ev.take(done as int), nodes.deep_view()),
        decreases rest.len(),
    {
        let ghost before = rest.deep_view();
        let ghost old_vec = rest@;
        let e = rest.remove(0);
        assert(before[0] == old_vec[0].deep_view());
        assert(ev.skip(done as int)[0] == ev[done as int]);
        assert(rest.deep_view() =~= before.drop_first());
        assert(ev.skip(done + 1) =~= ev.skip(done as int).drop_first());
        assert(ev.take(done + 1).drop_last() =~= ev.take(done as int));
        assert(ev.take(done + 1).last() == ev[done as int]);
        let ghost ob = out.deep_view();
        if is_known(nodes, e.target.name.as_str()) {
            out.push(e);
            assert(out.deep_view() =~= ob.push(ev[done as int]));
        }
        done = done + 1;
    }
    assert(ev.take(done as int) =~= ev);
    out
}

/// Every relationship the source walk keeps points at one of its own
/// concepts, and it keeps no more relationships than it read.
pub proof fn kept_edges_target_known_concepts(edges: Seq<EdgeV>, nodes: Seq<ConceptNodeV>)
    ensures
        known_edges(edges, nodes).len() <= edges.len(),
        forall|i: int|
            0 <= i < known_edges(edges, nodes).len() ==> known(
                nodes,
                (#[trigger] known_edges(edges, nodes)[i]).target.name,
            ),
    decreases edges.len(),
{
    if edges.len() > 0 {
        kept_edges_target_known_concepts(edges.drop_last(), nodes);
        let rest = known_edges(edges.drop_last(), nodes);
        assert forall|i: int| 0 <= i < known_edges(edges, nodes).len() implies known(
            nodes,
            (#[trigger] known_edges(edges, nodes)[i]).target.name,
        ) by {
            if i < rest.len() {
                assert(known_edges(edges, nodes)[i] == rest[i]);
            }
        }
    }
}

/// The graph the source walk reads from a set of files: the concepts of
/// every file, in file order, and the relationships whose target is one of
/// them.
pub fn rust_graph(files: &Vec<RustSource>) -> (r: crate::graph::Graph)
    ensures
        r.nodes.deep_view() == files_concepts(files@),
        r.edges.deep_view() == known_edges(files_edges(files@), files_concepts(files@)),
{
    let mut nodes: Vec<ConceptNode> = Vec::new();
    let mut edges: Vec<Edge> = Vec::new();
    let mut i: usize = 0;
    assert(nodes.deep_view() =~= files_concepts(files@.take(0)));
    assert(edges.deep_view() =~= files_edges(files@.take(0)));
    while i < files.len()
        invariant
            i <= files.len(),
            nodes.deep_view() == files_concepts(files@.take(i as int)),
            edges.deep_view() == files_edges(files@.take(i as int)),
        decreases files.len() - i,
    {
        assert(files@.take(i + 1).drop_last() =~= files@.take(i as int));
        assert(files@.take(i + 1).last() == files@[i as int]);
        read_file(&files[i], &mut nodes, &mut edges);
        i = i + 1;
    }
    assert(files@.take(i as int) =~= files@);
    let kept = filter_by_known_concepts(edges, &nodes);
    crate::graph::Graph::new(nodes, kept)
}


/// The root of an impl block's self type: the first segment of a path
/// without a qualified self.
pub open spec fn self_root(t: RustType) -> Option<Seq<char>> {
    if t.shape == TypeShape::Path && !t.qualified_self {
        match t.first_segment {
            Some(s) => Some(s@),
            None => None,
        }
    } else {
        None
    }
}

pub open spec fn impl_root(item: RustItem) -> Option<Seq<char>> {
    match item.self_ty {
        Some(t) => self_root(t),
        None => None,
    }
}

fn impl_root_exec(item: &RustItem) -> (r: Option<String>)
    ensures
        r.deep_view() == impl_root(*item),
{
    match &item.self_ty {
        Some(t) => if t.shape == TypeShape::Path && !t.qualified_self {
            match &t.first_segment {
                Some(s) => Some(s.clone()),
                None => None,
            }
        } else {
            None
        },
        None => None,
    }
}

/// `Type::method`: the key a method is cited and anchored under.
pub open spec fn method_key(root: Seq<char>, ident: Seq<char>) -> Seq<char> {
    root + "::"@ + ident
}

fn method_key_exec(root: &str, ident: &str) -> (r: String)
    ensures
        r@ == method_key(root@, ident@),
{
    let mut r = text_of(root);
    push_str(&mut r, "::");
    push_str(&mut r, ident);
    r
}

/// The public functions of an impl block's functions: the public ones, or
/// every one in a trait impl, that no `cfg` gate keeps to tests.
pub open spec fn impl_pub_fns(fs: Seq<RustFn>, root: Seq<char>, trait_impl: bool) -> Seq<(Seq<char>, usize)>
    decreases fs.len(),
{
    if fs.len() == 0 {
        seq![]
    } else {
        let f = fs.last();
        impl_pub_fns(fs.drop_last(), root, trait_impl) + if !f.test_gated && (f.vis
            == ItemVisibility::Public || trait_impl) {
            seq![(method_key(root, f.ident@), f.line)]
        } else {
            seq![]
        }
    }
}

/// The public functions an item declares, each by its key and line: a
/// public free function, or the methods of an impl block (see
/// `impl_pub_fns`); nothing a `cfg` gate keeps to tests.
pub open spec fn item_pub_fns(item: RustItem) -> Seq<(Seq<char>, usize)> {
    match item.shape {
        ItemShape::Fn => if item.vis == ItemVisibility::Public && !item.test_gated {
            seq![(item.ident@, item.line)]
        } else {
            seq![]
        },
        ItemShape::Impl => if item.test_gated {
            seq![]
        } else {
            match impl_root(item) {
                None => seq![],
                Some(root) => impl_pub_fns(item.fns@, root, item.trait_path is Some),
            }
        },
        _ => seq![],
    }
}

/// A public function of a file, with where it is and the file's unit.
pub open spec fn located_fn(f: RustSource, e: (Seq<char>, usize)) -> (Seq<char>, SourceV, Option<Seq<char>>) {
    (e.0, code_at(f.path@, e.1), f.unit.deep_view())
}

pub open spec fn file_pub_fns_upto(f: RustSource, k: int) -> Seq<(Seq<char>, SourceV, Option<Seq<char>>)>
    decreases k,
{
    if k <= 0 {
        seq![]
    } else {
        file_pub_fns_upto(f, k - 1) + item_pub_fns(f.items@[k - 1]).map_values(
            |e: (Seq<char>, usize)| located_fn(f, e),
        )
    }
}

pub open spec fn files_pub_fns(fs: Seq<RustSource>) -> Seq<(Seq<char>, SourceV, Option<Seq<char>>)>
    decreases fs.len(),
{
    if fs.len() == 0 {
        seq![]
    } else {
        files_pub_fns(fs.drop_last()) + file_pub_fns_upto(fs.last(), fs.last().items@.len() as int)
    }
}

pub open spec fn pub_fn_view(d: PubFnDecl) -> (Seq<char>, SourceV, Option<Seq<char>>) {
    (d.name@, d.source@, d.owned_unit.deep_view())
}

fn push_pub_fn(f: &RustSource, name: String, line: usize, out: &mut Vec<PubFnDecl>)
    ensures
        final(out)@.map_values(|d: PubFnDecl| pub_fn_view(d)) == old(out)@.map_values(
            |d: PubFnDecl| pub_fn_view(d),
        ).push(located_fn(*f, (name@, line))),
{
    let d = PubFnDecl {
        name,
        source: code_source(f.path.as_str(), line),
        owned_unit: match &f.unit {
            Some(u) => Some(u.clone()),
            None => None,
        },
    };
    out.push(d);
    assert(out@.map_values(|d: PubFnDecl| pub_fn_view(d)) =~= old(out)@.map_values(
        |d: PubFnDecl| pub_fn_view(d),
    ).push(located_fn(*f, (name@, line))));
}

fn push_item_pub_fns(f: &RustSource, item: &RustItem, out: &mut Vec<PubFnDecl>)
    ensures
        final(out)@.map_values(|d: PubFnDecl| pub_fn_view(d)) == old(out)@.map_values(
            |d: PubFnDecl| pub_fn_view(d),
        ) + item_pub_fns(*item).map_values(|e: (Seq<char>, usize)| located_fn(*f, e)),
{
    let ghost base = out@.map_values(|d: PubFnDecl| pub_fn_view(d));
    match item.shape {
        ItemShape::Fn => {
            if item.vis == ItemVisibility::Public && !item.test_gated {
                push_pub_fn(f, item.ident.clone(), item.line, out);
            }
            assert(out@.map_values(|d: PubFnDecl| pub_fn_view(d)) =~= base + item_pub_fns(
                *item,
            ).map_values(|e: (Seq<char>, usize)| located_fn(*f, e)));
        },
        ItemShape::Impl => {
            let root = if item.test_gated {
                None
            } else {
                impl_root_exec(item)
            };
            match root {
                None => {
                    assert(out@.map_values(|d: PubFnDecl| pub_fn_view(d)) =~= base + item_pub_fns(
                        *item,
                    ).map_values(|e: (Seq<char>, usize)| located_fn(*f, e)));
                },
                Some(root) => {
                    let trait_impl = item.trait_path.is_some();
                    let fs = &item.fns;
                    let mut i: usize = 0;
                    assert(impl_pub_fns(fs@.take(0), root@, trait_impl) =~= Seq::<(Seq<char>, usize)>::empty());
                    while i < fs.len()
                        invariant
                            i <= fs.len(),
                            fs == item.fns,
                            out@.map_values(|d: PubFnDecl| pub_fn_view(d)) == base + impl_pub_fns(
                                fs@.take(i as int),
                                root@,
                                trait_impl,
                            ).map_values(|e: (Seq<char>, usize)| located_fn(*f, e)),
                        decreases fs.len() - i,
                    {
                        assert(fs@.take(i + 1).drop_last() =~= fs@.take(i as int));
                        assert(fs@.take(i + 1).last() == fs@[i as int]);
                        let m = &fs[i];
                        if !m.test_gated && (m.vis == ItemVisibility::Public || trait_impl) {
                            let key = method_key_exec(root.as_str(), m.ident.as_str());
                            push_pub_fn(f, key, m.line, out);
                        }
                        assert(out@.map_values(|d: PubFnDecl| pub_fn_view(d)) =~= base
                            + impl_pub_fns(fs@.take(i + 1), root@, trait_impl).map_values(
                            |e: (Seq<char>, usize)| located_fn(*f, e),
                        ));
                        i = i + 1;
                    }
                    assert(fs@.take(i as int) =~= fs@);
                },
            }
        },
        _ => {
            assert(out@.map_values(|d: PubFnDecl| pub_fn_view(d)) =~= base + item_pub_fns(
                *item,
            ).map_values(|e: (Seq<char>, usize)| located_fn(*f, e)));
        },
    }
}

/// The public functions of a set of files, file by file and item by item,
/// each with its file's unit.
pub fn rust_pub_fns(files: &Vec<RustSource>) -> (r: Vec<PubFnDecl>)
    ensures
        r@.map_values(|d: PubFnDecl| pub_fn_view(d)) == files_pub_fns(files@),
{
    let mut out: Vec<PubFnDecl> = Vec::new();
    let mut i: usize = 0;
    assert(out@.map_values(|d: PubFnDecl| pub_fn_view(d)) =~= files_pub_fns(files@.take(0)));
    while i < files.len()
        invariant
            i <= files.len(),
            out@.map_values(|d: PubFnDecl| pub_fn_view(d)) == files_pub_fns(files@.take(i as int)),
        decreases files.len() - i,
    {
        assert(files@.take(i + 1).drop_last() =~= files@.take(i as int));
        assert(files@.take(i + 1).last() == files@[i as int]);
        let f = &files[i];
        let ghost base = out@.map_values(|d: PubFnDecl| pub_fn_view(d));
        let mut k: usize = 0;
        assert(file_pub_fns_upto(*f, 0) =~= Seq::<(Seq<char>, SourceV, Option<Seq<char>>)>::empty());
        while k < f.items.len()
            invariant
                k <= f.items.len(),
                out@.map_values(|d: PubFnDecl| pub_fn_view(d)) == base + file_pub_fns_upto(*f, k as int),
            decreases f.items.len() - k,
        {
            push_item_pub_fns(f, &f.items[k], &mut out);
            assert(out@.map_values(|d: PubFnDecl| pub_fn_view(d)) =~= base + file_pub_fns_upto(
                *f,
                k + 1,
            ));
            k = k + 1;
        }
        i = i + 1;
    }
    assert(files@.take(i as int) =~= files@);
    out
}

/// The anchor targets of an impl block's functions that no `cfg` gate
/// keeps to tests, each under `Type::method`.
pub open spec fn impl_anchors(fs: Seq<RustFn>, root: Seq<char>, path: Seq<char>) -> Seq<(Seq<char>, AnchorKind, SourceV)>
    decreases fs.len(),
{
    if fs.len() == 0 {
        seq![]
    } else {
        let f = fs.last();
        impl_anchors(fs.drop_last(), root, path) + if !f.test_gated {
            seq![(method_key(root, f.ident@), AnchorKind::Fn, code_at(path, f.line))]
        } else {
            seq![]
        }
    }
}

/// The anchor targets an item gives, at any visibility: types, functions
/// and constants under their names, an impl block's methods under
/// `Type::method`; nothing a `cfg` gate keeps to tests.
pub open spec fn item_anchors(item: RustItem, path: Seq<char>) -> Seq<(Seq<char>, AnchorKind, SourceV)> {
    if item.test_gated {
        seq![]
    } else {
        match item.shape {
            ItemShape::Struct | ItemShape::Enum | ItemShape::Trait | ItemShape::TypeAlias => seq![
                (item.ident@, AnchorKind::Type, code_at(path, item.line)),
            ],
            ItemShape::Fn => seq![(item.ident@, AnchorKind::Fn, code_at(path, item.line))],
            ItemShape::Const | ItemShape::Static => seq![
                (item.ident@, AnchorKind::Const, code_at(path, item.line)),
            ],
            ItemShape::Impl => match impl_root(item) {
                None => seq![],
                Some(root) => impl_anchors(item.fns@, root, path),
            },
            ItemShape::Other => seq![],
        }
    }
}

pub open spec fn file_anchors_upto(f: RustSource, k: int) -> Seq<(Seq<char>, AnchorKind, SourceV)>
    decreases k,
{
    if k <= 0 {
        seq![]
    } else {
        file_anchors_upto(f, k - 1) + item_anchors(f.items@[k - 1], f.path@)
    }
}

pub open spec fn files_anchors(fs: Seq<RustSource>) -> Seq<(Seq<char>, AnchorKind, SourceV)>
    decreases fs.len(),
{
    if fs.len() == 0 {
        seq![]
    } else {
        files_anchors(fs.drop_last()) + file_anchors_upto(fs.last(), fs.last().items@.len() as int)
    }
}

fn push_anchor(out: &mut Vec<(String, AnchorTarget)>, key: String, kind: AnchorKind, path: &str, line: usize)
    ensures
        entries_view(final(out)@) == entries_view(old(out)@).push((key@, kind, code_at(path@, line))),
{
    out.push((key, AnchorTarget { kind, source: code_source(path, line) }));
    assert(entries_view(out@) =~= entries_view(old(out)@).push((key@, kind, code_at(path@, line))));
}

fn push_item_anchors(item: &RustItem, path: &str, out: &mut Vec<(String, AnchorTarget)>)
    ensures
        entries_view(final(out)@) == entries_view(old(out)@) + item_anchors(*item, path@),
{
    let ghost base = entries_view(out@);
    if item.test_gated {
        assert(entries_view(out@) =~= base + item_anchors(*item, path@));
        return;
    }
    match item.shape {
        ItemShape::Struct | ItemShape::Enum | ItemShape::Trait | ItemShape::TypeAlias => {
            push_anchor(out, item.ident.clone(), AnchorKind::Type, path, item.line);
            assert(entries_view(out@) =~= base + item_anchors(*item, path@));
        },
        ItemShape::Fn => {
            push_anchor(out, item.ident.clone(), AnchorKind::Fn, path, item.line);
            assert(entries_view(out@) =~= base + item_anchors(*item, path@));
        },
        ItemShape::Const | ItemShape::Static => {
            push_anchor(out, item.ident.clone(), AnchorKind::Const, path, item.line);
            assert(entries_view(out@) =~= base + item_anchors(*item, path@));
        },
        ItemShape::Impl => {
            match impl_root_exec(item) {
                None => {
                    assert(entries_view(out@) =~= base + item_anchors(*item, path@));
                },
                Some(root) => {
                    let fs = &item.fns;
                    let mut i: usize = 0;
                    assert(impl_anchors(fs@.take(0), root@, path@) =~= Seq::<(Seq<char>, AnchorKind, SourceV)>::empty());
                    while i < fs.len()
                        invariant
                            i <= fs.len(),
                            fs == item.fns,
                            entries_view(out@) == base + impl_anchors(fs@.take(i as int), root@, path@),
                        decreases fs.len() - i,
                    {
                        assert(fs@.take(i + 1).drop_last() =~= fs@.take(i as int));
                        assert(fs@.take(i + 1).last() == fs@[i as int]);
                        if !fs[i].test_gated {
                            let key = method_key_exec(root.as_str(), fs[i].ident.as_str());
                            push_anchor(out, key, AnchorKind::Fn, path, fs[i].line);
                        }
                        assert(entries_view(out@) =~= base + impl_anchors(fs@.take(i + 1), root@, path@));
                        i = i + 1;
                    }
                    assert(fs@.take(i as int) =~= fs@);
                },
            }
        },
        ItemShape::Other => {
            assert(entries_view(out@) =~= base + item_anchors(*item, path@));
        },
    }
}

/// Anchor targets indexed from Rust source; the first item indexed under a
/// key is the one it resolves to.
#[derive(Debug, Clone, PartialEq, Eq)]
pub struct RustAnchorResolver {
    pub entries: Vec<(String, AnchorTarget)>,
}

impl RustAnchorResolver {
    /// Indexes the items of a set of files, file by file.
    pub fn index(files: &Vec<RustSource>) -> (r: RustAnchorResolver)
        ensures
            entries_view(r.entries@) == files_anchors(files@),
    {
        let mut entries: Vec<(String, AnchorTarget)> = Vec::new();
        let mut i: usize = 0;
        assert(entries_view(entries@) =~= files_anchors(files@.take(0)));
        while i < files.len()
            invariant
                i <= files.len(),
                entries_view(entries@) == files_anchors(files@.take(i as int)),
            decreases files.len() - i,
        {
            assert(files@.take(i + 1).drop_last() =~= files@.take(i as int));
            assert(files@.take(i + 1).last() == files@[i as int]);
            let f = &files[i];
            let ghost base = entries_view(entries@);
            let mut k: usize = 0;
            assert(file_anchors_upto(*f, 0) =~= Seq::<(Seq<char>, AnchorKind, SourceV)>::empty());
            while k < f.items.len()
                invariant
                    k <= f.items.len(),
                    entries_view(entries@) == base + file_anchors_upto(*f, k as int),
                decreases f.items.len() - k,
            {
                push_item_anchors(&f.items[k], f.path.as_str(), &mut entries);
                assert(entries_view(entries@) =~= base + file_anchors_upto(*f, k + 1));
                k = k + 1;
            }
            i = i + 1;
        }
        assert(files@.take(i as int) =~= files@);
        RustAnchorResolver { entries }
    }

    /// The target indexed first under `qname`.
    pub fn resolve(&self, qname: &str) -> (r: Option<&AnchorTarget>)
        ensures
            match r {
                Some(t) => first_entry(entries_view(self.entries@), qname@) == Some(
                    (t.kind, t.source@),
                ),
                None => first_entry(entries_view(self.entries@), qname@) is None,
            },
    {
        let ghost ev = entries_view(self.entries@);
        let n = self.entries.len();
        let mut i: usize = 0;
        assert(ev.subrange(0, n as int) =~= ev);
        while i < n
            invariant
                i <= n == self.entries.len(),
                ev == entries_view(self.entries@),
                first_entry(ev, qname@) == first_entry(ev.subrange(i as int, n as int), qname@),
            decreases n - i,
        {
            assert(ev.subrange(i as int, n as int).drop_first() =~= ev.subrange(i + 1, n as int));
            if same_text(self.entries[i].0.as_str(), qname) {
                return Some(&self.entries[i].1);
            }
            i = i + 1;
        }
        None
    }
}


/// The first bytes of a `CACHEDIR.TAG` file that marks its directory as a
/// cache.
pub const CACHEDIR_TAG_SIGNATURE: &'static str = "Signature: 8a477f597d28d172789f06886806bc55";

/// Whether the source walk skips a directory entry: a directory named like
/// a build, VCS, test or vendor directory, or one whose `CACHEDIR.TAG`
/// opens with the cache signature (`tag_head`: as much of the tag as was
/// read, when it was read as text).
pub fn walk_skips(is_dir: bool, name: &str, tag_head: Option<&str>) -> (r: bool)
    ensures
        r == (is_dir && (is_excluded_dir(name@) || (tag_head matches Some(t) && t@
            == CACHEDIR_TAG_SIGNATURE@))),
{
    if !is_dir {
        return false;
    }
    let named = same_text(name, "target") || same_text(name, ".git") || same_text(name, ".proofs")
        || same_text(name, "tests") || same_text(name, "benches") || same_text(name, "examples")
        || same_text(name, "node_modules");
    if named {
        return true;
    }
    match tag_head {
        Some(t) => same_text(t, CACHEDIR_TAG_SIGNATURE),
        None => false,
    }
}

/// The relationship kinds the source walk answers.
pub fn rust_answerable() -> (r: Vec<EdgeKind>)
    ensures
        r@ == seq![EdgeKind::Implements, EdgeKind::DependsOn, EdgeKind::Returns],
{
    let mut r: Vec<EdgeKind> = Vec::new();
    r.push(EdgeKind::Implements);
    r.push(EdgeKind::DependsOn);
    r.push(EdgeKind::Returns);
    r
}

/// `s` with every occurrence of `p` replaced by `q` (`str::replace`).
pub open spec fn replaced(s: Seq<char>, p: Seq<char>, q: Seq<char>) -> Seq<char> {
    join(split_str(s, p), q)
}

fn replace_text(s: &str, p: &str, q: &str) -> (r: String)
    requires
        p@.len() > 0,
    ensures
        r@ == replaced(s@, p@, q@),
{
    let parts = split_on(s, p);
    let mut r = String::new();
    push_join(&mut r, &parts, q);
    assert(r@ =~= replaced(s@, p@, q@));
    r
}

/// A printed item with the comma before a closing brace or parenthesis
/// dropped, so that signatures with and without a trailing comma compare
/// equal.
pub open spec fn collapsed_commas(s: Seq<char>) -> Seq<char> {
    replaced(replaced(s, " , }"@, " }"@), " , )"@, " )"@)
}

pub fn collapse_trailing_commas(s: &str) -> (r: String)
    ensures
        r@ == collapsed_commas(s@),
{
    proof {
        reveal_strlit(" , }");
        reveal_strlit(" , )");
    }
    let once = replace_text(s, " , }", " }");
    replace_text(once.as_str(), " , )", " )")
}

} // verus!
