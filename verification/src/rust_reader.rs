//! Rust source text read with syn into the library's plain items, each with
//! its normalized signature.
use vstd::prelude::*;
use crate::rust_signature::{normalize_tokens, signature_text, stream_view, tokens_of, Token, TokenV};
use crate::rust_syntax::{ItemShape, RustFn, RustItem, RustType, TypeShape};
use crate::rust_syntax;
use quote::ToTokens;
use syn::spanned::Spanned;

verus! {

#[verifier::external_type_specification]
#[verifier::external_body]
pub struct ExSynItem(syn::Item);

#[verifier::external_type_specification]
#[verifier::external_body]
pub struct ExSynType(syn::Type);

#[verifier::external_type_specification]
#[verifier::external_body]
pub struct ExSynVisibility(syn::Visibility);

#[verifier::external_type_specification]
#[verifier::external_body]
pub struct ExSynAttribute(syn::Attribute);

#[verifier::external_type_specification]
#[verifier::external_body]
pub struct ExSynSignature(syn::Signature);

#[verifier::external_type_specification]
#[verifier::external_body]
pub struct ExIdent(proc_macro2::Ident);

#[verifier::external_type_specification]
#[verifier::external_body]
pub struct ExSynMeta(syn::Meta);

#[verifier::external_type_specification]
#[verifier::external_body]
pub struct ExSynGenericArgument(syn::GenericArgument);

#[verifier::external_type_specification]
#[verifier::external_body]
pub struct ExSynFnArg(syn::FnArg);

#[verifier::external_type_specification]
#[verifier::external_body]
pub struct ExSynImplItem(syn::ImplItem);

#[verifier::external_type_specification]
#[verifier::external_body]
pub struct ExSynTraitItem(syn::TraitItem);

#[verifier::external_type_specification]
#[verifier::external_body]
pub struct ExSynPath(syn::Path);

/// An item of the given kind with nothing else known yet.
pub fn blank_item(shape: ItemShape) -> (r: RustItem)
    ensures
        r.shape == shape,
        r.vis == rust_syntax::ItemVisibility::Inherited,
        r.cfg_metas@.len() == 0,
        !r.test_gated,
        r.ident@.len() == 0,
        r.line == 0,
        r.signature@.len() == 0,
        r.field_types@.len() == 0,
        r.fns@.len() == 0,
        r.self_ty is None,
        r.trait_path is None,
{
    RustItem {
        shape,
        vis: rust_syntax::ItemVisibility::Inherited,
        cfg_metas: Vec::new(),
        test_gated: false,
        ident: String::new(),
        line: 0,
        signature: String::new(),
        field_types: Vec::new(),
        fns: Vec::new(),
        self_ty: None,
        trait_path: None,
    }
}

/// syn's visibility, one arm for each of its variants.
#[verifier::external_body]
fn vis_of(v: &syn::Visibility) -> rust_syntax::ItemVisibility {
    match v {
        syn::Visibility::Public(_) => rust_syntax::ItemVisibility::Public,
        syn::Visibility::Restricted(_) => rust_syntax::ItemVisibility::Restricted,
        syn::Visibility::Inherited => rust_syntax::ItemVisibility::Inherited,
    }
}

/// The values present in a sequence of options, in order.
pub open spec fn present_spec<T>(s: Seq<Option<T>>) -> Seq<T>
    decreases s.len(),
{
    if s.len() == 0 {
        seq![]
    } else {
        present_spec(s.drop_last()) + match s.last() {
            Some(x) => seq![x],
            None => seq![],
        }
    }
}

/// The values present in a list of options, in order.
pub fn present<T>(v: Vec<Option<T>>) -> (r: Vec<T>)
    ensures
        r@ == present_spec(v@),
{
    let ghost orig = v@;
    let mut v = v;
    assert(orig.len() == v.len());
    let mut out: Vec<T> = Vec::new();
    let mut n: usize = 0;
    assert(orig.take(0) =~= Seq::<Option<T>>::empty());
    assert(orig.skip(0) =~= orig);
    while v.len() > 0
        invariant
            n + v.len() == orig.len(),
            orig.len() <= usize::MAX,
            v@ == orig.skip(n as int),
            out@ == present_spec(orig.take(n as int)),
        decreases v.len(),
    {
        let x = v.remove(0);
        assert(orig.take(n + 1).drop_last() =~= orig.take(n as int));
        assert(orig.take(n + 1).last() == orig[n as int]);
        if let Some(y) = x {
            out.push(y);
        }
        assert(out@ =~= present_spec(orig.take(n + 1)));
        n = n + 1;
        assert(v@ =~= orig.skip(n as int));
    }
    assert(orig.take(n as int) =~= orig);
    out
}

/// The string value of a `name = "..."` meta; nothing for another meta.
#[verifier::external_body]
fn meta_value(meta: &syn::Meta) -> Option<String> {
    match meta {
        syn::Meta::NameValue(nv) => match &nv.value {
            syn::Expr::Lit(syn::ExprLit { lit: syn::Lit::Str(s), .. }) => Some(s.value()),
            _ => None,
        },
        _ => None,
    }
}

/// Each attribute's path as printed, with the metas syn reads from its
/// arguments (`parse_args_with` a comma-separated list of `syn::Meta`;
/// none where they do not read so): each meta's path as printed and its
/// string value where it is a `name = "..."` pair.
#[verifier::external_body]
fn attr_metas(attrs: &[syn::Attribute]) -> Vec<(String, Vec<(String, Option<String>)>)> {
    let mut out = Vec::new();
    for attr in attrs {
        let metas = attr.parse_args_with(syn::punctuated::Punctuated::<syn::Meta, syn::token::Comma>::parse_terminated);
        let pairs = metas.into_iter().flatten().map(|m| (m.path().to_token_stream().to_string(), meta_value(&m)));
        out.push((attr.path().to_token_stream().to_string(), pairs.collect()));
    }
    out
}

/// The metas of the `cfg` attributes, in order.
pub open spec fn cfg_metas_spec(attrs: Seq<(String, Vec<(String, Option<String>)>)>) -> Seq<(String, Option<String>)>
    decreases attrs.len(),
{
    if attrs.len() == 0 {
        seq![]
    } else {
        cfg_metas_spec(attrs.drop_last()) + if attrs.last().0@ == "cfg"@ {
            attrs.last().1@
        } else {
            seq![]
        }
    }
}

/// The metas of the `cfg` attributes among an item's attributes, in order.
pub fn cfg_metas(attrs: Vec<(String, Vec<(String, Option<String>)>)>) -> (r: Vec<(String, Option<String>)>)
    ensures
        r@ == cfg_metas_spec(attrs@),
{
    let ghost orig = attrs@;
    let mut attrs = attrs;
    assert(orig.len() == attrs.len());
    let mut out: Vec<(String, Option<String>)> = Vec::new();
    let mut n: usize = 0;
    assert(orig.take(0) =~= Seq::<(String, Vec<(String, Option<String>)>)>::empty());
    assert(orig.skip(0) =~= orig);
    while attrs.len() > 0
        invariant
            n + attrs.len() == orig.len(),
            orig.len() <= usize::MAX,
            attrs@ == orig.skip(n as int),
            out@ == cfg_metas_spec(orig.take(n as int)),
        decreases attrs.len(),
    {
        let (path, mut metas) = attrs.remove(0);
        assert(orig.take(n + 1).drop_last() =~= orig.take(n as int));
        assert(orig.take(n + 1).last() == orig[n as int]);
        let ghost before = out@;
        if crate::paths::same_text(path.as_str(), "cfg") {
            out.append(&mut metas);
        }
        assert(out@ =~= cfg_metas_spec(orig.take(n + 1)));
        n = n + 1;
        assert(attrs@ =~= orig.skip(n as int));
    }
    assert(orig.take(n as int) =~= orig);
    out
}

/// The first and last segments of a path type and whether it has a
/// qualified self; nothing for another type.
#[verifier::external_body]
fn path_ends(ty: &syn::Type) -> (Option<String>, Option<String>, bool) {
    match ty {
        syn::Type::Path(tp) => (
            tp.path.segments.first().map(|s| s.ident.to_string()),
            tp.path.segments.last().map(|s| s.ident.to_string()),
            tp.qself.is_some(),
        ),
        _ => (None, None, false),
    }
}

/// The type of a generic argument that is a type.
#[verifier::external_body]
fn arg_type(g: &syn::GenericArgument) -> Option<RustType> {
    match g {
        syn::GenericArgument::Type(t) => Some(type_of(t)),
        _ => None,
    }
}

/// The type arguments of a path type's last segment, in order.
#[verifier::external_body]
fn path_args(ty: &syn::Type) -> Vec<RustType> {
    match ty {
        syn::Type::Path(tp) => match tp.path.segments.last().map(|s| &s.arguments) {
            Some(syn::PathArguments::AngleBracketed(a)) => present(a.args.iter().map(arg_type).collect()),
            _ => Vec::new(),
        },
        _ => Vec::new(),
    }
}

/// A type's shape and its type arguments or elements.
#[verifier::external_body]
fn elems_of(ty: &syn::Type) -> (TypeShape, Vec<RustType>) {
    match ty {
        syn::Type::Reference(r) => (TypeShape::Reference, vec![type_of(&r.elem)]),
        syn::Type::Paren(p) => (TypeShape::Paren, vec![type_of(&p.elem)]),
        syn::Type::Group(g) => (TypeShape::Group, vec![type_of(&g.elem)]),
        syn::Type::Slice(s) => (TypeShape::Slice, vec![type_of(&s.elem)]),
        syn::Type::Array(a) => (TypeShape::Array, vec![type_of(&a.elem)]),
        _ => listed_of(ty),
    }
}

/// A path type with its type arguments, a tuple with its elements, and any
/// other type with none.
#[verifier::external_body]
fn listed_of(ty: &syn::Type) -> (TypeShape, Vec<RustType>) {
    match ty {
        syn::Type::Path(_) => (TypeShape::Path, path_args(ty)),
        syn::Type::Tuple(t) => (TypeShape::Tuple, t.elems.iter().map(type_of).collect()),
        _ => (TypeShape::Other, Vec::new()),
    }
}

/// A syn type as plain values: its shape, the ends of its path, its type
/// arguments or elements, its text as printed and the line it starts on.
#[verifier::external_body]
fn type_of(ty: &syn::Type) -> RustType {
    let (shape, args) = elems_of(ty);
    let (first_segment, last_segment, qualified_self) = path_ends(ty);
    let (text, line) = (ty.to_token_stream().to_string(), ty.span().start().line);
    RustType { shape, first_segment, last_segment, qualified_self, args, text, line }
}

/// The type of a typed parameter; nothing for a receiver.
#[verifier::external_body]
fn input_type(a: &syn::FnArg) -> Option<RustType> {
    match a {
        syn::FnArg::Typed(t) => Some(type_of(&t.ty)),
        syn::FnArg::Receiver(_) => None,
    }
}

/// A function signature as plain values: its typed parameters (not its
/// receiver) and its return type.
#[verifier::external_body]
fn fn_of(vis: rust_syntax::ItemVisibility, attrs: &[syn::Attribute], sig: &syn::Signature) -> RustFn {
    RustFn {
        vis,
        cfg_metas: cfg_metas(attr_metas(attrs)),
        test_gated: false,
        ident: sig.ident.to_string(),
        line: sig.ident.span().start().line,
        inputs: present(sig.inputs.iter().map(input_type).collect()),
        output: match &sig.output {
            syn::ReturnType::Type(_, t) => Some(type_of(t)),
            syn::ReturnType::Default => None,
        },
    }
}

/// A named item: its kind, visibility, `cfg` metas, name and the name's line.
#[verifier::external_body]
fn named(shape: ItemShape, vis: &syn::Visibility, attrs: &[syn::Attribute], ident: &proc_macro2::Ident) -> RustItem {
    let mut r = blank_item(shape);
    r.vis = vis_of(vis);
    r.cfg_metas = cfg_metas(attr_metas(attrs));
    r.ident = ident.to_string();
    r.line = ident.span().start().line;
    r
}

/// A function of an impl block; nothing for another impl item.
#[verifier::external_body]
fn impl_fn(ii: &syn::ImplItem) -> Option<RustFn> {
    match ii {
        syn::ImplItem::Fn(f) => Some(fn_of(vis_of(&f.vis), &f.attrs, &f.sig)),
        _ => None,
    }
}

/// A method of a trait; nothing for another trait item.
#[verifier::external_body]
fn trait_fn(ti: &syn::TraitItem) -> Option<RustFn> {
    match ti {
        syn::TraitItem::Fn(f) => Some(fn_of(rust_syntax::ItemVisibility::Inherited, &f.attrs, &f.sig)),
        _ => None,
    }
}

/// The last segment of a path, with the line the path starts on.
#[verifier::external_body]
fn path_tail(p: &syn::Path) -> (String, usize) {
    (p.segments.last().map(|s| s.ident.to_string()).unwrap_or_default(), p.span().start().line)
}

/// An impl block: its `cfg` metas, self type, the last segment of the trait
/// it implements with that path's line, and its functions.
#[verifier::external_body]
fn impl_of(item: &syn::Item) -> RustItem {
    let mut r = blank_item(ItemShape::Impl);
    if let syn::Item::Impl(i) = item {
        r.cfg_metas = cfg_metas(attr_metas(&i.attrs));
        r.self_ty = Some(type_of(&i.self_ty));
        r.trait_path = i.trait_.as_ref().map(|(_, p, _)| path_tail(p));
        r.fns = present(i.items.iter().map(impl_fn).collect());
    }
    r
}

/// An enum with the field types of every variant, in order, or a trait
/// with its methods.
#[verifier::external_body]
fn typed_of(item: &syn::Item) -> RustItem {
    match item {
        syn::Item::Enum(e) => RustItem {
            field_types: e.variants.iter().flat_map(|v| v.fields.iter()).map(|f| type_of(&f.ty)).collect(),
            ..named(ItemShape::Enum, &e.vis, &e.attrs, &e.ident)
        },
        syn::Item::Trait(t) => RustItem {
            fns: present(t.items.iter().map(trait_fn).collect()),
            ..named(ItemShape::Trait, &t.vis, &t.attrs, &t.ident)
        },
        _ => blank_item(ItemShape::Other),
    }
}

/// A type alias, function, constant or static by its name; nothing else is
/// read of another item.
#[verifier::external_body]
fn plain_of(item: &syn::Item) -> RustItem {
    match item {
        syn::Item::Type(t) => named(ItemShape::TypeAlias, &t.vis, &t.attrs, &t.ident),
        syn::Item::Fn(f) => named(ItemShape::Fn, &f.vis, &f.attrs, &f.sig.ident),
        syn::Item::Const(c) => named(ItemShape::Const, &c.vis, &c.attrs, &c.ident),
        syn::Item::Static(s) => named(ItemShape::Static, &s.vis, &s.attrs, &s.ident),
        _ => blank_item(ItemShape::Other),
    }
}

/// A syn item as plain values, its signature not yet filled in.
#[verifier::external_body]
fn item_of(item: &syn::Item) -> RustItem {
    match item {
        syn::Item::Struct(s) => RustItem {
            field_types: s.fields.iter().map(|f| type_of(&f.ty)).collect(),
            ..named(ItemShape::Struct, &s.vis, &s.attrs, &s.ident)
        },
        syn::Item::Enum(_) | syn::Item::Trait(_) => typed_of(item),
        syn::Item::Impl(_) => impl_of(item),
        _ => plain_of(item),
    }
}

pub open spec fn raw_view(p: (RustItem, Vec<Token>)) -> (RustItem, Seq<TokenV>) {
    (p.0, stream_view(p.1@))
}

/// The top-level items syn reads from a Rust source, each with its tokens,
/// or syn's error line and message.
pub uninterp spec fn rust_file_items(source: Seq<char>) -> Result<Seq<(RustItem, Seq<TokenV>)>, (usize, Seq<char>)>;

/// Reads a Rust source with `syn::parse_file` and gives each top-level item
/// as plain values with the tokens `ToTokens::to_token_stream` gives it, or
/// the line syn's error starts on and its message. What syn reads is named
/// by `rust_file_items`, not described.
#[verifier::external_body]
fn file_items(source: &str) -> (r: Result<Vec<(RustItem, Vec<Token>)>, (usize, String)>)
    ensures
        match r {
            Ok(v) => rust_file_items(source@) == Ok::<Seq<(RustItem, Seq<TokenV>)>, (usize, Seq<char>)>(
                v@.map_values(|p: (RustItem, Vec<Token>)| raw_view(p)),
            ),
            Err(e) => rust_file_items(source@) == Err::<Seq<(RustItem, Seq<TokenV>)>, (usize, Seq<char>)>(
                (e.0, e.1@),
            ),
        },
{
    match syn::parse_file(source) {
        Ok(file) => Ok(file.items.iter().map(|i| (item_of(i), tokens_of(i.to_token_stream()))).collect()),
        Err(e) => Err((e.span().start().line, e.to_string())),
    }
}

/// `a` is the item `b` with the signature `sig`.
pub open spec fn signed(a: RustItem, b: RustItem, sig: Seq<char>) -> bool {
    &&& a.shape == b.shape && a.vis == b.vis && a.cfg_metas == b.cfg_metas
    &&& a.test_gated == b.test_gated && a.ident == b.ident && a.line == b.line
    &&& a.signature@ == sig && a.field_types == b.field_types && a.fns == b.fns
    &&& a.self_ty == b.self_ty && a.trait_path == b.trait_path
}

/// Each item with the normalized signature of its tokens.
pub fn with_signatures(raw: Vec<(RustItem, Vec<Token>)>) -> (r: Vec<RustItem>)
    ensures
        r.len() == raw.len(),
        forall|i: int|
            0 <= i < r.len() ==> signed(
                #[trigger] r@[i],
                raw@[i].0,
                signature_text(stream_view(raw@[i].1@)),
            ),
{
    let ghost orig = raw@;
    let mut raw = raw;
    let mut out: Vec<RustItem> = Vec::new();
    while raw.len() > 0
        invariant
            out.len() + raw.len() == orig.len(),
            raw@ == orig.skip(out.len() as int),
            forall|i: int|
                0 <= i < out.len() ==> signed(
                    #[trigger] out@[i],
                    orig[i].0,
                    signature_text(stream_view(orig[i].1@)),
                ),
        decreases raw.len(),
    {
        let (mut item, toks) = raw.remove(0);
        item.signature = normalize_tokens(&toks);
        assert(raw@ =~= orig.skip(out.len() + 1));
        out.push(item);
    }
    out
}

/// The top-level items of a Rust source, each with its normalized
/// signature, or the line syn's error starts on and its message.
pub fn rust_items(source: &str) -> (r: Result<Vec<RustItem>, (usize, String)>)
    ensures
        match r {
            Ok(items) => rust_file_items(source@) matches Ok(raw) && items.len() == raw.len() && forall|
                i: int,
            |
                0 <= i < items.len() ==> signed(#[trigger] items@[i], raw[i].0, signature_text(raw[i].1)),
            Err(e) => rust_file_items(source@) == Err::<Seq<(RustItem, Seq<TokenV>)>, (usize, Seq<char>)>(
                (e.0, e.1@),
            ),
        },
{
    match file_items(source) {
        Ok(raw) => {
            let ghost rv = raw@;
            let items = with_signatures(raw);
            assert forall|i: int| 0 <= i < items.len() implies signed(
                #[trigger] items@[i],
                rv.map_values(|p: (RustItem, Vec<Token>)| raw_view(p))[i].0,
                signature_text(rv.map_values(|p: (RustItem, Vec<Token>)| raw_view(p))[i].1),
            ) by {}
            Ok(items)
        },
        Err(e) => Err(e),
    }
}

} // verus!
