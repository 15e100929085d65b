//! The normalized signature of a Rust item: its tokens, as syn prints them,
//! without documentation, `cfg`, `must_use`, `inline` and `derive`
//! attributes and with restricted visibility made private, printed as
//! proc-macro2 prints a token stream. Byte equality of that text is the
//! signature-match rule.
use vstd::prelude::*;
use crate::paths::same_text;
use crate::rust_syntax::{collapse_trailing_commas, collapsed_commas};
use crate::text::{push_str, text_of};
use proc_macro2::{Delimiter, Spacing, TokenTree};

verus! {

/// The delimiter of a token group (`None` for an invisible one).
#[derive(Debug, Clone, Copy, PartialEq, Eq, Structural)]
pub enum Delim {
    Paren,
    Brace,
    Bracket,
    Invisible,
}

/// A token as plain values: a delimited group of tokens, an identifier (a
/// raw one with its `r#`), a punctuation character and whether it joins
/// the next one, or a literal as written.
#[derive(Debug)]
pub enum Token {
    Group(Delim, Vec<Token>),
    Ident(String),
    Punct(char, bool),
    Literal(String),
}

/// A token in the mathematical model.
pub enum TokenV {
    Group(Delim, Seq<TokenV>),
    Ident(Seq<char>),
    Punct(char, bool),
    Literal(Seq<char>),
}

pub open spec fn token_view(t: Token) -> TokenV
    decreases t, 1int,
{
    match t {
        Token::Group(d, inner) => TokenV::Group(d, stream_view(inner@)),
        Token::Ident(s) => TokenV::Ident(s@),
        Token::Punct(c, j) => TokenV::Punct(c, j),
        Token::Literal(s) => TokenV::Literal(s@),
    }
}

pub open spec fn stream_view(ts: Seq<Token>) -> Seq<TokenV>
    decreases ts, 0int,
{
    if ts.len() == 0 {
        seq![]
    } else {
        stream_view(ts.drop_last()).push(token_view(ts.last()))
    }
}

pub proof fn lemma_stream_view(ts: Seq<Token>)
    ensures
        stream_view(ts).len() == ts.len(),
        forall|i: int| 0 <= i < ts.len() ==> #[trigger] stream_view(ts)[i] == token_view(ts[i]),
    decreases ts.len(),
{
    if ts.len() > 0 {
        lemma_stream_view(ts.drop_last());
    }
}

proof fn lemma_view_push(ts: Seq<Token>, t: Token)
    ensures
        stream_view(ts.push(t)) == stream_view(ts).push(token_view(t)),
{
    assert(ts.push(t).drop_last() =~= ts);
}

pub open spec fn open_text(d: Delim) -> Seq<char> {
    match d {
        Delim::Paren => seq!['('],
        Delim::Brace => seq!['{', ' '],
        Delim::Bracket => seq!['['],
        Delim::Invisible => seq![],
    }
}

pub open spec fn close_text(d: Delim) -> Seq<char> {
    match d {
        Delim::Paren => seq![')'],
        Delim::Brace => seq!['}'],
        Delim::Bracket => seq![']'],
        Delim::Invisible => seq![],
    }
}

/// Whether a token is a punctuation character that joins the next one.
pub open spec fn joins_next(t: TokenV) -> bool {
    t matches TokenV::Punct(_, true)
}

/// A token as proc-macro2 prints it: a group as its opening delimiter, its
/// tokens and its closing delimiter (a non-empty brace group with a space
/// before the closing brace), anything else as written.
pub open spec fn token_text(t: TokenV) -> Seq<char>
    decreases t, 1int,
{
    match t {
        TokenV::Group(d, inner) => open_text(d) + stream_text(inner) + (if d == Delim::Brace
            && inner.len() > 0 {
            seq![' ']
        } else {
            seq![]
        }) + close_text(d),
        TokenV::Ident(s) => s,
        TokenV::Punct(c, _) => seq![c],
        TokenV::Literal(s) => s,
    }
}

/// A token stream as proc-macro2 prints it: its tokens, each but the first
/// after a space unless the one before it joins it.
pub open spec fn stream_text(ts: Seq<TokenV>) -> Seq<char>
    decreases ts, 0int,
{
    if ts.len() == 0 {
        seq![]
    } else {
        let sep = if ts.len() > 1 && !joins_next(ts[ts.len() - 2]) {
            seq![' ']
        } else {
            seq![]
        };
        stream_text(ts.drop_last()) + sep + token_text(ts.last())
    }
}

pub open spec fn is_punct(t: TokenV, c: char) -> bool {
    t matches TokenV::Punct(x, _) && x == c
}

pub open spec fn is_word(t: TokenV, w: Seq<char>) -> bool {
    t matches TokenV::Ident(x) && x == w
}

/// The path of an attribute's body is one of the noise words, alone:
/// `doc`, `cfg`, `must_use`, `inline` or `derive`.
pub open spec fn noise_path(inner: Seq<TokenV>) -> bool {
    &&& inner.len() >= 1
    &&& (is_word(inner[0], "doc"@) || is_word(inner[0], "cfg"@) || is_word(inner[0], "must_use"@)
        || is_word(inner[0], "inline"@) || is_word(inner[0], "derive"@))
    &&& !(inner.len() >= 2 && is_punct(inner[1], ':'))
}

/// An attribute (`#` and a bracket group) starts at `i`.
pub open spec fn attr_at(ts: Seq<TokenV>, i: int) -> bool {
    &&& 0 <= i && i + 1 < ts.len()
    &&& is_punct(ts[i], '#')
    &&& ts[i + 1] is Group && ts[i + 1]->Group_0 == Delim::Bracket
}

/// A noise attribute starts at `i`.
pub open spec fn noise_attr_at(ts: Seq<TokenV>, i: int) -> bool {
    attr_at(ts, i) && noise_path(ts[i + 1]->Group_1)
}

/// A restricted visibility starts at `i`: `pub` and a parenthesised
/// `crate`, `self` or `super` alone, or `in` and a path (as syn reads it).
pub open spec fn restricted_at(ts: Seq<TokenV>, i: int) -> bool {
    &&& 0 <= i && i + 1 < ts.len()
    &&& is_word(ts[i], "pub"@)
    &&& ts[i + 1] is Group && ts[i + 1]->Group_0 == Delim::Paren
    &&& {
        let inner = ts[i + 1]->Group_1;
        ||| inner.len() == 1 && (is_word(inner[0], "crate"@) || is_word(inner[0], "self"@) || is_word(
            inner[0],
            "super"@,
        ))
        ||| inner.len() >= 1 && is_word(inner[0], "in"@)
    }
}

/// A run of tokens without its noise attributes and, where `vis` holds, its
/// restricted visibilities.
pub open spec fn stripped_run(ts: Seq<TokenV>, vis: bool) -> Seq<TokenV>
    decreases ts.len(),
{
    if ts.len() == 0 {
        seq![]
    } else if noise_attr_at(ts, 0) || (vis && restricted_at(ts, 0)) {
        stripped_run(ts.skip(2), vis)
    } else {
        seq![ts[0]] + stripped_run(ts.skip(1), vis)
    }
}

/// An enum's variants without their noise attributes, each brace or
/// parenthesis group among them (a variant's fields) stripped as fields.
pub open spec fn stripped_variants(ts: Seq<TokenV>) -> Seq<TokenV>
    decreases ts.len(),
{
    if ts.len() == 0 {
        seq![]
    } else if noise_attr_at(ts, 0) {
        stripped_variants(ts.skip(2))
    } else {
        let first = match ts[0] {
            TokenV::Group(d, inner) => if d == Delim::Brace || d == Delim::Paren {
                TokenV::Group(d, stripped_run(inner, true))
            } else {
                ts[0]
            },
            _ => ts[0],
        };
        seq![first] + stripped_variants(ts.skip(1))
    }
}

fn copy_token(t: &Token) -> (r: Token)
    ensures
        token_view(r) == token_view(*t),
    decreases *t, 1int,
{
    match t {
        Token::Group(d, inner) => Token::Group(*d, copy_stream(inner)),
        Token::Ident(s) => Token::Ident(text_of(s.as_str())),
        Token::Punct(c, j) => Token::Punct(*c, *j),
        Token::Literal(s) => Token::Literal(text_of(s.as_str())),
    }
}

fn copy_stream(ts: &Vec<Token>) -> (r: Vec<Token>)
    ensures
        stream_view(r@) == stream_view(ts@),
    decreases *ts, 0int,
{
    let mut r: Vec<Token> = Vec::new();
    let mut i: usize = 0;
    assert(ts@.take(0) =~= r@);
    while i < ts.len()
        invariant
            i <= ts.len(),
            stream_view(r@) == stream_view(ts@.take(i as int)),
        decreases ts.len() - i,
    {
        assert(decreases_to!(*ts => ts@[i as int]));
        let c = copy_token(&ts[i]);
        proof {
            lemma_view_push(r@, c);
            lemma_view_push(ts@.take(i as int), ts@[i as int]);
            assert(ts@.take(i + 1) =~= ts@.take(i as int).push(ts@[i as int]));
        }
        r.push(c);
        i = i + 1;
    }
    assert(ts@.take(i as int) =~= ts@);
    r
}

fn punct_is(t: &Token, c: char) -> (b: bool)
    ensures
        b == is_punct(token_view(*t), c),
{
    match t {
        Token::Punct(x, _) => *x == c,
        _ => false,
    }
}

fn word_is(t: &Token, w: &str) -> (b: bool)
    ensures
        b == is_word(token_view(*t), w@),
{
    match t {
        Token::Ident(x) => same_text(x.as_str(), w),
        _ => false,
    }
}

fn noise_path_exec(inner: &Vec<Token>) -> (b: bool)
    ensures
        b == noise_path(stream_view(inner@)),
{
    proof {
        lemma_stream_view(inner@);
    }
    if inner.len() == 0 {
        return false;
    }
    let t = &inner[0];
    let w = word_is(t, "doc") || word_is(t, "cfg") || word_is(t, "must_use") || word_is(t, "inline")
        || word_is(t, "derive");
    w && !(inner.len() >= 2 && punct_is(&inner[1], ':'))
}

/// Whether a noise attribute starts at `i` of the run `ts[i..hi]`, and
/// whether (`vis`) a restricted visibility does.
fn strip_here(ts: &Vec<Token>, i: usize, hi: usize, vis: bool) -> (b: bool)
    requires
        i < hi <= ts.len(),
    ensures
        b == (noise_attr_at(stream_view(ts@).subrange(i as int, hi as int), 0) || (vis
            && restricted_at(stream_view(ts@).subrange(i as int, hi as int), 0))),
{
    proof {
        lemma_stream_view(ts@);
    }
    if hi - i < 2 {
        return false;
    }
    let attr = punct_is(&ts[i], '#') && match &ts[i + 1] {
        Token::Group(Delim::Bracket, inner) => noise_path_exec(inner),
        _ => false,
    };
    if attr {
        return true;
    }
    if !vis || !word_is(&ts[i], "pub") {
        return false;
    }
    match &ts[i + 1] {
        Token::Group(Delim::Paren, inner) => {
            proof {
                lemma_stream_view(inner@);
            }
            if inner.len() == 1 {
                word_is(&inner[0], "crate") || word_is(&inner[0], "self") || word_is(
                    &inner[0],
                    "super",
                ) || word_is(&inner[0], "in")
            } else {
                inner.len() >= 1 && word_is(&inner[0], "in")
            }
        },
        _ => false,
    }
}

/// Appends the run `ts[lo..hi]` without its noise attributes and, where
/// `vis` holds, its restricted visibilities.
fn strip_run(ts: &Vec<Token>, lo: usize, hi: usize, vis: bool, out: &mut Vec<Token>)
    requires
        lo <= hi <= ts.len(),
    ensures
        stream_view(final(out)@) == stream_view(old(out)@) + stripped_run(
            stream_view(ts@).subrange(lo as int, hi as int),
            vis,
        ),
{
    let ghost v = stream_view(ts@);
    let ghost base = stream_view(out@);
    proof {
        lemma_stream_view(ts@);
    }
    let mut i = lo;
    while i < hi
        invariant
            lo <= i <= hi <= ts.len(),
            v == stream_view(ts@),
            v.len() == ts.len(),
            forall|k: int| 0 <= k < ts.len() ==> #[trigger] v[k] == token_view(ts@[k]),
            stream_view(out@) + stripped_run(v.subrange(i as int, hi as int), vis) == base
                + stripped_run(v.subrange(lo as int, hi as int), vis),
        decreases hi - i,
    {
        let ghost run = v.subrange(i as int, hi as int);
        if strip_here(ts, i, hi, vis) {
            assert(run.skip(2) =~= v.subrange(i + 2, hi as int));
            i = i + 2;
        } else {
            let c = copy_token(&ts[i]);
            let ghost before = out@;
            proof {
                lemma_view_push(before, c);
            }
            out.push(c);
            assert(run.skip(1) =~= v.subrange(i + 1, hi as int));
            assert(stripped_run(run, vis) == seq![v[i as int]] + stripped_run(run.skip(1), vis));
            assert(stream_view(out@) + stripped_run(v.subrange(i + 1, hi as int), vis)
                =~= stream_view(before) + stripped_run(run, vis));
            i = i + 1;
        }
    }
}

/// An enum's variants, stripped.
fn strip_variants(ts: &Vec<Token>) -> (r: Vec<Token>)
    ensures
        stream_view(r@) == stripped_variants(stream_view(ts@)),
{
    let ghost v = stream_view(ts@);
    proof {
        lemma_stream_view(ts@);
    }
    let mut out: Vec<Token> = Vec::new();
    let mut i: usize = 0;
    assert(v.skip(0) =~= v);
    while i < ts.len()
        invariant
            i <= ts.len(),
            v == stream_view(ts@),
            v.len() == ts.len(),
            forall|k: int| 0 <= k < ts.len() ==> #[trigger] v[k] == token_view(ts@[k]),
            stream_view(out@) + stripped_variants(v.skip(i as int)) == stripped_variants(v),
        decreases ts.len() - i,
    {
        let ghost run = v.skip(i as int);
        assert(v.subrange(i as int, ts.len() as int) =~= run);
        if strip_here(ts, i, ts.len(), false) {
            assert(run.skip(2) =~= v.skip(i + 2));
            i = i + 2;
        } else {
            let c = match &ts[i] {
                Token::Group(d, inner) => {
                    if *d == Delim::Brace || *d == Delim::Paren {
                        let mut o: Vec<Token> = Vec::new();
                        strip_run(inner, 0, inner.len(), true, &mut o);
                        proof {
                            lemma_stream_view(inner@);
                            assert(stream_view(inner@).subrange(0, inner.len() as int)
                                =~= stream_view(inner@));
                            assert(stream_view(Seq::<Token>::empty()) =~= Seq::<TokenV>::empty());
                            assert(stream_view(o@) =~= stripped_run(stream_view(inner@), true));
                        }
                        Token::Group(*d, o)
                    } else {
                        copy_token(&ts[i])
                    }
                },
                _ => copy_token(&ts[i]),
            };
            let ghost before = out@;
            proof {
                lemma_view_push(before, c);
            }
            out.push(c);
            assert(run.skip(1) =~= v.skip(i + 1));
            assert(stream_view(out@) + stripped_variants(v.skip(i + 1)) =~= stream_view(before)
                + stripped_variants(run));
            i = i + 1;
        }
    }
    assert(v.skip(ts.len() as int) =~= Seq::<TokenV>::empty());
    assert(stream_view(out@) =~= stripped_variants(v));
    out
}

/// The end of the attributes that lead a stream from `i`.
pub open spec fn attrs_end(ts: Seq<TokenV>, i: int) -> int
    decreases ts.len() - i,
{
    if attr_at(ts, i) {
        attrs_end(ts, i + 2)
    } else {
        i
    }
}

proof fn lemma_attrs_end(ts: Seq<TokenV>, i: int)
    ensures
        !attr_at(ts, attrs_end(ts, i)),
    decreases ts.len() - i,
{
    if attr_at(ts, i) {
        lemma_attrs_end(ts, i + 2);
    }
}

/// The first token from `j` that is not `unsafe` or `auto`.
pub open spec fn kind_at(ts: Seq<TokenV>, j: int) -> int
    decreases ts.len() - j,
{
    if 0 <= j < ts.len() && (is_word(ts[j], "unsafe"@) || is_word(ts[j], "auto"@)) {
        kind_at(ts, j + 1)
    } else {
        j
    }
}

/// The kinds of item whose signature sheds attributes and visibility.
#[derive(Debug, Clone, Copy, PartialEq, Eq, Structural)]
pub enum SigKind {
    Struct,
    Enum,
    Trait,
    TypeAlias,
    Untouched,
}

pub open spec fn sig_kind(ts: Seq<TokenV>, kw: int) -> SigKind {
    if 0 <= kw < ts.len() {
        if is_word(ts[kw], "struct"@) {
            SigKind::Struct
        } else if is_word(ts[kw], "enum"@) {
            SigKind::Enum
        } else if is_word(ts[kw], "trait"@) {
            SigKind::Trait
        } else if is_word(ts[kw], "type"@) {
            SigKind::TypeAlias
        } else {
            SigKind::Untouched
        }
    } else {
        SigKind::Untouched
    }
}

/// A `>` that closes an angle bracket (not the head of an `->`).
pub open spec fn closes_angle(ts: Seq<TokenV>, i: int) -> bool {
    is_punct(ts[i], '>') && !(i > 0 && is_punct(ts[i - 1], '-') && joins_next(ts[i - 1]))
}

/// The index of an item's body from `i` on: the first brace group outside
/// angle brackets, or (where `paren` holds and no `where` came first) the
/// first parenthesis group.
pub open spec fn body_from(ts: Seq<TokenV>, i: int, depth: nat, after_where: bool, paren: bool) -> Option<int>
    decreases ts.len() - i,
{
    if i < 0 || i >= ts.len() {
        None
    } else if is_punct(ts[i], '<') {
        body_from(ts, i + 1, depth + 1, after_where, paren)
    } else if closes_angle(ts, i) {
        body_from(ts, i + 1, if depth > 0 { (depth - 1) as nat } else { 0 }, after_where, paren)
    } else if depth == 0 && ts[i] is Group && (ts[i]->Group_0 == Delim::Brace || (ts[i]->Group_0
        == Delim::Paren && paren && !after_where)) {
        Some(i)
    } else if depth == 0 && is_word(ts[i], "where"@) {
        body_from(ts, i + 1, depth, true, paren)
    } else {
        body_from(ts, i + 1, depth, after_where, paren)
    }
}

pub open spec fn item_body(ts: Seq<TokenV>, kind: SigKind, kw: int) -> Option<int> {
    match kind {
        SigKind::Struct => body_from(ts, kw + 1, 0, false, true),
        SigKind::Enum => body_from(ts, kw + 1, 0, false, false),
        SigKind::Trait => body_from(ts, kw + 1, 0, false, false),
        _ => None,
    }
}

/// A body stripped for its kind: a struct's fields of noise attributes and
/// restricted visibility, an enum's variants, a trait's items of noise
/// attributes.
pub open spec fn body_stripped(kind: SigKind, g: TokenV) -> TokenV {
    match g {
        TokenV::Group(d, inner) => TokenV::Group(
            d,
            match kind {
                SigKind::Enum => stripped_variants(inner),
                SigKind::Struct => stripped_run(inner, true),
                _ => stripped_run(inner, false),
            },
        ),
        _ => g,
    }
}

/// Where the leading visibility ends and the item's kind is read from.
pub open spec fn vis_end(ts: Seq<TokenV>, k: int) -> int {
    if restricted_at(ts, k) {
        k + 2
    } else if 0 <= k < ts.len() && is_word(ts[k], "pub"@) {
        k + 1
    } else {
        k
    }
}

/// An item's tokens as its signature compares them. A struct, enum, trait
/// or type alias loses its noise attributes and a restricted visibility,
/// and the fields of a struct or of an enum's variants, and a trait's
/// items, lose theirs; any other item stays as it is.
pub open spec fn stripped_item(ts: Seq<TokenV>) -> Seq<TokenV> {
    let k = attrs_end(ts, 0);
    let cut = if restricted_at(ts, k) { k + 2 } else { k };
    let kw = kind_at(ts, vis_end(ts, k));
    let kind = sig_kind(ts, kw);
    if kind == SigKind::Untouched {
        ts
    } else {
        let upd = match item_body(ts, kind, kw) {
            Some(b) => ts.update(b, body_stripped(kind, ts[b])),
            None => ts,
        };
        stripped_run(ts.take(k), false) + upd.skip(cut)
    }
}

/// The normalized signature of an item's tokens.
pub open spec fn signature_text(ts: Seq<TokenV>) -> Seq<char> {
    collapsed_commas(stream_text(stripped_item(ts)))
}

/// The item's kind is one whose signature sheds attributes: a struct, an
/// enum, a trait or a type alias.
pub open spec fn sheds_attributes(ts: Seq<TokenV>) -> bool {
    sig_kind(ts, kind_at(ts, vis_end(ts, attrs_end(ts, 0)))) != SigKind::Untouched
}

proof fn lemma_shift_attrs(a: Seq<TokenV>, ts: Seq<TokenV>, i: int)
    requires
        a.len() == 2,
        0 <= i,
    ensures
        attrs_end(a + ts, i + 2) == attrs_end(ts, i) + 2,
    decreases ts.len() - i,
{
    let x = a + ts;
    if 0 <= i && i + 1 < ts.len() {
        assert(x[i + 2] == ts[i] && x[i + 3] == ts[i + 1]);
    }
    assert(attr_at(x, i + 2) == attr_at(ts, i));
    if attr_at(ts, i) {
        lemma_shift_attrs(a, ts, i + 2);
    }
}

proof fn lemma_shift_kind(a: Seq<TokenV>, ts: Seq<TokenV>, j: int)
    requires
        a.len() == 2,
        0 <= j,
    ensures
        kind_at(a + ts, j + 2) == kind_at(ts, j) + 2,
    decreases ts.len() - j,
{
    let x = a + ts;
    if j < ts.len() {
        assert(x[j + 2] == ts[j]);
        if is_word(ts[j], "unsafe"@) || is_word(ts[j], "auto"@) {
            lemma_shift_kind(a, ts, j + 1);
        }
    }
}

proof fn lemma_shift_body(a: Seq<TokenV>, ts: Seq<TokenV>, i: int, depth: nat, w: bool, paren: bool)
    requires
        a.len() == 2,
        0 <= i,
        !(a[1] is Punct),
    ensures
        body_from(a + ts, i + 2, depth, w, paren) == match body_from(ts, i, depth, w, paren) {
            Some(b) => Some(b + 2),
            None => None::<int>,
        },
    decreases ts.len() - i,
{
    let x = a + ts;
    if i < ts.len() {
        assert(x[i + 2] == ts[i]);
        if i > 0 {
            assert(x[i + 1] == ts[i - 1]);
        }
        assert(closes_angle(x, i + 2) == closes_angle(ts, i));
        let d2: nat = if depth > 0 { (depth - 1) as nat } else { 0 };
        lemma_shift_body(a, ts, i + 1, depth + 1, w, paren);
        lemma_shift_body(a, ts, i + 1, d2, w, paren);
        lemma_shift_body(a, ts, i + 1, depth, true, paren);
        lemma_shift_body(a, ts, i + 1, depth, w, paren);
    }
}

proof fn lemma_body_range(ts: Seq<TokenV>, i: int, depth: nat, w: bool, paren: bool)
    ensures
        body_from(ts, i, depth, w, paren) matches Some(b) ==> i <= b < ts.len(),
    decreases ts.len() - i,
{
    if 0 <= i < ts.len() {
        let d2: nat = if depth > 0 { (depth - 1) as nat } else { 0 };
        lemma_body_range(ts, i + 1, depth + 1, w, paren);
        lemma_body_range(ts, i + 1, d2, w, paren);
        lemma_body_range(ts, i + 1, depth, true, paren);
        lemma_body_range(ts, i + 1, depth, w, paren);
    }
}

/// A leading documentation, `cfg`, `must_use`, `inline` or `derive`
/// attribute leaves the signature of a struct, enum, trait or type alias as
/// it is.
pub proof fn a_noise_attribute_leaves_the_signature(a: Seq<TokenV>, ts: Seq<TokenV>)
    requires
        a.len() == 2,
        noise_attr_at(a, 0),
        sheds_attributes(ts),
    ensures
        signature_text(a + ts) == signature_text(ts),
        sheds_attributes(a + ts),
{
    let x = a + ts;
    assert(attr_at(x, 0));
    lemma_shift_attrs(a, ts, 0);
    let k = attrs_end(ts, 0);
    assert(attrs_end(x, 0) == k + 2);
    if 0 <= k && k + 1 < ts.len() {
        assert(x[k + 2] == ts[k] && x[k + 3] == ts[k + 1]);
    }
    if 0 <= k && k < ts.len() {
        assert(x[k + 2] == ts[k]);
    }
    assert(restricted_at(x, k + 2) == restricted_at(ts, k));
    assert(vis_end(x, k + 2) == vis_end(ts, k) + 2);
    let j = vis_end(ts, k);
    lemma_shift_kind(a, ts, j);
    let kw = kind_at(ts, j);
    if 0 <= kw < ts.len() {
        assert(x[kw + 2] == ts[kw]);
    }
    assert(sig_kind(x, kw + 2) == sig_kind(ts, kw));
    let kind = sig_kind(ts, kw);
    lemma_shift_body(a, ts, kw + 1, 0, false, true);
    lemma_shift_body(a, ts, kw + 1, 0, false, false);
    lemma_body_range(ts, kw + 1, 0, false, true);
    lemma_body_range(ts, kw + 1, 0, false, false);
    assert(item_body(x, kind, kw + 2) == match item_body(ts, kind, kw) {
        Some(b) => Some(b + 2),
        None => None::<int>,
    });
    let cut = if restricted_at(ts, k) { k + 2 } else { k };
    let upd = match item_body(ts, kind, kw) {
        Some(b) => ts.update(b, body_stripped(kind, ts[b])),
        None => ts,
    };
    let updx = match item_body(x, kind, kw + 2) {
        Some(b) => x.update(b, body_stripped(kind, x[b])),
        None => x,
    };
    match item_body(ts, kind, kw) {
        Some(b) => {
            assert(x[b + 2] == ts[b]);
            assert(updx =~= a + upd);
        },
        None => {
            assert(updx =~= a + upd);
        },
    }
    assert(updx.skip(cut + 2) =~= upd.skip(cut));
    let head = x.take(k + 2);
    assert(head =~= a + ts.take(k));
    assert(noise_attr_at(head, 0));
    assert(head.skip(2) =~= ts.take(k));
    assert(stripped_item(x) =~= stripped_item(ts));
}

/// A restricted visibility (`pub(crate)`, `pub(super)`, `pub(self)`,
/// `pub(in ..)`) before an item that has neither attributes nor a
/// visibility of its own leaves the signature of a struct, enum, trait or
/// type alias as that of the private item.
pub proof fn a_restricted_visibility_reads_as_private(v: Seq<TokenV>, ts: Seq<TokenV>)
    requires
        v.len() == 2,
        restricted_at(v, 0),
        attrs_end(ts, 0) == 0,
        vis_end(ts, 0) == 0,
        sheds_attributes(ts),
    ensures
        signature_text(v + ts) == signature_text(ts),
        sheds_attributes(v + ts),
{
    let x = v + ts;
    assert(!attr_at(x, 0));
    assert(attrs_end(x, 0) == 0);
    assert(restricted_at(x, 0));
    assert(vis_end(x, 0) == 2);
    lemma_shift_kind(v, ts, 0);
    let kw = kind_at(ts, 0);
    if 0 <= kw < ts.len() {
        assert(x[kw + 2] == ts[kw]);
    }
    assert(sig_kind(x, kw + 2) == sig_kind(ts, kw));
    let kind = sig_kind(ts, kw);
    lemma_shift_body(v, ts, kw + 1, 0, false, true);
    lemma_shift_body(v, ts, kw + 1, 0, false, false);
    lemma_body_range(ts, kw + 1, 0, false, true);
    lemma_body_range(ts, kw + 1, 0, false, false);
    let upd = match item_body(ts, kind, kw) {
        Some(b) => ts.update(b, body_stripped(kind, ts[b])),
        None => ts,
    };
    let updx = match item_body(x, kind, kw + 2) {
        Some(b) => x.update(b, body_stripped(kind, x[b])),
        None => x,
    };
    match item_body(ts, kind, kw) {
        Some(b) => {
            assert(x[b + 2] == ts[b]);
            assert(updx =~= v + upd);
        },
        None => {
            assert(updx =~= v + upd);
        },
    }
    assert(updx.skip(2) =~= upd.skip(0));
    assert(x.take(0) =~= ts.take(0));
    assert(stripped_item(x) =~= stripped_item(ts));
}

fn push_delim(out: &mut String, d: Delim, open: bool)
    ensures
        final(out)@ == old(out)@ + (if open {
            open_text(d)
        } else {
            close_text(d)
        }),
{
    match d {
        Delim::Paren => out.push(if open { '(' } else { ')' }),
        Delim::Brace => {
            if open {
                out.push('{');
                out.push(' ');
            } else {
                out.push('}');
            }
        },
        Delim::Bracket => out.push(if open { '[' } else { ']' }),
        Delim::Invisible => {},
    }
    assert(final(out)@ =~= old(out)@ + (if open {
        open_text(d)
    } else {
        close_text(d)
    }));
}

fn push_token(t: &Token, out: &mut String)
    ensures
        final(out)@ == old(out)@ + token_text(token_view(*t)),
    decreases *t, 1int,
{
    match t {
        Token::Group(d, inner) => {
            push_delim(out, *d, true);
            push_stream(inner, out);
            if *d == Delim::Brace && inner.len() > 0 {
                out.push(' ');
            }
            push_delim(out, *d, false);
            proof {
                lemma_stream_view(inner@);
            }
            assert(final(out)@ =~= old(out)@ + token_text(token_view(*t)));
        },
        Token::Ident(s) => push_str(out, s.as_str()),
        Token::Punct(c, _) => {
            out.push(*c);
            assert(final(out)@ =~= old(out)@ + token_text(token_view(*t)));
        },
        Token::Literal(s) => push_str(out, s.as_str()),
    }
}

fn push_stream(ts: &Vec<Token>, out: &mut String)
    ensures
        final(out)@ == old(out)@ + stream_text(stream_view(ts@)),
    decreases *ts, 0int,
{
    let ghost base = out@;
    let mut i: usize = 0;
    assert(stream_view(ts@.take(0)) =~= Seq::<TokenV>::empty());
    while i < ts.len()
        invariant
            i <= ts.len(),
            out@ == base + stream_text(stream_view(ts@.take(i as int))),
        decreases ts.len() - i,
    {
        let ghost before = out@;
        let ghost pre = ts@.take(i as int);
        proof {
            assert(ts@.take(i + 1) =~= pre.push(ts@[i as int]));
            lemma_view_push(pre, ts@[i as int]);
            lemma_stream_view(pre);
        }
        if i > 0 {
            let joined = match &ts[i - 1] {
                Token::Punct(_, j) => *j,
                _ => false,
            };
            if !joined {
                out.push(' ');
            }
        }
        assert(decreases_to!(*ts => ts@[i as int]));
        push_token(&ts[i], out);
        let ghost sv = stream_view(ts@.take(i + 1));
        assert(sv.drop_last() == stream_view(pre));
        assert(i > 0 ==> sv[sv.len() - 2] == token_view(ts@[i - 1]));
        assert(out@ =~= base + stream_text(sv));
        i = i + 1;
    }
    assert(ts@.take(i as int) =~= ts@);
}

/// A token stream printed as proc-macro2 prints it.
pub fn print_stream(ts: &Vec<Token>) -> (r: String)
    ensures
        r@ == stream_text(stream_view(ts@)),
{
    let mut r = String::new();
    push_stream(ts, &mut r);
    r
}

fn attr_exec(ts: &Vec<Token>, i: usize) -> (b: bool)
    requires
        i <= ts.len(),
    ensures
        b == attr_at(stream_view(ts@), i as int),
{
    proof {
        lemma_stream_view(ts@);
    }
    if ts.len() - i < 2 {
        return false;
    }
    punct_is(&ts[i], '#') && match &ts[i + 1] {
        Token::Group(Delim::Bracket, _) => true,
        _ => false,
    }
}

fn attrs_end_exec(ts: &Vec<Token>) -> (k: usize)
    ensures
        k == attrs_end(stream_view(ts@), 0),
        k <= ts.len(),
{
    let ghost v = stream_view(ts@);
    proof {
        lemma_stream_view(ts@);
    }
    let mut i: usize = 0;
    while attr_exec(ts, i)
        invariant
            i <= ts.len(),
            v == stream_view(ts@),
            v.len() == ts.len(),
            attrs_end(v, 0) == attrs_end(v, i as int),
        decreases ts.len() - i,
    {
        i = i + 2;
    }
    i
}

fn kind_index(ts: &Vec<Token>, j: usize) -> (kw: usize)
    requires
        j <= ts.len(),
    ensures
        kw == kind_at(stream_view(ts@), j as int),
        kw <= ts.len(),
{
    let ghost v = stream_view(ts@);
    proof {
        lemma_stream_view(ts@);
    }
    let mut i = j;
    while i < ts.len() && (word_is(&ts[i], "unsafe") || word_is(&ts[i], "auto"))
        invariant
            j <= i <= ts.len(),
            v == stream_view(ts@),
            v.len() == ts.len(),
            forall|k: int| 0 <= k < ts.len() ==> #[trigger] v[k] == token_view(ts@[k]),
            kind_at(v, j as int) == kind_at(v, i as int),
        decreases ts.len() - i,
    {
        i = i + 1;
    }
    i
}

fn sig_kind_exec(ts: &Vec<Token>, kw: usize) -> (k: SigKind)
    ensures
        k == sig_kind(stream_view(ts@), kw as int),
{
    proof {
        lemma_stream_view(ts@);
    }
    if kw >= ts.len() {
        SigKind::Untouched
    } else if word_is(&ts[kw], "struct") {
        SigKind::Struct
    } else if word_is(&ts[kw], "enum") {
        SigKind::Enum
    } else if word_is(&ts[kw], "trait") {
        SigKind::Trait
    } else if word_is(&ts[kw], "type") {
        SigKind::TypeAlias
    } else {
        SigKind::Untouched
    }
}

fn body_index(ts: &Vec<Token>, start: usize, paren: bool) -> (b: Option<usize>)
    requires
        start <= ts.len(),
    ensures
        match b {
            Some(i) => body_from(stream_view(ts@), start as int, 0, false, paren) == Some(i as int)
                && i < ts.len(),
            None => body_from(stream_view(ts@), start as int, 0, false, paren) is None,
        },
{
    let ghost v = stream_view(ts@);
    proof {
        lemma_stream_view(ts@);
    }
    let mut i = start;
    let mut depth: usize = 0;
    let mut after_where = false;
    while i < ts.len()
        invariant
            start <= i <= ts.len(),
            depth <= i,
            v == stream_view(ts@),
            v.len() == ts.len(),
            forall|k: int| 0 <= k < ts.len() ==> #[trigger] v[k] == token_view(ts@[k]),
            body_from(v, start as int, 0, false, paren) == body_from(
                v,
                i as int,
                depth as nat,
                after_where,
                paren,
            ),
        decreases ts.len() - i,
    {
        let t = &ts[i];
        if punct_is(t, '<') {
            depth = depth + 1;
        } else if punct_is(t, '>') && !(i > 0 && match &ts[i - 1] {
            Token::Punct(m, true) => *m == '-',
            _ => false,
        }) {
            if depth > 0 {
                depth = depth - 1;
            }
        } else {
            let group_hit = depth == 0 && match t {
                Token::Group(d, _) => *d == Delim::Brace || (*d == Delim::Paren && paren
                    && !after_where),
                _ => false,
            };
            if group_hit {
                return Some(i);
            }
            if depth == 0 && word_is(t, "where") {
                after_where = true;
            }
        }
        i = i + 1;
    }
    None
}

/// A body group stripped for its kind.
fn strip_body(t: &Token, kind: SigKind) -> (r: Token)
    ensures
        token_view(r) == body_stripped(kind, token_view(*t)),
{
    match t {
        Token::Group(d, inner) => {
            proof {
                lemma_stream_view(inner@);
                assert(stream_view(inner@).subrange(0, inner.len() as int) =~= stream_view(inner@));
                assert(stream_view(Seq::<Token>::empty()) =~= Seq::<TokenV>::empty());
            }
            let o = match kind {
                SigKind::Enum => strip_variants(inner),
                SigKind::Struct => {
                    let mut o: Vec<Token> = Vec::new();
                    strip_run(inner, 0, inner.len(), true, &mut o);
                    assert(stream_view(o@) =~= stripped_run(stream_view(inner@), true));
                    o
                },
                _ => {
                    let mut o: Vec<Token> = Vec::new();
                    strip_run(inner, 0, inner.len(), false, &mut o);
                    assert(stream_view(o@) =~= stripped_run(stream_view(inner@), false));
                    o
                },
            };
            Token::Group(*d, o)
        },
        _ => copy_token(t),
    }
}

/// An item's tokens as its signature compares them.
pub fn strip_item(ts: &Vec<Token>) -> (r: Vec<Token>)
    ensures
        stream_view(r@) == stripped_item(stream_view(ts@)),
{
    let ghost v = stream_view(ts@);
    proof {
        lemma_stream_view(ts@);
    }
    let k = attrs_end_exec(ts);
    let restricted = k < ts.len() && strip_here(ts, k, ts.len(), true);
    proof {
        lemma_attrs_end(v, 0);
        if k < ts.len() {
            assert(!noise_attr_at(v.subrange(k as int, ts.len() as int), 0));
            assert(restricted == restricted_at(v, k as int));
        }
    }
    let cut = if restricted { k + 2 } else { k };
    let ve = if restricted {
        k + 2
    } else if k < ts.len() && word_is(&ts[k], "pub") {
        k + 1
    } else {
        k
    };
    let kw = kind_index(ts, ve);
    let kind = sig_kind_exec(ts, kw);
    if kind == SigKind::Untouched {
        return copy_stream(ts);
    }
    let body = match kind {
        SigKind::Struct => if kw < ts.len() { body_index(ts, kw + 1, true) } else { None },
        SigKind::Enum => if kw < ts.len() { body_index(ts, kw + 1, false) } else { None },
        SigKind::Trait => if kw < ts.len() { body_index(ts, kw + 1, false) } else { None },
        _ => None,
    };
    let ghost upd = match item_body(v, kind, kw as int) {
        Some(b) => v.update(b, body_stripped(kind, v[b])),
        None => v,
    };
    assert(body == None::<usize> ==> item_body(v, kind, kw as int) is None);
    assert(forall|b: usize| body == Some(b) ==> item_body(v, kind, kw as int) == Some(b as int));
    let mut out: Vec<Token> = Vec::new();
    strip_run(ts, 0, k, false, &mut out);
    assert(stream_view(Seq::<Token>::empty()) =~= Seq::<TokenV>::empty());
    assert(v.subrange(0, k as int) =~= v.take(k as int));
    let ghost head = stripped_run(v.take(k as int), false);
    let mut i = cut;
    assert(upd.subrange(cut as int, cut as int) =~= Seq::<TokenV>::empty());
    assert(stream_view(out@) =~= head + upd.subrange(cut as int, i as int));
    while i < ts.len()
        invariant
            cut <= i <= ts.len(),
            v == stream_view(ts@),
            v.len() == ts.len(),
            upd.len() == v.len(),
            forall|k: int| 0 <= k < ts.len() ==> #[trigger] v[k] == token_view(ts@[k]),
            forall|b: usize| body == Some(b) ==> b < ts.len() && upd[b as int] == body_stripped(
                kind,
                v[b as int],
            ),
            forall|j: int|
                0 <= j < v.len() && body != Some(j as usize) ==> #[trigger] upd[j] == v[j],
            stream_view(out@) == head + upd.subrange(cut as int, i as int),
        decreases ts.len() - i,
    {
        let c = if body == Some(i) {
            strip_body(&ts[i], kind)
        } else {
            copy_token(&ts[i])
        };
        let ghost before = out@;
        proof {
            lemma_view_push(before, c);
        }
        out.push(c);
        assert(upd.subrange(cut as int, i + 1) =~= upd.subrange(cut as int, i as int).push(
            upd[i as int],
        ));
        i = i + 1;
    }
    assert(upd.subrange(cut as int, ts.len() as int) =~= upd.skip(cut as int));
    out
}

/// The normalized signature of an item's tokens.
pub fn normalize_tokens(ts: &Vec<Token>) -> (r: String)
    ensures
        r@ == signature_text(stream_view(ts@)),
{
    let stripped = strip_item(ts);
    let printed = print_stream(&stripped);
    collapse_trailing_commas(printed.as_str())
}

#[verifier::external_type_specification]
#[verifier::external_body]
pub struct ExTokenStream(proc_macro2::TokenStream);

#[verifier::external_type_specification]
#[verifier::external_body]
pub struct ExDelimiter(proc_macro2::Delimiter);

/// proc-macro2's delimiter, one arm for each of its variants.
#[verifier::external_body]
fn delim_of(d: Delimiter) -> Delim {
    match d {
        Delimiter::Parenthesis => Delim::Paren,
        Delimiter::Brace => Delim::Brace,
        Delimiter::Bracket => Delim::Bracket,
        Delimiter::None => Delim::Invisible,
    }
}

/// Copies a proc-macro2 token stream into plain values: each group with its
/// delimiter and its tokens, each identifier and literal as proc-macro2
/// prints it (`to_string`), each punctuation character (`as_char`) with
/// whether its spacing is `Joint`. Nothing is stated of the copy:
/// `item_tokens` names the whole stream.
#[verifier::external_body]
pub(crate) fn tokens_of(stream: proc_macro2::TokenStream) -> Vec<Token> {
    let mut out = Vec::new();
    for tt in stream {
        out.push(match tt {
            TokenTree::Group(g) => Token::Group(delim_of(g.delimiter()), tokens_of(g.stream())),
            TokenTree::Ident(i) => Token::Ident(i.to_string()),
            TokenTree::Punct(p) => Token::Punct(p.as_char(), matches!(p.spacing(), Spacing::Joint)),
            TokenTree::Literal(l) => Token::Literal(l.to_string()),
        });
    }
    out
}

/// The tokens syn gives a text read as one Rust item, or syn's message.
pub uninterp spec fn rust_item_tokens(block: Seq<char>) -> Result<Seq<TokenV>, Seq<char>>;

/// Reads a text as one item with `syn::parse_str::<syn::Item>` and copies
/// the tokens `ToTokens::to_token_stream` gives the item, or gives the
/// `Display` text of syn's error. What syn reads is named by
/// `rust_item_tokens`, not described.
#[verifier::external_body]
fn item_tokens(block: &str) -> (r: Result<Vec<Token>, String>)
    ensures
        match r {
            Ok(ts) => rust_item_tokens(block@) == Ok::<Seq<TokenV>, Seq<char>>(stream_view(ts@)),
            Err(e) => rust_item_tokens(block@) == Err::<Seq<TokenV>, Seq<char>>(e@),
        },
{
    match syn::parse_str::<syn::Item>(block) {
        Ok(item) => Ok(tokens_of(quote::ToTokens::to_token_stream(&item))),
        Err(e) => Err(e.to_string()),
    }
}

/// The normalized signature of a Rust signature block: the signature text
/// of the item syn reads from it, or syn's message where it reads none.
pub fn normalize_rust(block: &str) -> (r: Result<String, String>)
    ensures
        match r {
            Ok(s) => rust_item_tokens(block@) matches Ok(ts) && s@ == signature_text(ts),
            Err(e) => rust_item_tokens(block@) == Err::<Seq<TokenV>, Seq<char>>(e@),
        },
{
    match item_tokens(block) {
        Ok(ts) => Ok(normalize_tokens(&ts)),
        Err(e) => Err(e),
    }
}

} // verus!
