//! The bullet grammar under a concept heading: anchors and relationship edges.
use crate::model::{
    blank_source, blank_spec_source, ConceptAnchor, EdgeKind, VerbAnchor,
};
use crate::text::{before_char, chars_of, is_whitespace, is_ws, slice_chars, starts_with, string_of, trim, trim_at};
use vstd::prelude::*;

verus! {

pub open spec fn is_ident_start(c: char) -> bool {
    ('A' <= c && c <= 'Z') || ('a' <= c && c <= 'z') || c == '_'
}

pub open spec fn is_ident_char(c: char) -> bool {
    is_ident_start(c) || ('0' <= c && c <= '9')
}

/// `[A-Za-z_][A-Za-z0-9_]*`
pub open spec fn is_ident(s: Seq<char>) -> bool {
    &&& s.len() > 0
    &&& is_ident_start(s[0])
    &&& forall|k: int| 1 <= k < s.len() ==> is_ident_char(#[trigger] s[k])
}

/// The anchor grammar: a bare identifier, or `Type::method`.
pub open spec fn is_qname(s: Seq<char>) -> bool {
    ||| is_ident(s)
    ||| exists|i: int|
        0 <= i && i + 2 <= s.len() && s[i] == ':' && s[i + 1] == ':' && is_ident(
            #[trigger] s.take(i),
        ) && is_ident(s.skip(i + 2))
}

/// The text after an anchor prefix reads as an anchor name.
pub open spec fn anchor_qname_ok(rest: Seq<char>) -> bool {
    trim(rest).len() > 0 && is_qname(trim(rest))
}

fn is_ident_start_char(c: char) -> (b: bool)
    ensures
        b == is_ident_start(c),
{
    ('A' <= c && c <= 'Z') || ('a' <= c && c <= 'z') || c == '_'
}

fn is_ident_char_exec(c: char) -> (b: bool)
    ensures
        b == is_ident_char(c),
{
    is_ident_start_char(c) || ('0' <= c && c <= '9')
}

/// `v[from..to]` is an identifier.
fn ident_at(v: &Vec<char>, from: usize, to: usize) -> (b: bool)
    requires
        from <= to <= v.len(),
    ensures
        b == is_ident(v@.subrange(from as int, to as int)),
{
    let ghost s = v@.subrange(from as int, to as int);
    if from == to || !is_ident_start_char(v[from]) {
        return false;
    }
    let mut k = from + 1;
    while k < to
        invariant
            from < k <= to <= v.len(),
            s == v@.subrange(from as int, to as int),
            forall|m: int| 1 <= m < k - from ==> is_ident_char(#[trigger] s[m]),
        decreases to - k,
    {
        if !is_ident_char_exec(v[k]) {
            assert(!is_ident_char(s[k - from]));
            return false;
        }
        k = k + 1;
    }
    true
}

/// `v[from..to]` follows the anchor grammar.
fn qname_at(v: &Vec<char>, from: usize, to: usize) -> (b: bool)
    requires
        from <= to <= v.len(),
    ensures
        b == is_qname(v@.subrange(from as int, to as int)),
{
    let ghost s = v@.subrange(from as int, to as int);
    let mut c = from;
    while c < to && v[c] != ':'
        invariant
            from <= c <= to <= v.len(),
            forall|m: int| from <= m < c ==> v@[m] != ':',
        decreases to - c,
    {
        c = c + 1;
    }
    if c == to {
        let b = ident_at(v, from, to);
        assert(!(exists|i: int|
            0 <= i && i + 2 <= s.len() && s[i] == ':' && s[i + 1] == ':' && is_ident(
                #[trigger] s.take(i),
            ) && is_ident(s.skip(i + 2)))) by {
            assert forall|i: int| 0 <= i && i + 2 <= s.len() implies s[i] != ':' by {
                assert(s[i] == v@[from + i]);
            }
        }
        return b;
    }
    let i = c - from;
    assert(s[i as int] == ':');
    assert(!is_ident(s)) by {
        assert(!is_ident_char(s[i as int]));
    }
    let ok = c + 1 < to && v[c + 1] == ':' && ident_at(v, from, c) && ident_at(v, c + 2, to);
    proof {
        assert(s.take(i as int) =~= v@.subrange(from as int, c as int));
        if c + 2 <= to {
            assert(s.skip(i + 2) =~= v@.subrange(c + 2, to as int));
        }
        if ok {
            assert(s.take(i as int) == v@.subrange(from as int, c as int));
        }
        if !ok {
            assert forall|j: int|
                0 <= j && j + 2 <= s.len() && s[j] == ':' && s[j + 1] == ':' && is_ident(
                    #[trigger] s.take(j),
                ) implies !is_ident(s.skip(j + 2)) by {
                if j < i {
                    assert(s[j] == v@[from + j]);
                } else if j > i {
                    assert(s.take(j)[i as int] == ':');
                    assert(!is_ident_char(s.take(j)[i as int]));
                } else {
                    assert(s.take(j) =~= v@.subrange(from as int, c as int));
                }
            }
        }
    }
    ok
}

/// The anchor name written after `verb:` or `impl:`: the text trimmed, when
/// it is a bare identifier or `Type::method`.
pub fn parse_anchor_qname(rest: &str) -> (r: Option<&str>)
    ensures
        r is Some <==> anchor_qname_ok(rest@),
        r matches Some(q) ==> q@ == trim(rest@),
{
    let v = chars_of(rest);
    let (a, b) = trim_at(&v, 0, v.len());
    assert(v@.subrange(0, v.len() as int) =~= rest@);
    if a == b {
        return None;
    }
    if !qname_at(&v, a, b) {
        return None;
    }
    Some(slice_chars(rest, a, b))
}

/// The text after a prefix, for an anchor or an edge bullet.
pub open spec fn after_prefix(t: Seq<char>, prefix: Seq<char>) -> Seq<char> {
    trim(t).skip(prefix.len() as int)
}

/// An anchor bullet whose name the grammar cannot read: its bullet word
/// (`verb` or `impl`) and the trimmed name.
pub open spec fn malformed_anchor_of(t: Seq<char>) -> Option<(Seq<char>, Seq<char>)> {
    let tr = trim(t);
    if starts_with(tr, "verb:"@) && !anchor_qname_ok(after_prefix(t, "verb:"@)) {
        Some(("verb"@, trim(after_prefix(t, "verb:"@))))
    } else if starts_with(tr, "impl:"@) && !anchor_qname_ok(after_prefix(t, "impl:"@)) {
        Some(("impl"@, trim(after_prefix(t, "impl:"@))))
    } else {
        None
    }
}

/// The trimmed text of `v[from..to]` starts with `p`; where the rest begins.
fn strip_prefix_at(v: &Vec<char>, from: usize, to: usize, p: &str) -> (r: Option<usize>)
    requires
        from <= to <= v.len(),
    ensures
        r is Some <==> starts_with(v@.subrange(from as int, to as int), p@),
        r matches Some(k) ==> k == from + p@.len() && k <= to,
{
    if crate::text::starts_with_at(v, from, to, p) {
        let pv = chars_of(p);
        Some(from + pv.len())
    } else {
        None
    }
}

pub fn malformed_anchor(text: &str) -> (r: Option<(&'static str, String)>)
    ensures
        r is Some <==> malformed_anchor_of(text@) is Some,
        r matches Some(p) ==> (p.0@, p.1@) == malformed_anchor_of(text@)->0,
{
    let v = chars_of(text);
    let (a, b) = trim_at(&v, 0, v.len());
    assert(v@.subrange(0, v.len() as int) =~= text@);
    let ghost tr = trim(text@);
    proof {
        reveal_strlit("verb:");
        reveal_strlit("impl:");
    }
    if let Some(k) = strip_prefix_at(&v, a, b, "verb:") {
        let rest = slice_chars(text, k, b);
        assert(rest@ =~= after_prefix(text@, "verb:"@));
        if parse_anchor_qname(rest).is_none() {
            let rv = chars_of(rest);
            let (c, d) = trim_at(&rv, 0, rv.len());
            assert(rv@.subrange(0, rv.len() as int) =~= rest@);
            return Some(("verb", string_of(&rv, c, d)));
        }
    }
    if let Some(k) = strip_prefix_at(&v, a, b, "impl:") {
        let rest = slice_chars(text, k, b);
        assert(rest@ =~= after_prefix(text@, "impl:"@));
        assert(!starts_with(tr, "verb:"@)) by {
            assert(tr == v@.subrange(a as int, b as int));
            assert(starts_with(tr, "impl:"@));
            assert(tr.take(5)[0] == "impl:"@[0]);
            if starts_with(tr, "verb:"@) {
                assert(tr.take(5)[0] == "verb:"@[0]);
            }
        }
        if parse_anchor_qname(rest).is_none() {
            let rv = chars_of(rest);
            let (c, d) = trim_at(&rv, 0, rv.len());
            assert(rv@.subrange(0, rv.len() as int) =~= rest@);
            return Some(("impl", string_of(&rv, c, d)));
        }
    }
    None
}

} // verus!

verus! {

/// The bullet reads as a verb anchor: `verb:` then an anchor name.
pub open spec fn verb_bullet_ok(t: Seq<char>) -> bool {
    starts_with(trim(t), "verb:"@) && anchor_qname_ok(after_prefix(t, "verb:"@))
}

/// The bullet reads as a concept anchor: `impl:` then an anchor name.
pub open spec fn impl_bullet_ok(t: Seq<char>) -> bool {
    starts_with(trim(t), "impl:"@) && anchor_qname_ok(after_prefix(t, "impl:"@))
}

/// The name after a prefix, once the grammar accepts it.
fn anchor_after<'a>(text: &'a str, prefix: &str) -> (r: Option<(&'a str, usize)>)
    ensures
        r is Some <==> (starts_with(trim(text@), prefix@) && anchor_qname_ok(
            after_prefix(text@, prefix@),
        )),
        r matches Some(p) ==> p.0@ == trim(after_prefix(text@, prefix@)),
{
    let v = chars_of(text);
    let (a, b) = trim_at(&v, 0, v.len());
    assert(v@.subrange(0, v.len() as int) =~= text@);
    match strip_prefix_at(&v, a, b, prefix) {
        None => None,
        Some(k) => {
            let rest = slice_chars(text, k, b);
            assert(rest@ =~= after_prefix(text@, prefix@));
            match parse_anchor_qname(rest) {
                None => None,
                Some(q) => Some((q, k)),
            }
        },
    }
}

/// The trimmed bullet text.
fn trimmed(text: &str) -> (r: String)
    ensures
        r@ == trim(text@),
{
    let v = chars_of(text);
    let (a, b) = trim_at(&v, 0, v.len());
    assert(v@.subrange(0, v.len() as int) =~= text@);
    string_of(&v, a, b)
}

pub fn parse_verb_bullet(text: &str) -> (r: Option<VerbAnchor>)
    ensures
        r is Some <==> verb_bullet_ok(text@),
        r matches Some(a) ==> {
            &&& a.concept@ == Seq::<char>::empty()
            &&& a.qname@ == trim(after_prefix(text@, "verb:"@))
            &&& a.raw_target@ == trim(text@)
            &&& a.source@ == blank_spec_source()
        },
{
    match anchor_after(text, "verb:") {
        None => None,
        Some((q, _)) => Some(
            VerbAnchor {
                concept: String::new(),
                qname: q.to_owned(),
                raw_target: trimmed(text),
                source: blank_source(),
            },
        ),
    }
}

pub fn parse_impl_bullet(text: &str) -> (r: Option<ConceptAnchor>)
    ensures
        r is Some <==> impl_bullet_ok(text@),
        r matches Some(a) ==> {
            &&& a.concept@ == Seq::<char>::empty()
            &&& a.target@ == trim(after_prefix(text@, "impl:"@))
            &&& a.source@ == blank_spec_source()
        },
{
    match anchor_after(text, "impl:") {
        None => None,
        Some((q, _)) => Some(
            ConceptAnchor { concept: String::new(), target: q.to_owned(), source: blank_source() },
        ),
    }
}

/// `s` after its last `::`.
pub open spec fn last_segment(s: Seq<char>) -> Seq<char>
    decreases s.len(),
{
    if s.len() == 0 {
        s
    } else if s.len() >= 2 && s[s.len() - 2] == ':' && s[s.len() - 1] == ':' {
        seq![]
    } else {
        last_segment(s.drop_last()).push(s.last())
    }
}

/// `s` without the reference markers and blanks that open it.
pub open spec fn strip_ref(s: Seq<char>) -> Seq<char>
    decreases s.len(),
{
    if s.len() > 0 && (s[0] == '&' || is_ws(s[0])) {
        strip_ref(s.drop_first())
    } else {
        s
    }
}

/// The concept a relationship target names: the type before any generic
/// arguments, without its module path or a leading reference.
pub open spec fn target_token(raw: Seq<char>) -> Seq<char> {
    strip_ref(trim(last_segment(before_char(raw, '<'))))
}

pub fn tokenise_target(raw: &str) -> (t: String)
    ensures
        t@ == target_token(raw@),
{
    let v = chars_of(raw);
    let mut e: usize = 0;
    assert(v@.skip(0) =~= v@);
    assert(v@.take(0) + before_char(v@, '<') =~= before_char(v@, '<'));
    while e < v.len() && v[e] != '<'
        invariant
            e <= v.len(),
            before_char(v@, '<') == v@.take(e as int) + before_char(v@.skip(e as int), '<'),
        decreases v.len() - e,
    {
        assert(v@.skip(e as int).drop_first() =~= v@.skip(e + 1));
        assert(v@.take(e + 1) =~= v@.take(e as int) + seq![v@[e as int]]);
        e = e + 1;
    }
    assert(before_char(v@.skip(e as int), '<') =~= seq![]) by {
        if e == v.len() {
        }
    }
    assert(before_char(v@, '<') =~= v@.take(e as int));
    let mut s: usize = e;
    while s > 0 && !(s >= 2 && v[s - 2] == ':' && v[s - 1] == ':')
        invariant
            s <= e <= v.len(),
            last_segment(v@.take(e as int)) == last_segment(v@.take(s as int)) + v@.subrange(
                s as int,
                e as int,
            ),
        decreases s,
    {
        assert(v@.take(s as int).drop_last() =~= v@.take(s - 1));
        assert(v@.subrange(s - 1, e as int) =~= seq![v@[s - 1]] + v@.subrange(s as int, e as int));
        assert(v@.take(s as int).last() == v@[s - 1]);
        s = s - 1;
    }
    assert(last_segment(v@.take(s as int)) =~= seq![]);
    assert(last_segment(v@.take(e as int)) =~= v@.subrange(s as int, e as int));
    let (a0, b) = trim_at(&v, s, e);
    let mut a = a0;
    while a < b && (v[a] == '&' || is_whitespace(v[a]))
        invariant
            a0 <= a <= b <= v.len(),
            strip_ref(v@.subrange(a0 as int, b as int)) == strip_ref(v@.subrange(a as int, b as int)),
        decreases b - a,
    {
        assert(v@.subrange(a as int, b as int).drop_first() =~= v@.subrange(a + 1, b as int));
        a = a + 1;
    }
    string_of(&v, a, b)
}

pub const BULLET_PREFIXES: [(&'static str, EdgeKind); 3] = [
    ("implements:", EdgeKind::Implements),
    ("depends on:", EdgeKind::DependsOn),
    ("returns:", EdgeKind::Returns),
];

/// What a relationship bullet declares: its kind, the concept its target
/// names, and the target as written.
pub open spec fn edge_of(kind: EdgeKind, raw: Seq<char>) -> Option<(EdgeKind, Seq<char>, Seq<char>)> {
    if raw.len() == 0 {
        None
    } else {
        Some((kind, target_token(raw), raw))
    }
}

pub open spec fn bullet_edge_of(t: Seq<char>) -> Option<(EdgeKind, Seq<char>, Seq<char>)> {
    let tr = trim(t);
    if starts_with(tr, "implements:"@) {
        edge_of(EdgeKind::Implements, trim(after_prefix(t, "implements:"@)))
    } else if starts_with(tr, "depends on:"@) {
        edge_of(EdgeKind::DependsOn, trim(after_prefix(t, "depends on:"@)))
    } else if starts_with(tr, "returns:"@) {
        edge_of(EdgeKind::Returns, trim(after_prefix(t, "returns:"@)))
    } else {
        None
    }
}

pub fn parse_bullet_edge(text: &str) -> (r: Option<(EdgeKind, String, String)>)
    ensures
        r is Some <==> bullet_edge_of(text@) is Some,
        r matches Some(e) ==> (e.0, e.1@, e.2@) == bullet_edge_of(text@)->0,
{
    let v = chars_of(text);
    let (a, b) = trim_at(&v, 0, v.len());
    assert(v@.subrange(0, v.len() as int) =~= text@);
    let ghost tr = trim(text@);
    let mut i: usize = 0;
    while i < 3
        invariant
            i <= 3,
            v@ == text@,
            a <= b <= v.len(),
            tr == v@.subrange(a as int, b as int),
            tr == trim(text@),
            i >= 1 ==> !starts_with(tr, "implements:"@),
            i >= 2 ==> !starts_with(tr, "depends on:"@),
            i >= 3 ==> !starts_with(tr, "returns:"@),
        decreases 3 - i,
    {
        let (prefix, kind) = BULLET_PREFIXES[i];
        assert(i == 0 ==> prefix@ == "implements:"@ && kind == EdgeKind::Implements);
        assert(i == 1 ==> prefix@ == "depends on:"@ && kind == EdgeKind::DependsOn);
        assert(i == 2 ==> prefix@ == "returns:"@ && kind == EdgeKind::Returns);
        if let Some(k) = strip_prefix_at(&v, a, b, prefix) {
            let rest = slice_chars(text, k, b);
            assert(rest@ =~= after_prefix(text@, prefix@));
            let rv = chars_of(rest);
            let (c, d) = trim_at(&rv, 0, rv.len());
            assert(rv@.subrange(0, rv.len() as int) =~= rest@);
            if c == d {
                return None;
            }
            let raw = string_of(&rv, c, d);
            let token = tokenise_target(raw.as_str());
            return Some((kind, token, raw));
        }
        i = i + 1;
    }
    None
}

} // verus!
