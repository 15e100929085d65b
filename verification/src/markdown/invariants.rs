//! Operational invariant annotations: the bullets under an
//! `Operational invariants` rung that say how each invariant is enforced.
use crate::markdown::contexts::{first_index, last_index};
use crate::markdown::events::{markdown_events, read_events, MdEvent, MdEventAt, MdEventAtV, MdEventV};
use crate::markdown::front_matter::{blank_front_matter, blanked};
use crate::markdown::grounding::{extent_end, DialectHeadingV, DialectRead};
use crate::markdown::markdown_utils::{compute_line_starts, line_number, line_of_offset, line_starts};
use crate::text::push_str;
use vstd::utf8::encode_utf8;
use crate::model::{InvariantAnnotation, InvariantAnnotationV, Source, SourceV, SpecFormat, TierKind};
use crate::text::{
    chars_of, contains, contains_at, ends_with, ends_with_at, eq_ignore_ascii_case,
    eq_ignore_ascii_case_at, equals_at, split_bounds, split_char, starts_with, starts_with_at,
    string_of, trim, trim_at,
};
use vstd::prelude::*;

verus! {

/// The last path component that names a file or directory: empty and `.`
/// segments are skipped.
pub open spec fn last_component(segs: Seq<Seq<char>>) -> Option<Seq<char>>
    decreases segs.len(),
{
    if segs.len() == 0 {
        None
    } else if segs.last().len() == 0 || segs.last() == "."@ {
        last_component(segs.drop_last())
    } else {
        Some(segs.last())
    }
}

/// `Path::file_name`: the last normal component.
pub open spec fn file_name_of(p: Seq<char>) -> Option<Seq<char>> {
    match last_component(split_char(p, '/')) {
        Some(n) => if n == ".."@ {
            None
        } else {
            Some(n)
        },
        None => None,
    }
}

/// `Path::extension` of a file name: after its last `.`, unless that `.`
/// opens the name.
pub open spec fn extension_of(name: Seq<char>) -> Option<Seq<char>> {
    match last_index(name, '.') {
        None => None,
        Some(i) => if i == 0 {
            None
        } else {
            Some(name.skip(i + 1))
        },
    }
}

/// The enforcement tier an artifact names.
pub open spec fn tier_of(artifact: Seq<char>) -> TierKind {
    let a = trim(artifact);
    if ends_with(a, ".cypher"@) {
        TierKind::Cypher
    } else if file_name_of(a) matches Some(n) && extension_of(n) matches Some(e)
        && eq_ignore_ascii_case(e, "sh"@) {
        TierKind::ScriptFence
    } else if a.len() == 0 {
        TierKind::ProseOnly
    } else {
        TierKind::Tier0
    }
}

/// The last position of `c` in `v[from..to]`, counted from `from`.
fn last_index_in(v: &Vec<char>, from: usize, to: usize, c: char) -> (r: Option<usize>)
    requires
        from <= to <= v.len(),
    ensures
        r matches Some(i) ==> last_index(v@.subrange(from as int, to as int), c) == Some(
            i as int,
        ) && from + i < to,
        r is None ==> last_index(v@.subrange(from as int, to as int), c) is None,
{
    let mut j = to;
    while j > from && v[j - 1] != c
        invariant
            from <= j <= to <= v.len(),
            last_index(v@.subrange(from as int, to as int), c) == last_index(
                v@.subrange(from as int, j as int),
                c,
            ),
        decreases j,
    {
        assert(v@.subrange(from as int, j as int).drop_last() =~= v@.subrange(from as int, j - 1));
        j = j - 1;
    }
    if j == from {
        None
    } else {
        Some(j - 1 - from)
    }
}

/// The file name of `v[from..to]` read as a path, as bounds in `v`.
fn file_name_at(v: &Vec<char>, from: usize, to: usize) -> (r: Option<(usize, usize)>)
    requires
        from <= to <= v.len(),
    ensures
        r is Some <==> file_name_of(v@.subrange(from as int, to as int)) is Some,
        r matches Some(b) ==> b.0 <= b.1 <= v.len() && v@.subrange(b.0 as int, b.1 as int)
            == file_name_of(v@.subrange(from as int, to as int))->0,
{
    let ghost segs = split_char(v@.subrange(from as int, to as int), '/');
    let bounds = split_bounds(v, from, to, '/');
    let mut k = bounds.len();
    assert(segs.take(k as int) =~= segs);
    while k > 0 && (bounds[k - 1].0 == bounds[k - 1].1 || equals_at(
        v,
        bounds[k - 1].0,
        bounds[k - 1].1,
        ".",
    ))
        invariant
            k <= bounds.len(),
            from <= to <= v.len(),
            bounds.len() == segs.len(),
            segs == split_char(v@.subrange(from as int, to as int), '/'),
            forall|m: int|
                #![trigger bounds@[m]]
                0 <= m < bounds.len() ==> from <= bounds@[m].0 <= bounds@[m].1 <= to && v@.subrange(
                    bounds@[m].0 as int,
                    bounds@[m].1 as int,
                ) == segs[m],
            last_component(segs) == last_component(segs.take(k as int)),
        decreases k,
    {
        assert(segs.take(k as int).drop_last() =~= segs.take(k - 1));
        assert(segs.take(k as int).last() == segs[k - 1]);
        k = k - 1;
    }
    if k == 0 {
        return None;
    }
    assert(segs.take(k as int).last() == segs[k - 1]);
    let (a, b) = bounds[k - 1];
    if equals_at(v, a, b, "..") {
        return None;
    }
    Some((a, b))
}

/// An artifact whose file extension is `sh`, in any case.
pub open spec fn names_shell_script(a: Seq<char>) -> bool {
    match file_name_of(a) {
        Some(n) => match extension_of(n) {
            Some(e) => eq_ignore_ascii_case(e, "sh"@),
            None => false,
        },
        None => false,
    }
}

/// The tier of an enforcement artifact, read after trimming: `Cypher` for
/// one that ends in `.cypher`; otherwise `ScriptFence` for a shell script;
/// otherwise `ProseOnly` exactly when nothing is named and `Tier0` for any
/// other artifact.
pub proof fn tier_follows_the_artifact(artifact: Seq<char>)
    ensures
        (tier_of(artifact) == TierKind::Cypher) <==> ends_with(trim(artifact), ".cypher"@),
        (tier_of(artifact) == TierKind::ScriptFence) <==> (!ends_with(trim(artifact), ".cypher"@)
            && names_shell_script(trim(artifact))),
        (tier_of(artifact) == TierKind::ProseOnly) <==> trim(artifact).len() == 0,
        (tier_of(artifact) == TierKind::Tier0) <==> (trim(artifact).len() > 0 && !ends_with(
            trim(artifact),
            ".cypher"@,
        ) && !names_shell_script(trim(artifact))),
{
    let a = trim(artifact);
    if a.len() == 0 {
        reveal_strlit(".cypher");
        assert(!ends_with(a, ".cypher"@));
        assert(split_char(a, '/') =~= seq![Seq::<char>::empty()]);
        assert(last_component(split_char(a, '/').drop_last()) is None);
        assert(file_name_of(a) is None);
        assert(!names_shell_script(a));
    }
}

pub fn derive_tier(artifact: &str) -> (t: TierKind)
    ensures
        t == tier_of(artifact@),
{
    let v = chars_of(artifact);
    let (a, b) = trim_at(&v, 0, v.len());
    assert(v@.subrange(0, v.len() as int) =~= artifact@);
    if ends_with_at(&v, a, b, ".cypher") {
        return TierKind::Cypher;
    }
    let is_sh = match file_name_at(&v, a, b) {
        None => false,
        Some((c, d)) => match last_index_in(&v, c, d, '.') {
            None => false,
            Some(i) => {
                if i == 0 {
                    false
                } else {
                    assert(v@.subrange(c + i + 1, d as int) =~= v@.subrange(c as int, d as int).skip(
                        i + 1,
                    ));
                    eq_ignore_ascii_case_at(&v, c + i + 1, d, "sh")
                }
            },
        },
    };
    if is_sh {
        TierKind::ScriptFence
    } else if a == b {
        TierKind::ProseOnly
    } else {
        TierKind::Tier0
    }
}


/// The artifact (the first part that is not a `retire-when:`) and the
/// retirement condition (the last `retire-when:`) among `;`-separated parts.
pub open spec fn enforced_parts(pieces: Seq<Seq<char>>) -> (Option<Seq<char>>, Option<Seq<char>>)
    decreases pieces.len(),
{
    if pieces.len() == 0 {
        (None, None)
    } else {
        let (artifact, retire) = enforced_parts(pieces.drop_last());
        let part = trim(pieces.last());
        if part.len() == 0 {
            (artifact, retire)
        } else if starts_with(part, "retire-when:"@) {
            (artifact, Some(trim(part.skip(12))))
        } else if artifact is None {
            (Some(part), retire)
        } else {
            (artifact, retire)
        }
    }
}

/// What an annotation says: its id, tier, artifact, retirement condition
/// and, for a prose-only one, why.
pub type AnnotationFieldsV = (Seq<char>, TierKind, Option<Seq<char>>, Option<Seq<char>>, Option<Seq<char>>);

pub open spec fn enforced_fields(inv_id: Seq<char>, rest: Seq<char>) -> AnnotationFieldsV {
    let (artifact, retire) = enforced_parts(split_char(rest, ';'));
    (
        inv_id,
        tier_of(
            match artifact {
                Some(a) => a,
                None => seq![],
            },
        ),
        artifact,
        retire,
        None,
    )
}

/// `<id> [enforced-by: ...]` or `<id> [prose-only: <why>]`: the id before the
/// first `[`, the bracket closing at the last `]`.
pub open spec fn annotation_fields_of(text: Seq<char>) -> Option<AnnotationFieldsV> {
    match (first_index(text, '['), last_index(text, ']')) {
        (Some(bs), Some(be)) => if be <= bs {
            None
        } else {
            let inv_id = trim(text.take(bs));
            let inside = trim(text.subrange(bs + 1, be));
            if starts_with(inside, "enforced-by:"@) {
                Some(enforced_fields(inv_id, inside.skip(12)))
            } else if starts_with(inside, "prose-only:"@) {
                Some((inv_id, TierKind::ProseOnly, None, None, Some(trim(inside.skip(11)))))
            } else {
                None
            }
        },
        _ => None,
    }
}

pub type AnnotationFields = (String, TierKind, Option<String>, Option<String>, Option<String>);

pub open spec fn fields_view(f: AnnotationFields) -> AnnotationFieldsV {
    (f.0@, f.1, f.2.deep_view(), f.3.deep_view(), f.4.deep_view())
}

pub fn parse_enforced_by(inv_id: String, rest: &str) -> (f: AnnotationFields)
    ensures
        fields_view(f) == enforced_fields(inv_id@, rest@),
{
    let v = chars_of(rest);
    assert(v@.subrange(0, v.len() as int) =~= rest@);
    let ghost pieces = split_char(rest@, ';');
    let bounds = split_bounds(&v, 0, v.len(), ';');
    let mut artifact: Option<String> = None;
    let mut retire_when: Option<String> = None;
    let mut k: usize = 0;
    while k < bounds.len()
        invariant
            v@ == rest@,
            pieces == split_char(rest@, ';'),
            bounds.len() == pieces.len(),
            forall|m: int|
                #![trigger bounds@[m]]
                0 <= m < bounds.len() ==> bounds@[m].0 <= bounds@[m].1 <= v.len() && v@.subrange(
                    bounds@[m].0 as int,
                    bounds@[m].1 as int,
                ) == pieces[m],
            k <= bounds.len(),
            (artifact.deep_view(), retire_when.deep_view()) == enforced_parts(pieces.take(k as int)),
        decreases bounds.len() - k,
    {
        assert(pieces.take(k + 1).drop_last() =~= pieces.take(k as int));
        assert(pieces.take(k + 1).last() == pieces[k as int]);
        let (a, b) = bounds[k];
        let (c, d) = trim_at(&v, a, b);
        if c != d {
            if starts_with_at(&v, c, d, "retire-when:") {
                proof {
                    reveal_strlit("retire-when:");
                }
                let (e, f) = trim_at(&v, c + 12, d);
                assert(v@.subrange(c + 12, d as int) =~= v@.subrange(c as int, d as int).skip(12));
                retire_when = Some(string_of(&v, e, f));
            } else if artifact.is_none() {
                artifact = Some(string_of(&v, c, d));
            }
        }
        k = k + 1;
    }
    assert(pieces.take(k as int) =~= pieces);
    let tier = match &artifact {
        Some(a) => derive_tier(a.as_str()),
        None => derive_tier(""),
    };
    proof {
        if artifact is None {
            assert(""@ =~= Seq::<char>::empty()) by {
                reveal_strlit("");
            }
        }
    }
    (inv_id, tier, artifact, retire_when, None)
}

pub fn parse_annotation_grammar(text: &str) -> (r: Option<AnnotationFields>)
    ensures
        r is Some <==> annotation_fields_of(text@) is Some,
        r matches Some(f) ==> fields_view(f) == annotation_fields_of(text@)->0,
{
    let v = chars_of(text);
    assert(v@.subrange(0, v.len() as int) =~= text@);
    let bs = match crate::markdown::contexts::first_index_at(&v, 0, v.len(), '[') {
        None => {
            return None;
        },
        Some(i) => i,
    };
    let be = match last_index_in(&v, 0, v.len(), ']') {
        None => {
            return None;
        },
        Some(i) => i,
    };
    if be <= bs {
        return None;
    }
    let (a, b) = trim_at(&v, 0, bs);
    assert(v@.subrange(0, bs as int) =~= text@.take(bs as int));
    let inv_id = string_of(&v, a, b);
    let (c, d) = trim_at(&v, bs + 1, be);
    proof {
        reveal_strlit("enforced-by:");
        reveal_strlit("prose-only:");
    }
    if starts_with_at(&v, c, d, "enforced-by:") {
        let rest = crate::text::slice_chars(text, c + 12, d);
        assert(rest@ =~= v@.subrange(c as int, d as int).skip(12));
        return Some(parse_enforced_by(inv_id, rest));
    }
    if starts_with_at(&v, c, d, "prose-only:") {
        let (e, f) = trim_at(&v, c + 11, d);
        assert(v@.subrange(c + 11, d as int) =~= v@.subrange(c as int, d as int).skip(11));
        return Some((inv_id, TierKind::ProseOnly, None, None, Some(string_of(&v, e, f))));
    }
    None
}

/// The annotation a bullet makes, when it carries a marker and the grammar
/// reads it.
pub open spec fn annotation_of(text: Seq<char>, path: Seq<char>, line: usize) -> Option<InvariantAnnotationV> {
    if !contains(text, "[enforced-by:"@) && !contains(text, "[prose-only:"@) {
        None
    } else {
        match annotation_fields_of(text) {
            None => None,
            Some(f) => Some(
                InvariantAnnotationV {
                    inv_id: f.0,
                    tier: f.1,
                    artifact: f.2,
                    retire_when: f.3,
                    prose_only_why: f.4,
                    source: SourceV::Spec {
                        format: SpecFormat::Markdown,
                        path,
                        line,
                        context: None,
                    },
                },
            ),
        }
    }
}

/// An annotation's tier: that of its enforcement artifact (as
/// `tier_follows_the_artifact` reads it, `ProseOnly` where none is named),
/// and `ProseOnly` for a prose-only annotation, which names its reason and
/// no artifact.
pub proof fn annotation_tier_follows_its_artifact(text: Seq<char>, path: Seq<char>, line: usize)
    ensures
        annotation_of(text, path, line) matches Some(a) ==> (a.prose_only_why is Some ==> a.tier
            == TierKind::ProseOnly && a.artifact is None) && (a.prose_only_why is None ==> a.tier
            == tier_of(
            match a.artifact {
                Some(x) => x,
                None => seq![],
            },
        )),
{
}

pub fn try_parse_annotation(text: &str, path: &str, line: usize) -> (r: Option<InvariantAnnotation>)
    ensures
        r is Some <==> annotation_of(text@, path@, line) is Some,
        r matches Some(a) ==> a@ == annotation_of(text@, path@, line)->0,
{
    let v = chars_of(text);
    assert(v@.subrange(0, v.len() as int) =~= text@);
    let has_enforced = contains_at(&v, 0, v.len(), "[enforced-by:");
    let has_prose = contains_at(&v, 0, v.len(), "[prose-only:");
    if !has_enforced && !has_prose {
        return None;
    }
    match parse_annotation_grammar(text) {
        None => None,
        Some((inv_id, tier, artifact, retire_when, prose_only_why)) => Some(
            InvariantAnnotation {
                inv_id,
                tier,
                artifact,
                retire_when,
                prose_only_why,
                source: Source::Spec {
                    format: SpecFormat::Markdown,
                    path: String::from_str(path),
                    line,
                    context: None,
                },
            },
        ),
    }
}


pub open spec fn is_invariants_rung(h: DialectHeadingV) -> bool {
    h.level >= 4 && h.name == "Operational invariants"@
}

/// The extents of the `Operational invariants` rungs.
pub open spec fn spans_of(ladder: Seq<DialectHeadingV>, all: Seq<DialectHeadingV>) -> Seq<(usize, usize)>
    decreases ladder.len(),
{
    if ladder.len() == 0 {
        seq![]
    } else {
        let r = spans_of(ladder.drop_last(), all);
        let h = ladder.last();
        if is_invariants_rung(h) {
            r.push((h.line, extent_end(all, h.line)))
        } else {
            r
        }
    }
}

/// `line` stands strictly inside one of the spans.
pub open spec fn published_in(spans: Seq<(usize, usize)>, line: usize) -> bool {
    exists|k: int| 0 <= k < spans.len() && spans[k].0 < line < #[trigger] spans[k].1
}

/// What the annotation reader holds while it walks a document's events.
pub struct AnnotationState {
    pub line_starts: Vec<usize>,
    pub spans: Vec<(usize, usize)>,
    pub in_bullet: bool,
    pub bullet_buf: String,
    pub bullet_line: usize,
}

pub struct AnnotationStateV {
    pub in_bullet: bool,
    pub bullet_buf: Seq<char>,
    pub bullet_line: usize,
    pub found: Seq<InvariantAnnotationV>,
}

/// What one event does to the annotation reader.
pub open spec fn ann_step(
    st: AnnotationStateV,
    ev: MdEventAtV,
    starts: Seq<usize>,
    spans: Seq<(usize, usize)>,
    path: Seq<char>,
) -> AnnotationStateV {
    match ev.event {
        MdEventV::StartItem => {
            let line = line_number(starts, ev.offset) as usize;
            if published_in(spans, line) {
                AnnotationStateV { in_bullet: true, bullet_line: line, bullet_buf: seq![], ..st }
            } else {
                st
            }
        },
        MdEventV::EndItem => if st.in_bullet {
            AnnotationStateV {
                found: match annotation_of(st.bullet_buf, path, st.bullet_line) {
                    Some(a) => st.found.push(a),
                    None => st.found,
                },
                in_bullet: false,
                bullet_buf: seq![],
                ..st
            }
        } else {
            st
        },
        MdEventV::Text(s) => if st.in_bullet {
            AnnotationStateV { bullet_buf: st.bullet_buf + s, ..st }
        } else {
            st
        },
        MdEventV::Code(s) => if st.in_bullet {
            AnnotationStateV { bullet_buf: st.bullet_buf + s, ..st }
        } else {
            st
        },
        _ => st,
    }
}

pub open spec fn ann_run(
    evs: Seq<MdEventAtV>,
    n: nat,
    starts: Seq<usize>,
    spans: Seq<(usize, usize)>,
    path: Seq<char>,
) -> AnnotationStateV
    decreases n,
{
    if n == 0 {
        AnnotationStateV { in_bullet: false, bullet_buf: seq![], bullet_line: 0, found: seq![] }
    } else {
        ann_step(ann_run(evs, (n - 1) as nat, starts, spans, path), evs[n - 1], starts, spans, path)
    }
}

/// The annotations a document publishes under its `Operational invariants` rungs.
pub open spec fn annotations_in(source: Seq<char>, path: Seq<char>, ladder: Seq<DialectHeadingV>) -> Seq<InvariantAnnotationV> {
    let spans = spans_of(ladder, ladder);
    if spans.len() == 0 {
        seq![]
    } else {
        let cleaned = blanked(source);
        let evs = markdown_events(cleaned);
        ann_run(evs, evs.len(), line_starts(encode_utf8(cleaned)), spans, path).found
    }
}

fn published(spans: &Vec<(usize, usize)>, line: usize) -> (b: bool)
    ensures
        b == published_in(spans@, line),
{
    let mut k: usize = 0;
    while k < spans.len()
        invariant
            k <= spans.len(),
            forall|m: int| 0 <= m < k ==> !(spans@[m].0 < line < #[trigger] spans@[m].1),
        decreases spans.len() - k,
    {
        if spans[k].0 < line && line < spans[k].1 {
            return true;
        }
        k = k + 1;
    }
    false
}

/// Applies one event to the annotation reader.
fn handle_annotation_event(
    st: &mut AnnotationState,
    ev: &MdEventAt,
    path: &str,
    out: &mut Vec<InvariantAnnotation>,
    Ghost(found): Ghost<Seq<InvariantAnnotationV>>,
) -> (new_found: Ghost<Seq<InvariantAnnotationV>>)
    requires
        old(out).deep_view() == found,
    ensures
        final(out).deep_view() == new_found@,
        final(st).line_starts == old(st).line_starts,
        final(st).spans == old(st).spans,
        ({
            let pre = AnnotationStateV {
                in_bullet: old(st).in_bullet,
                bullet_buf: old(st).bullet_buf@,
                bullet_line: old(st).bullet_line,
                found,
            };
            let post = ann_step(pre, ev@, old(st).line_starts@, old(st).spans@, path@);
            &&& final(st).in_bullet == post.in_bullet
            &&& final(st).bullet_buf@ == post.bullet_buf
            &&& final(st).bullet_line == post.bullet_line
            &&& new_found@ == post.found
        }),
{
    match &ev.event {
        MdEvent::StartItem => {
            let line = line_of_offset(st.line_starts.as_slice(), ev.offset);
            if published(&st.spans, line) {
                st.in_bullet = true;
                st.bullet_line = line;
                st.bullet_buf = String::new();
            }
            Ghost(found)
        },
        MdEvent::EndItem => {
            if st.in_bullet {
                let ghost mut f = found;
                if let Some(ann) = try_parse_annotation(st.bullet_buf.as_str(), path, st.bullet_line) {
                    let ghost av = ann@;
                    out.push(ann);
                    proof {
                        f = found.push(av);
                    }
                    assert(out.deep_view() =~= f);
                }
                st.in_bullet = false;
                st.bullet_buf = String::new();
                Ghost(f)
            } else {
                Ghost(found)
            }
        },
        MdEvent::Text(s) | MdEvent::Code(s) => {
            if st.in_bullet {
                push_str(&mut st.bullet_buf, s.as_str());
            }
            Ghost(found)
        },
        _ => Ghost(found),
    }
}


const OPERATIONAL_INVARIANTS: &'static str = "Operational invariants";

/// The extents of the `Operational invariants` rungs of a ladder.
fn invariant_spans(dialect: &DialectRead) -> (spans: Vec<(usize, usize)>)
    ensures
        spans@ == spans_of(dialect.ladder.deep_view(), dialect.ladder.deep_view()),
{
    let ghost l = dialect.ladder.deep_view();
    let mut spans: Vec<(usize, usize)> = Vec::new();
    let mut i: usize = 0;
    while i < dialect.ladder.len()
        invariant
            l == dialect.ladder.deep_view(),
            i <= dialect.ladder.len(),
            spans@ == spans_of(l.take(i as int), l),
        decreases dialect.ladder.len() - i,
    {
        assert(l.take(i + 1).drop_last() =~= l.take(i as int));
        assert(l.take(i + 1).last() == dialect.ladder@[i as int]@);
        let rung = &dialect.ladder[i];
        let nv = chars_of(rung.name.as_str());
        assert(nv@.subrange(0, nv.len() as int) =~= rung.name@);
        if rung.level >= 4 && equals_at(&nv, 0, nv.len(), OPERATIONAL_INVARIANTS) {
            spans.push(dialect.extent(rung));
        }
        i = i + 1;
    }
    assert(l.take(i as int) =~= l);
    spans
}

/// Appends the annotations the document publishes under its `Operational
/// invariants` rungs.
pub fn extract_annotations_from_source(
    source: &str,
    path: &str,
    dialect: &DialectRead,
    out: &mut Vec<InvariantAnnotation>,
)
    ensures
        final(out).deep_view() == old(out).deep_view() + annotations_in(
            source@,
            path@,
            dialect.ladder.deep_view(),
        ),
{
    let spans = invariant_spans(dialect);
    if spans.len() == 0 {
        assert(out.deep_view() =~= old(out).deep_view() + Seq::<InvariantAnnotationV>::empty());
        return;
    }
    let cleaned = blank_front_matter(source);
    let events = read_events(cleaned.as_str());
    let mut st = AnnotationState {
        line_starts: compute_line_starts(cleaned.as_str()),
        spans,
        in_bullet: false,
        bullet_buf: String::new(),
        bullet_line: 0,
    };
    let ghost starts = st.line_starts@;
    let ghost sp = st.spans@;
    let ghost evs = events.deep_view();
    let mut found_vec: Vec<InvariantAnnotation> = Vec::new();
    let ghost mut found: Seq<InvariantAnnotationV> = Seq::empty();
    assert(found_vec.deep_view() =~= found);
    let mut i: usize = 0;
    while i < events.len()
        invariant
            i <= events.len(),
            evs == events.deep_view(),
            starts == st.line_starts@,
            sp == st.spans@,
            found_vec.deep_view() == found,
            ann_run(evs, i as nat, starts, sp, path@) == (AnnotationStateV {
                in_bullet: st.in_bullet,
                bullet_buf: st.bullet_buf@,
                bullet_line: st.bullet_line,
                found,
            }),
        decreases events.len() - i,
    {
        assert(evs[i as int] == events@[i as int]@);
        let Ghost(nf) = handle_annotation_event(&mut st, &events[i], path, &mut found_vec, Ghost(found));
        proof {
            found = nf;
        }
        i = i + 1;
    }
    let ghost before = out.deep_view();
    out.append(&mut found_vec);
    assert(out.deep_view() =~= before + found);
}

} // verus!
