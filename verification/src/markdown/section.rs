//! What a concept section of a spec document declares: its signature, read
//! from the fenced blocks under the heading, and its bullets: relationships,
//! verb anchors and concept anchors.
use vstd::prelude::*;
use vstd::string::StringSliceAdditionalSpecFns;
use crate::graph::{ConceptNode, ConceptNodeV, ConceptRef, ConceptRefV, Edge, EdgeV, SignatureState, SignatureStateV};
use crate::markdown::bullets::{
    bullet_edge_of, impl_bullet_ok, malformed_anchor, malformed_anchor_of, parse_bullet_edge,
    parse_impl_bullet, parse_verb_bullet, verb_bullet_ok, after_prefix,
};
use crate::markdown::events::{markdown_events, read_events, MdEvent, MdEventAt, MdEventAtV, MdEventV};
use crate::markdown::markdown_utils::{compute_line_starts, line_number, line_of_offset, line_starts};
use crate::markdown::front_matter::{blank_front_matter, blanked};
use crate::markdown::grounding::{concept_rungs, extent_end, ladder_of, read, refusal_of, DialectHeading, DialectHeadingV, ParsedSpec};
use crate::model::{ConceptAnchor, ReaderError, ReaderErrorV, SourceV, Source, SpecFormat, VerbAnchor};
use crate::outcome::Violation;
use crate::paths::same_text;
use crate::text::{decimal, join, push_decimal, push_join, push_str, text_of, trim};

verus! {

/// What a document's events hold that the sections read: fenced blocks with
/// their tag and opening line, `rust` blocks, and list items with their
/// opening line, each with its text.
#[derive(Debug, Clone, PartialEq, Eq)]
pub struct Collected {
    pub rust_blocks: Vec<(usize, String)>,
    pub fenced: Vec<(usize, String, String)>,
    pub bullets: Vec<(usize, String)>,
}

pub struct CollectedV {
    pub rust_blocks: Seq<(usize, Seq<char>)>,
    pub fenced: Seq<(usize, Seq<char>, Seq<char>)>,
    pub bullets: Seq<(usize, Seq<char>)>,
}

impl View for Collected {
    type V = CollectedV;

    open spec fn view(&self) -> CollectedV {
        CollectedV {
            rust_blocks: self.rust_blocks@.map_values(|b: (usize, String)| (b.0, b.1@)),
            fenced: self.fenced@.map_values(|b: (usize, String, String)| (b.0, b.1@, b.2@)),
            bullets: self.bullets@.map_values(|b: (usize, String)| (b.0, b.1@)),
        }
    }
}

/// Where the collector stands between events.
pub struct CollectorState {
    pub in_fence: Option<(usize, String)>,
    pub in_rust_block_at: Option<usize>,
    pub block_buf: String,
    pub in_bullet_at: Option<usize>,
    pub bullet_buf: String,
    pub collected: Collected,
}

pub struct CollectorStateV {
    pub in_fence: Option<(usize, Seq<char>)>,
    pub in_rust_block_at: Option<usize>,
    pub block_buf: Seq<char>,
    pub in_bullet_at: Option<usize>,
    pub bullet_buf: Seq<char>,
    pub collected: CollectedV,
}

impl View for CollectorState {
    type V = CollectorStateV;

    open spec fn view(&self) -> CollectorStateV {
        CollectorStateV {
            in_fence: match self.in_fence {
                Some((l, t)) => Some((l, t@)),
                None => None,
            },
            in_rust_block_at: self.in_rust_block_at,
            block_buf: self.block_buf@,
            in_bullet_at: self.in_bullet_at,
            bullet_buf: self.bullet_buf@,
            collected: self.collected@,
        }
    }
}

pub open spec fn empty_collector() -> CollectorStateV {
    CollectorStateV {
        in_fence: None,
        in_rust_block_at: None,
        block_buf: seq![],
        in_bullet_at: None,
        bullet_buf: seq![],
        collected: CollectedV { rust_blocks: seq![], fenced: seq![], bullets: seq![] },
    }
}

/// Text goes to the open fence, else to the open list item.
pub open spec fn absorb_text_spec(st: CollectorStateV, s: Seq<char>) -> CollectorStateV {
    if st.in_fence.is_some() {
        CollectorStateV { block_buf: st.block_buf + s, ..st }
    } else if st.in_bullet_at.is_some() {
        CollectorStateV { bullet_buf: st.bullet_buf + s, ..st }
    } else {
        st
    }
}

/// The collector after one event.
pub open spec fn collect_step(st: CollectorStateV, ev: MdEventAtV, starts: Seq<usize>) -> CollectorStateV {
    let line = line_number(starts, ev.offset) as usize;
    match ev.event {
        MdEventV::StartFence(lang) => CollectorStateV {
            in_fence: Some((line, lang)),
            in_rust_block_at: if lang == "rust"@ {
                Some(line)
            } else {
                st.in_rust_block_at
            },
            block_buf: seq![],
            ..st
        },
        MdEventV::EndCodeBlock => {
            let block = st.block_buf;
            let rust = match st.in_rust_block_at {
                Some(l) => st.collected.rust_blocks.push((l, block)),
                None => st.collected.rust_blocks,
            };
            let fenced = match st.in_fence {
                Some((l, tag)) => st.collected.fenced.push((l, tag, block)),
                None => st.collected.fenced,
            };
            CollectorStateV {
                in_fence: None,
                in_rust_block_at: None,
                block_buf: seq![],
                collected: CollectedV { rust_blocks: rust, fenced, ..st.collected },
                ..st
            }
        },
        MdEventV::StartItem => CollectorStateV {
            in_bullet_at: Some(line),
            bullet_buf: seq![],
            ..st
        },
        MdEventV::EndItem => match st.in_bullet_at {
            Some(l) => CollectorStateV {
                in_bullet_at: None,
                bullet_buf: seq![],
                collected: CollectedV {
                    bullets: st.collected.bullets.push((l, st.bullet_buf)),
                    ..st.collected
                },
                ..st
            },
            None => st,
        },
        MdEventV::Text(s) => absorb_text_spec(st, s),
        MdEventV::Code(s) => absorb_text_spec(st, s),
        _ => st,
    }
}

pub open spec fn collect_run(evs: Seq<MdEventAtV>, n: nat, starts: Seq<usize>) -> CollectorStateV
    decreases n,
{
    if n == 0 {
        empty_collector()
    } else {
        collect_step(collect_run(evs, (n - 1) as nat, starts), evs[n - 1], starts)
    }
}

/// What the events of a document hold for its sections.
pub open spec fn collected_of(source: Seq<char>) -> CollectedV {
    let evs = markdown_events(source);
    collect_run(evs, evs.len(), line_starts(vstd::utf8::encode_utf8(source))).collected
}

fn absorb_text(st: &mut CollectorState, s: &str)
    ensures
        final(st)@ == absorb_text_spec(old(st)@, s@),
{
    if st.in_fence.is_some() {
        push_str(&mut st.block_buf, s);
    } else if st.in_bullet_at.is_some() {
        push_str(&mut st.bullet_buf, s);
    }
}

fn handle_event(st: &mut CollectorState, ev: &MdEventAt, starts: &Vec<usize>)
    ensures
        final(st)@ == collect_step(old(st)@, ev@, starts@),
{
    match &ev.event {
        MdEvent::StartFence(lang) => {
            let line = line_of_offset(starts.as_slice(), ev.offset);
            st.in_fence = Some((line, lang.clone()));
            if same_text(lang.as_str(), "rust") {
                st.in_rust_block_at = Some(line);
            }
            st.block_buf = String::new();
        },
        MdEvent::EndCodeBlock => {
            let mut block = String::new();
            std::mem::swap(&mut block, &mut st.block_buf);
            if let Some(line) = st.in_rust_block_at.take() {
                let ghost before = st.collected.rust_blocks@;
                st.collected.rust_blocks.push((line, block.clone()));
                assert(st.collected.rust_blocks@.map_values(|b: (usize, String)| (b.0, b.1@))
                    =~= before.map_values(|b: (usize, String)| (b.0, b.1@)).push((line, block@)));
            }
            if let Some((line, tag)) = st.in_fence.take() {
                let ghost before = st.collected.fenced@;
                let ghost tv = tag@;
                st.collected.fenced.push((line, tag, block));
                assert(st.collected.fenced@.map_values(
                    |b: (usize, String, String)| (b.0, b.1@, b.2@),
                ) =~= before.map_values(|b: (usize, String, String)| (b.0, b.1@, b.2@)).push(
                    (line, tv, old(st)@.block_buf),
                ));
            }
        },
        MdEvent::StartItem => {
            st.in_bullet_at = Some(line_of_offset(starts.as_slice(), ev.offset));
            st.bullet_buf = String::new();
        },
        MdEvent::EndItem => {
            if let Some(line) = st.in_bullet_at.take() {
                let mut text = String::new();
                std::mem::swap(&mut text, &mut st.bullet_buf);
                let ghost before = st.collected.bullets@;
                st.collected.bullets.push((line, text));
                assert(st.collected.bullets@.map_values(|b: (usize, String)| (b.0, b.1@))
                    =~= before.map_values(|b: (usize, String)| (b.0, b.1@)).push(
                    (line, old(st)@.bullet_buf),
                ));
            }
        },
        MdEvent::Text(s) => absorb_text(st, s.as_str()),
        MdEvent::Code(s) => absorb_text(st, s.as_str()),
        _ => {},
    }
}

/// The fenced blocks, `rust` blocks and list items of a document.
pub fn collect(source: &str) -> (c: Collected)
    ensures
        c@ == collected_of(source@),
{
    let starts = compute_line_starts(source);
    let events = read_events(source);
    let mut st = CollectorState {
        in_fence: None,
        in_rust_block_at: None,
        block_buf: String::new(),
        in_bullet_at: None,
        bullet_buf: String::new(),
        collected: Collected { rust_blocks: Vec::new(), fenced: Vec::new(), bullets: Vec::new() },
    };
    assert(st@ == empty_collector()) by {
        assert(st.collected@.rust_blocks =~= seq![]);
        assert(st.collected@.fenced =~= seq![]);
        assert(st.collected@.bullets =~= seq![]);
    }
    let mut i: usize = 0;
    while i < events.len()
        invariant
            i <= events.len(),
            events.deep_view() == markdown_events(source@),
            starts@ == line_starts(source.spec_bytes()),
            st@ == collect_run(events.deep_view(), i as nat, starts@),
        decreases events.len() - i,
    {
        handle_event(&mut st, &events[i], &starts);
        i = i + 1;
    }
    st.collected
}

/// Normalizes the signature a fenced block of a given tag writes: the
/// normalized text, or why the block cannot be normalized.
pub trait SignatureNormalizer {
    fn normalize(&self, tag: &str, block: &str) -> Result<String, String>;
}

/// The signature a single normalizable block gives, from what normalizing
/// it returned.
pub open spec fn outcome_signature(tag: Seq<char>, block: Seq<char>, outcome: Result<Seq<char>, Seq<char>>) -> SignatureStateV {
    match outcome {
        Ok(t) => SignatureStateV::Normalized(t),
        Err(e) => SignatureStateV::Unparseable { raw: block, error: tag + ": "@ + e },
    }
}

/// The signature a single normalizable block gives, from what normalizing
/// it returned.
pub fn signature_of_outcome(tag: &str, block: &str, outcome: Result<String, String>) -> (s: SignatureState)
    ensures
        s@ == outcome_signature(
            tag@,
            block@,
            match outcome {
                Ok(t) => Ok(t@),
                Err(e) => Err(e@),
            },
        ),
{
    match outcome {
        Ok(t) => SignatureState::Normalized(t),
        Err(e) => {
            let mut error = text_of(tag);
            push_str(&mut error, ": ");
            push_str(&mut error, e.as_str());
            SignatureState::Unparseable { raw: text_of(block), error }
        },
    }
}

/// The refusal of a section with more than one normalizable block.
pub open spec fn many_blocks_signature(fences: Seq<(Seq<char>, Seq<char>)>) -> SignatureStateV {
    SignatureStateV::Unparseable {
        raw: join(fences.map_values(|f: (Seq<char>, Seq<char>)| f.1), "\n---\n"@),
        error: "concept section contains "@ + decimal(fences.len())
            + " normalizable fenced blocks ("@ + join(
            fences.map_values(|f: (Seq<char>, Seq<char>)| f.0),
            ", "@,
        ) + "); at most one is allowed"@,
    }
}

/// Whether `s` is a signature the (tag, block) fences of a section can
/// give: none for no block; for one block, whatever its normalization
/// gives; for several, their refusal.
pub open spec fn fences_signature(fences: Seq<(Seq<char>, Seq<char>)>, s: SignatureStateV) -> bool {
    if fences.len() == 0 {
        s == SignatureStateV::Absent
    } else if fences.len() == 1 {
        exists|o: Result<Seq<char>, Seq<char>>| s == outcome_signature(fences[0].0, fences[0].1, o)
    } else {
        s == many_blocks_signature(fences)
    }
}

/// The signature of a concept section from its normalizable fenced blocks.
pub fn signature_from_fences<N: SignatureNormalizer>(fences: &Vec<(String, String)>, normalizer: &N) -> (s: SignatureState)
    ensures
        fences_signature(fences@.map_values(|f: (String, String)| (f.0@, f.1@)), s@),
{
    let ghost fv = fences@.map_values(|f: (String, String)| (f.0@, f.1@));
    if fences.len() == 0 {
        return SignatureState::Absent;
    }
    if fences.len() == 1 {
        let outcome = normalizer.normalize(fences[0].0.as_str(), fences[0].1.as_str());
        let ghost ov = match &outcome {
            Ok(t) => Ok(t@),
            Err(e) => Err(e@),
        };
        let s = signature_of_outcome(fences[0].0.as_str(), fences[0].1.as_str(), outcome);
        assert(s@ == outcome_signature(fv[0].0, fv[0].1, ov));
        return s;
    }
    let mut blocks: Vec<String> = Vec::new();
    let mut tags: Vec<String> = Vec::new();
    let mut i: usize = 0;
    while i < fences.len()
        invariant
            i <= fences.len(),
            fv == fences@.map_values(|f: (String, String)| (f.0@, f.1@)),
            blocks.deep_view() =~= fv.take(i as int).map_values(|f: (Seq<char>, Seq<char>)| f.1),
            tags.deep_view() =~= fv.take(i as int).map_values(|f: (Seq<char>, Seq<char>)| f.0),
        decreases fences.len() - i,
    {
        let ghost bb = blocks.deep_view();
        let ghost tb = tags.deep_view();
        let b = fences[i].1.clone();
        let t = fences[i].0.clone();
        blocks.push(b);
        tags.push(t);
        assert(blocks.deep_view() =~= bb.push(fv[i as int].1));
        assert(tags.deep_view() =~= tb.push(fv[i as int].0));
        i = i + 1;
    }
    assert(fv.take(i as int) =~= fv);
    let mut raw = String::new();
    push_join(&mut raw, &blocks, "\n---\n");
    let mut error = text_of("concept section contains ");
    push_decimal(&mut error, fences.len());
    push_str(&mut error, " normalizable fenced blocks (");
    push_join(&mut error, &tags, ", ");
    push_str(&mut error, "); at most one is allowed");
    assert(raw@ =~= join(fv.map_values(|f: (Seq<char>, Seq<char>)| f.1), "\n---\n"@));
    SignatureState::Unparseable { raw, error }
}

/// What a bullet under a concept heading is: a malformed anchor, a
/// relationship, a verb anchor, a concept anchor, or prose.
pub enum BulletKind {
    Malformed(Seq<char>, Seq<char>),
    Relation(crate::model::EdgeKind, Seq<char>, Seq<char>),
    Verb(Seq<char>, Seq<char>),
    Impl(Seq<char>),
    Prose,
}

pub open spec fn bullet_kind(t: Seq<char>) -> BulletKind {
    match malformed_anchor_of(t) {
        Some((b, q)) => BulletKind::Malformed(b, q),
        None => match bullet_edge_of(t) {
            Some((k, tok, raw)) => BulletKind::Relation(k, tok, raw),
            None => if verb_bullet_ok(t) {
                BulletKind::Verb(trim(after_prefix(t, "verb:"@)), trim(t))
            } else if impl_bullet_ok(t) {
                BulletKind::Impl(trim(after_prefix(t, "impl:"@)))
            } else {
                BulletKind::Prose
            },
        },
    }
}

/// The spec source of a line of a markdown document.
pub open spec fn md_source(path: Seq<char>, line: usize) -> SourceV {
    SourceV::Spec { format: SpecFormat::Markdown, path, line, context: None }
}

fn spec_source(path: &str, line: usize) -> (s: Source)
    ensures
        s@ == md_source(path@, line),
{
    Source::Spec { format: SpecFormat::Markdown, path: text_of(path), line, context: None }
}

/// The facts the sections of a document declare.
pub struct SectionFacts {
    pub nodes: Vec<ConceptNode>,
    pub edges: Vec<Edge>,
    pub verb_anchors: Vec<VerbAnchor>,
    pub concept_anchors: Vec<ConceptAnchor>,
    pub malformed: Vec<Violation>,
}

pub struct BulletFactsV {
    pub edges: Seq<EdgeV>,
    pub verbs: Seq<(Seq<char>, Seq<char>, Seq<char>, SourceV)>,
    pub impls: Seq<(Seq<char>, Seq<char>, SourceV)>,
    pub malformed: Seq<(Seq<char>, Seq<char>, Seq<char>, SourceV)>,
}

pub open spec fn malformed_view(v: Violation) -> (Seq<char>, Seq<char>, Seq<char>, SourceV) {
    match v {
        Violation::MalformedAnchorBullet { concept, bullet, qname, spec_source } => (
            concept@,
            bullet@,
            qname@,
            spec_source@,
        ),
        _ => (seq![], seq![], seq![], md_source(seq![], 0)),
    }
}

pub open spec fn is_malformed(v: Violation) -> bool {
    v is MalformedAnchorBullet
}

/// The bullet facts a collection holds.
pub open spec fn bullet_facts(f: SectionFacts) -> BulletFactsV {
    BulletFactsV {
        edges: f.edges.deep_view(),
        verbs: f.verb_anchors@.map_values(
            |a: VerbAnchor| (a.concept@, a.qname@, a.raw_target@, a.source@),
        ),
        impls: f.concept_anchors@.map_values(|a: ConceptAnchor| (a.concept@, a.target@, a.source@)),
        malformed: f.malformed@.map_values(|v: Violation| malformed_view(v)),
    }
}

/// The facts after one bullet under the heading of `concept`.
pub open spec fn absorb_spec(f: BulletFactsV, path: Seq<char>, concept: Seq<char>, line: usize, text: Seq<char>) -> BulletFactsV {
    let src = md_source(path, line);
    match bullet_kind(text) {
        BulletKind::Malformed(b, q) => BulletFactsV {
            malformed: f.malformed.push((concept, b, q, src)),
            ..f
        },
        BulletKind::Relation(k, tok, raw) => BulletFactsV {
            edges: f.edges.push(
                EdgeV {
                    source_concept: ConceptRefV { name: concept, context: None, unit: None },
                    kind: k,
                    target: ConceptRefV { name: tok, context: None, unit: None },
                    raw_target: raw,
                    source: src,
                },
            ),
            ..f
        },
        BulletKind::Verb(q, raw) => BulletFactsV { verbs: f.verbs.push((concept, q, raw, src)), ..f },
        BulletKind::Impl(t) => BulletFactsV { impls: f.impls.push((concept, t, src)), ..f },
        BulletKind::Prose => f,
    }
}

/// Adds what a bullet under the heading of `concept` declares.
pub fn absorb_bullet(path: &str, concept: &str, line: usize, text: &str, facts: &mut SectionFacts)
    requires
        forall|i: int| 0 <= i < old(facts).malformed.len() ==> is_malformed(#[trigger] old(facts).malformed@[i]),
    ensures
        bullet_facts(*final(facts)) == absorb_spec(bullet_facts(*old(facts)), path@, concept@, line, text@),
        final(facts).nodes == old(facts).nodes,
        forall|i: int| 0 <= i < final(facts).malformed.len() ==> is_malformed(#[trigger] final(facts).malformed@[i]),
{
    let ghost before = bullet_facts(*facts);
    if let Some((bullet, qname)) = malformed_anchor(text) {
        let ghost mb = facts.malformed@;
        facts.malformed.push(
            Violation::MalformedAnchorBullet {
                concept: text_of(concept),
                bullet: text_of(bullet),
                qname,
                spec_source: spec_source(path, line),
            },
        );
        assert(facts.malformed@.map_values(|v: Violation| malformed_view(v)) =~= mb.map_values(
            |v: Violation| malformed_view(v),
        ).push(malformed_view(facts.malformed@.last())));
        assert(bullet_facts(*facts) =~= absorb_spec(before, path@, concept@, line, text@));
        return;
    }
    if let Some((kind, token, raw)) = parse_bullet_edge(text) {
        let e = Edge {
            source_concept: ConceptRef::named(text_of(concept)),
            kind,
            target: ConceptRef::named(token),
            raw_target: raw,
            source: spec_source(path, line),
        };
        let ghost eb = facts.edges.deep_view();
        let ghost ev = e@;
        facts.edges.push(e);
        assert(facts.edges.deep_view() =~= eb.push(ev));
        assert(bullet_facts(*facts) =~= absorb_spec(before, path@, concept@, line, text@));
    } else if let Some(mut anchor) = parse_verb_bullet(text) {
        anchor.concept = text_of(concept);
        anchor.source = spec_source(path, line);
        let ghost vb = facts.verb_anchors@;
        facts.verb_anchors.push(anchor);
        assert(facts.verb_anchors@.map_values(
            |a: VerbAnchor| (a.concept@, a.qname@, a.raw_target@, a.source@),
        ) =~= vb.map_values(|a: VerbAnchor| (a.concept@, a.qname@, a.raw_target@, a.source@)).push(
            (concept@, trim(after_prefix(text@, "verb:"@)), trim(text@), md_source(path@, line)),
        ));
        assert(bullet_facts(*facts) =~= absorb_spec(before, path@, concept@, line, text@));
    } else if let Some(mut anchor) = parse_impl_bullet(text) {
        anchor.concept = text_of(concept);
        anchor.source = spec_source(path, line);
        let ghost ib = facts.concept_anchors@;
        facts.concept_anchors.push(anchor);
        assert(facts.concept_anchors@.map_values(
            |a: ConceptAnchor| (a.concept@, a.target@, a.source@),
        ) =~= ib.map_values(|a: ConceptAnchor| (a.concept@, a.target@, a.source@)).push(
            (concept@, trim(after_prefix(text@, "impl:"@)), md_source(path@, line)),
        ));
        assert(bullet_facts(*facts) =~= absorb_spec(before, path@, concept@, line, text@));
    } else {
        assert(bullet_facts(*facts) =~= absorb_spec(before, path@, concept@, line, text@));
    }
}

/// Whether a line lies strictly inside a heading's extent.
pub open spec fn owned_line(line: usize, start: usize, end: usize) -> bool {
    start < line && line < end
}

/// The (tag, block) of each fenced block inside the extent whose tag a
/// normalizer reads.
pub open spec fn section_fences(fenced: Seq<(usize, Seq<char>, Seq<char>)>, start: usize, end: usize, tags: Seq<Seq<char>>) -> Seq<(Seq<char>, Seq<char>)>
    decreases fenced.len(),
{
    if fenced.len() == 0 {
        seq![]
    } else {
        let rest = section_fences(fenced.drop_last(), start, end, tags);
        let f = fenced.last();
        if owned_line(f.0, start, end) && tags.contains(f.1) {
            rest.push((f.1, f.2))
        } else {
            rest
        }
    }
}

/// The bullets inside the extent.
pub open spec fn section_bullets(bullets: Seq<(usize, Seq<char>)>, start: usize, end: usize) -> Seq<(usize, Seq<char>)>
    decreases bullets.len(),
{
    if bullets.len() == 0 {
        seq![]
    } else {
        let rest = section_bullets(bullets.drop_last(), start, end);
        if owned_line(bullets.last().0, start, end) {
            rest.push(bullets.last())
        } else {
            rest
        }
    }
}

pub open spec fn absorb_all(f: BulletFactsV, path: Seq<char>, concept: Seq<char>, bullets: Seq<(usize, Seq<char>)>) -> BulletFactsV
    decreases bullets.len(),
{
    if bullets.len() == 0 {
        f
    } else {
        absorb_spec(
            absorb_all(f, path, concept, bullets.drop_last()),
            path,
            concept,
            bullets.last().0,
            bullets.last().1,
        )
    }
}

pub open spec fn no_facts() -> BulletFactsV {
    BulletFactsV { edges: seq![], verbs: seq![], impls: seq![], malformed: seq![] }
}

/// The bullet facts of the sections of the concept headings `hs`.
pub open spec fn sections_facts(path: Seq<char>, hs: Seq<DialectHeadingV>, ladder: Seq<DialectHeadingV>, c: CollectedV) -> BulletFactsV
    decreases hs.len(),
{
    if hs.len() == 0 {
        no_facts()
    } else {
        let h = hs.last();
        absorb_all(
            sections_facts(path, hs.drop_last(), ladder, c),
            path,
            h.name,
            section_bullets(c.bullets, h.line, extent_end(ladder, h.line)),
        )
    }
}

/// The concept a heading declares: its name, where it is, the signature its
/// fenced blocks give, its polarity and its marker.
pub open spec fn section_node(n: ConceptNode, path: Seq<char>, h: DialectHeadingV, ladder: Seq<DialectHeadingV>, c: CollectedV, tags: Seq<Seq<char>>) -> bool {
    &&& n.name@ == h.name
    &&& n.source@ == md_source(path, h.line)
    &&& fences_signature(section_fences(c.fenced, h.line, extent_end(ladder, h.line), tags), n.signature@)
    &&& n.polarity == h.polarity
    &&& n.marker == h.marker
    &&& n.declared_context.is_none()
}

fn tag_known(tags: &Vec<String>, t: &str) -> (r: bool)
    ensures
        r == tags.deep_view().contains(t@),
{
    let mut i: usize = 0;
    while i < tags.len()
        invariant
            i <= tags.len(),
            forall|j: int| 0 <= j < i ==> tags@[j]@ != t@,
        decreases tags.len() - i,
    {
        if same_text(tags[i].as_str(), t) {
            assert(tags.deep_view()[i as int] == t@);
            return true;
        }
        i = i + 1;
    }
    assert(!tags.deep_view().contains(t@)) by {
        if tags.deep_view().contains(t@) {
            let j = choose|j: int| 0 <= j < tags.deep_view().len() && tags.deep_view()[j] == t@;
            assert(tags@[j]@ == t@);
        }
    }
    false
}

/// The facts the concept sections of a spec document declare: one concept
/// per concept or sub-concept heading, with the signature of the fenced
/// blocks a normalizer reads inside its extent, and the relationships,
/// anchors and malformed anchors of the bullets inside it. Refused as the
/// dialect reader refuses the document.
pub fn extract_from_source<N: SignatureNormalizer>(
    source: &str,
    path: &str,
    parsed: &ParsedSpec,
    tags: &Vec<String>,
    normalizer: &N,
) -> (r: Result<SectionFacts, ReaderError>)
    ensures
        match r {
            Err(e) => refusal_of(path@, path@, *parsed) == Some(e@),
            Ok(f) => refusal_of(path@, path@, *parsed) is None && {
                let l = ladder_of(source@, *parsed);
                let hs = concept_rungs(l);
                let c = collected_of(blanked(source@));
                &&& f.nodes.len() == hs.len()
                &&& forall|k: int|
                    0 <= k < hs.len() ==> section_node(
                        #[trigger] f.nodes@[k],
                        path@,
                        hs[k],
                        l,
                        c,
                        tags.deep_view(),
                    )
                &&& bullet_facts(f) == sections_facts(path@, hs, l, c)
            },
        },
{
    let dialect = match read(path, source, parsed) {
        Err(e) => return Err(e),
        Ok(d) => d,
    };
    let ghost l = dialect.ladder.deep_view();
    let cleaned = blank_front_matter(source);
    let collected = collect(cleaned.as_str());
    let ghost c = collected@;
    let heads = dialect.concepts();
    let ghost hs = concept_rungs(l);
    let mut facts = SectionFacts {
        nodes: Vec::new(),
        edges: Vec::new(),
        verb_anchors: Vec::new(),
        concept_anchors: Vec::new(),
        malformed: Vec::new(),
    };
    assert(bullet_facts(facts).edges =~= no_facts().edges);
    assert(bullet_facts(facts).verbs =~= no_facts().verbs);
    assert(bullet_facts(facts).impls =~= no_facts().impls);
    assert(bullet_facts(facts).malformed =~= no_facts().malformed);
    assert(hs.take(0) =~= Seq::<DialectHeadingV>::empty());
    let mut k: usize = 0;
    while k < heads.len()
        invariant
            k <= heads.len() == hs.len(),
            l == dialect.ladder.deep_view(),
            l == ladder_of(source@, *parsed),
            hs == concept_rungs(l),
            c == collected@,
            c == collected_of(blanked(source@)),
            forall|q: int| 0 <= q < heads.len() ==> (#[trigger] heads@[q])@ == hs[q],
            facts.nodes.len() == k,
            forall|q: int|
                0 <= q < k ==> section_node(#[trigger] facts.nodes@[q], path@, hs[q], l, c, tags.deep_view()),
            bullet_facts(facts) == sections_facts(path@, hs.take(k as int), l, c),
            forall|i: int| 0 <= i < facts.malformed.len() ==> is_malformed(#[trigger] facts.malformed@[i]),
        decreases heads.len() - k,
    {
        let heading = heads[k];
        let (start, end) = dialect.extent(heading);
        let mut blocks: Vec<(String, String)> = Vec::new();
        let mut i: usize = 0;
        while i < collected.fenced.len()
            invariant
                i <= collected.fenced.len(),
                c == collected@,
                blocks@.map_values(|f: (String, String)| (f.0@, f.1@)) =~= section_fences(
                    c.fenced.take(i as int),
                    start,
                    end,
                    tags.deep_view(),
                ),
            decreases collected.fenced.len() - i,
        {
            assert(c.fenced.take(i + 1).drop_last() =~= c.fenced.take(i as int));
            let f = &collected.fenced[i];
            assert(c.fenced.take(i + 1).last() == (f.0, f.1@, f.2@));
            if start < f.0 && f.0 < end && tag_known(tags, f.1.as_str()) {
                let ghost bb = blocks@;
                blocks.push((f.1.clone(), f.2.clone()));
                assert(blocks@.map_values(|f: (String, String)| (f.0@, f.1@)) =~= bb.map_values(
                    |f: (String, String)| (f.0@, f.1@),
                ).push((c.fenced[i as int].1, c.fenced[i as int].2)));
            }
            i = i + 1;
        }
        assert(c.fenced.take(i as int) =~= c.fenced);
        let signature = signature_from_fences(&blocks, normalizer);
        let mut node = ConceptNode::new(heading.name.clone(), spec_source(path, heading.line), signature)
            .with_polarity(heading.polarity);
        node.marker = heading.marker;
        facts.nodes.push(node);
        let ghost base = bullet_facts(facts);
        let mut b: usize = 0;
        while b < collected.bullets.len()
            invariant
                b <= collected.bullets.len(),
                c == collected@,
                facts.nodes.len() == k + 1,
                forall|q: int|
                    0 <= q < k + 1 ==> section_node(#[trigger] facts.nodes@[q], path@, hs[q], l, c, tags.deep_view()),
                bullet_facts(facts) == absorb_all(
                    base,
                    path@,
                    heading.name@,
                    section_bullets(c.bullets.take(b as int), start, end),
                ),
                forall|i: int| 0 <= i < facts.malformed.len() ==> is_malformed(#[trigger] facts.malformed@[i]),
            decreases collected.bullets.len() - b,
        {
            assert(c.bullets.take(b + 1).drop_last() =~= c.bullets.take(b as int));
            let bl = &collected.bullets[b];
            assert(c.bullets.take(b + 1).last() == (bl.0, bl.1@));
            if start < bl.0 && bl.0 < end {
                absorb_bullet(path, heading.name.as_str(), bl.0, bl.1.as_str(), &mut facts);
                assert(section_bullets(c.bullets.take(b + 1), start, end) == section_bullets(
                    c.bullets.take(b as int),
                    start,
                    end,
                ).push((bl.0, bl.1@)));
                assert(section_bullets(c.bullets.take(b + 1), start, end).drop_last() =~= section_bullets(
                    c.bullets.take(b as int),
                    start,
                    end,
                ));
            }
            b = b + 1;
        }
        assert(c.bullets.take(b as int) =~= c.bullets);
        assert(hs.take(k + 1).drop_last() =~= hs.take(k as int));
        assert(hs.take(k + 1).last() == heading@);
        k = k + 1;
    }
    assert(hs.take(k as int) =~= hs);
    Ok(facts)
}

} // verus!
