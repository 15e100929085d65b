//! The heading ladder of a concept document: one node per heading, linked to
//! the rung above it.
use crate::markdown::events::{markdown_events, read_events, MdEvent, MdEventAt, MdEventAtV, MdEventV};
use crate::markdown::front_matter::{
    behavioral, blank_front_matter, blanked, has_behavioral_substance, has_substance,
    is_behavioral_context,
};
use crate::markdown::markdown_utils::{
    compute_line_starts, context_id_of, is_context_id, is_context_identifier, line_number,
    line_of_offset, line_starts, normalize_context_id,
};
use crate::model::{
    behavioral_exemption_applies, exemption_applies, level_of_depth, AbstractionLevel,
    CohesionViolation, CohesionViolationV, ReaderError, ReaderErrorV,
};
use crate::text::{chars_of, push_str, string_of, trim, trim_at};
use vstd::prelude::*;
use vstd::string::StringSliceAdditionalSpecFns;
use vstd::utf8::encode_utf8;

verus! {

/// One heading of a document.
#[derive(Debug, Clone, PartialEq, Eq)]
pub struct HeadingNode {
    pub level: AbstractionLevel,
    pub text: String,
    pub id: Option<String>,
    pub line: usize,
    pub parent: Option<usize>,
}

pub struct HeadingNodeV {
    pub level: AbstractionLevel,
    pub text: Seq<char>,
    pub id: Option<Seq<char>>,
    pub line: usize,
    pub parent: Option<usize>,
}

impl View for HeadingNode {
    type V = HeadingNodeV;

    open spec fn view(&self) -> HeadingNodeV {
        HeadingNodeV {
            level: self.level,
            text: self.text@,
            id: self.id.deep_view(),
            line: self.line,
            parent: self.parent,
        }
    }
}

impl DeepView for HeadingNode {
    type V = HeadingNodeV;

    open spec fn deep_view(&self) -> HeadingNodeV {
        self@
    }
}

/// A concept document's heading ladder and its doctrine flags.
#[derive(Debug, Clone, PartialEq, Eq)]
pub struct SpecTree {
    pub file: String,
    pub nodes: Vec<HeadingNode>,
    pub behavioral: bool,
    pub has_substance: bool,
}

pub struct SpecTreeV {
    pub file: Seq<char>,
    pub nodes: Seq<HeadingNodeV>,
    pub behavioral: bool,
    pub has_substance: bool,
}

impl View for SpecTree {
    type V = SpecTreeV;

    open spec fn view(&self) -> SpecTreeV {
        SpecTreeV {
            file: self.file@,
            nodes: self.nodes.deep_view(),
            behavioral: self.behavioral,
            has_substance: self.has_substance,
        }
    }
}

/// The latest context, concept and sub-concept nodes seen.
#[derive(Debug, Clone, Copy, PartialEq, Eq, Structural)]
pub struct Pointers {
    pub context: Option<usize>,
    pub concept: Option<usize>,
    pub sub_concept: Option<usize>,
}

/// The pointers after node `idx` of level `level`, and the node's parent.
pub open spec fn link_of(p: Pointers, level: AbstractionLevel, idx: usize) -> (Pointers, Option<usize>) {
    match level {
        AbstractionLevel::Context => (
            Pointers { context: Some(idx), concept: None, sub_concept: None },
            None,
        ),
        AbstractionLevel::Concept => (
            Pointers { concept: Some(idx), sub_concept: None, ..p },
            p.context,
        ),
        AbstractionLevel::SubConcept => (Pointers { sub_concept: Some(idx), ..p }, p.concept),
        AbstractionLevel::Member => (
            p,
            if p.sub_concept is Some {
                p.sub_concept
            } else {
                p.concept
            },
        ),
    }
}

impl Pointers {
    pub fn new() -> (p: Pointers)
        ensures
            p == (Pointers { context: None, concept: None, sub_concept: None }),
    {
        Pointers { context: None, concept: None, sub_concept: None }
    }

    pub fn link(&mut self, level: AbstractionLevel, idx: usize) -> (parent: Option<usize>)
        ensures
            (*final(self), parent) == link_of(*old(self), level, idx),
    {
        match level {
            AbstractionLevel::Context => {
                self.context = Some(idx);
                self.concept = None;
                self.sub_concept = None;
                None
            },
            AbstractionLevel::Concept => {
                self.concept = Some(idx);
                self.sub_concept = None;
                self.context
            },
            AbstractionLevel::SubConcept => {
                self.sub_concept = Some(idx);
                self.concept
            },
            AbstractionLevel::Member => {
                if self.sub_concept.is_some() {
                    self.sub_concept
                } else {
                    self.concept
                }
            },
        }
    }
}

/// What the assembler holds while it walks a document's events.
pub struct AssemblerState {
    pub line_starts: Vec<usize>,
    pub nodes: Vec<HeadingNode>,
    pub pointers: Pointers,
    pub in_heading: Option<(u8, usize)>,
    pub heading_buf: String,
    pub error: Option<ReaderError>,
}

pub struct AssemblerStateV {
    pub nodes: Seq<HeadingNodeV>,
    pub pointers: Pointers,
    pub in_heading: Option<(u8, usize)>,
    pub heading_buf: Seq<char>,
    pub error: Option<ReaderErrorV>,
}

impl View for AssemblerState {
    type V = AssemblerStateV;

    open spec fn view(&self) -> AssemblerStateV {
        AssemblerStateV {
            nodes: self.nodes.deep_view(),
            pointers: self.pointers,
            in_heading: self.in_heading,
            heading_buf: self.heading_buf@,
            error: match self.error {
                None => None,
                Some(e) => Some(e@),
            },
        }
    }
}

pub open spec fn initial_assembler() -> AssemblerStateV {
    AssemblerStateV {
        nodes: seq![],
        pointers: Pointers { context: None, concept: None, sub_concept: None },
        in_heading: None,
        heading_buf: seq![],
        error: None,
    }
}

/// The refusal of an H1 that is a title rather than a context identifier.
pub open spec fn descriptive_h1_message(text: Seq<char>, normalized: Seq<char>) -> Seq<char> {
    "H1 `"@ + text + "` is a descriptive title, not a context identifier (normalises to `"@
        + normalized + "`)"@
}

/// A finished heading joins the ladder, linked to the rung above it.
pub open spec fn push_heading_of(st: AssemblerStateV, depth: u8, line: usize, file: Seq<char>) -> AssemblerStateV {
    let level = level_of_depth(depth);
    let text = trim(st.heading_buf);
    if text.len() == 0 {
        st
    } else if level == AbstractionLevel::Context && !is_context_id(context_id_of(text)) {
        AssemblerStateV {
            error: Some(
                ReaderErrorV::ParseFailed {
                    path: file,
                    line,
                    message: descriptive_h1_message(text, context_id_of(text)),
                },
            ),
            ..st
        }
    } else {
        let id = if level == AbstractionLevel::Context {
            Some(context_id_of(text))
        } else {
            None
        };
        append_node(st, level, text, id, line)
    }
}

/// The ladder with one more heading, linked to the rung above it.
pub open spec fn append_node(
    st: AssemblerStateV,
    level: AbstractionLevel,
    text: Seq<char>,
    id: Option<Seq<char>>,
    line: usize,
) -> AssemblerStateV {
    let (p, parent) = link_of(st.pointers, level, st.nodes.len() as usize);
    AssemblerStateV {
        nodes: st.nodes.push(HeadingNodeV { level, text, id, line, parent }),
        pointers: p,
        ..st
    }
}

/// What one event does to the assembler's state.
pub open spec fn tree_step(st: AssemblerStateV, ev: MdEventAtV, starts: Seq<usize>, file: Seq<char>) -> AssemblerStateV {
    let line = line_number(starts, ev.offset) as usize;
    match ev.event {
        MdEventV::StartHeading(l) => AssemblerStateV {
            in_heading: Some((l, line)),
            heading_buf: seq![],
            ..st
        },
        MdEventV::EndHeading(_) => match st.in_heading {
            Some((d, l)) => push_heading_of(AssemblerStateV { in_heading: None, ..st }, d, l, file),
            None => st,
        },
        MdEventV::Text(s) => if st.in_heading is Some {
            AssemblerStateV { heading_buf: st.heading_buf + s, ..st }
        } else {
            st
        },
        MdEventV::Code(s) => if st.in_heading is Some {
            AssemblerStateV { heading_buf: st.heading_buf + s, ..st }
        } else {
            st
        },
        _ => st,
    }
}

/// The state after the first `n` events; the walk stops at the first error.
pub open spec fn tree_run(evs: Seq<MdEventAtV>, n: nat, starts: Seq<usize>, file: Seq<char>) -> AssemblerStateV
    decreases n,
{
    if n == 0 {
        initial_assembler()
    } else {
        let prev = tree_run(evs, (n - 1) as nat, starts, file);
        if prev.error is Some {
            prev
        } else {
            tree_step(prev, evs[n - 1], starts, file)
        }
    }
}

pub proof fn lemma_tree_run_stops(evs: Seq<MdEventAtV>, m: nat, n: nat, starts: Seq<usize>, file: Seq<char>)
    requires
        m <= n,
        tree_run(evs, m, starts, file).error is Some,
    ensures
        tree_run(evs, n, starts, file) == tree_run(evs, m, starts, file),
    decreases n - m,
{
    if m < n {
        lemma_tree_run_stops(evs, m, (n - 1) as nat, starts, file);
    }
}


impl AssemblerState {
    pub fn new(source: &str) -> (st: AssemblerState)
        ensures
            st@ == initial_assembler(),
            st.line_starts@ == line_starts(source.spec_bytes()),
    {
        let st = AssemblerState {
            line_starts: compute_line_starts(source),
            nodes: Vec::new(),
            pointers: Pointers::new(),
            in_heading: None,
            heading_buf: String::new(),
            error: None,
        };
        assert(st.nodes.deep_view() =~= Seq::<HeadingNodeV>::empty());
        st
    }

    /// Adds the heading just read to the ladder.
    pub fn push_heading(&mut self, depth: u8, line: usize, file: &str)
        ensures
            final(self)@ == push_heading_of(old(self)@, depth, line, file@),
            final(self).line_starts == old(self).line_starts,
    {
        let level = AbstractionLevel::from_heading_depth(depth);
        let v = chars_of(self.heading_buf.as_str());
        let (a, b) = trim_at(&v, 0, v.len());
        assert(v@.subrange(0, v.len() as int) =~= self.heading_buf@);
        if a == b {
            return;
        }
        let text = string_of(&v, a, b);
        let id = if level == AbstractionLevel::Context {
            let normalized = normalize_context_id(text.as_str());
            if !is_context_identifier(normalized.as_str()) {
                let mut message = String::from_str("H1 `");
                push_str(&mut message, text.as_str());
                push_str(
                    &mut message,
                    "` is a descriptive title, not a context identifier (normalises to `",
                );
                push_str(&mut message, normalized.as_str());
                push_str(&mut message, "`)");
                self.error = Some(
                    ReaderError::ParseFailed { path: String::from_str(file), line, message },
                );
                return;
            }
            Some(normalized)
        } else {
            None
        };
        let idx = self.nodes.len();
        let parent = self.pointers.link(level, idx);
        let ghost nv = HeadingNode { level, text, id, line, parent }@;
        let ghost before = self.nodes.deep_view();
        self.nodes.push(HeadingNode { level, text, id, line, parent });
        assert(self.nodes.deep_view() =~= before.push(nv));
    }
}

/// Applies one event to the assembler's state.
pub fn handle_event(st: &mut AssemblerState, ev: &MdEventAt, file: &str)
    ensures
        final(st)@ == tree_step(old(st)@, ev@, old(st).line_starts@, file@),
        final(st).line_starts == old(st).line_starts,
{
    match &ev.event {
        MdEvent::StartHeading(l) => {
            let line = line_of_offset(st.line_starts.as_slice(), ev.offset);
            st.in_heading = Some((*l, line));
            st.heading_buf = String::new();
        },
        MdEvent::EndHeading(_) => {
            if let Some((depth, line)) = st.in_heading {
                st.in_heading = None;
                st.push_heading(depth, line, file);
            }
        },
        MdEvent::Text(s) | MdEvent::Code(s) => {
            if st.in_heading.is_some() {
                push_str(&mut st.heading_buf, s.as_str());
            }
        },
        _ => {},
    }
}

/// The ladder a document's events build, or the error that stopped it.
pub open spec fn tree_outcome(evs: Seq<MdEventAtV>, starts: Seq<usize>, file: Seq<char>) -> Result<
    Seq<HeadingNodeV>,
    ReaderErrorV,
> {
    let st = tree_run(evs, evs.len(), starts, file);
    match st.error {
        Some(e) => Err(e),
        None => Ok(st.nodes),
    }
}

/// Builds the ladder from the events of the (front-matter-blanked) source.
pub fn assemble_nodes(cleaned: &str, file: &str, events: &Vec<MdEventAt>) -> (r: Result<
    Vec<HeadingNode>,
    ReaderError,
>)
    ensures
        match r {
            Ok(n) => tree_outcome(events.deep_view(), line_starts(cleaned.spec_bytes()), file@)
                == Ok::<_, ReaderErrorV>(n.deep_view()),
            Err(e) => tree_outcome(events.deep_view(), line_starts(cleaned.spec_bytes()), file@)
                == Err::<Seq<HeadingNodeV>, _>(e@),
        },
{
    let mut st = AssemblerState::new(cleaned);
    let ghost starts = st.line_starts@;
    let ghost evs = events.deep_view();
    let mut i: usize = 0;
    while i < events.len() && st.error.is_none()
        invariant
            i <= events.len(),
            evs == events.deep_view(),
            starts == st.line_starts@,
            st@ == tree_run(evs, i as nat, starts, file@),
        decreases events.len() - i,
    {
        handle_event(&mut st, &events[i], file);
        assert(evs[i as int] == events@[i as int]@);
        i = i + 1;
    }
    assert(tree_run(evs, evs.len(), starts, file@) == st@) by {
        if i < events.len() {
            lemma_tree_run_stops(evs, i as nat, evs.len(), starts, file@);
        }
    }
    match st.error {
        Some(err) => Err(err),
        None => Ok(st.nodes),
    }
}

/// The tree of a concept document, or the error that stops it.
pub open spec fn assembled(source: Seq<char>, file: Seq<char>) -> Result<
    SpecTreeV,
    ReaderErrorV,
> {
    let cleaned = blanked(source);
    match tree_outcome(markdown_events(cleaned), line_starts(encode_utf8(cleaned)), file) {
        Err(e) => Err(e),
        Ok(nodes) => Ok(
            SpecTreeV {
                file,
                nodes,
                behavioral: behavioral(source),
                has_substance: has_substance(source),
            },
        ),
    }
}

/// Reads a concept document's heading ladder; the front matter is blanked
/// first, so it never becomes a heading and lines keep their numbers.
pub fn assemble_tree(source: &str, file: &str) -> (r: Result<SpecTree, ReaderError>)
    ensures
        match r {
            Ok(t) => assembled(source@, file@) == Ok::<_, ReaderErrorV>(t@),
            Err(e) => assembled(source@, file@) == Err::<SpecTreeV, _>(e@),
        },
{
    let behavioral = is_behavioral_context(source);
    let has_substance = has_behavioral_substance(source);
    let cleaned = blank_front_matter(source);
    let events = read_events(cleaned.as_str());
    let r = match assemble_nodes(cleaned.as_str(), file, &events) {
        Err(e) => Err(e),
        Ok(nodes) => Ok(
            SpecTree { file: String::from_str(file), nodes, behavioral, has_substance },
        ),
    };
    r
}


/// The first context node.
pub open spec fn first_context(nodes: Seq<HeadingNodeV>) -> Option<int>
    decreases nodes.len(),
{
    if nodes.len() == 0 {
        None
    } else if nodes[0].level == AbstractionLevel::Context {
        Some(0)
    } else {
        match first_context(nodes.drop_first()) {
            None => None,
            Some(i) => Some(i + 1),
        }
    }
}

/// The identifier of the document's (first) context.
pub open spec fn context_id_spec(nodes: Seq<HeadingNodeV>) -> Option<Seq<char>> {
    match first_context(nodes) {
        None => None,
        Some(i) => nodes[i].id,
    }
}

pub open spec fn is_concept_rung(l: AbstractionLevel) -> bool {
    l == AbstractionLevel::Concept || l == AbstractionLevel::SubConcept
}

/// The names of the concept and sub-concept headings, in order.
pub open spec fn concept_names(nodes: Seq<HeadingNodeV>) -> Seq<Seq<char>>
    decreases nodes.len(),
{
    if nodes.len() == 0 {
        seq![]
    } else {
        let r = concept_names(nodes.drop_last());
        if is_concept_rung(nodes.last().level) {
            r.push(nodes.last().text)
        } else {
            r
        }
    }
}

/// A concept rung stands under the context at `idx` before the next context.
pub open spec fn has_unit_after(nodes: Seq<HeadingNodeV>, idx: int) -> bool {
    exists|j: int|
        idx < j < nodes.len() && is_concept_rung(#[trigger] nodes[j].level) && forall|k: int|
            idx < k < j ==> nodes[k].level != AbstractionLevel::Context
}

/// The violation, if any, that node `i` of the tree stands for.
#[verifier::opaque]
pub open spec fn violation_at(t: SpecTreeV, i: int) -> Option<CohesionViolationV> {
    let node = t.nodes[i];
    if node.level == AbstractionLevel::Context {
        if !has_unit_after(t.nodes, i) && !exemption_applies(t.behavioral, t.has_substance) {
            Some(
                CohesionViolationV::ContextWithoutCohesionUnit {
                    context: match node.id {
                        Some(id) => id,
                        None => node.text,
                    },
                    file: t.file,
                },
            )
        } else {
            None
        }
    } else if node.level == AbstractionLevel::SubConcept && node.parent is None {
        Some(CohesionViolationV::SubConceptOrphan { sub_concept: node.text, file: t.file })
    } else {
        None
    }
}

/// The violations of the first `n` nodes, in node order.
pub open spec fn violations_upto(t: SpecTreeV, n: nat) -> Seq<CohesionViolationV>
    decreases n,
{
    if n == 0 {
        seq![]
    } else {
        let r = violations_upto(t, (n - 1) as nat);
        match violation_at(t, n - 1) {
            Some(v) => r.push(v),
            None => r,
        }
    }
}

impl SpecTree {
    pub fn context_id(&self) -> (r: Option<&str>)
        ensures
            r is Some <==> context_id_spec(self@.nodes) is Some,
            r matches Some(id) ==> id@ == context_id_spec(self@.nodes)->0,
    {
        let ghost nodes = self@.nodes;
        let mut i: usize = 0;
        assert(nodes.skip(0) =~= nodes);
        while i < self.nodes.len()
            invariant
                nodes == self@.nodes,
                i <= self.nodes.len(),
                first_context(nodes) == match first_context(nodes.skip(i as int)) {
                    None => None,
                    Some(j) => Some(j + i),
                },
            decreases self.nodes.len() - i,
        {
            assert(nodes.skip(i as int)[0] == nodes[i as int]);
            assert(nodes.skip(i as int).drop_first() =~= nodes.skip(i + 1));
            if self.nodes[i].level == AbstractionLevel::Context {
                return match &self.nodes[i].id {
                    None => None,
                    Some(id) => Some(id.as_str()),
                };
            }
            i = i + 1;
        }
        None
    }

    /// Each concept and sub-concept heading, with the document's context.
    pub fn concept_declarations(&self) -> (r: Vec<(&str, &str)>)
        ensures
            context_id_spec(self@.nodes) is None ==> r.len() == 0,
            context_id_spec(self@.nodes) matches Some(ctx) ==> r.len() == concept_names(
                self@.nodes,
            ).len() && forall|k: int|
                0 <= k < r.len() ==> (#[trigger] r@[k]).0@ == concept_names(self@.nodes)[k]
                    && r@[k].1@ == ctx,
    {
        let mut out: Vec<(&str, &str)> = Vec::new();
        let ctx = match self.context_id() {
            None => {
                return out;
            },
            Some(c) => c,
        };
        let ghost nodes = self@.nodes;
        let mut i: usize = 0;
        while i < self.nodes.len()
            invariant
                nodes == self@.nodes,
                i <= self.nodes.len(),
                out.len() == concept_names(nodes.take(i as int)).len(),
                forall|k: int|
                    0 <= k < out.len() ==> (#[trigger] out@[k]).0@ == concept_names(
                        nodes.take(i as int),
                    )[k] && out@[k].1@ == ctx@,
            decreases self.nodes.len() - i,
        {
            assert(nodes.take(i + 1).drop_last() =~= nodes.take(i as int));
            let l = self.nodes[i].level;
            if l == AbstractionLevel::Concept || l == AbstractionLevel::SubConcept {
                out.push((self.nodes[i].text.as_str(), ctx));
            }
            i = i + 1;
        }
        assert(nodes.take(i as int) =~= nodes);
        out
    }

    /// A concept rung stands under the context at `ctx_idx`.
    fn has_cohesion_unit(&self, ctx_idx: usize) -> (b: bool)
        requires
            ctx_idx < self.nodes.len(),
        ensures
            b == has_unit_after(self@.nodes, ctx_idx as int),
    {
        let ghost nodes = self@.nodes;
        let mut j = ctx_idx + 1;
        while j < self.nodes.len() && self.nodes[j].level != AbstractionLevel::Context
            invariant
                nodes == self@.nodes,
                ctx_idx < j <= self.nodes.len(),
                forall|k: int| ctx_idx < k < j ==> nodes[k].level != AbstractionLevel::Context,
                forall|k: int| ctx_idx < k < j ==> !is_concept_rung(#[trigger] nodes[k].level),
            decreases self.nodes.len() - j,
        {
            let l = self.nodes[j].level;
            if l == AbstractionLevel::Concept || l == AbstractionLevel::SubConcept {
                assert(is_concept_rung(nodes[j as int].level));
                return true;
            }
            j = j + 1;
        }
        assert forall|m: int|
            ctx_idx < m < nodes.len() && is_concept_rung(#[trigger] nodes[m].level) implies !(
            forall|k: int| ctx_idx < k < m ==> nodes[k].level != AbstractionLevel::Context) by {
            if m >= j {
                assert(nodes[j as int].level == AbstractionLevel::Context);
                if m == j {
                } else {
                    assert(ctx_idx < j < m);
                }
            }
        }
        false
    }

    /// The violation node `idx` stands for.
    fn violation_for(&self, idx: usize, context_exempt: bool) -> (r: Option<CohesionViolation>)
        requires
            idx < self.nodes.len(),
            context_exempt == exemption_applies(self.behavioral, self.has_substance),
        ensures
            r is Some <==> violation_at(self@, idx as int) is Some,
            r matches Some(v) ==> v@ == violation_at(self@, idx as int)->0,
    {
        reveal(violation_at);
        let node = &self.nodes[idx];
        assert(self@.nodes[idx as int] == node@);
        if node.level == AbstractionLevel::Context {
            if !self.has_cohesion_unit(idx) && !context_exempt {
                let context = match &node.id {
                    Some(id) => id.clone(),
                    None => node.text.clone(),
                };
                return Some(
                    CohesionViolation::ContextWithoutCohesionUnit {
                        context,
                        file: self.file.clone(),
                    },
                );
            }
            None
        } else if node.level == AbstractionLevel::SubConcept && node.parent.is_none() {
            Some(
                CohesionViolation::SubConceptOrphan {
                    sub_concept: node.text.clone(),
                    file: self.file.clone(),
                },
            )
        } else {
            None
        }
    }

    /// Contexts without a concept rung (unless the behavioral exemption
    /// applies) and sub-concepts without a concept above them.
    pub fn cohesion_violations(&self) -> (out: Vec<CohesionViolation>)
        ensures
            out.deep_view() == violations_upto(self@, self@.nodes.len()),
    {
        let context_exempt = behavioral_exemption_applies(self.behavioral, self.has_substance);
        let mut out: Vec<CohesionViolation> = Vec::new();
        let mut idx: usize = 0;
        assert(out.deep_view() =~= Seq::<CohesionViolationV>::empty());
        while idx < self.nodes.len()
            invariant
                idx <= self.nodes.len(),
                context_exempt == exemption_applies(self.behavioral, self.has_substance),
                out.deep_view() == violations_upto(self@, idx as nat),
            decreases self.nodes.len() - idx,
        {
            let ghost before = out.deep_view();
            if let Some(v) = self.violation_for(idx, context_exempt) {
                let ghost vv = v@;
                out.push(v);
                assert(out.deep_view() =~= before.push(vv));
            }
            idx = idx + 1;
        }
        out
    }
}


/// The level a parent may stand on, for a node of level `child`.
pub open spec fn parent_level_ok(child: AbstractionLevel, parent: AbstractionLevel) -> bool {
    match child {
        AbstractionLevel::Context => false,
        AbstractionLevel::Concept => parent == AbstractionLevel::Context,
        AbstractionLevel::SubConcept => parent == AbstractionLevel::Concept,
        AbstractionLevel::Member => parent == AbstractionLevel::SubConcept || parent
            == AbstractionLevel::Concept,
    }
}

/// Node `i`'s parent link, if any, points to an earlier node one rung up.
pub open spec fn link_ok(nodes: Seq<HeadingNodeV>, i: int) -> bool {
    match nodes[i].parent {
        None => true,
        Some(p) => p < i && parent_level_ok(nodes[i].level, nodes[p as int].level),
    }
}

/// Every parent link points to an earlier node one rung up.
pub open spec fn links_point_up(nodes: Seq<HeadingNodeV>) -> bool {
    forall|i: int| 0 <= i < nodes.len() ==> #[trigger] link_ok(nodes, i)
}

pub open spec fn pointer_ok(p: Option<usize>, nodes: Seq<HeadingNodeV>, level: AbstractionLevel) -> bool {
    p matches Some(i) ==> i < nodes.len() && nodes[i as int].level == level
}

pub open spec fn assembler_ok(st: AssemblerStateV) -> bool {
    &&& links_point_up(st.nodes)
    &&& pointer_ok(st.pointers.context, st.nodes, AbstractionLevel::Context)
    &&& pointer_ok(st.pointers.concept, st.nodes, AbstractionLevel::Concept)
    &&& pointer_ok(st.pointers.sub_concept, st.nodes, AbstractionLevel::SubConcept)
}

proof fn lemma_append_keeps_links(
    s0: AssemblerStateV,
    level: AbstractionLevel,
    text: Seq<char>,
    id: Option<Seq<char>>,
    line: usize,
)
    requires
        assembler_ok(s0),
        s0.nodes.len() < usize::MAX,
    ensures
        assembler_ok(append_node(s0, level, text, id, line)),
{
    let s1 = append_node(s0, level, text, id, line);
    let n = s0.nodes.len();
    let (p, parent) = link_of(s0.pointers, level, n as usize);
    assert(s1.nodes == s0.nodes.push(HeadingNodeV { level, text, id, line, parent }));
    if let Some(c) = s0.pointers.context {
        assert(s1.nodes[c as int] == s0.nodes[c as int]);
    }
    if let Some(c) = s0.pointers.concept {
        assert(s1.nodes[c as int] == s0.nodes[c as int]);
    }
    if let Some(c) = s0.pointers.sub_concept {
        assert(s1.nodes[c as int] == s0.nodes[c as int]);
    }
    assert forall|i: int| 0 <= i < s1.nodes.len() implies #[trigger] link_ok(s1.nodes, i) by {
        if i < n {
            assert(link_ok(s0.nodes, i));
            assert(s1.nodes[i] == s0.nodes[i]);
            if let Some(q) = s0.nodes[i].parent {
                assert(s1.nodes[q as int] == s0.nodes[q as int]);
            }
        } else {
            if let Some(q) = parent {
                assert(s1.nodes[q as int] == s0.nodes[q as int]);
            }
        }
    }
}

proof fn lemma_push_keeps_links(s0: AssemblerStateV, d: u8, l: usize, file: Seq<char>)
    requires
        assembler_ok(s0),
        s0.nodes.len() < usize::MAX,
    ensures
        assembler_ok(push_heading_of(s0, d, l, file)),
{
    let level = level_of_depth(d);
    let text = trim(s0.heading_buf);
    let id = if level == AbstractionLevel::Context {
        Some(context_id_of(text))
    } else {
        None
    };
    lemma_append_keeps_links(s0, level, text, id, l);
}

proof fn lemma_step_keeps_links(st: AssemblerStateV, ev: MdEventAtV, starts: Seq<usize>, file: Seq<char>)
    requires
        assembler_ok(st),
        st.nodes.len() < usize::MAX,
    ensures
        assembler_ok(tree_step(st, ev, starts, file)),
        tree_step(st, ev, starts, file).nodes.len() <= st.nodes.len() + 1,
{
    if let MdEventV::EndHeading(_) = ev.event {
        if let Some((d, l)) = st.in_heading {
            lemma_push_keeps_links(AssemblerStateV { in_heading: None, ..st }, d, l, file);
        }
    }
}

/// The assembler's state after any number of events keeps every link pointing up.
pub proof fn lemma_run_keeps_links(evs: Seq<MdEventAtV>, n: nat, starts: Seq<usize>, file: Seq<char>)
    requires
        n <= usize::MAX,
    ensures
        assembler_ok(tree_run(evs, n, starts, file)),
        tree_run(evs, n, starts, file).nodes.len() <= n,
    decreases n,
{
    if n > 0 {
        lemma_run_keeps_links(evs, (n - 1) as nat, starts, file);
        let prev = tree_run(evs, (n - 1) as nat, starts, file);
        if prev.error is None {
            lemma_step_keeps_links(prev, evs[n - 1], starts, file);
        }
    }
}

/// In every ladder a document yields, each parent link points to an earlier
/// heading one rung up: a concept's to a context, a sub-concept's to a
/// concept, a member's to a sub-concept or a concept; a context has none.
pub proof fn ladder_links_point_up(evs: Seq<MdEventAtV>, starts: Seq<usize>, file: Seq<char>)
    requires
        evs.len() <= usize::MAX,
    ensures
        tree_outcome(evs, starts, file) matches Ok(nodes) ==> links_point_up(nodes),
{
    lemma_run_keeps_links(evs, evs.len(), starts, file);
}

} // verus!
