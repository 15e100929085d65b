//! `specs/contexts/*.md`: one `# name` heading, then `## Owns`, `## Exports`
//! and `## Imports` bullet lists.
use crate::markdown::events::{read_events, markdown_events, MdEvent, MdEventAt, MdEventAtV, MdEventV};
use crate::markdown::markdown_utils::{
    compute_line_starts, context_id_of, line_number, line_of_offset, line_starts,
    normalize_context_id,
};
use crate::model::{
    pattern_label, pattern_variants, ContextDecl, ContextDeclV, ContextExport, ContextImport,
    ContextImportV, ContextPattern, OwnedUnit, ReaderError, ReaderErrorV, Source, SourceV,
    SpecFormat,
};
use vstd::string::StrSliceExecFns;
use crate::text::{
    chars_of, join, push_str, slice_chars, string_of, trim, trim_at, words,
};
use vstd::prelude::*;
use vstd::string::StringSliceAdditionalSpecFns;

verus! {

/// The `##` section a bullet stands under.
#[derive(Debug, Clone, Copy, PartialEq, Eq, Structural)]
pub enum Section {
    /// Before any `##` heading.
    Unset,
    Owns,
    Exports,
    Imports,
    Other,
}

pub open spec fn parse_failed(path: Seq<char>, line: usize, message: Seq<char>) -> ReaderErrorV {
    ReaderErrorV::ParseFailed { path, line, message }
}

pub fn parse_err(path: &str, line: usize, message: &str) -> (e: ReaderError)
    ensures
        e@ == parse_failed(path@, line, message@),
{
    ReaderError::ParseFailed {
        path: String::from_str(path),
        line,
        message: String::from_str(message),
    }
}

/// The section a `##` heading opens, by its first word.
pub open spec fn section_of(heading: Seq<char>) -> Section {
    let w = words(heading);
    let first = if w.len() > 0 {
        w[0]
    } else {
        seq![]
    };
    if first == "Owns"@ {
        Section::Owns
    } else if first == "Exports"@ {
        Section::Exports
    } else if first == "Imports"@ {
        Section::Imports
    } else {
        Section::Other
    }
}

pub fn classify_section(heading: &str) -> (s: Section)
    ensures
        s == section_of(heading@),
{
    let v = chars_of(heading);
    let bounds = crate::text::word_bounds(&v);
    if bounds.len() == 0 {
        proof {
            reveal_strlit("Owns");
            reveal_strlit("Exports");
            reveal_strlit("Imports");
            assert("Owns"@.len() == 4);
            assert("Exports"@.len() == 7);
            assert("Imports"@.len() == 7);
        }
        return Section::Other;
    }
    let (a, b) = bounds[0];
    if crate::text::equals_at(&v, a, b, "Owns") {
        Section::Owns
    } else if crate::text::equals_at(&v, a, b, "Exports") {
        Section::Exports
    } else if crate::text::equals_at(&v, a, b, "Imports") {
        Section::Imports
    } else {
        Section::Other
    }
}

/// The last position of `c` in `s`.
pub open spec fn last_index(s: Seq<char>, c: char) -> Option<int>
    decreases s.len(),
{
    if s.len() == 0 {
        None
    } else if s.last() == c {
        Some(s.len() - 1)
    } else {
        last_index(s.drop_last(), c)
    }
}

/// The first position of `c` in `s`.
pub open spec fn first_index(s: Seq<char>, c: char) -> Option<int>
    decreases s.len(),
{
    if s.len() == 0 {
        None
    } else if s[0] == c {
        Some(0)
    } else {
        match first_index(s.drop_first(), c) {
            None => None,
            Some(i) => Some(i + 1),
        }
    }
}

/// `<prefix> (<inner>)`: the text before the last `(` and between it and the
/// last `)`, both trimmed and non-empty.
pub open spec fn split_paren_of(t: Seq<char>) -> Option<(Seq<char>, Seq<char>)> {
    match (last_index(t, '('), last_index(t, ')')) {
        (Some(open), Some(close)) => if close <= open {
            None
        } else {
            let prefix = trim(t.take(open));
            let inner = trim(t.subrange(open + 1, close));
            if prefix.len() == 0 || inner.len() == 0 {
                None
            } else {
                Some((prefix, inner))
            }
        },
        _ => None,
    }
}

/// The last position of `c` in `v[0..to]`.
fn last_index_at(v: &Vec<char>, to: usize, c: char) -> (r: Option<usize>)
    requires
        to <= v.len(),
    ensures
        r matches Some(i) ==> last_index(v@.take(to as int), c) == Some(i as int) && i < to,
        r is None ==> last_index(v@.take(to as int), c) is None,
{
    let mut j = to;
    while j > 0 && v[j - 1] != c
        invariant
            j <= to <= v.len(),
            last_index(v@.take(to as int), c) == last_index(v@.take(j as int), c),
        decreases j,
    {
        assert(v@.take(j as int).drop_last() =~= v@.take(j - 1));
        j = j - 1;
    }
    if j == 0 {
        None
    } else {
        Some(j - 1)
    }
}

/// The first position of `c` in `v[from..to]`, counted from `from`.
pub(crate) fn first_index_at(v: &Vec<char>, from: usize, to: usize, c: char) -> (r: Option<usize>)
    requires
        from <= to <= v.len(),
    ensures
        r matches Some(i) ==> first_index(v@.subrange(from as int, to as int), c) == Some(
            i as int,
        ) && from + i < to,
        r is None ==> first_index(v@.subrange(from as int, to as int), c) is None,
    decreases to - from,
{
    if from == to {
        return None;
    }
    assert(v@.subrange(from as int, to as int).drop_first() =~= v@.subrange(from + 1, to as int));
    if v[from] == c {
        Some(0)
    } else {
        match first_index_at(v, from + 1, to, c) {
            None => None,
            Some(i) => Some(i + 1),
        }
    }
}

pub fn split_paren(text: &str) -> (r: Option<(String, String)>)
    ensures
        r is Some <==> split_paren_of(text@) is Some,
        r matches Some(p) ==> (p.0@, p.1@) == split_paren_of(text@)->0,
{
    let v = chars_of(text);
    assert(v@.take(v.len() as int) =~= text@);
    let open = match last_index_at(&v, v.len(), '(') {
        None => {
            return None;
        },
        Some(o) => o,
    };
    let close = match last_index_at(&v, v.len(), ')') {
        None => {
            return None;
        },
        Some(c) => c,
    };
    if close <= open {
        return None;
    }
    let (a, b) = trim_at(&v, 0, open);
    let (c, d) = trim_at(&v, open + 1, close);
    assert(v@.subrange(0, open as int) =~= text@.take(open as int));
    if a == b || c == d {
        return None;
    }
    Some((string_of(&v, a, b), string_of(&v, c, d)))
}

/// The message for a pattern label the reader does not know.
pub open spec fn unknown_pattern_message(label: Seq<char>) -> Seq<char> {
    "unknown ContextPattern `"@ + label + "` — expected one of "@ + join(
        pattern_variants().map_values(|p: ContextPattern| pattern_label(p)),
        ", "@,
    )
}

/// The pattern a label names.
pub open spec fn pattern_of(label: Seq<char>) -> Option<ContextPattern> {
    if label == "PublishedLanguage"@ {
        Some(ContextPattern::PublishedLanguage)
    } else if label == "SharedKernel"@ {
        Some(ContextPattern::SharedKernel)
    } else if label == "Conformist"@ {
        Some(ContextPattern::Conformist)
    } else if label == "CustomerSupplier"@ {
        Some(ContextPattern::CustomerSupplier)
    } else {
        None
    }
}

pub open spec fn parse_pattern_of(raw: Seq<char>, path: Seq<char>, line: usize) -> Result<
    ContextPattern,
    ReaderErrorV,
> {
    match pattern_of(trim(raw)) {
        Some(p) => Ok(p),
        None => Err(parse_failed(path, line, unknown_pattern_message(trim(raw)))),
    }
}

pub fn parse_pattern(raw: &str, path: &str, line: usize) -> (r: Result<ContextPattern, ReaderError>)
    ensures
        match r {
            Ok(p) => parse_pattern_of(raw@, path@, line) == Ok::<ContextPattern, ReaderErrorV>(p),
            Err(e) => parse_pattern_of(raw@, path@, line) == Err::<ContextPattern, ReaderErrorV>(e@),
        },
{
    let v = chars_of(raw);
    let (a, b) = trim_at(&v, 0, v.len());
    assert(v@.subrange(0, v.len() as int) =~= raw@);
    let variants = ContextPattern::variants();
    let mut i: usize = 0;
    while i < variants.len()
        invariant
            variants@ == pattern_variants(),
            a <= b <= v.len(),
            v@.subrange(a as int, b as int) == trim(raw@),
            i <= variants.len(),
            forall|k: int| 0 <= k < i ==> pattern_label(#[trigger] variants@[k]) != trim(raw@),
        decreases variants.len() - i,
    {
        let p = variants[i];
        if crate::text::equals_at(&v, a, b, p.as_label()) {
            return Ok(p);
        }
        i = i + 1;
    }
    assert(pattern_label(variants@[0]) != trim(raw@));
    assert(pattern_label(variants@[1]) != trim(raw@));
    assert(pattern_label(variants@[2]) != trim(raw@));
    assert(pattern_label(variants@[3]) != trim(raw@));
    let mut msg = String::from_str("unknown ContextPattern `");
    let trimmed = slice_chars(raw, a, b);
    push_str(&mut msg, trimmed);
    push_str(&mut msg, "` — expected one of ");
    let ghost labels = pattern_variants().map_values(|p: ContextPattern| pattern_label(p));
    let ghost head = msg@;
    let mut k: usize = 0;
    while k < variants.len()
        invariant
            variants@ == pattern_variants(),
            labels == pattern_variants().map_values(|p: ContextPattern| pattern_label(p)),
            k <= variants.len(),
            msg@ == head + join(labels.take(k as int), ", "@),
        decreases variants.len() - k,
    {
        assert(labels.take(k + 1).drop_last() =~= labels.take(k as int));
        if k > 0 {
            push_str(&mut msg, ", ");
        }
        push_str(&mut msg, variants[k].as_label());
        proof {
            if k == 0 {
                assert(msg@ =~= head + join(labels.take(1), ", "@));
            } else {
                assert(msg@ =~= head + join(labels.take(k + 1), ", "@));
            }
        }
        k = k + 1;
    }
    assert(labels.take(4) =~= labels);
    Err(parse_err(path, line, msg.as_str()))
}


pub open spec fn export_shape_message() -> Seq<char> {
    "Exports bullet must be `<Concept> (<Pattern>)`"@
}

pub open spec fn import_shape_message() -> Seq<char> {
    "Imports bullet must be `<Concept> from <Context> (<Pattern>)`"@
}

/// `- <Concept> (<Pattern>)`.
pub open spec fn parse_export_of(t: Seq<char>, path: Seq<char>, line: usize) -> Result<
    (Seq<char>, ContextPattern),
    ReaderErrorV,
> {
    match split_paren_of(t) {
        None => Err(parse_failed(path, line, export_shape_message())),
        Some((concept, raw)) => match parse_pattern_of(raw, path, line) {
            Err(e) => Err(e),
            Ok(p) => Ok((concept, p)),
        },
    }
}

pub fn parse_export(text: &str, path: &str, line: usize) -> (r: Result<ContextExport, ReaderError>)
    ensures
        match r {
            Ok(e) => parse_export_of(text@, path@, line) == Ok::<_, ReaderErrorV>(e@),
            Err(e) => parse_export_of(text@, path@, line) == Err::<(Seq<char>, ContextPattern), _>(e@),
        },
{
    let (concept, pattern_raw) = match split_paren(text) {
        None => {
            return Err(parse_err(path, line, "Exports bullet must be `<Concept> (<Pattern>)`"));
        },
        Some(p) => p,
    };
    let pattern = match parse_pattern(pattern_raw.as_str(), path, line) {
        Err(e) => {
            return Err(e);
        },
        Ok(p) => p,
    };
    Ok(ContextExport { concept, pattern })
}

/// `str::splitn(3, ' ')`, with a missing piece read as empty.
pub open spec fn split3(s: Seq<char>) -> (Seq<char>, Seq<char>, Seq<char>) {
    match first_index(s, ' ') {
        None => (s, seq![], seq![]),
        Some(i) => {
            let r = s.skip(i + 1);
            match first_index(r, ' ') {
                None => (s.take(i), r, seq![]),
                Some(j) => (s.take(i), r.take(j), r.skip(j + 1)),
            }
        },
    }
}

/// `- <Concept> from <Context> (<Pattern>)`.
pub open spec fn parse_import_of(t: Seq<char>, path: Seq<char>, line: usize) -> Result<
    ContextImportV,
    ReaderErrorV,
> {
    match split_paren_of(t) {
        None => Err(parse_failed(path, line, import_shape_message())),
        Some((prefix, raw)) => {
            let parts = split3(prefix);
            let concept = trim(parts.0);
            let from_kw = trim(parts.1);
            let from_context = trim(parts.2);
            if concept.len() == 0 || from_kw != "from"@ || from_context.len() == 0 {
                Err(parse_failed(path, line, import_shape_message()))
            } else {
                match parse_pattern_of(raw, path, line) {
                    Err(e) => Err(e),
                    Ok(p) => Ok(ContextImportV { from_context, pattern: p, concept }),
                }
            }
        },
    }
}

pub fn parse_import(text: &str, path: &str, line: usize) -> (r: Result<ContextImport, ReaderError>)
    ensures
        match r {
            Ok(i) => parse_import_of(text@, path@, line) == Ok::<_, ReaderErrorV>(i@),
            Err(e) => parse_import_of(text@, path@, line) == Err::<ContextImportV, _>(e@),
        },
{
    let (prefix, pattern_raw) = match split_paren(text) {
        None => {
            return Err(
                parse_err(path, line, "Imports bullet must be `<Concept> from <Context> (<Pattern>)`"),
            );
        },
        Some(p) => p,
    };
    let v = chars_of(prefix.as_str());
    let n = v.len();
    assert(v@.subrange(0, n as int) =~= prefix@);
    let (e0, s1, e1, s2) = match first_index_at(&v, 0, n, ' ') {
        None => (n, n, n, n),
        Some(i) => {
            assert(v@.subrange(i + 1, n as int) =~= prefix@.skip(i + 1));
            match first_index_at(&v, i + 1, n, ' ') {
                None => (i, i + 1, n, n),
                Some(j) => {
                    assert(prefix@.skip(i + 1).take(j as int) =~= v@.subrange(i + 1, i + 1 + j));
                    assert(prefix@.skip(i + 1).skip(j + 1) =~= v@.subrange(i + 1 + j + 1, n as int));
                    (i, i + 1, i + 1 + j, i + 1 + j + 1)
                },
            }
        },
    };
    assert(v@.subrange(0, e0 as int) == split3(prefix@).0) by {
        assert(v@.subrange(0, e0 as int) =~= prefix@.take(e0 as int));
        if e0 == n {
            assert(prefix@.take(n as int) =~= prefix@);
        }
    }
    assert(v@.subrange(s1 as int, e1 as int) =~= split3(prefix@).1);
    assert(v@.subrange(s2 as int, n as int) =~= split3(prefix@).2);
    let (ca, cb) = trim_at(&v, 0, e0);
    let (fa, fb) = trim_at(&v, s1, e1);
    let (xa, xb) = trim_at(&v, s2, n);
    if ca == cb || !crate::text::equals_at(&v, fa, fb, "from") || xa == xb {
        return Err(
            parse_err(path, line, "Imports bullet must be `<Concept> from <Context> (<Pattern>)`"),
        );
    }
    let pattern = match parse_pattern(pattern_raw.as_str(), path, line) {
        Err(e) => {
            return Err(e);
        },
        Ok(p) => p,
    };
    Ok(
        ContextImport {
            from_context: string_of(&v, xa, xb),
            pattern,
            concept: string_of(&v, ca, cb),
        },
    )
}


/// What the reader holds while it walks a context file's events.
pub struct State {
    pub line_starts: Vec<usize>,
    pub ctx_name: Option<(String, usize)>,
    pub owned_units: Vec<OwnedUnit>,
    pub exports: Vec<ContextExport>,
    pub imports: Vec<ContextImport>,
    pub section: Section,
    pub heading: Option<u8>,
    pub heading_buf: String,
    pub item_depth: usize,
    pub in_top_item_at: Option<usize>,
    pub item_buf: String,
    pub error: Option<ReaderError>,
}

pub struct StateV {
    pub ctx_name: Option<(Seq<char>, usize)>,
    pub owned_units: Seq<Seq<char>>,
    pub exports: Seq<(Seq<char>, ContextPattern)>,
    pub imports: Seq<ContextImportV>,
    pub section: Section,
    pub heading: Option<u8>,
    pub heading_buf: Seq<char>,
    pub item_depth: nat,
    pub in_top_item_at: Option<usize>,
    pub item_buf: Seq<char>,
    pub error: Option<ReaderErrorV>,
}

impl View for State {
    type V = StateV;

    open spec fn view(&self) -> StateV {
        StateV {
            ctx_name: match self.ctx_name {
                None => None,
                Some((n, l)) => Some((n@, l)),
            },
            owned_units: self.owned_units.deep_view(),
            exports: self.exports.deep_view(),
            imports: self.imports.deep_view(),
            section: self.section,
            heading: self.heading,
            heading_buf: self.heading_buf@,
            item_depth: self.item_depth as nat,
            in_top_item_at: self.in_top_item_at,
            item_buf: self.item_buf@,
            error: match self.error {
                None => None,
                Some(e) => Some(e@),
            },
        }
    }
}

/// The state before the first event.
pub open spec fn initial_state() -> StateV {
    StateV {
        ctx_name: None,
        owned_units: seq![],
        exports: seq![],
        imports: seq![],
        section: Section::Unset,
        heading: None,
        heading_buf: seq![],
        item_depth: 0,
        in_top_item_at: None,
        item_buf: seq![],
        error: None,
    }
}

/// A finished top-level bullet, filed under the section it stands in.
pub open spec fn finish_item_of(st: StateV, line: usize, path: Seq<char>) -> StateV {
    trimmed_item(StateV { item_buf: seq![], ..st }, trim(st.item_buf), line, path)
}

pub open spec fn trimmed_item(st: StateV, trimmed: Seq<char>, line: usize, path: Seq<char>) -> StateV {
    if trimmed.len() == 0 {
        st
    } else {
        match st.section {
            Section::Owns => StateV { owned_units: st.owned_units.push(trimmed), ..st },
            Section::Exports => match parse_export_of(trimmed, path, line) {
                Ok(e) => StateV { exports: st.exports.push(e), ..st },
                Err(err) => StateV { error: Some(err), ..st },
            },
            Section::Imports => match parse_import_of(trimmed, path, line) {
                Ok(i) => StateV { imports: st.imports.push(i), ..st },
                Err(err) => StateV { error: Some(err), ..st },
            },
            _ => st,
        }
    }
}

/// What one event does to the reader's state.
pub open spec fn step(st: StateV, ev: MdEventAtV, starts: Seq<usize>, path: Seq<char>) -> StateV {
    let line = line_number(starts, ev.offset) as usize;
    match ev.event {
        MdEventV::StartHeading(l) => if l == 1 {
            if st.ctx_name is Some {
                StateV {
                    error: Some(
                        parse_failed(
                            path,
                            line,
                            "context file must contain exactly one `# Heading` line"@,
                        ),
                    ),
                    ..st
                }
            } else {
                StateV { heading: Some(1u8), heading_buf: seq![], ..st }
            }
        } else if l == 2 {
            StateV { heading: Some(2u8), heading_buf: seq![], ..st }
        } else {
            st
        },
        MdEventV::EndHeading(l) => if l == 1 {
            let name = context_id_of(st.heading_buf);
            if name.len() == 0 {
                StateV {
                    heading: None,
                    error: Some(parse_failed(path, line, "H1 heading text is empty"@)),
                    ..st
                }
            } else {
                StateV { heading: None, ctx_name: Some((name, line)), ..st }
            }
        } else if l == 2 {
            StateV { heading: None, section: section_of(st.heading_buf), ..st }
        } else {
            st
        },
        MdEventV::StartItem => {
            let depth = st.item_depth + 1;
            if depth == 1 {
                StateV { item_depth: depth, in_top_item_at: Some(line), item_buf: seq![], ..st }
            } else {
                StateV { item_depth: depth, ..st }
            }
        },
        MdEventV::EndItem => {
            let st2 = if st.item_depth == 1 {
                match st.in_top_item_at {
                    Some(l) => finish_item_of(StateV { in_top_item_at: None, ..st }, l, path),
                    None => st,
                }
            } else {
                st
            };
            StateV {
                item_depth: if st2.item_depth > 0 {
                    (st2.item_depth - 1) as nat
                } else {
                    0
                },
                ..st2
            }
        },
        MdEventV::Text(s) => absorb_of(st, s),
        MdEventV::Code(s) => absorb_of(st, s),
        _ => st,
    }
}

/// Text inside a heading, or inside a top-level bullet.
pub open spec fn absorb_of(st: StateV, s: Seq<char>) -> StateV {
    if st.heading is Some {
        StateV { heading_buf: st.heading_buf + s, ..st }
    } else if st.item_depth == 1 {
        StateV { item_buf: st.item_buf + s, ..st }
    } else {
        st
    }
}

/// The state after the first `n` events; the walk stops at the first error.
pub open spec fn run(evs: Seq<MdEventAtV>, n: nat, starts: Seq<usize>, path: Seq<char>) -> StateV
    decreases n,
{
    if n == 0 {
        initial_state()
    } else {
        let prev = run(evs, (n - 1) as nat, starts, path);
        if prev.error is Some {
            prev
        } else {
            step(prev, evs[n - 1], starts, path)
        }
    }
}

/// What a context file declares, read from its events.
pub open spec fn context_outcome(evs: Seq<MdEventAtV>, starts: Seq<usize>, path: Seq<char>) -> Result<
    ContextDeclV,
    ReaderErrorV,
> {
    let st = run(evs, evs.len(), starts, path);
    match st.error {
        Some(e) => Err(e),
        None => match st.ctx_name {
            None => Err(
                parse_failed(
                    path,
                    1,
                    "context file must open with a single `# ContextName` heading"@,
                ),
            ),
            Some((name, line)) => Ok(
                ContextDeclV {
                    name,
                    owned_units: st.owned_units,
                    exports: st.exports,
                    imports: st.imports,
                    source: SourceV::Spec {
                        format: SpecFormat::Markdown,
                        path,
                        line,
                        context: None,
                    },
                },
            ),
        },
    }
}


impl State {
    pub fn new(source: &str) -> (st: State)
        ensures
            st@ == initial_state(),
            st.line_starts@ == line_starts(source.spec_bytes()),
    {
        let st = State {
            line_starts: compute_line_starts(source),
            ctx_name: None,
            owned_units: Vec::new(),
            exports: Vec::new(),
            imports: Vec::new(),
            section: Section::Unset,
            heading: None,
            heading_buf: String::new(),
            item_depth: 0,
            in_top_item_at: None,
            item_buf: String::new(),
            error: None,
        };
        assert(st.owned_units.deep_view() =~= Seq::<Seq<char>>::empty());
        assert(st.exports.deep_view() =~= Seq::<(Seq<char>, ContextPattern)>::empty());
        assert(st.imports.deep_view() =~= Seq::<ContextImportV>::empty());
        st
    }
}

/// Files the finished top-level bullet under its section.
fn finish_item(st: &mut State, line: usize, path: &str)
    ensures
        final(st)@ == finish_item_of(old(st)@, line, path@),
        final(st).line_starts == old(st).line_starts,
        final(st).item_depth == old(st).item_depth,
{
    let mut text = String::new();
    std::mem::swap(&mut text, &mut st.item_buf);
    let v = chars_of(text.as_str());
    let (a, b) = trim_at(&v, 0, v.len());
    assert(v@.subrange(0, v.len() as int) =~= text@);
    if a == b {
        assert(st.owned_units.deep_view() =~= old(st).owned_units.deep_view());
        assert(st.exports.deep_view() =~= old(st).exports.deep_view());
        assert(st.imports.deep_view() =~= old(st).imports.deep_view());
        return;
    }
    let trimmed = string_of(&v, a, b);
    let ghost tv = trimmed@;
    let ghost o = old(st)@;
    match st.section {
        Section::Owns => {
            st.owned_units.push(OwnedUnit(trimmed));
            assert(st.owned_units.deep_view() =~= o.owned_units.push(tv));
        },
        Section::Exports => match parse_export(trimmed.as_str(), path, line) {
            Ok(e) => {
                let ghost ev = e@;
                st.exports.push(e);
                assert(st.exports.deep_view() =~= o.exports.push(ev));
            },
            Err(err) => st.error = Some(err),
        },
        Section::Imports => match parse_import(trimmed.as_str(), path, line) {
            Ok(i) => {
                let ghost iv = i@;
                st.imports.push(i);
                assert(st.imports.deep_view() =~= o.imports.push(iv));
            },
            Err(err) => st.error = Some(err),
        },
        Section::Unset | Section::Other => {},
    }
    assert(st.section == Section::Owns || st.owned_units.deep_view() =~= o.owned_units);
    assert(st.section == Section::Exports || st.exports.deep_view() =~= o.exports);
    assert(st.section == Section::Imports || st.imports.deep_view() =~= o.imports);
}

/// Applies one event to the reader's state.
pub fn handle_event(st: &mut State, ev: &MdEventAt, path: &str)
    requires
        old(st).item_depth < usize::MAX,
    ensures
        final(st)@ == step(old(st)@, ev@, old(st).line_starts@, path@),
        final(st).line_starts == old(st).line_starts,
        final(st).item_depth <= old(st).item_depth + 1,
{
    let line = line_of_offset(st.line_starts.as_slice(), ev.offset);
    match &ev.event {
        MdEvent::StartHeading(l) => {
            if *l == 1 {
                if st.ctx_name.is_some() {
                    st.error = Some(
                        parse_err(
                            path,
                            line,
                            "context file must contain exactly one `# Heading` line",
                        ),
                    );
                    return;
                }
                st.heading = Some(1);
                st.heading_buf = String::new();
            } else if *l == 2 {
                st.heading = Some(2);
                st.heading_buf = String::new();
            }
        },
        MdEvent::EndHeading(l) => {
            if *l == 1 {
                let name = normalize_context_id(st.heading_buf.as_str());
                st.heading = None;
                if name.unicode_len() == 0 {
                    st.error = Some(parse_err(path, line, "H1 heading text is empty"));
                    return;
                }
                st.ctx_name = Some((name, line));
            } else if *l == 2 {
                st.heading = None;
                st.section = classify_section(st.heading_buf.as_str());
            }
        },
        MdEvent::StartItem => {
            st.item_depth = st.item_depth + 1;
            if st.item_depth == 1 {
                st.in_top_item_at = Some(line);
                st.item_buf = String::new();
            }
        },
        MdEvent::EndItem => {
            if st.item_depth == 1 {
                if let Some(l) = st.in_top_item_at {
                    st.in_top_item_at = None;
                    finish_item(st, l, path);
                }
            }
            if st.item_depth > 0 {
                st.item_depth = st.item_depth - 1;
            }
        },
        MdEvent::Text(s) | MdEvent::Code(s) => {
            if st.heading.is_some() {
                push_str(&mut st.heading_buf, s.as_str());
            } else if st.item_depth == 1 {
                push_str(&mut st.item_buf, s.as_str());
            }
        },
        _ => {},
    }
}

/// What a context file declares, read from the events of its source.
pub fn parse_context_events(path: &str, source: &str, events: &Vec<MdEventAt>) -> (r: Result<
    ContextDecl,
    ReaderError,
>)
    ensures
        match r {
            Ok(d) => context_outcome(events.deep_view(), line_starts(source.spec_bytes()), path@)
                == Ok::<_, ReaderErrorV>(d@),
            Err(e) => context_outcome(events.deep_view(), line_starts(source.spec_bytes()), path@)
                == Err::<ContextDeclV, _>(e@),
        },
{
    let mut st = State::new(source);
    let ghost starts = st.line_starts@;
    let ghost evs = events.deep_view();
    let mut i: usize = 0;
    while i < events.len() && st.error.is_none()
        invariant
            i <= events.len(),
            evs == events.deep_view(),
            starts == st.line_starts@,
            st.item_depth <= i,
            st@ == run(evs, i as nat, starts, path@),
        decreases events.len() - i,
    {
        handle_event(&mut st, &events[i], path);
        assert(evs[i as int] == events@[i as int]@);
        i = i + 1;
    }
    assert(run(evs, evs.len(), starts, path@) == st@) by {
        if i < events.len() {
            lemma_run_stops(evs, i as nat, evs.len(), starts, path@);
        }
    }
    if let Some(err) = st.error {
        return Err(err);
    }
    let (name, h1_line) = match st.ctx_name {
        None => {
            return Err(
                parse_err(path, 1, "context file must open with a single `# ContextName` heading"),
            );
        },
        Some(p) => p,
    };
    Ok(
        ContextDecl::new(
            name,
            st.owned_units,
            st.exports,
            st.imports,
            Source::Spec {
                format: SpecFormat::Markdown,
                path: String::from_str(path),
                line: h1_line,
                context: None,
            },
        ),
    )
}

/// Once the walk has met an error, later events change nothing.
pub proof fn lemma_run_stops(evs: Seq<MdEventAtV>, m: nat, n: nat, starts: Seq<usize>, path: Seq<char>)
    requires
        m <= n,
        run(evs, m, starts, path).error is Some,
    ensures
        run(evs, n, starts, path) == run(evs, m, starts, path),
    decreases n - m,
{
    if m < n {
        lemma_run_stops(evs, m, (n - 1) as nat, starts, path);
    }
}

/// Reads a context file: its `# name`, owned units, exports and imports.
pub fn parse_context_file(path: &str, source: &str) -> (r: Result<ContextDecl, ReaderError>)
    ensures
        match r {
            Ok(d) => context_outcome(markdown_events(source@), line_starts(source.spec_bytes()), path@)
                == Ok::<_, ReaderErrorV>(d@),
            Err(e) => context_outcome(markdown_events(source@), line_starts(source.spec_bytes()), path@)
                == Err::<ContextDeclV, _>(e@),
        },
{
    let events = read_events(source);
    parse_context_events(path, source, &events)
}

} // verus!
