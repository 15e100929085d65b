//! The verb-coverage report: which public functions the specs cite, how the
//! operational invariants are enforced, and which concept names more than
//! one context uses; and its text form.
use vstd::prelude::*;
use crate::graph::PubFnDecl;
use crate::model::{ContextPattern, SourceV, TierKind};
use crate::order::{is_permutation, key_view, sorted_stably, stable_order, stable_orders_agree};
use crate::render::source_pair;
use crate::text::{decimal, push_decimal, push_str, text_of};

verus! {

/// Whether the specs cite a public function, under its context.
#[derive(Debug, Clone, PartialEq, Eq)]
pub struct VerbCoverageRecord {
    pub pub_fn: PubFnDecl,
    pub context: Option<String>,
    pub cited: bool,
}

/// How many operational invariants of a context one tier enforces.
#[derive(Debug, Clone, PartialEq, Eq)]
pub struct TierHistogramRecord {
    pub context: Option<String>,
    pub tier: TierKind,
    pub count: usize,
}

/// One context's use of a homonym: whether a context-map pattern sanctions
/// it, and whether the sanction runs one way only.
#[derive(Debug, Clone, PartialEq, Eq)]
pub struct HomonymAppearance {
    pub context_name: String,
    pub sanctioned_by_pattern: Option<ContextPattern>,
    pub asymmetric: bool,
}

/// A concept name more than one context uses.
#[derive(Debug, Clone, PartialEq, Eq)]
pub struct HomonymRecord {
    pub name: String,
    pub contexts: Vec<HomonymAppearance>,
}

/// Everything the report holds.
#[derive(Debug, Clone, PartialEq, Eq)]
pub struct ReportOutput {
    pub verb_coverage: Vec<VerbCoverageRecord>,
    pub tier_histogram: Vec<TierHistogramRecord>,
    pub homonyms: Vec<HomonymRecord>,
}

/// The place of a tier in the tier order.
pub open spec fn tier_rank(t: TierKind) -> usize {
    match t {
        TierKind::Tier0 => 0,
        TierKind::Cypher => 1,
        TierKind::ScriptFence => 2,
        TierKind::ProseOnly => 3,
    }
}

fn tier_rank_exec(t: TierKind) -> (r: usize)
    ensures
        r == tier_rank(t),
{
    match t {
        TierKind::Tier0 => 0,
        TierKind::Cypher => 1,
        TierKind::ScriptFence => 2,
        TierKind::ProseOnly => 3,
    }
}

pub open spec fn ctx_text(c: Option<String>) -> Seq<char> {
    match c {
        Some(s) => s@,
        None => seq![],
    }
}

/// Verb-coverage records sort by context (named contexts first), then by
/// function name.
pub open spec fn verb_key(r: VerbCoverageRecord) -> (bool, Seq<char>, Seq<char>, usize) {
    (r.context.is_none(), ctx_text(r.context), r.pub_fn.name@, 0)
}

/// Tier records sort by context (named contexts first), then by tier.
pub open spec fn tier_key(r: TierHistogramRecord) -> (bool, Seq<char>, Seq<char>, usize) {
    (r.context.is_none(), ctx_text(r.context), seq![], tier_rank(r.tier))
}

/// Homonyms sort by name.
pub open spec fn homonym_key(r: HomonymRecord) -> (bool, Seq<char>, Seq<char>, usize) {
    (false, seq![], r.name@, 0)
}

fn ctx_copy(c: &Option<String>) -> (r: String)
    ensures
        r@ == ctx_text(*c),
{
    match c {
        Some(s) => s.clone(),
        None => String::new(),
    }
}

/// The order the verb-coverage records are reported in.
pub fn verb_coverage_order(records: &Vec<VerbCoverageRecord>) -> (order: Vec<usize>)
    ensures
        is_permutation(order@, records.len() as nat),
        sorted_stably(records@.map_values(|r: VerbCoverageRecord| verb_key(r)), order@),
{
    let mut keys: Vec<(bool, String, String, usize)> = Vec::new();
    let mut i: usize = 0;
    while i < records.len()
        invariant
            i <= records.len(),
            keys@.map_values(|k: (bool, String, String, usize)| key_view(k)) =~= records@.take(
                i as int,
            ).map_values(|r: VerbCoverageRecord| verb_key(r)),
        decreases records.len() - i,
    {
        let r = &records[i];
        let ghost kb = keys@;
        keys.push((r.context.is_none(), ctx_copy(&r.context), r.pub_fn.name.clone(), 0));
        assert(keys@.map_values(|k: (bool, String, String, usize)| key_view(k)) =~= kb.map_values(
            |k: (bool, String, String, usize)| key_view(k),
        ).push(verb_key(records@[i as int])));
        i = i + 1;
    }
    assert(records@.take(i as int) =~= records@);
    stable_order(&keys)
}

/// The order the tier records are reported in.
pub fn tier_histogram_order(records: &Vec<TierHistogramRecord>) -> (order: Vec<usize>)
    ensures
        is_permutation(order@, records.len() as nat),
        sorted_stably(records@.map_values(|r: TierHistogramRecord| tier_key(r)), order@),
{
    let mut keys: Vec<(bool, String, String, usize)> = Vec::new();
    let mut i: usize = 0;
    while i < records.len()
        invariant
            i <= records.len(),
            keys@.map_values(|k: (bool, String, String, usize)| key_view(k)) =~= records@.take(
                i as int,
            ).map_values(|r: TierHistogramRecord| tier_key(r)),
        decreases records.len() - i,
    {
        let r = &records[i];
        let ghost kb = keys@;
        keys.push((r.context.is_none(), ctx_copy(&r.context), String::new(), tier_rank_exec(r.tier)));
        assert(keys@.map_values(|k: (bool, String, String, usize)| key_view(k)) =~= kb.map_values(
            |k: (bool, String, String, usize)| key_view(k),
        ).push(tier_key(records@[i as int])));
        i = i + 1;
    }
    assert(records@.take(i as int) =~= records@);
    stable_order(&keys)
}

/// The order the homonyms are reported in.
pub fn homonym_order(records: &Vec<HomonymRecord>) -> (order: Vec<usize>)
    ensures
        is_permutation(order@, records.len() as nat),
        sorted_stably(records@.map_values(|r: HomonymRecord| homonym_key(r)), order@),
{
    let mut keys: Vec<(bool, String, String, usize)> = Vec::new();
    let mut i: usize = 0;
    while i < records.len()
        invariant
            i <= records.len(),
            keys@.map_values(|k: (bool, String, String, usize)| key_view(k)) =~= records@.take(
                i as int,
            ).map_values(|r: HomonymRecord| homonym_key(r)),
        decreases records.len() - i,
    {
        let r = &records[i];
        let ghost kb = keys@;
        keys.push((false, String::new(), r.name.clone(), 0));
        assert(keys@.map_values(|k: (bool, String, String, usize)| key_view(k)) =~= kb.map_values(
            |k: (bool, String, String, usize)| key_view(k),
        ).push(homonym_key(records@[i as int])));
        i = i + 1;
    }
    assert(records@.take(i as int) =~= records@);
    stable_order(&keys)
}

/// The heading a record's context is reported under.
pub open spec fn heading_of(c: Option<String>) -> Seq<char> {
    match c {
        Some(s) => s@,
        None => "orphaned"@,
    }
}

/// The context heading line before a record, when its heading differs from
/// the one before it.
pub open spec fn heading_line(prev: Option<Seq<char>>, h: Seq<char>) -> Seq<char> {
    if prev == Some(h) {
        seq![]
    } else {
        "  [context: "@ + h + "]\n"@
    }
}

pub open spec fn path_of(s: SourceV) -> Seq<char> {
    match s {
        SourceV::Spec { path, .. } => path,
        SourceV::Code { path, .. } => path,
    }
}

pub open spec fn line_of(s: SourceV) -> usize {
    match s {
        SourceV::Spec { line, .. } => line,
        SourceV::Code { line, .. } => line,
    }
}

/// A verb-coverage line.
pub open spec fn verb_line(r: VerbCoverageRecord) -> Seq<char> {
    "    "@ + r.pub_fn.name@ + " ("@ + path_of(r.pub_fn.source@) + ":"@ + decimal(
        line_of(r.pub_fn.source@) as nat,
    ) + ") ["@ + (if r.cited {
        "cited"@
    } else {
        "uncited"@
    }) + "]\n"@
}

/// The verb-coverage lines of records in report order.
pub open spec fn verb_lines(rs: Seq<VerbCoverageRecord>) -> Seq<char>
    decreases rs.len(),
{
    if rs.len() == 0 {
        seq![]
    } else {
        let prev = if rs.len() >= 2 {
            Some(heading_of(rs[rs.len() - 2].context))
        } else {
            None
        };
        verb_lines(rs.drop_last()) + heading_line(prev, heading_of(rs.last().context)) + verb_line(
            rs.last(),
        )
    }
}

pub open spec fn tier_label(t: TierKind) -> Seq<char> {
    match t {
        TierKind::Tier0 => "Tier0"@,
        TierKind::Cypher => "Cypher"@,
        TierKind::ScriptFence => "ScriptFence"@,
        TierKind::ProseOnly => "ProseOnly"@,
    }
}

fn tier_label_exec(t: TierKind) -> (r: &'static str)
    ensures
        r@ == tier_label(t),
{
    match t {
        TierKind::Tier0 => "Tier0",
        TierKind::Cypher => "Cypher",
        TierKind::ScriptFence => "ScriptFence",
        TierKind::ProseOnly => "ProseOnly",
    }
}

/// A tier line.
pub open spec fn tier_line(r: TierHistogramRecord) -> Seq<char> {
    "    "@ + tier_label(r.tier) + ": "@ + decimal(r.count as nat) + "\n"@
}

pub open spec fn tier_lines(rs: Seq<TierHistogramRecord>) -> Seq<char>
    decreases rs.len(),
{
    if rs.len() == 0 {
        seq![]
    } else {
        let prev = if rs.len() >= 2 {
            Some(heading_of(rs[rs.len() - 2].context))
        } else {
            None
        };
        tier_lines(rs.drop_last()) + heading_line(prev, heading_of(rs.last().context)) + tier_line(
            rs.last(),
        )
    }
}

/// How a homonym's use by a context is marked: the sanctioning pattern, or
/// `[!]` where none sanctions it.
pub open spec fn pattern_marker(p: Option<ContextPattern>) -> Seq<char> {
    match p {
        Some(ContextPattern::PublishedLanguage) => "[PublishedLanguage]"@,
        Some(ContextPattern::SharedKernel) => "[SharedKernel]"@,
        _ => "[!]"@,
    }
}

pub open spec fn appearance_line(a: HomonymAppearance) -> Seq<char> {
    "    "@ + a.context_name@ + " "@ + pattern_marker(a.sanctioned_by_pattern) + (if a.asymmetric {
        " [asymmetric]"@
    } else {
        seq![]
    }) + "\n"@
}

pub open spec fn appearance_lines(apps: Seq<HomonymAppearance>) -> Seq<char>
    decreases apps.len(),
{
    if apps.len() == 0 {
        seq![]
    } else {
        appearance_lines(apps.drop_last()) + appearance_line(apps.last())
    }
}

pub open spec fn homonym_lines(rs: Seq<HomonymRecord>) -> Seq<char>
    decreases rs.len(),
{
    if rs.len() == 0 {
        seq![]
    } else {
        homonym_lines(rs.drop_last()) + "  "@ + rs.last().name@ + "\n"@ + appearance_lines(
            rs.last().contexts@,
        )
    }
}

/// A section: nothing when it has no records, else its title and lines.
pub open spec fn section_text(title: Seq<char>, n: nat, lines: Seq<char>) -> Seq<char> {
    if n == 0 {
        seq![]
    } else {
        title + lines
    }
}

/// The records taken in `order`.
pub open spec fn in_order<T>(rs: Seq<T>, order: Seq<usize>) -> Seq<T> {
    order.map_values(|i: usize| rs[i as int])
}

/// `vo`, `to` and `ho` are the report orders of the verb-coverage entries,
/// tier counts and homonyms: each a stable sort of its section by key.
pub open spec fn report_orders(r: ReportOutput, vo: Seq<usize>, to: Seq<usize>, ho: Seq<usize>) -> bool {
    &&& is_permutation(vo, r.verb_coverage@.len())
    &&& sorted_stably(r.verb_coverage@.map_values(|x: VerbCoverageRecord| verb_key(x)), vo)
    &&& is_permutation(to, r.tier_histogram@.len())
    &&& sorted_stably(r.tier_histogram@.map_values(|x: TierHistogramRecord| tier_key(x)), to)
    &&& is_permutation(ho, r.homonyms@.len())
    &&& sorted_stably(r.homonyms@.map_values(|x: HomonymRecord| homonym_key(x)), ho)
}

/// The report orders are determined by the report: there is one stable
/// sort of each section.
pub proof fn report_orders_are_unique(
    r: ReportOutput,
    vo: Seq<usize>,
    to: Seq<usize>,
    ho: Seq<usize>,
    vo2: Seq<usize>,
    to2: Seq<usize>,
    ho2: Seq<usize>,
)
    requires
        report_orders(r, vo, to, ho),
        report_orders(r, vo2, to2, ho2),
    ensures
        vo == vo2,
        to == to2,
        ho == ho2,
{
    stable_orders_agree(r.verb_coverage@.map_values(|x: VerbCoverageRecord| verb_key(x)), vo, vo2);
    stable_orders_agree(r.tier_histogram@.map_values(|x: TierHistogramRecord| tier_key(x)), to, to2);
    stable_orders_agree(r.homonyms@.map_values(|x: HomonymRecord| homonym_key(x)), ho, ho2);
}

/// The text form of a report does not depend on how its sections were
/// sorted: every choice of report orders gives the same text.
pub proof fn report_text_is_determined(
    r: ReportOutput,
    vo: Seq<usize>,
    to: Seq<usize>,
    ho: Seq<usize>,
    vo2: Seq<usize>,
    to2: Seq<usize>,
    ho2: Seq<usize>,
)
    requires
        report_orders(r, vo, to, ho),
        report_orders(r, vo2, to2, ho2),
    ensures
        report_text_spec(r, vo, to, ho) == report_text_spec(r, vo2, to2, ho2),
{
    report_orders_are_unique(r, vo, to, ho, vo2, to2, ho2);
}

/// The text of the report with its records in the given orders.
pub open spec fn report_text_spec(r: ReportOutput, vo: Seq<usize>, to: Seq<usize>, ho: Seq<usize>) -> Seq<char> {
    section_text(
        "=== verb coverage ===\n"@,
        r.verb_coverage@.len(),
        verb_lines(in_order(r.verb_coverage@, vo)),
    ) + section_text(
        "=== tier histogram ===\n"@,
        r.tier_histogram@.len(),
        tier_lines(in_order(r.tier_histogram@, to)),
    ) + section_text("=== homonyms ===\n"@, r.homonyms@.len(), homonym_lines(in_order(r.homonyms@, ho)))
}

fn heading_exec(c: &Option<String>) -> (r: String)
    ensures
        r@ == heading_of(*c),
{
    match c {
        Some(s) => s.clone(),
        None => text_of("orphaned"),
    }
}

fn push_verb_line(t: &mut String, r: &VerbCoverageRecord)
    ensures
        final(t)@ == old(t)@ + verb_line(*r),
{
    let (path, line) = source_pair(&r.pub_fn.source);
    push_str(t, "    ");
    push_str(t, r.pub_fn.name.as_str());
    push_str(t, " (");
    push_str(t, path);
    push_str(t, ":");
    push_decimal(t, line);
    push_str(t, ") [");
    push_str(t, if r.cited { "cited" } else { "uncited" });
    push_str(t, "]\n");
    assert(t@ =~= old(t)@ + verb_line(*r));
}

fn verb_section(records: &Vec<VerbCoverageRecord>, order: &Vec<usize>) -> (t: String)
    requires
        forall|i: int| 0 <= i < order.len() ==> (#[trigger] order@[i]) < records.len(),
    ensures
        t@ == verb_lines(in_order(records@, order@)),
{
    let ghost rs = in_order(records@, order@);
    let mut t = String::new();
    let mut prev: Option<String> = None;
    let mut k: usize = 0;
    while k < order.len()
        invariant
            k <= order.len(),
            rs == in_order(records@, order@),
            forall|i: int| 0 <= i < order.len() ==> (#[trigger] order@[i]) < records.len(),
            t@ == verb_lines(rs.take(k as int)),
            prev.deep_view() == if k >= 1 {
                Some(heading_of(rs[k - 1].context))
            } else {
                None
            },
        decreases order.len() - k,
    {
        let r = &records[order[k]];
        assert(rs[k as int] == *r);
        assert(rs.take(k + 1).drop_last() =~= rs.take(k as int));
        assert(rs.take(k + 1).last() == *r);
        let h = heading_exec(&r.context);
        let ghost t0 = t@;
        let same = match &prev {
            Some(p) => crate::paths::same_text(p.as_str(), h.as_str()),
            None => false,
        };
        if !same {
            push_str(&mut t, "  [context: ");
            push_str(&mut t, h.as_str());
            push_str(&mut t, "]\n");
        }
        assert(t@ =~= t0 + heading_line(prev.deep_view(), h@));
        push_verb_line(&mut t, r);
        prev = Some(h);
        k = k + 1;
    }
    assert(rs.take(k as int) =~= rs);
    t
}

fn tier_section(records: &Vec<TierHistogramRecord>, order: &Vec<usize>) -> (t: String)
    requires
        forall|i: int| 0 <= i < order.len() ==> (#[trigger] order@[i]) < records.len(),
    ensures
        t@ == tier_lines(in_order(records@, order@)),
{
    let ghost rs = in_order(records@, order@);
    let mut t = String::new();
    let mut prev: Option<String> = None;
    let mut k: usize = 0;
    while k < order.len()
        invariant
            k <= order.len(),
            rs == in_order(records@, order@),
            forall|i: int| 0 <= i < order.len() ==> (#[trigger] order@[i]) < records.len(),
            t@ == tier_lines(rs.take(k as int)),
            prev.deep_view() == if k >= 1 {
                Some(heading_of(rs[k - 1].context))
            } else {
                None
            },
        decreases order.len() - k,
    {
        let r = &records[order[k]];
        assert(rs[k as int] == *r);
        assert(rs.take(k + 1).drop_last() =~= rs.take(k as int));
        assert(rs.take(k + 1).last() == *r);
        let h = heading_exec(&r.context);
        let ghost t0 = t@;
        let same = match &prev {
            Some(p) => crate::paths::same_text(p.as_str(), h.as_str()),
            None => false,
        };
        if !same {
            push_str(&mut t, "  [context: ");
            push_str(&mut t, h.as_str());
            push_str(&mut t, "]\n");
        }
        assert(t@ =~= t0 + heading_line(prev.deep_view(), h@));
        let ghost t1 = t@;
        push_str(&mut t, "    ");
        push_str(&mut t, tier_label_exec(r.tier));
        push_str(&mut t, ": ");
        push_decimal(&mut t, r.count);
        push_str(&mut t, "\n");
        assert(t@ =~= t1 + tier_line(*r));
        prev = Some(h);
        k = k + 1;
    }
    assert(rs.take(k as int) =~= rs);
    t
}

fn pattern_marker_exec(p: &Option<ContextPattern>) -> (r: &'static str)
    ensures
        r@ == pattern_marker(*p),
{
    match p {
        Some(ContextPattern::PublishedLanguage) => "[PublishedLanguage]",
        Some(ContextPattern::SharedKernel) => "[SharedKernel]",
        _ => "[!]",
    }
}

fn homonym_section(records: &Vec<HomonymRecord>, order: &Vec<usize>) -> (t: String)
    requires
        forall|i: int| 0 <= i < order.len() ==> (#[trigger] order@[i]) < records.len(),
    ensures
        t@ == homonym_lines(in_order(records@, order@)),
{
    let ghost rs = in_order(records@, order@);
    let mut t = String::new();
    let mut k: usize = 0;
    while k < order.len()
        invariant
            k <= order.len(),
            rs == in_order(records@, order@),
            forall|i: int| 0 <= i < order.len() ==> (#[trigger] order@[i]) < records.len(),
            t@ == homonym_lines(rs.take(k as int)),
        decreases order.len() - k,
    {
        let r = &records[order[k]];
        assert(rs[k as int] == *r);
        assert(rs.take(k + 1).drop_last() =~= rs.take(k as int));
        assert(rs.take(k + 1).last() == *r);
        let ghost t0 = t@;
        push_str(&mut t, "  ");
        push_str(&mut t, r.name.as_str());
        push_str(&mut t, "\n");
        let ghost t1 = t@;
        assert(t1 =~= t0 + "  "@ + r.name@ + "\n"@);
        let mut a: usize = 0;
        while a < r.contexts.len()
            invariant
                a <= r.contexts.len(),
                t@ =~= t1 + appearance_lines(r.contexts@.take(a as int)),
            decreases r.contexts.len() - a,
        {
            let app = &r.contexts[a];
            assert(r.contexts@.take(a + 1).drop_last() =~= r.contexts@.take(a as int));
            assert(r.contexts@.take(a + 1).last() == *app);
            let ghost t2 = t@;
            push_str(&mut t, "    ");
            push_str(&mut t, app.context_name.as_str());
            push_str(&mut t, " ");
            push_str(&mut t, pattern_marker_exec(&app.sanctioned_by_pattern));
            if app.asymmetric {
                push_str(&mut t, " [asymmetric]");
            }
            push_str(&mut t, "\n");
            assert(t@ =~= t2 + appearance_line(*app));
            a = a + 1;
        }
        assert(r.contexts@.take(a as int) =~= r.contexts@);
        k = k + 1;
    }
    assert(rs.take(k as int) =~= rs);
    t
}

/// The text form of the report: the verb-coverage, tier-histogram and
/// homonym sections, each omitted when empty, each in its report order
/// (which `report_orders_are_unique` shows to be determined).
pub fn emit_text(report: &ReportOutput) -> (t: String)
    ensures
        exists|vo: Seq<usize>, to: Seq<usize>, ho: Seq<usize>|
            #![trigger report_text_spec(*report, vo, to, ho)]
            report_orders(*report, vo, to, ho) && t@ == report_text_spec(*report, vo, to, ho),
{
    let vo = verb_coverage_order(&report.verb_coverage);
    let to = tier_histogram_order(&report.tier_histogram);
    let ho = homonym_order(&report.homonyms);
    let mut t = String::new();
    if report.verb_coverage.len() > 0 {
        push_str(&mut t, "=== verb coverage ===\n");
        let s = verb_section(&report.verb_coverage, &vo);
        push_str(&mut t, s.as_str());
    }
    let ghost a = t@;
    assert(a =~= section_text(
        "=== verb coverage ===\n"@,
        report.verb_coverage@.len(),
        verb_lines(in_order(report.verb_coverage@, vo@)),
    ));
    if report.tier_histogram.len() > 0 {
        push_str(&mut t, "=== tier histogram ===\n");
        let s = tier_section(&report.tier_histogram, &to);
        push_str(&mut t, s.as_str());
    }
    let ghost b = t@;
    assert(b =~= a + section_text(
        "=== tier histogram ===\n"@,
        report.tier_histogram@.len(),
        tier_lines(in_order(report.tier_histogram@, to@)),
    ));
    if report.homonyms.len() > 0 {
        push_str(&mut t, "=== homonyms ===\n");
        let s = homonym_section(&report.homonyms, &ho);
        push_str(&mut t, s.as_str());
    }
    assert(t@ =~= report_text_spec(*report, vo@, to@, ho@));
    t
}

} // verus!
