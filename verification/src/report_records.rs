//! The machine-readable form of the verb-coverage report: one JSON record
//! per verb-coverage entry, tier count and homonym, each section in its
//! report order. Records are built as plain values; turning them into JSON
//! text is left to the caller.
use vstd::prelude::*;
use crate::model::{pattern_label, ContextPattern, TierKind};
use crate::records::{object_push, object_view, source_json, source_object, Scalar, ScalarV};
use crate::report::{
    homonym_order, in_order, report_orders, tier_histogram_order, verb_coverage_order,
    HomonymAppearance, HomonymRecord, ReportOutput, TierHistogramRecord,
    VerbCoverageRecord,
};

verus! {

/// The version of the report record schema every report record carries.
pub const REPORT_SCHEMA_VERSION: &'static str = "2";

/// A value a report record holds under a key.
#[derive(Debug, Clone, PartialEq, Eq)]
pub enum ReportValue {
    Scalar(Scalar),
    /// `{"name": .., "source": {..}}` of a public function.
    PubFn { name: String, source: Vec<(String, Scalar)> },
    /// An array of flat objects.
    Objects(Vec<Vec<(String, Scalar)>>),
}

pub enum ReportValueV {
    Scalar(ScalarV),
    PubFn(Seq<char>, Seq<(Seq<char>, ScalarV)>),
    Objects(Seq<Seq<(Seq<char>, ScalarV)>>),
}

impl View for ReportValue {
    type V = ReportValueV;

    open spec fn view(&self) -> ReportValueV {
        match self {
            ReportValue::Scalar(s) => ReportValueV::Scalar(s@),
            ReportValue::PubFn { name, source } => ReportValueV::PubFn(name@, object_view(source@)),
            ReportValue::Objects(os) => ReportValueV::Objects(
                os@.map_values(|o: Vec<(String, Scalar)>| object_view(o@)),
            ),
        }
    }
}

/// One report record: a JSON object whose keys are kept in insertion order.
#[derive(Debug, Clone, PartialEq, Eq)]
pub struct ReportRecord {
    pub fields: Vec<(String, ReportValue)>,
}

impl View for ReportRecord {
    type V = Seq<(Seq<char>, ReportValueV)>;

    open spec fn view(&self) -> Seq<(Seq<char>, ReportValueV)> {
        self.fields@.map_values(|e: (String, ReportValue)| (e.0@, e.1@))
    }
}

pub open spec fn text_entry(key: Seq<char>, value: Seq<char>) -> (Seq<char>, ReportValueV) {
    (key, ReportValueV::Scalar(ScalarV::Str(value)))
}

/// A context name, or `null` for records under no context.
pub open spec fn context_scalar(c: Option<Seq<char>>) -> ScalarV {
    match c {
        Some(s) => ScalarV::Str(s),
        None => ScalarV::Null,
    }
}

/// The wire name of a tier.
pub open spec fn tier_wire(t: TierKind) -> Seq<char> {
    match t {
        TierKind::Tier0 => "tier0"@,
        TierKind::Cypher => "cypher"@,
        TierKind::ScriptFence => "script_fence"@,
        TierKind::ProseOnly => "prose_only"@,
    }
}

/// Distinct tiers are written with distinct wire names, each the tier's
/// name in snake case: `tier0`, `cypher`, `script_fence`, `prose_only`.
pub proof fn tier_wire_names_are_distinct(a: TierKind, b: TierKind)
    ensures
        tier_wire(a) == tier_wire(b) ==> a == b,
        tier_wire(TierKind::ScriptFence) == "script_fence"@,
        tier_wire(TierKind::ProseOnly) == "prose_only"@,
        tier_wire(TierKind::Cypher) == "cypher"@,
        tier_wire(TierKind::Tier0) == "tier0"@,
{
    reveal_strlit("tier0");
    reveal_strlit("cypher");
    reveal_strlit("script_fence");
    reveal_strlit("prose_only");
    if tier_wire(a) == tier_wire(b) {
        assert(tier_wire(a).len() == tier_wire(b).len());
        assert(tier_wire(a)[0] == tier_wire(b)[0]);
    }
}

/// The record of a verb-coverage entry.
pub open spec fn verb_record(r: VerbCoverageRecord) -> Seq<(Seq<char>, ReportValueV)> {
    seq![
        text_entry("record"@, "verb_coverage"@),
        text_entry("schema_version"@, REPORT_SCHEMA_VERSION@),
        ("context"@, ReportValueV::Scalar(context_scalar(r.context.deep_view()))),
        ("pub_fn"@, ReportValueV::PubFn(r.pub_fn.name@, source_object(r.pub_fn.source@))),
        ("cited"@, ReportValueV::Scalar(ScalarV::Bool(r.cited))),
    ]
}

/// The record of a tier count.
pub open spec fn tier_record(r: TierHistogramRecord) -> Seq<(Seq<char>, ReportValueV)> {
    seq![
        text_entry("record"@, "tier_histogram"@),
        text_entry("schema_version"@, REPORT_SCHEMA_VERSION@),
        ("context"@, ReportValueV::Scalar(context_scalar(r.context.deep_view()))),
        text_entry("tier"@, tier_wire(r.tier)),
        ("count"@, ReportValueV::Scalar(ScalarV::Num(r.count))),
    ]
}

/// Tier counts of different tiers are written as different records.
pub proof fn tier_records_tell_tiers_apart(a: TierHistogramRecord, b: TierHistogramRecord)
    ensures
        a.tier != b.tier ==> tier_record(a) != tier_record(b),
{
    if a.tier != b.tier {
        tier_wire_names_are_distinct(a.tier, b.tier);
        assert(tier_record(a)[3] != tier_record(b)[3]);
    }
}

/// The sanctioning pattern's label, or `null` where none sanctions the use.
pub open spec fn pattern_scalar(p: Option<ContextPattern>) -> ScalarV {
    match p {
        Some(x) => ScalarV::Str(pattern_label(x)),
        None => ScalarV::Null,
    }
}

/// The object of one context's use of a homonym.
pub open spec fn appearance_object(a: HomonymAppearance) -> Seq<(Seq<char>, ScalarV)> {
    seq![
        ("context"@, ScalarV::Str(a.context_name@)),
        ("sanctioned_by_pattern"@, pattern_scalar(a.sanctioned_by_pattern)),
        ("asymmetric"@, ScalarV::Bool(a.asymmetric)),
    ]
}

/// The record of a homonym, its contexts in the order it lists them.
pub open spec fn homonym_record(r: HomonymRecord) -> Seq<(Seq<char>, ReportValueV)> {
    seq![
        text_entry("record"@, "homonym"@),
        text_entry("schema_version"@, REPORT_SCHEMA_VERSION@),
        text_entry("name"@, r.name@),
        ("contexts"@, ReportValueV::Objects(
            r.contexts@.map_values(|a: HomonymAppearance| appearance_object(a)),
        )),
    ]
}

/// The records of the report with its entries in the given orders: the
/// verb-coverage records, then the tier records, then the homonyms.
pub open spec fn report_records_spec(
    r: ReportOutput,
    vo: Seq<usize>,
    to: Seq<usize>,
    ho: Seq<usize>,
) -> Seq<Seq<(Seq<char>, ReportValueV)>> {
    in_order(r.verb_coverage@, vo).map_values(|x: VerbCoverageRecord| verb_record(x)) + in_order(
        r.tier_histogram@,
        to,
    ).map_values(|x: TierHistogramRecord| tier_record(x)) + in_order(r.homonyms@, ho).map_values(
        |x: HomonymRecord| homonym_record(x),
    )
}

fn push_field(fields: &mut Vec<(String, ReportValue)>, key: &str, value: ReportValue)
    ensures
        final(fields)@.map_values(|e: (String, ReportValue)| (e.0@, e.1@)) == old(
            fields,
        )@.map_values(|e: (String, ReportValue)| (e.0@, e.1@)).push((key@, value@)),
{
    let k = key.to_string();
    let ghost vv = value@;
    fields.push((k, value));
    assert(fields@.map_values(|e: (String, ReportValue)| (e.0@, e.1@)) =~= old(
        fields,
    )@.map_values(|e: (String, ReportValue)| (e.0@, e.1@)).push((key@, vv)));
}

fn text_value(s: &str) -> (v: ReportValue)
    ensures
        v@ == ReportValueV::Scalar(ScalarV::Str(s@)),
{
    ReportValue::Scalar(Scalar::Str(s.to_string()))
}

fn context_value(c: &Option<String>) -> (v: ReportValue)
    ensures
        v@ == ReportValueV::Scalar(context_scalar(c.deep_view())),
{
    match c {
        Some(s) => ReportValue::Scalar(Scalar::Str(s.clone())),
        None => ReportValue::Scalar(Scalar::Null),
    }
}

fn tier_wire_exec(t: TierKind) -> (r: &'static str)
    ensures
        r@ == tier_wire(t),
{
    match t {
        TierKind::Tier0 => "tier0",
        TierKind::Cypher => "cypher",
        TierKind::ScriptFence => "script_fence",
        TierKind::ProseOnly => "prose_only",
    }
}

/// The record of a verb-coverage entry.
pub fn verb_coverage_record(r: &VerbCoverageRecord) -> (rec: ReportRecord)
    ensures
        rec@ == verb_record(*r),
{
    let mut fields: Vec<(String, ReportValue)> = Vec::new();
    assert(fields@.map_values(|e: (String, ReportValue)| (e.0@, e.1@)) =~= seq![]);
    push_field(&mut fields, "record", text_value("verb_coverage"));
    push_field(&mut fields, "schema_version", text_value(REPORT_SCHEMA_VERSION));
    push_field(&mut fields, "context", context_value(&r.context));
    let source = source_json(&r.pub_fn.source);
    push_field(&mut fields, "pub_fn", ReportValue::PubFn { name: r.pub_fn.name.clone(), source });
    push_field(&mut fields, "cited", ReportValue::Scalar(Scalar::Bool(r.cited)));
    let rec = ReportRecord { fields };
    assert(rec@ =~= verb_record(*r));
    rec
}

/// The record of a tier count.
pub fn tier_histogram_record(r: &TierHistogramRecord) -> (rec: ReportRecord)
    ensures
        rec@ == tier_record(*r),
{
    let mut fields: Vec<(String, ReportValue)> = Vec::new();
    assert(fields@.map_values(|e: (String, ReportValue)| (e.0@, e.1@)) =~= seq![]);
    push_field(&mut fields, "record", text_value("tier_histogram"));
    push_field(&mut fields, "schema_version", text_value(REPORT_SCHEMA_VERSION));
    push_field(&mut fields, "context", context_value(&r.context));
    push_field(&mut fields, "tier", text_value(tier_wire_exec(r.tier)));
    push_field(&mut fields, "count", ReportValue::Scalar(Scalar::Num(r.count)));
    let rec = ReportRecord { fields };
    assert(rec@ =~= tier_record(*r));
    rec
}

fn appearance_json(a: &HomonymAppearance) -> (o: Vec<(String, Scalar)>)
    ensures
        object_view(o@) == appearance_object(*a),
{
    let mut o: Vec<(String, Scalar)> = Vec::new();
    assert(object_view(o@) =~= seq![]);
    object_push(&mut o, "context", Scalar::Str(a.context_name.clone()));
    let pattern = match &a.sanctioned_by_pattern {
        Some(p) => Scalar::Str(p.as_label().to_string()),
        None => Scalar::Null,
    };
    object_push(&mut o, "sanctioned_by_pattern", pattern);
    object_push(&mut o, "asymmetric", Scalar::Bool(a.asymmetric));
    assert(object_view(o@) =~= appearance_object(*a));
    o
}

/// The record of a homonym.
pub fn homonym_to_record(r: &HomonymRecord) -> (rec: ReportRecord)
    ensures
        rec@ == homonym_record(*r),
{
    let mut contexts: Vec<Vec<(String, Scalar)>> = Vec::new();
    let mut i: usize = 0;
    while i < r.contexts.len()
        invariant
            i <= r.contexts.len(),
            contexts@.map_values(|o: Vec<(String, Scalar)>| object_view(o@)) =~= r.contexts@.take(
                i as int,
            ).map_values(|a: HomonymAppearance| appearance_object(a)),
        decreases r.contexts.len() - i,
    {
        let ghost before = contexts@;
        let o = appearance_json(&r.contexts[i]);
        contexts.push(o);
        assert(contexts@.map_values(|o: Vec<(String, Scalar)>| object_view(o@)) =~= before.map_values(
            |o: Vec<(String, Scalar)>| object_view(o@),
        ).push(appearance_object(r.contexts@[i as int])));
        assert(r.contexts@.take(i + 1) =~= r.contexts@.take(i as int).push(r.contexts@[i as int]));
        i = i + 1;
    }
    assert(r.contexts@.take(i as int) =~= r.contexts@);
    let mut fields: Vec<(String, ReportValue)> = Vec::new();
    assert(fields@.map_values(|e: (String, ReportValue)| (e.0@, e.1@)) =~= seq![]);
    push_field(&mut fields, "record", text_value("homonym"));
    push_field(&mut fields, "schema_version", text_value(REPORT_SCHEMA_VERSION));
    push_field(&mut fields, "name", text_value(r.name.as_str()));
    push_field(&mut fields, "contexts", ReportValue::Objects(contexts));
    let rec = ReportRecord { fields };
    assert(rec@ =~= homonym_record(*r));
    rec
}

/// The records of the verb-coverage report: the verb-coverage entries
/// sorted by context (named contexts first) then function name, the tier
/// counts sorted by context then tier, and the homonyms sorted by name; each
/// sort stable (and so determined: see `report_orders_are_unique`).
pub fn emit_ndjson(report: &ReportOutput) -> (rs: Vec<ReportRecord>)
    ensures
        exists|vo: Seq<usize>, to: Seq<usize>, ho: Seq<usize>|
            #![trigger report_records_spec(*report, vo, to, ho)]
            report_orders(*report, vo, to, ho) && rs@.map_values(|x: ReportRecord| x@)
                == report_records_spec(*report, vo, to, ho),
{
    let vo = verb_coverage_order(&report.verb_coverage);
    let to = tier_histogram_order(&report.tier_histogram);
    let ho = homonym_order(&report.homonyms);
    let mut rs: Vec<ReportRecord> = Vec::new();
    let mut k: usize = 0;
    while k < vo.len()
        invariant
            k <= vo.len(),
            forall|i: int| 0 <= i < vo.len() ==> (#[trigger] vo@[i]) < report.verb_coverage.len(),
            rs@.map_values(|x: ReportRecord| x@) =~= in_order(report.verb_coverage@, vo@).take(
                k as int,
            ).map_values(|x: VerbCoverageRecord| verb_record(x)),
        decreases vo.len() - k,
    {
        let ghost before = rs@;
        let rec = verb_coverage_record(&report.verb_coverage[vo[k]]);
        rs.push(rec);
        assert(rs@.map_values(|x: ReportRecord| x@) =~= before.map_values(|x: ReportRecord| x@).push(
            verb_record(report.verb_coverage@[vo@[k as int] as int]),
        ));
        assert(in_order(report.verb_coverage@, vo@).take(k + 1) =~= in_order(
            report.verb_coverage@,
            vo@,
        ).take(k as int).push(report.verb_coverage@[vo@[k as int] as int]));
        k = k + 1;
    }
    let ghost a = rs@.map_values(|x: ReportRecord| x@);
    assert(in_order(report.verb_coverage@, vo@).take(k as int) =~= in_order(report.verb_coverage@, vo@));
    let mut k: usize = 0;
    while k < to.len()
        invariant
            k <= to.len(),
            forall|i: int| 0 <= i < to.len() ==> (#[trigger] to@[i]) < report.tier_histogram.len(),
            rs@.map_values(|x: ReportRecord| x@) =~= a + in_order(report.tier_histogram@, to@).take(
                k as int,
            ).map_values(|x: TierHistogramRecord| tier_record(x)),
        decreases to.len() - k,
    {
        let ghost before = rs@;
        let rec = tier_histogram_record(&report.tier_histogram[to[k]]);
        rs.push(rec);
        assert(rs@.map_values(|x: ReportRecord| x@) =~= before.map_values(|x: ReportRecord| x@).push(
            tier_record(report.tier_histogram@[to@[k as int] as int]),
        ));
        assert(in_order(report.tier_histogram@, to@).take(k + 1) =~= in_order(
            report.tier_histogram@,
            to@,
        ).take(k as int).push(report.tier_histogram@[to@[k as int] as int]));
        k = k + 1;
    }
    let ghost b = rs@.map_values(|x: ReportRecord| x@);
    assert(in_order(report.tier_histogram@, to@).take(k as int) =~= in_order(report.tier_histogram@, to@));
    let mut k: usize = 0;
    while k < ho.len()
        invariant
            k <= ho.len(),
            forall|i: int| 0 <= i < ho.len() ==> (#[trigger] ho@[i]) < report.homonyms.len(),
            rs@.map_values(|x: ReportRecord| x@) =~= b + in_order(report.homonyms@, ho@).take(
                k as int,
            ).map_values(|x: HomonymRecord| homonym_record(x)),
        decreases ho.len() - k,
    {
        let ghost before = rs@;
        let rec = homonym_to_record(&report.homonyms[ho[k]]);
        rs.push(rec);
        assert(rs@.map_values(|x: ReportRecord| x@) =~= before.map_values(|x: ReportRecord| x@).push(
            homonym_record(report.homonyms@[ho@[k as int] as int]),
        ));
        assert(in_order(report.homonyms@, ho@).take(k + 1) =~= in_order(report.homonyms@, ho@).take(
            k as int,
        ).push(report.homonyms@[ho@[k as int] as int]));
        k = k + 1;
    }
    assert(in_order(report.homonyms@, ho@).take(k as int) =~= in_order(report.homonyms@, ho@));
    assert(rs@.map_values(|x: ReportRecord| x@) =~= report_records_spec(*report, vo@, to@, ho@));
    rs
}

/// The records of a report do not depend on how its sections were sorted:
/// every choice of report orders gives the same records.
pub proof fn report_records_are_determined(
    r: ReportOutput,
    vo: Seq<usize>,
    to: Seq<usize>,
    ho: Seq<usize>,
    vo2: Seq<usize>,
    to2: Seq<usize>,
    ho2: Seq<usize>,
)
    requires
        report_orders(r, vo, to, ho),
        report_orders(r, vo2, to2, ho2),
    ensures
        report_records_spec(r, vo, to, ho) == report_records_spec(r, vo2, to2, ho2),
{
    crate::report::report_orders_are_unique(r, vo, to, ho, vo2, to2, ho2);
}

} // verus!
