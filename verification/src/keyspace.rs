//! Reading a code-facts keyspace: the nodes and edges a fact extractor wrote
//! for a Rust or a PHP code base.
use vstd::prelude::*;
use crate::graph::{ConceptNode, SignatureState};
use crate::model::{LocationKind, Marker, Polarity, Provenance, ProvenanceV, ReaderError, ReaderErrorV, Source, SourceV};
use crate::paths::{
    file_module_segments, file_name, module_path_of_rel, module_path_text, module_segments,
    path_file_name, replace_backslashes, same_text, skip_char, strip_or_keep, trim_start_char,
    unbackslash,
};
use crate::text::{
    chars_of, equals_at, find_in, find_str, push_str, rfind_in, rfind_str, split_bounds,
    split_char, split_on, split_str, starts_with, starts_with_at, string_of, text_of,
};

verus! {

/// The value of a node property.
#[derive(Debug, Clone, PartialEq, Eq)]
pub enum PropValue {
    Str(String),
    Int(i64),
    Bool(bool),
    Other,
}

/// A node of the keyspace: its id, its label and its properties.
#[derive(Debug, Clone, PartialEq, Eq)]
pub struct FactNode {
    pub id: String,
    pub label: String,
    pub props: Vec<(String, PropValue)>,
}

/// An edge of the keyspace, from one node id to another.
#[derive(Debug, Clone, PartialEq, Eq)]
pub struct FactEdge {
    pub src: String,
    pub dst: String,
    pub label: String,
}

/// The value stored under `key`.
pub open spec fn lookup(props: Seq<(String, PropValue)>, key: Seq<char>) -> Option<PropValue>
    decreases props.len(),
{
    if props.len() == 0 {
        None
    } else if props[0].0@ == key {
        Some(props[0].1)
    } else {
        lookup(props.drop_first(), key)
    }
}

/// The text stored under `key`, when it is text.
pub open spec fn prop_str(n: FactNode, key: Seq<char>) -> Option<Seq<char>> {
    match lookup(n.props@, key) {
        Some(PropValue::Str(s)) => Some(s@),
        _ => None,
    }
}

/// A line number stored under `key`: the integer when it is one that fits,
/// else 0.
pub open spec fn prop_line(n: FactNode, key: Seq<char>) -> usize {
    match lookup(n.props@, key) {
        Some(PropValue::Int(i)) => if 0 <= i <= usize::MAX {
            i as usize
        } else {
            0
        },
        _ => 0,
    }
}

fn lookup_exec<'a>(n: &'a FactNode, key: &str) -> (r: Option<&'a PropValue>)
    ensures
        match r {
            Some(v) => lookup(n.props@, key@) == Some(*v),
            None => lookup(n.props@, key@) is None,
        },
{
    let len = n.props.len();
    let mut i: usize = 0;
    assert(n.props@.subrange(0, len as int) =~= n.props@);
    while i < len
        invariant
            i <= len == n.props@.len(),
            lookup(n.props@, key@) == lookup(n.props@.subrange(i as int, len as int), key@),
        decreases len - i,
    {
        assert(n.props@.subrange(i as int, len as int).drop_first() =~= n.props@.subrange(
            i + 1,
            len as int,
        ));
        if crate::paths::same_text(n.props[i].0.as_str(), key) {
            return Some(&n.props[i].1);
        }
        i = i + 1;
    }
    None
}

/// The text stored under `key`, when it is text.
pub fn prop<'a>(n: &'a FactNode, key: &str) -> (r: Option<&'a str>)
    ensures
        r.is_some() == prop_str(*n, key@).is_some(),
        r matches Some(s) ==> prop_str(*n, key@) == Some(s@),
{
    match lookup_exec(n, key) {
        Some(PropValue::Str(s)) => Some(s.as_str()),
        _ => None,
    }
}

/// The line number stored under `key`, or 0.
pub fn prop_usize(n: &FactNode, key: &str) -> (r: usize)
    ensures
        r == prop_line(*n, key@),
{
    match lookup_exec(n, key) {
        Some(PropValue::Int(i)) => {
            let i = *i;
            if i >= 0 && (i as u64) <= (usize::MAX as u64) {
                i as usize
            } else {
                0
            }
        },
        _ => 0,
    }
}

/// Whether the value under `key` is the boolean `true`.
pub open spec fn prop_true(n: FactNode, key: Seq<char>) -> bool {
    lookup(n.props@, key) == Some(PropValue::Bool(true))
}

pub fn prop_is_true(n: &FactNode, key: &str) -> (r: bool)
    ensures
        r == prop_true(*n, key@),
{
    match lookup_exec(n, key) {
        Some(PropValue::Bool(b)) => *b,
        _ => false,
    }
}

/// What follows the last `\` of a qualified name, or the whole name.
pub open spec fn short_name_spec(qname: Seq<char>) -> Seq<char> {
    match rfind_str(qname, seq!['\\']) {
        Some(i) => qname.skip(i + 1),
        None => qname,
    }
}

/// The last segment of a backslash-qualified name.
pub fn short_name(qname: &str) -> (r: String)
    ensures
        r@ == short_name_spec(qname@),
{
    let v = chars_of(qname);
    match rfind_in(&v, "\\") {
        Some(i) => {
            proof {
                reveal_strlit("\\");
                assert(seq!['\\'] =~= "\\"@);
            }
            let r = string_of(&v, i + 1, v.len());
            assert(r@ =~= qname@.skip(i + 1));
            r
        },
        None => {
            proof {
                reveal_strlit("\\");
                assert(seq!['\\'] =~= "\\"@);
            }
            text_of(qname)
        },
    }
}

/// The namespace a PHP qualified name sits in: the part before `::` with its
/// last `\` segment dropped.
pub open spec fn namespace_spec(qname: Seq<char>) -> Seq<char> {
    let head = match find_str(qname, "::"@) {
        Some(i) => qname.take(i),
        None => qname,
    };
    match rfind_str(head, seq!['\\']) {
        Some(i) => head.take(i),
        None => head,
    }
}

/// The namespace of a PHP qualified name.
pub fn namespace_of(qname: &str) -> (r: String)
    ensures
        r@ == namespace_spec(qname@),
{
    let v = chars_of(qname);
    let end = match find_in(&v, "::") {
        Some(i) => i,
        None => v.len(),
    };
    let head = string_of(&v, 0, end);
    assert(head@ =~= match find_str(qname@, "::"@) {
        Some(i) => qname@.take(i),
        None => qname@,
    });
    let hv = chars_of(head.as_str());
    proof {
        reveal_strlit("\\");
        assert(seq!['\\'] =~= "\\"@);
    }
    match rfind_in(&hv, "\\") {
        Some(i) => string_of(&hv, 0, i),
        None => {
            assert(hv@.subrange(0, hv.len() as int) =~= hv@);
            string_of(&hv, 0, hv.len())
        },
    }
}

/// The key a verb is known by: `Class::method` for a method, the short name
/// otherwise.
pub open spec fn anchor_key_spec(qname: Seq<char>, construct: Seq<char>) -> Seq<char> {
    if construct == "method_declaration"@ {
        match rfind_str(qname, "::"@) {
            Some(i) => short_name_spec(qname.take(i)) + "::"@ + qname.skip(i + 2),
            None => short_name_spec(qname),
        }
    } else {
        short_name_spec(qname)
    }
}

/// The key a PHP function or method is known by.
pub fn anchor_key(qname: &str, construct: &str) -> (r: String)
    ensures
        r@ == anchor_key_spec(qname@, construct@),
{
    if crate::paths::same_text(construct, "method_declaration") {
        let v = chars_of(qname);
        match rfind_in(&v, "::") {
            Some(i) => {
                proof {
                    reveal_strlit("::");
                }
                let class_path = string_of(&v, 0, i);
                let method = string_of(&v, i + 2, v.len());
                assert(class_path@ =~= qname@.take(i as int));
                assert(method@ =~= qname@.skip(i + 2));
                let mut r = short_name(class_path.as_str());
                push_str(&mut r, "::");
                push_str(&mut r, method.as_str());
                r
            },
            None => short_name(qname),
        }
    } else {
        short_name(qname)
    }
}

/// The extractor that wrote a keyspace.
#[derive(Debug, Clone, Copy, PartialEq, Eq, Structural)]
pub enum Producer {
    Rust,
    Php,
}

pub open spec fn producer_label(p: Producer) -> Seq<char> {
    match p {
        Producer::Rust => "rust (`crate` / `bounded_context`)"@,
        Producer::Php => "php (`php_construct`)"@,
    }
}

impl Producer {
    /// The producer and the marks it stamps, as messages name them.
    pub fn as_str(&self) -> (r: &'static str)
        ensures
            r@ == producer_label(*self),
    {
        match self {
            Producer::Rust => "rust (`crate` / `bounded_context`)",
            Producer::Php => "php (`php_construct`)",
        }
    }
}

/// The producer a node's marks point to: `php_construct` is PHP's,
/// `crate` or `bounded_context` Rust's.
pub open spec fn mark_spec(n: FactNode) -> Option<Producer> {
    if prop_str(n, "php_construct"@).is_some() {
        Some(Producer::Php)
    } else if prop_str(n, "crate"@).is_some() || prop_str(n, "bounded_context"@).is_some() {
        Some(Producer::Rust)
    } else {
        None
    }
}

pub fn mark_of(n: &FactNode) -> (r: Option<Producer>)
    ensures
        r == mark_spec(*n),
{
    if prop(n, "php_construct").is_some() {
        return Some(Producer::Php);
    }
    if prop(n, "crate").is_some() || prop(n, "bounded_context").is_some() {
        return Some(Producer::Rust);
    }
    None
}

/// Whether a node is a code item.
pub open spec fn is_item(n: FactNode) -> bool {
    n.label@ == "Item"@
}

/// What the producer scan has seen of the first `k` nodes: the first mark,
/// the first unmarked item, and the first pair of disagreeing marks.
pub struct ScanState {
    pub seen: Option<Producer>,
    pub unmarked: Option<int>,
    pub conflict: Option<(Producer, Producer)>,
}

pub open spec fn producer_scan(nodes: Seq<FactNode>, k: nat) -> ScanState
    decreases k,
{
    if k == 0 {
        ScanState { seen: None, unmarked: None, conflict: None }
    } else {
        let st = producer_scan(nodes, (k - 1) as nat);
        let n = nodes[k - 1];
        if st.conflict.is_some() || !is_item(n) {
            st
        } else {
            match mark_spec(n) {
                None => ScanState {
                    unmarked: if st.unmarked.is_none() {
                        Some(k - 1)
                    } else {
                        st.unmarked
                    },
                    ..st
                },
                Some(m) => match st.seen {
                    None => ScanState { seen: Some(m), ..st },
                    Some(f) => if f != m {
                        ScanState { conflict: Some((f, m)), ..st }
                    } else {
                        st
                    },
                },
            }
        }
    }
}

/// The name an item is called by in messages: its qualified name, its
/// name, or its id.
pub open spec fn item_name_spec(n: FactNode) -> Seq<char> {
    match prop_str(n, "qname"@) {
        Some(q) => q,
        None => match prop_str(n, "name"@) {
            Some(x) => x,
            None => n.id@,
        },
    }
}

pub fn item_name(n: &FactNode) -> (r: &str)
    ensures
        r@ == item_name_spec(*n),
{
    match prop(n, "qname") {
        Some(q) => q,
        None => match prop(n, "name") {
            Some(x) => x,
            None => n.id.as_str(),
        },
    }
}

pub open spec fn could_not_run_spec(keyspace: Seq<char>, cause: Seq<char>) -> ReaderErrorV {
    ReaderErrorV::ParseFailed {
        path: keyspace,
        line: 0,
        message: "could not run the concept channel on this keyspace: "@ + cause,
    }
}

/// The refusal of a keyspace the concept channel cannot read.
pub fn could_not_run(keyspace: &str, cause: &str) -> (e: ReaderError)
    ensures
        e@ == could_not_run_spec(keyspace@, cause@),
{
    let mut message = text_of("could not run the concept channel on this keyspace: ");
    push_str(&mut message, cause);
    ReaderError::ParseFailed { path: text_of(keyspace), line: 0, message }
}

pub open spec fn two_producers_cause(first: Producer, second: Producer) -> Seq<char> {
    "the keyspace carries items of two producers \u{2014} "@ + producer_label(first) + " and "@
        + producer_label(second) + TWO_PRODUCERS_TAIL@
}

pub open spec fn unmarked_cause(name: Seq<char>) -> Seq<char> {
    "`"@ + name + UNMARKED_TAIL@
}

pub const TWO_PRODUCERS_TAIL: &'static str = " \u{2014} and graph-specs-011-php-ladder#4 invariant 7 rules one producer per keyspace, so neither side is read rather than one side dropped";

pub const UNMARKED_TAIL: &'static str = "` carries none of the marks a producer stamps \u{2014} neither `php_construct` nor `crate`/`bounded_context` (cfdb-045-polyglot-relationship-edges#3.2, the mark sets measured at cfdb 0.8.0) \u{2014} so which producer wrote this keyspace cannot be told, and the concept channel refuses rather than reading it as the other producer's shape";

/// Which producer wrote the keyspace: told by the marks of its items. A
/// keyspace with no items is Rust's; items of two producers refuse it. Where
/// an item carries `php_construct`, the keyspace is PHP's (and the PHP
/// reading refuses any item of no construct by name); otherwise an item of
/// no mark refuses it, since which producer wrote it cannot be told.
pub open spec fn discriminate_spec(keyspace: Seq<char>, nodes: Seq<FactNode>) -> Result<Producer, ReaderErrorV> {
    let st = producer_scan(nodes, nodes.len());
    match st.conflict {
        Some((f, m)) => Err(could_not_run_spec(keyspace, two_producers_cause(f, m))),
        None => if st.seen == Some(Producer::Php) {
            Ok(Producer::Php)
        } else {
            match st.unmarked {
                Some(k) => Err(could_not_run_spec(keyspace, unmarked_cause(item_name_spec(nodes[k])))),
                None => match st.seen {
                    Some(m) => Ok(m),
                    None => Ok(Producer::Rust),
                },
            }
        },
    }
}

/// Which producer wrote a keyspace.
pub fn discriminate(keyspace: &str, nodes: &Vec<FactNode>) -> (r: Result<Producer, ReaderError>)
    ensures
        match r {
            Ok(p) => discriminate_spec(keyspace@, nodes@) == Ok::<Producer, ReaderErrorV>(p),
            Err(e) => discriminate_spec(keyspace@, nodes@) == Err::<Producer, ReaderErrorV>(e@),
        },
{
    let mut seen: Option<Producer> = None;
    let mut unmarked: Option<usize> = None;
    let mut i: usize = 0;
    while i < nodes.len()
        invariant
            i <= nodes.len(),
            producer_scan(nodes@, i as nat) == (ScanState {
                seen,
                unmarked: match unmarked {
                    Some(k) => Some(k as int),
                    None => None,
                },
                conflict: None,
            }),
            unmarked matches Some(k) ==> k < i,
        decreases nodes.len() - i,
    {
        let n = &nodes[i];
        if crate::paths::same_text(n.label.as_str(), "Item") {
            match mark_of(n) {
                None => {
                    if unmarked.is_none() {
                        unmarked = Some(i);
                    }
                },
                Some(mark) => match seen {
                    None => {
                        seen = Some(mark);
                    },
                    Some(first) => {
                        if first != mark {
                            let mut cause = text_of(
                                "the keyspace carries items of two producers \u{2014} ",
                            );
                            push_str(&mut cause, first.as_str());
                            push_str(&mut cause, " and ");
                            push_str(&mut cause, mark.as_str());
                            push_str(&mut cause, TWO_PRODUCERS_TAIL);
                            proof {
                                assert(producer_scan(nodes@, (i + 1) as nat).conflict == Some(
                                    (first, mark),
                                ));
                                lemma_conflict_stays(nodes@, (i + 1) as nat, nodes@.len());
                            }
                            return Err(could_not_run(keyspace, cause.as_str()));
                        }
                    },
                },
            }
        }
        i = i + 1;
    }
    assert(nodes@.len() == i);
    if seen == Some(Producer::Php) {
        return Ok(Producer::Php);
    }
    match unmarked {
        Some(k) => {
            let mut cause = text_of("`");
            push_str(&mut cause, item_name(&nodes[k]));
            push_str(&mut cause, UNMARKED_TAIL);
            Err(could_not_run(keyspace, cause.as_str()))
        },
        None => match seen {
            Some(m) => Ok(m),
            None => Ok(Producer::Rust),
        },
    }
}

proof fn lemma_conflict_stays(nodes: Seq<FactNode>, k: nat, m: nat)
    requires
        k <= m,
        producer_scan(nodes, k).conflict.is_some(),
    ensures
        producer_scan(nodes, m) == producer_scan(nodes, k),
    decreases m - k,
{
    if k < m {
        lemma_conflict_stays(nodes, k, (m - 1) as nat);
    }
}

/// `s` without every trailing `c`.
pub open spec fn trim_end_char(s: Seq<char>, c: char) -> Seq<char>
    decreases s.len(),
{
    if s.len() > 0 && s.last() == c {
        trim_end_char(s.drop_last(), c)
    } else {
        s
    }
}

/// A file's path relative to `root`, both read with `/` for `\\`.
pub open spec fn relativize_spec(file: Seq<char>, root: Seq<char>) -> Seq<char> {
    trim_start_char(strip_or_keep(unbackslash(file), trim_end_char(unbackslash(root), '/')), '/')
}

/// A file's path relative to `root`.
pub fn relativize(file: &str, root: &str) -> (r: String)
    ensures
        r@ == relativize_spec(file@, root@),
{
    let file_norm = replace_backslashes(file);
    let root_norm = replace_backslashes(root);
    let rv = chars_of(root_norm.as_str());
    let mut e = rv.len();
    assert(rv@.take(rv.len() as int) =~= rv@);
    while e > 0 && rv[e - 1] == '/'
        invariant
            e <= rv.len(),
            trim_end_char(rv@, '/') == trim_end_char(rv@.take(e as int), '/'),
        decreases e,
    {
        assert(rv@.take(e as int).drop_last() =~= rv@.take(e - 1));
        e = e - 1;
    }
    assert(rv@.take(rv.len() as int) =~= rv@);
    let root_trim = string_of(&rv, 0, e);
    assert(root_trim@ =~= rv@.take(e as int));
    let fv = chars_of(file_norm.as_str());
    let n = fv.len();
    let mut start: usize = 0;
    if starts_with_at(&fv, 0, n, root_trim.as_str()) {
        start = root_trim.unicode_len();
    }
    assert(fv@.subrange(0, n as int) =~= fv@);
    assert(fv@.subrange(start as int, n as int) =~= strip_or_keep(
        unbackslash(file@),
        trim_end_char(unbackslash(root@), '/'),
    ));
    let start = skip_char(&fv, start, '/');
    string_of(&fv, start, n)
}

/// The directory of the unit a file at `rel` belongs to: what precedes
/// `/src/`, or the root's own name for a file under a top-level `src/`.
pub open spec fn crate_dir(rel: Seq<char>, root: Seq<char>) -> Option<Seq<char>> {
    match find_str(rel, "/src/"@) {
        Some(i) => Some(rel.take(i)),
        None => if starts_with(rel, "src/"@) {
            file_name(root)
        } else {
            None
        },
    }
}

pub fn crate_dir_of(rel: &str, root: &str) -> (r: Option<String>)
    ensures
        r.deep_view() == crate_dir(rel@, root@),
{
    let v = chars_of(rel);
    match find_in(&v, "/src/") {
        Some(i) => Some(string_of(&v, 0, i)),
        None => {
            assert(v@.subrange(0, v.len() as int) =~= v@);
            if starts_with_at(&v, 0, v.len(), "src/") {
                path_file_name(root)
            } else {
                None
            }
        },
    }
}

/// The directory names whose contents are never concepts.
pub open spec fn is_excluded_dir(seg: Seq<char>) -> bool {
    seg == "target"@ || seg == ".git"@ || seg == ".proofs"@ || seg
        == "tests"@ || seg == "benches"@ || seg == "examples"@ || seg == "node_modules"@
}

pub open spec fn in_excluded_dir(rel: Seq<char>) -> bool {
    exists|j: int|
        0 <= j < split_char(rel, '/').len() && is_excluded_dir(#[trigger] split_char(rel, '/')[j])
}

fn excluded_at(v: &Vec<char>, from: usize, to: usize) -> (r: bool)
    requires
        from <= to <= v.len(),
    ensures
        r == is_excluded_dir(v@.subrange(from as int, to as int)),
{
    equals_at(v, from, to, "target") || equals_at(v, from, to, ".git") || equals_at(
        v,
        from,
        to,
        ".proofs",
    ) || equals_at(v, from, to, "tests") || equals_at(
        v,
        from,
        to,
        "benches",
    ) || equals_at(v, from, to, "examples") || equals_at(v, from, to, "node_modules")
}

pub fn has_excluded_segment(rel: &str) -> (r: bool)
    ensures
        r == in_excluded_dir(rel@),
{
    let v = chars_of(rel);
    let n = v.len();
    let bounds = split_bounds(&v, 0, n, '/');
    assert(v@.subrange(0, n as int) =~= rel@);
    let mut k: usize = 0;
    while k < bounds.len()
        invariant
            k <= bounds.len(),
            n == v.len(),
            v@ == rel@,
            v@.subrange(0, n as int) == rel@,
            bounds.len() == split_char(rel@, '/').len(),
            forall|j: int|
                #![trigger bounds@[j]]
                0 <= j < bounds.len() ==> 0 <= bounds@[j].0 <= bounds@[j].1 <= n
                    && v@.subrange(bounds@[j].0 as int, bounds@[j].1 as int) == split_char(
                    v@.subrange(0, n as int),
                    '/',
                )[j],
            forall|j: int| 0 <= j < k ==> !is_excluded_dir(#[trigger] split_char(rel@, '/')[j]),
        decreases bounds.len() - k,
    {
        let b = bounds[k];
        if excluded_at(&v, b.0, b.1) {
            assert(is_excluded_dir(split_char(rel@, '/')[k as int]));
            return true;
        }
        k = k + 1;
    }
    false
}

/// Whether an item sits at the top of its file's module: its module path
/// does not run below the module the file itself is.
pub open spec fn top_level(n: FactNode, rel: Seq<char>, unit: Seq<char>) -> bool {
    match prop_str(n, "module_qpath"@) {
        None => true,
        Some(mq) => {
            let tail = split_str(mq, "::"@).drop_first();
            let fs = module_segments(rel, unit);
            !(tail.len() > fs.len() && tail.take(fs.len() as int) == fs)
        },
    }
}

pub fn is_top_level(n: &FactNode, rel: &str, unit: &str) -> (r: bool)
    ensures
        r == top_level(*n, rel@, unit@),
{
    let mq = match prop(n, "module_qpath") {
        None => return true,
        Some(mq) => mq,
    };
    let parts = split_on(mq, "::");
    let ghost tail = parts.deep_view().drop_first();
    let fs = file_module_segments(rel, unit);
    assert(split_str(mq@, "::"@).len() >= 1);
    assert(parts.deep_view().len() == parts.len());
    if parts.len() == 0 {
        return true;
    }
    assert(tail.len() == parts.len() - 1);
    if parts.len() - 1 <= fs.len() {
        return true;
    }
    let mut i: usize = 0;
    while i < fs.len()
        invariant
            i <= fs.len(),
            fs.len() < parts.len() - 1,
            tail == parts.deep_view().drop_first(),
            parts.deep_view() == split_str(mq@, "::"@),
            fs.deep_view() == module_segments(rel@, unit@),
            prop_str(*n, "module_qpath"@) == Some(mq@),
            forall|j: int| 0 <= j < i ==> tail[j] == fs.deep_view()[j],
        decreases fs.len() - i,
    {
        assert(tail[i as int] == parts@[i + 1]@);
        if !same_text(parts[i + 1].as_str(), fs[i].as_str()) {
            assert(tail.take(fs.len() as int)[i as int] != fs.deep_view()[i as int]);
            return true;
        }
        i = i + 1;
    }
    assert(tail.take(fs.len() as int) =~= fs.deep_view());
    false
}

/// The kinds of item that are concepts.
pub open spec fn is_concept_kind(k: Seq<char>) -> bool {
    k == "struct"@ || k == "enum"@ || k == "trait"@ || k == "type_alias"@
}

/// The concept a Rust item of the keyspace stands for, as its name and code
/// source: a public, non-test struct, enum, trait or type alias at the top of
/// its module, in a file of a unit and outside the excluded directories.
pub open spec fn item_concept(n: FactNode, root: Seq<char>) -> Option<(Seq<char>, SourceV)> {
    match prop_str(n, "kind"@) {
        None => None,
        Some(k) => if !is_concept_kind(k) || prop_str(n, "visibility"@) != Some("pub"@)
            || prop_true(n, "is_test"@) {
            None
        } else {
            match prop_str(n, "file"@) {
                None => None,
                Some(file) => {
                    let rel = relativize_spec(file, root);
                    if in_excluded_dir(rel) {
                        None
                    } else {
                        match crate_dir(rel, root) {
                            None => None,
                            Some(unit) => if !top_level(n, rel, unit) {
                                None
                            } else {
                                match prop_str(n, "name"@) {
                                    None => None,
                                    Some(name) => Some(
                                        (
                                            name,
                                            SourceV::Code {
                                                path: file,
                                                line: prop_line(n, "line"@),
                                                provenance: ProvenanceV {
                                                    module: Some(module_path_text(rel, unit)),
                                                    unit: Some(unit),
                                                    context: prop_str(n, "bounded_context"@),
                                                },
                                                location: LocationKind::Path,
                                            },
                                        ),
                                    ),
                                }
                            },
                        }
                    }
                },
            }
        },
    }
}

/// A concept node carrying `item_concept`'s name and source, with no
/// signature and no declared context.
pub open spec fn is_item_concept(c: ConceptNode, v: (Seq<char>, SourceV)) -> bool {
    c.name@ == v.0 && c.source@ == v.1 && c.signature == SignatureState::Absent
        && c.declared_context.is_none() && c.polarity == Polarity::Declared
        && c.marker == Marker::Unmarked
}

fn opt_string(s: Option<&str>) -> (r: Option<String>)
    ensures
        r.deep_view() == match s {
            Some(x) => Some(x@),
            None => None::<Seq<char>>,
        },
{
    match s {
        Some(x) => Some(text_of(x)),
        None => None,
    }
}

/// The concept a Rust item of the keyspace stands for.
pub fn item_to_concept(n: &FactNode, root: &str) -> (r: Option<ConceptNode>)
    ensures
        r.is_some() == item_concept(*n, root@).is_some(),
        r matches Some(c) ==> is_item_concept(c, item_concept(*n, root@).unwrap()),
{
    let kind = match prop(n, "kind") {
        None => return None,
        Some(k) => k,
    };
    let concept_kind = same_text(kind, "struct") || same_text(kind, "enum") || same_text(
        kind,
        "trait",
    ) || same_text(kind, "type_alias");
    if !concept_kind {
        return None;
    }
    let public = match prop(n, "visibility") {
        Some(v) => same_text(v, "pub"),
        None => false,
    };
    if !public {
        return None;
    }
    if prop_is_true(n, "is_test") {
        return None;
    }
    let file = match prop(n, "file") {
        None => return None,
        Some(f) => f,
    };
    let rel = relativize(file, root);
    if has_excluded_segment(rel.as_str()) {
        return None;
    }
    let unit = match crate_dir_of(rel.as_str(), root) {
        None => return None,
        Some(u) => u,
    };
    if !is_top_level(n, rel.as_str(), unit.as_str()) {
        return None;
    }
    let module = module_path_of_rel(rel.as_str(), unit.as_str());
    let context = opt_string(prop(n, "bounded_context"));
    let line = prop_usize(n, "line");
    let name = match prop(n, "name") {
        None => return None,
        Some(x) => text_of(x),
    };
    let source = Source::Code {
        path: text_of(file),
        line,
        provenance: Provenance { module: Some(module), unit: Some(unit), context },
        location: LocationKind::Path,
    };
    Some(ConceptNode::new(name, source, SignatureState::Absent))
}

/// The concepts of a Rust keyspace, in node order.
pub open spec fn rust_concepts_spec(nodes: Seq<FactNode>, root: Seq<char>) -> Seq<(Seq<char>, SourceV)>
    decreases nodes.len(),
{
    if nodes.len() == 0 {
        seq![]
    } else {
        let rest = rust_concepts_spec(nodes.drop_last(), root);
        let n = nodes.last();
        if is_item(n) {
            match item_concept(n, root) {
                Some(c) => rest.push(c),
                None => rest,
            }
        } else {
            rest
        }
    }
}

/// The concepts a Rust keyspace holds: one per item that `item_to_concept`
/// reads as one.
pub fn rust_concepts(nodes: &Vec<FactNode>, root: &str) -> (out: Vec<ConceptNode>)
    ensures
        out.len() == rust_concepts_spec(nodes@, root@).len(),
        forall|i: int|
            0 <= i < out.len() ==> is_item_concept(
                #[trigger] out@[i],
                rust_concepts_spec(nodes@, root@)[i],
            ),
{
    let mut out: Vec<ConceptNode> = Vec::new();
    let mut i: usize = 0;
    while i < nodes.len()
        invariant
            i <= nodes.len(),
            out.len() == rust_concepts_spec(nodes@.take(i as int), root@).len(),
            forall|j: int|
                0 <= j < out.len() ==> is_item_concept(
                    #[trigger] out@[j],
                    rust_concepts_spec(nodes@.take(i as int), root@)[j],
                ),
        decreases nodes.len() - i,
    {
        assert(nodes@.take(i + 1).drop_last() =~= nodes@.take(i as int));
        assert(nodes@.take(i + 1).last() == nodes@[i as int]);
        if same_text(nodes[i].label.as_str(), "Item") {
            if let Some(c) = item_to_concept(&nodes[i], root) {
                out.push(c);
            }
        }
        i = i + 1;
    }
    assert(nodes@.take(i as int) =~= nodes@);
    out
}

proof fn lemma_trim_end(s: Seq<char>, c: char)
    ensures
        trim_end_char(s, c).len() <= s.len(),
        s.take(trim_end_char(s, c).len() as int) == trim_end_char(s, c),
        forall|i: int| trim_end_char(s, c).len() <= i < s.len() ==> s[i] == c,
    decreases s.len(),
{
    if s.len() > 0 && s.last() == c {
        lemma_trim_end(s.drop_last(), c);
        let t = trim_end_char(s.drop_last(), c);
        assert(s.take(t.len() as int) =~= s.drop_last().take(t.len() as int));
        assert forall|i: int| t.len() <= i < s.len() implies s[i] == c by {
            if i < s.len() - 1 {
                assert(s.drop_last()[i] == s[i]);
            }
        }
    } else {
        assert(s.take(s.len() as int) =~= s);
    }
}

proof fn lemma_trim_start_run(s: Seq<char>, k: int, c: char)
    requires
        0 <= k <= s.len(),
        forall|i: int| 0 <= i < k ==> s[i] == c,
        k == s.len() || s[k] != c,
    ensures
        trim_start_char(s, c) == s.skip(k),
    decreases k,
{
    if k == 0 {
        assert(s.skip(0) =~= s);
    } else {
        lemma_trim_start_run(s.drop_first(), k - 1, c);
        assert(s.drop_first().skip(k - 1) =~= s.skip(k));
    }
}

/// The keyspace and the source walk agree on a file's module path: for a
/// file that is a plain relative path (no `\`, no empty or `.` component)
/// joined with `/` to a non-empty root, the keyspace's path relative to the
/// root is that relative path, and the walk's module path of the joined
/// file is the module path the keyspace reader builds from it.
pub proof fn keyspace_and_walk_agree_on_module_paths(root: Seq<char>, rel: Seq<char>, unit: Seq<char>)
    requires
        root.len() > 0,
        crate::paths::plain_relative(rel),
        rel[0] != '/',
    ensures
        relativize_spec(root + "/"@ + rel, root) == rel,
        crate::paths::rust_module_path(root + "/"@ + rel, root, Some(unit)) == Some(
            module_path_text(relativize_spec(root + "/"@ + rel, root), unit),
        ),
{
    reveal_strlit("/");
    let file = root + "/"@ + rel;
    assert("/"@ =~= seq!['/']);
    let ur = unbackslash(root);
    assert(unbackslash(file) =~= ur + seq!['/'] + rel) by {
        assert forall|i: int| 0 <= i < file.len() implies unbackslash(file)[i] == (ur + seq!['/']
            + rel)[i] by {
            if i > root.len() {
                assert(file[i] == rel[i - root.len() - 1]);
            }
        }
    }
    let t = trim_end_char(ur, '/');
    lemma_trim_end(ur, '/');
    let rest = (ur + seq!['/'] + rel).skip(t.len() as int);
    assert((ur + seq!['/'] + rel).take(t.len() as int) =~= t);
    assert(strip_or_keep(unbackslash(file), t) == rest);
    let k = ur.len() - t.len() + 1;
    assert(rest.skip(k) =~= rel);
    lemma_trim_start_run(rest, k, '/');
    crate::paths::module_path_of_a_joined_path(root, rel, unit);
}

} // verus!
