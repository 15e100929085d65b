//! Resolving the targets of `impl:` anchors against a code-facts keyspace.
use vstd::prelude::*;
use crate::keyspace::{
    crate_dir, has_excluded_segment, in_excluded_dir, is_item, prop, prop_is_true, prop_line,
    prop_str, prop_true, prop_usize, relativize, relativize_spec, short_name, short_name_spec,
    FactNode,
};
use crate::model::{LocationKind, Provenance, ProvenanceV, Source, SourceV};
use crate::paths::same_text;
use crate::text::{
    chars_of, push_str, rfind_in, rfind_str, split_on, split_str, string_of, text_of,
};

verus! {

/// What an anchor resolves to: a type, a function or a constant.
#[derive(Debug, Clone, Copy, PartialEq, Eq, Structural)]
pub enum AnchorKind {
    Type,
    Fn,
    Const,
}

/// A code item an anchor can name: its kind and where it is.
#[derive(Debug, Clone, PartialEq, Eq)]
pub struct AnchorTarget {
    pub kind: AnchorKind,
    pub source: Source,
}

/// What precedes the last `\` of a name, or the whole name.
pub open spec fn namespace_before_last(qname: Seq<char>) -> Seq<char> {
    match rfind_str(qname, seq!['\\']) {
        Some(i) => qname.take(i),
        None => qname,
    }
}

pub fn namespace_of(qname: &str) -> (r: String)
    ensures
        r@ == namespace_before_last(qname@),
{
    let v = chars_of(qname);
    proof {
        reveal_strlit("\\");
        assert(seq!['\\'] =~= "\\"@);
    }
    match rfind_in(&v, "\\") {
        Some(i) => string_of(&v, 0, i),
        None => {
            assert(v@.subrange(0, v.len() as int) =~= v@);
            string_of(&v, 0, v.len())
        },
    }
}

/// `Class::method` for a PHP method's qualified name.
pub open spec fn php_method_key_spec(qname: Seq<char>) -> Option<Seq<char>> {
    match rfind_str(qname, "::"@) {
        Some(i) => Some(short_name_spec(qname.take(i)) + "::"@ + qname.skip(i + 2)),
        None => None,
    }
}

pub fn php_method_key(qname: &str) -> (r: Option<String>)
    ensures
        r.deep_view() == php_method_key_spec(qname@),
{
    let v = chars_of(qname);
    match rfind_in(&v, "::") {
        Some(i) => {
            proof {
                reveal_strlit("::");
            }
            let class_path = string_of(&v, 0, i);
            let method = string_of(&v, i + 2, v.len());
            assert(class_path@ =~= qname@.take(i as int));
            assert(method@ =~= qname@.skip(i + 2));
            let mut r = short_name(class_path.as_str());
            push_str(&mut r, "::");
            push_str(&mut r, method.as_str());
            Some(r)
        },
        None => None,
    }
}

/// `Type::method`: the last two `::` segments of a Rust method's name.
pub open spec fn method_key_spec(qname: Seq<char>) -> Option<Seq<char>> {
    let segs = split_str(qname, "::"@);
    if segs.len() >= 2 {
        Some(segs[segs.len() - 2] + "::"@ + segs[segs.len() - 1])
    } else {
        None
    }
}

pub fn method_key(qname: &str) -> (r: Option<String>)
    ensures
        r.deep_view() == method_key_spec(qname@),
{
    let segs = split_on(qname, "::");
    let n = segs.len();
    assert(segs.deep_view().len() == n);
    if n < 2 {
        return None;
    }
    let mut r = segs[n - 2].clone();
    push_str(&mut r, "::");
    push_str(&mut r, segs[n - 1].as_str());
    Some(r)
}

/// The kind of anchor target an item kind is.
pub open spec fn anchor_kind_of(kind: Seq<char>) -> Option<AnchorKind> {
    if kind == "struct"@ || kind == "enum"@ || kind == "trait"@ || kind == "type_alias"@ {
        Some(AnchorKind::Type)
    } else if kind == "fn"@ || kind == "method"@ {
        Some(AnchorKind::Fn)
    } else if kind == "const"@ || kind == "static"@ {
        Some(AnchorKind::Const)
    } else {
        None
    }
}

fn anchor_kind_exec(kind: &str) -> (r: Option<AnchorKind>)
    ensures
        r == anchor_kind_of(kind@),
{
    if same_text(kind, "struct") || same_text(kind, "enum") || same_text(kind, "trait")
        || same_text(kind, "type_alias") {
        Some(AnchorKind::Type)
    } else if same_text(kind, "fn") || same_text(kind, "method") {
        Some(AnchorKind::Fn)
    } else if same_text(kind, "const") || same_text(kind, "static") {
        Some(AnchorKind::Const)
    } else {
        None
    }
}

/// The key and target an item of the keyspace is indexed under: none for a
/// test item, an item in an excluded directory, an item with neither a file
/// nor a PHP construct, or a kind that is not a type, function or constant.
/// A PHP method is keyed `Class::method`, a Rust method `Type::method`, any
/// other item by its name; a PHP item without a file is located at its
/// namespace.
pub open spec fn index_entry_spec(n: FactNode, root: Seq<char>) -> Option<(Seq<char>, AnchorKind, SourceV)> {
    if prop_true(n, "is_test"@) {
        None
    } else {
        let construct = prop_str(n, "php_construct"@);
        let place: Option<(Seq<char>, LocationKind)> = match prop_str(n, "file"@) {
            Some(file) => if in_excluded_dir(relativize_spec(file, root)) {
                None
            } else {
                Some((file, LocationKind::Path))
            },
            None => match construct {
                Some(_) => match prop_str(n, "qname"@) {
                    Some(q) => Some((namespace_before_last(q), LocationKind::Namespace)),
                    None => None,
                },
                None => None,
            },
        };
        match place {
            None => None,
            Some((path, location)) => match prop_str(n, "kind"@) {
                None => None,
                Some(kind) => match anchor_kind_of(kind) {
                    None => None,
                    Some(ak) => {
                        let key: Option<Seq<char>> = if construct == Some("method_declaration"@) {
                            match prop_str(n, "qname"@) {
                                Some(q) => php_method_key_spec(q),
                                None => None,
                            }
                        } else if kind == "method"@ {
                            match prop_str(n, "qname"@) {
                                Some(q) => method_key_spec(q),
                                None => None,
                            }
                        } else {
                            prop_str(n, "name"@)
                        };
                        match key {
                            None => None,
                            Some(k) => Some(
                                (
                                    k,
                                    ak,
                                    SourceV::Code {
                                        path,
                                        line: prop_line(n, "line"@),
                                        provenance: ProvenanceV {
                                            module: None,
                                            unit: None,
                                            context: None,
                                        },
                                        location,
                                    },
                                ),
                            ),
                        }
                    },
                },
            },
        }
    }
}

/// The key and anchor target of a keyspace item.
pub fn index_entry(n: &FactNode, root: &str) -> (r: Option<(String, AnchorTarget)>)
    ensures
        r.is_some() == index_entry_spec(*n, root@).is_some(),
        r matches Some(e) ==> index_entry_spec(*n, root@) == Some(
            (e.0@, e.1.kind, e.1.source@),
        ),
{
    if prop_is_true(n, "is_test") {
        return None;
    }
    let construct = prop(n, "php_construct");
    let (path, location) = match prop(n, "file") {
        Some(file) => {
            let rel = relativize(file, root);
            if has_excluded_segment(rel.as_str()) {
                return None;
            }
            (text_of(file), LocationKind::Path)
        },
        None => match construct {
            Some(_) => match prop(n, "qname") {
                Some(q) => (namespace_of(q), LocationKind::Namespace),
                None => return None,
            },
            None => return None,
        },
    };
    let kind = match prop(n, "kind") {
        None => return None,
        Some(k) => k,
    };
    let anchor_kind = match anchor_kind_exec(kind) {
        None => return None,
        Some(a) => a,
    };
    let is_php_method = match construct {
        Some(c) => same_text(c, "method_declaration"),
        None => false,
    };
    let key = if is_php_method {
        match prop(n, "qname") {
            Some(q) => php_method_key(q),
            None => None,
        }
    } else if same_text(kind, "method") {
        match prop(n, "qname") {
            Some(q) => method_key(q),
            None => None,
        }
    } else {
        match prop(n, "name") {
            Some(x) => Some(text_of(x)),
            None => None,
        }
    };
    let key = match key {
        None => return None,
        Some(k) => k,
    };
    let line = prop_usize(n, "line");
    Some(
        (
            key,
            AnchorTarget {
                kind: anchor_kind,
                source: Source::Code { path, line, provenance: Provenance::empty(), location },
            },
        ),
    )
}

/// The index entries of the first items of a keyspace, in node order.
pub open spec fn entries_spec(nodes: Seq<FactNode>, root: Seq<char>) -> Seq<(Seq<char>, AnchorKind, SourceV)>
    decreases nodes.len(),
{
    if nodes.len() == 0 {
        seq![]
    } else {
        let rest = entries_spec(nodes.drop_last(), root);
        let n = nodes.last();
        if is_item(n) {
            match index_entry_spec(n, root) {
                Some(e) => rest.push(e),
                None => rest,
            }
        } else {
            rest
        }
    }
}

/// The first entry under `key`.
pub open spec fn first_entry(entries: Seq<(Seq<char>, AnchorKind, SourceV)>, key: Seq<char>) -> Option<(AnchorKind, SourceV)>
    decreases entries.len(),
{
    if entries.len() == 0 {
        None
    } else if entries[0].0 == key {
        Some((entries[0].1, entries[0].2))
    } else {
        first_entry(entries.drop_first(), key)
    }
}

/// Anchor targets indexed from a keyspace; the first item indexed under a
/// key is the one it resolves to.
#[derive(Debug, Clone, PartialEq, Eq)]
pub struct CfdbAnchorResolver {
    pub entries: Vec<(String, AnchorTarget)>,
}

pub open spec fn entries_view(e: Seq<(String, AnchorTarget)>) -> Seq<(Seq<char>, AnchorKind, SourceV)> {
    e.map_values(|x: (String, AnchorTarget)| (x.0@, x.1.kind, x.1.source@))
}

impl CfdbAnchorResolver {
    /// Indexes the items of a keyspace's nodes.
    pub fn index(nodes: &Vec<FactNode>, root: &str) -> (r: CfdbAnchorResolver)
        ensures
            entries_view(r.entries@) == entries_spec(nodes@, root@),
    {
        let mut entries: Vec<(String, AnchorTarget)> = Vec::new();
        let mut i: usize = 0;
        while i < nodes.len()
            invariant
                i <= nodes.len(),
                entries_view(entries@) == entries_spec(nodes@.take(i as int), root@),
            decreases nodes.len() - i,
        {
            assert(nodes@.take(i + 1).drop_last() =~= nodes@.take(i as int));
            assert(nodes@.take(i + 1).last() == nodes@[i as int]);
            if same_text(nodes[i].label.as_str(), "Item") {
                if let Some(e) = index_entry(&nodes[i], root) {
                    let ghost before = entries@;
                    let ghost ev = (e.0@, e.1.kind, e.1.source@);
                    entries.push(e);
                    assert(entries_view(entries@) =~= entries_view(before).push(ev));
                }
            }
            i = i + 1;
        }
        assert(nodes@.take(i as int) =~= nodes@);
        CfdbAnchorResolver { entries }
    }

    /// The target indexed first under `qname`.
    pub fn resolve(&self, qname: &str) -> (r: Option<&AnchorTarget>)
        ensures
            match r {
                Some(t) => first_entry(entries_view(self.entries@), qname@) == Some(
                    (t.kind, t.source@),
                ),
                None => first_entry(entries_view(self.entries@), qname@) is None,
            },
    {
        let ghost ev = entries_view(self.entries@);
        let n = self.entries.len();
        let mut i: usize = 0;
        assert(ev.subrange(0, n as int) =~= ev);
        while i < n
            invariant
                i <= n == self.entries.len(),
                ev == entries_view(self.entries@),
                first_entry(ev, qname@) == first_entry(ev.subrange(i as int, n as int), qname@),
            decreases n - i,
        {
            assert(ev.subrange(i as int, n as int).drop_first() =~= ev.subrange(i + 1, n as int));
            if same_text(self.entries[i].0.as_str(), qname) {
                return Some(&self.entries[i].1);
            }
            i = i + 1;
        }
        None
    }
}

} // verus!
