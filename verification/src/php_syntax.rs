//! What the PHP readers make of a PHP syntax tree: the `#[Spec(...)]`
//! attributes on classes, interfaces and enums, and the declarations a
//! signature block holds, reprinted token by token.
use vstd::prelude::*;
use crate::model::{ReaderError, ReaderErrorV};
use crate::paths::same_text;
use crate::php::{declaration_outcome, declaration_outcome_spec, Attributed};
use crate::text::{chars_of, is_ws, join, push_join, string_of, text_of, trim};

verus! {

/// A node of a PHP syntax tree as plain values: its grammar kind, the field
/// its parent holds it under, whether the grammar names it, whether it or a
/// node beneath it failed to parse, the source text it spans, the row it
/// starts on (counted from 0) and its children in order.
#[derive(Debug)]
pub struct SyntaxNode {
    pub kind: String,
    pub field: Option<String>,
    pub named: bool,
    pub has_error: bool,
    pub text: String,
    pub row: usize,
    pub children: Vec<SyntaxNode>,
}

/// The constructs a `#[Spec(...)]` attribute can declare a concept on.
pub open spec fn is_concept_construct(k: Seq<char>) -> bool {
    k == "class_declaration"@ || k == "interface_declaration"@ || k == "enum_declaration"@
}

fn concept_construct(k: &str) -> (r: bool)
    ensures
        r == is_concept_construct(k@),
{
    same_text(k, "class_declaration") || same_text(k, "interface_declaration") || same_text(
        k,
        "enum_declaration",
    )
}

/// The first of `cs` held under `field`.
pub open spec fn field_child(cs: Seq<SyntaxNode>, field: Seq<char>) -> Option<SyntaxNode>
    decreases cs.len(),
{
    if cs.len() == 0 {
        None
    } else if cs[0].field matches Some(f) && f@ == field {
        Some(cs[0])
    } else {
        field_child(cs.drop_first(), field)
    }
}

fn field_child_at(cs: &Vec<SyntaxNode>, field: &str) -> (r: Option<usize>)
    ensures
        match r {
            Some(i) => i < cs.len() && field_child(cs@, field@) == Some(cs@[i as int]),
            None => field_child(cs@, field@) is None,
        },
{
    let mut i: usize = 0;
    assert(cs@.subrange(0, cs@.len() as int) =~= cs@);
    while i < cs.len()
        invariant
            i <= cs.len(),
            field_child(cs@, field@) == field_child(cs@.subrange(i as int, cs@.len() as int), field@),
        decreases cs.len() - i,
    {
        assert(cs@.subrange(i as int, cs@.len() as int).drop_first() =~= cs@.subrange(
            i + 1,
            cs@.len() as int,
        ));
        let hit = match &cs[i].field {
            Some(f) => same_text(f.as_str(), field),
            None => false,
        };
        if hit {
            return Some(i);
        }
        i = i + 1;
    }
    None
}

/// The line a node starts on, counted from 1.
pub open spec fn line_of(n: SyntaxNode) -> usize {
    if n.row < usize::MAX {
        (n.row + 1) as usize
    } else {
        n.row
    }
}

fn line_at(n: &SyntaxNode) -> (l: usize)
    ensures
        l == line_of(*n),
{
    if n.row < usize::MAX {
        n.row + 1
    } else {
        n.row
    }
}

pub open spec fn is_quote(c: char) -> bool {
    c == '"' || c == '\''
}

/// `s` without its leading and trailing quote characters.
pub open spec fn trim_quotes(s: Seq<char>) -> Seq<char>
    decreases s.len(),
{
    if s.len() > 0 && is_quote(s[0]) {
        trim_quotes(s.drop_first())
    } else if s.len() > 0 && is_quote(s.last()) {
        trim_quotes(s.drop_last())
    } else {
        s
    }
}

fn trimmed_quotes(s: &str) -> (r: String)
    ensures
        r@ == trim_quotes(s@),
{
    let v = chars_of(s);
    let mut a: usize = 0;
    let mut b: usize = v.len();
    assert(v@.subrange(0, v.len() as int) =~= s@);
    while a < b && (v[a] == '"' || v[a] == '\'' || v[b - 1] == '"' || v[b - 1] == '\'')
        invariant
            a <= b <= v.len(),
            trim_quotes(v@.subrange(a as int, b as int)) == trim_quotes(s@),
        decreases b - a,
    {
        if v[a] == '"' || v[a] == '\'' {
            assert(v@.subrange(a as int, b as int).drop_first() =~= v@.subrange(a + 1, b as int));
            a = a + 1;
        } else {
            assert(v@.subrange(a as int, b as int).drop_last() =~= v@.subrange(a as int, b - 1));
            b = b - 1;
        }
    }
    string_of(&v, a, b)
}

/// The first named string among `cs`.
pub open spec fn string_child(cs: Seq<SyntaxNode>) -> Option<SyntaxNode>
    decreases cs.len(),
{
    if cs.len() == 0 {
        None
    } else if cs[0].named && (cs[0].kind@ == "encapsed_string"@ || cs[0].kind@ == "string"@) {
        Some(cs[0])
    } else {
        string_child(cs.drop_first())
    }
}

fn string_child_at(cs: &Vec<SyntaxNode>) -> (r: Option<usize>)
    ensures
        match r {
            Some(i) => i < cs.len() && string_child(cs@) == Some(cs@[i as int]),
            None => string_child(cs@) is None,
        },
{
    let mut i: usize = 0;
    assert(cs@.subrange(0, cs@.len() as int) =~= cs@);
    while i < cs.len()
        invariant
            i <= cs.len(),
            string_child(cs@) == string_child(cs@.subrange(i as int, cs@.len() as int)),
        decreases cs.len() - i,
    {
        assert(cs@.subrange(i as int, cs@.len() as int).drop_first() =~= cs@.subrange(
            i + 1,
            cs@.len() as int,
        ));
        let c = &cs[i];
        if c.named && (same_text(c.kind.as_str(), "encapsed_string") || same_text(
            c.kind.as_str(),
            "string",
        )) {
            return Some(i);
        }
        i = i + 1;
    }
    None
}

/// An attribute argument as its key, its value with the quotes trimmed
/// (empty when it holds no string) and its line; `None` for an argument
/// without a key.
pub open spec fn argument_entry(a: SyntaxNode) -> Option<(Seq<char>, Seq<char>, usize)> {
    if a.kind@ != "argument"@ {
        None
    } else {
        match field_child(a.children@, "name"@) {
            None => None,
            Some(k) => Some(
                (
                    k.text@,
                    match string_child(a.children@) {
                        Some(v) => trim_quotes(v.text@),
                        None => seq![],
                    },
                    line_of(a),
                ),
            ),
        }
    }
}

pub open spec fn argument_entries(cs: Seq<SyntaxNode>) -> Seq<(Seq<char>, Seq<char>, usize)>
    decreases cs.len(),
{
    if cs.len() == 0 {
        seq![]
    } else {
        let rest = argument_entries(cs.drop_last());
        match argument_entry(cs.last()) {
            Some(e) => rest.push(e),
            None => rest,
        }
    }
}

/// The (key, value, line) arguments of an attribute.
pub open spec fn arguments_spec(attribute: SyntaxNode) -> Seq<(Seq<char>, Seq<char>, usize)> {
    match field_child(attribute.children@, "parameters"@) {
        None => seq![],
        Some(p) => argument_entries(p.children@),
    }
}

pub open spec fn keys_view(keys: Seq<(String, String, usize)>) -> Seq<(Seq<char>, Seq<char>, usize)> {
    keys.map_values(|k: (String, String, usize)| (k.0@, k.1@, k.2))
}

fn arguments(attribute: &SyntaxNode) -> (r: Vec<(String, String, usize)>)
    ensures
        keys_view(r@) == arguments_spec(*attribute),
{
    let mut out: Vec<(String, String, usize)> = Vec::new();
    let p = match field_child_at(&attribute.children, "parameters") {
        None => {
            assert(keys_view(out@) =~= Seq::<(Seq<char>, Seq<char>, usize)>::empty());
            return out;
        },
        Some(i) => &attribute.children[i],
    };
    let cs = &p.children;
    let mut i: usize = 0;
    assert(keys_view(out@) =~= argument_entries(cs@.take(0)));
    while i < cs.len()
        invariant
            i <= cs.len(),
            keys_view(out@) == argument_entries(cs@.take(i as int)),
        decreases cs.len() - i,
    {
        let a = &cs[i];
        assert(cs@.take(i + 1).drop_last() =~= cs@.take(i as int));
        assert(cs@.take(i + 1).last() == cs@[i as int]);
        if same_text(a.kind.as_str(), "argument") {
            if let Some(k) = field_child_at(&a.children, "name") {
                let value = match string_child_at(&a.children) {
                    Some(v) => trimmed_quotes(a.children[v].text.as_str()),
                    None => String::new(),
                };
                let ghost before = out@;
                out.push((a.children[k].text.clone(), value, line_at(a)));
                assert(keys_view(out@) =~= keys_view(before).push(argument_entry(*a)->Some_0));
            }
        }
        i = i + 1;
    }
    assert(cs@.take(i as int) =~= cs@);
    out
}

/// The text of an attribute's first child: the attribute's name.
pub open spec fn attribute_name(a: SyntaxNode) -> Seq<char> {
    if a.children@.len() > 0 {
        a.children@[0].text@
    } else {
        seq![]
    }
}

/// Whether a node is the `Spec` attribute.
pub open spec fn is_spec_attribute(a: SyntaxNode) -> bool {
    a.kind@ == "attribute"@ && attribute_name(a) == "Spec"@
}

/// The first `Spec` attribute among `cs`.
pub open spec fn spec_in_group(cs: Seq<SyntaxNode>) -> Option<SyntaxNode>
    decreases cs.len(),
{
    if cs.len() == 0 {
        None
    } else if is_spec_attribute(cs[0]) {
        Some(cs[0])
    } else {
        spec_in_group(cs.drop_first())
    }
}

/// The first `Spec` attribute of the first group that holds one.
pub open spec fn spec_in_groups(groups: Seq<SyntaxNode>) -> Option<SyntaxNode>
    decreases groups.len(),
{
    if groups.len() == 0 {
        None
    } else {
        match spec_in_group(groups[0].children@) {
            Some(a) => Some(a),
            None => spec_in_groups(groups.drop_first()),
        }
    }
}

/// The keys of a declaration's `Spec` attribute; `None` where it carries
/// none.
pub open spec fn spec_keys_spec(n: SyntaxNode) -> Option<Seq<(Seq<char>, Seq<char>, usize)>> {
    match field_child(n.children@, "attributes"@) {
        None => None,
        Some(list) => match spec_in_groups(list.children@) {
            None => None,
            Some(a) => Some(arguments_spec(a)),
        },
    }
}

fn spec_attribute_at(cs: &Vec<SyntaxNode>) -> (r: Option<usize>)
    ensures
        match r {
            Some(i) => i < cs.len() && spec_in_group(cs@) == Some(cs@[i as int]),
            None => spec_in_group(cs@) is None,
        },
{
    let mut i: usize = 0;
    assert(cs@.subrange(0, cs@.len() as int) =~= cs@);
    while i < cs.len()
        invariant
            i <= cs.len(),
            spec_in_group(cs@) == spec_in_group(cs@.subrange(i as int, cs@.len() as int)),
        decreases cs.len() - i,
    {
        assert(cs@.subrange(i as int, cs@.len() as int).drop_first() =~= cs@.subrange(
            i + 1,
            cs@.len() as int,
        ));
        let a = &cs[i];
        let named = a.children.len() > 0 && same_text(a.children[0].text.as_str(), "Spec");
        if same_text(a.kind.as_str(), "attribute") && named {
            return Some(i);
        }
        proof {
            reveal_strlit("Spec");
            if a.children@.len() == 0 {
                assert(attribute_name(*a) =~= Seq::<char>::empty());
            }
            assert(cs@[i as int] == *a);
            if a.kind@ == "attribute"@ {
                assert(!named);
                if a.children@.len() > 0 {
                    assert(a.children@[0].text@ != "Spec"@);
                }
                assert(attribute_name(*a) != "Spec"@);
            }
            assert(!is_spec_attribute(cs@[i as int]));
        }
        i = i + 1;
    }
    None
}

fn spec_keys(n: &SyntaxNode) -> (r: Option<Vec<(String, String, usize)>>)
    ensures
        match r {
            Some(k) => spec_keys_spec(*n) == Some(keys_view(k@)),
            None => spec_keys_spec(*n) is None,
        },
{
    let list = match field_child_at(&n.children, "attributes") {
        None => return None,
        Some(i) => &n.children[i],
    };
    let groups = &list.children;
    let mut g: usize = 0;
    assert(groups@.subrange(0, groups@.len() as int) =~= groups@);
    while g < groups.len()
        invariant
            g <= groups.len(),
            field_child(n.children@, "attributes"@) == Some(*list),
            groups == list.children,
            spec_in_groups(groups@) == spec_in_groups(
                groups@.subrange(g as int, groups@.len() as int),
            ),
        decreases groups.len() - g,
    {
        assert(groups@.subrange(g as int, groups@.len() as int).drop_first() =~= groups@.subrange(
            g + 1,
            groups@.len() as int,
        ));
        assert(groups@.subrange(g as int, groups@.len() as int)[0] == groups@[g as int]);
        if let Some(a) = spec_attribute_at(&groups[g].children) {
            let keys = arguments(&groups[g].children[a]);
            assert(spec_in_groups(groups@) == Some(groups@[g as int].children@[a as int]));
            return Some(keys);
        }
        g = g + 1;
    }
    None
}

pub open spec fn attributed_view(a: Attributed) -> (Seq<char>, usize, Seq<(Seq<char>, Seq<char>, usize)>) {
    (a.concept@, a.line, keys_view(a.keys@))
}

/// What a node itself declares: a concept construct with a name and a
/// `Spec` attribute.
pub open spec fn own_attributed(n: SyntaxNode) -> Seq<(Seq<char>, usize, Seq<(Seq<char>, Seq<char>, usize)>)> {
    if is_concept_construct(n.kind@) && field_child(n.children@, "name"@) is Some
        && spec_keys_spec(n) is Some {
        seq![(field_child(n.children@, "name"@)->Some_0.text@, line_of(n), spec_keys_spec(n)->Some_0)]
    } else {
        seq![]
    }
}

/// Every attributed declaration of a tree, in document order: a node
/// before the nodes beneath it.
pub open spec fn collect_spec(n: SyntaxNode) -> Seq<(Seq<char>, usize, Seq<(Seq<char>, Seq<char>, usize)>)>
    decreases n, 1int,
{
    own_attributed(n) + collect_list(n.children@)
}

pub open spec fn collect_list(cs: Seq<SyntaxNode>) -> Seq<(Seq<char>, usize, Seq<(Seq<char>, Seq<char>, usize)>)>
    decreases cs, 0int,
{
    if cs.len() == 0 {
        seq![]
    } else {
        collect_list(cs.drop_last()) + collect_spec(cs.last())
    }
}

fn collect(n: &SyntaxNode, out: &mut Vec<Attributed>)
    ensures
        final(out)@.map_values(|a: Attributed| attributed_view(a)) == old(out)@.map_values(
            |a: Attributed| attributed_view(a),
        ) + collect_spec(*n),
    decreases n,
{
    let ghost base = out@.map_values(|a: Attributed| attributed_view(a));
    if concept_construct(n.kind.as_str()) {
        if let Some(k) = field_child_at(&n.children, "name") {
            if let Some(keys) = spec_keys(n) {
                out.push(Attributed { concept: n.children[k].text.clone(), line: line_at(n), keys });
            }
        }
    }
    assert(out@.map_values(|a: Attributed| attributed_view(a)) =~= base + own_attributed(*n));
    let cs = &n.children;
    let ghost mid = out@.map_values(|a: Attributed| attributed_view(a));
    let mut i: usize = 0;
    assert(collect_list(cs@.take(0)) =~= Seq::<(Seq<char>, usize, Seq<(Seq<char>, Seq<char>, usize)>)>::empty());
    while i < cs.len()
        invariant
            i <= cs.len(),
            cs == n.children,
            out@.map_values(|a: Attributed| attributed_view(a)) == mid + collect_list(
                cs@.take(i as int),
            ),
        decreases cs.len() - i,
    {
        assert(cs@.take(i + 1).drop_last() =~= cs@.take(i as int));
        assert(cs@.take(i + 1).last() == cs@[i as int]);
        let ghost before = out@.map_values(|a: Attributed| attributed_view(a));
        assert(decreases_to!(*n => n.children@[i as int]));
        collect(&cs[i], out);
        assert(mid + collect_list(cs@.take(i + 1)) =~= before + collect_spec(cs@[i as int]));
        i = i + 1;
    }
    assert(cs@.take(i as int) =~= cs@);
}

/// The error of a PHP source the grammar gave no tree for.
pub open spec fn no_tree_error() -> ReaderErrorV {
    ReaderErrorV::ParseFailed {
        path: "<php source>"@,
        line: 0,
        message: "the php grammar returned no tree"@,
    }
}

/// The `#[Spec(...)]` declarations of a PHP source, given the grammar's
/// tree of it; refused where the grammar gave none.
pub fn attributed(tree: Option<&SyntaxNode>) -> (r: Result<Vec<Attributed>, ReaderError>)
    ensures
        match tree {
            None => r matches Err(e) && e@ == no_tree_error(),
            Some(t) => r matches Ok(v) && v@.map_values(|a: Attributed| attributed_view(a))
                == collect_spec(*t),
        },
{
    match tree {
        None => Err(
            ReaderError::ParseFailed {
                path: text_of("<php source>"),
                line: 0,
                message: text_of("the php grammar returned no tree"),
            },
        ),
        Some(t) => {
            let mut out: Vec<Attributed> = Vec::new();
            collect(t, &mut out);
            assert(out@.map_values(|a: Attributed| attributed_view(a)) =~= collect_spec(*t));
            Ok(out)
        },
    }
}

/// The kinds a reprinted declaration leaves out: comments, attributes and
/// bodies.
pub open spec fn is_skipped_kind(k: Seq<char>) -> bool {
    k == "comment"@ || k == "attribute_list"@ || k == "declaration_list"@
}

/// The tokens of a node, left to right: the text of each leaf that is not
/// blank, outside comments, attributes and bodies.
pub open spec fn tokens_spec(n: SyntaxNode) -> Seq<Seq<char>>
    decreases n, 1int,
{
    if is_skipped_kind(n.kind@) {
        seq![]
    } else if n.children@.len() == 0 {
        if trim(n.text@).len() > 0 {
            seq![n.text@]
        } else {
            seq![]
        }
    } else {
        tokens_list(n.children@)
    }
}

pub open spec fn tokens_list(cs: Seq<SyntaxNode>) -> Seq<Seq<char>>
    decreases cs, 0int,
{
    if cs.len() == 0 {
        seq![]
    } else {
        tokens_list(cs.drop_last()) + tokens_spec(cs.last())
    }
}

fn tokens_of(n: &SyntaxNode, out: &mut Vec<String>)
    ensures
        final(out).deep_view() == old(out).deep_view() + tokens_spec(*n),
    decreases n,
{
    let k = n.kind.as_str();
    if same_text(k, "comment") || same_text(k, "attribute_list") || same_text(k, "declaration_list") {
        assert(out.deep_view() =~= old(out).deep_view() + tokens_spec(*n));
        return;
    }
    if n.children.len() == 0 {
        let v = chars_of(n.text.as_str());
        assert(v@.subrange(0, v.len() as int) =~= n.text@);
        let (a, b) = crate::text::trim_at(&v, 0, v.len());
        if a < b {
            out.push(n.text.clone());
        }
        assert(out.deep_view() =~= old(out).deep_view() + tokens_spec(*n));
        return;
    }
    let cs = &n.children;
    let ghost base = out.deep_view();
    let mut i: usize = 0;
    assert(tokens_list(cs@.take(0)) =~= Seq::<Seq<char>>::empty());
    while i < cs.len()
        invariant
            i <= cs.len(),
            cs == n.children,
            out.deep_view() == base + tokens_list(cs@.take(i as int)),
        decreases cs.len() - i,
    {
        assert(cs@.take(i + 1).drop_last() =~= cs@.take(i as int));
        assert(cs@.take(i + 1).last() == cs@[i as int]);
        let ghost before = out.deep_view();
        assert(decreases_to!(*n => n.children@[i as int]));
        tokens_of(&cs[i], out);
        assert(base + tokens_list(cs@.take(i + 1)) =~= before + tokens_spec(cs@[i as int]));
        i = i + 1;
    }
    assert(cs@.take(i as int) =~= cs@);
}

/// A declaration as a signature: its tokens joined by single spaces.
pub open spec fn reprinted(n: SyntaxNode) -> Seq<char> {
    join(tokens_spec(n), " "@)
}

/// Whether a node is a declaration a signature block can hold.
pub open spec fn is_declaration(k: Seq<char>) -> bool {
    is_concept_construct(k) || k == "method_declaration"@
}

/// The declarations of a tree, outermost first: a declaration's own
/// members are part of it, not declarations of their own.
pub open spec fn declarations_spec(n: SyntaxNode) -> Seq<Seq<char>>
    decreases n, 1int,
{
    if is_declaration(n.kind@) {
        seq![reprinted(n)]
    } else {
        declarations_list(n.children@)
    }
}

pub open spec fn declarations_list(cs: Seq<SyntaxNode>) -> Seq<Seq<char>>
    decreases cs, 0int,
{
    if cs.len() == 0 {
        seq![]
    } else {
        declarations_list(cs.drop_last()) + declarations_spec(cs.last())
    }
}

fn collect_declarations(n: &SyntaxNode, out: &mut Vec<String>)
    ensures
        final(out).deep_view() == old(out).deep_view() + declarations_spec(*n),
    decreases n,
{
    if concept_construct(n.kind.as_str()) || same_text(n.kind.as_str(), "method_declaration") {
        let mut tokens: Vec<String> = Vec::new();
        tokens_of(n, &mut tokens);
        assert(tokens.deep_view() =~= tokens_spec(*n));
        let mut r = String::new();
        push_join(&mut r, &tokens, " ");
        assert(r@ =~= reprinted(*n));
        out.push(r);
        assert(out.deep_view() =~= old(out).deep_view() + declarations_spec(*n));
        return;
    }
    let cs = &n.children;
    let ghost base = out.deep_view();
    let mut i: usize = 0;
    assert(declarations_list(cs@.take(0)) =~= Seq::<Seq<char>>::empty());
    while i < cs.len()
        invariant
            i <= cs.len(),
            cs == n.children,
            out.deep_view() == base + declarations_list(cs@.take(i as int)),
        decreases cs.len() - i,
    {
        assert(cs@.take(i + 1).drop_last() =~= cs@.take(i as int));
        assert(cs@.take(i + 1).last() == cs@[i as int]);
        let ghost before = out.deep_view();
        assert(decreases_to!(*n => n.children@[i as int]));
        collect_declarations(&cs[i], out);
        assert(base + declarations_list(cs@.take(i + 1)) =~= before + declarations_spec(cs@[i as int]));
        i = i + 1;
    }
    assert(cs@.take(i as int) =~= cs@);
    assert(out.deep_view() =~= base + declarations_spec(*n));
}

/// The signature a PHP block normalizes to, given the grammar's tree of the
/// tagged block: its one declaration reprinted, or why there is not
/// exactly one.
pub open spec fn normalized_spec(tree: Option<SyntaxNode>) -> Result<Seq<char>, Seq<char>> {
    match tree {
        None => Err("the php grammar returned no tree"@),
        Some(t) => if t.has_error {
            Err("the php grammar could not parse the block"@)
        } else {
            declaration_outcome_spec(declarations_spec(t))
        },
    }
}

/// Normalizes a PHP signature block from the grammar's tree of it (the
/// block as `php::tagged_block` tags it).
pub fn normalize_tree(tree: Option<&SyntaxNode>) -> (r: Result<String, String>)
    ensures
        match r {
            Ok(s) => normalized_spec(
                match tree {
                    Some(t) => Some(*t),
                    None => None,
                },
            ) == Ok::<Seq<char>, Seq<char>>(s@),
            Err(e) => normalized_spec(
                match tree {
                    Some(t) => Some(*t),
                    None => None,
                },
            ) == Err::<Seq<char>, Seq<char>>(e@),
        },
{
    match tree {
        None => Err(text_of("the php grammar returned no tree")),
        Some(t) => {
            if t.has_error {
                return Err(text_of("the php grammar could not parse the block"));
            }
            let mut decls: Vec<String> = Vec::new();
            collect_declarations(t, &mut decls);
            assert(decls.deep_view() =~= declarations_spec(*t));
            declaration_outcome(&decls)
        },
    }
}

} // verus!
