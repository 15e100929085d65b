//! The order of texts (by character) and of pairs and triples built from
//! them, and a sorted set of triples.
use vstd::prelude::*;
use crate::text::chars_of;

verus! {

/// `a` sorts before `b`: `str`'s order, character by character.
pub open spec fn text_lt(a: Seq<char>, b: Seq<char>) -> bool
    decreases a.len(),
{
    if a.len() == 0 {
        b.len() > 0
    } else if b.len() == 0 {
        false
    } else if a[0] != b[0] {
        (a[0] as int) < (b[0] as int)
    } else {
        text_lt(a.drop_first(), b.drop_first())
    }
}

/// No text sorts before itself.
pub proof fn lemma_text_lt_irreflexive(a: Seq<char>)
    ensures
        !text_lt(a, a),
    decreases a.len(),
{
    if a.len() > 0 {
        lemma_text_lt_irreflexive(a.drop_first());
    }
}

/// Sorting before is transitive.
pub proof fn lemma_text_lt_transitive(a: Seq<char>, b: Seq<char>, c: Seq<char>)
    requires
        text_lt(a, b),
        text_lt(b, c),
    ensures
        text_lt(a, c),
    decreases a.len(),
{
    if a.len() > 0 && b.len() > 0 && c.len() > 0 {
        if a[0] == b[0] && b[0] == c[0] {
            lemma_text_lt_transitive(a.drop_first(), b.drop_first(), c.drop_first());
        }
    }
}

/// Of two different texts, one sorts before the other.
pub proof fn lemma_text_lt_total(a: Seq<char>, b: Seq<char>)
    ensures
        a == b || text_lt(a, b) || text_lt(b, a),
    decreases a.len(),
{
    if a.len() > 0 && b.len() > 0 {
        if a[0] == b[0] {
            lemma_text_lt_total(a.drop_first(), b.drop_first());
            if a.drop_first() == b.drop_first() {
                assert(a =~= seq![a[0]] + a.drop_first());
                assert(b =~= seq![b[0]] + b.drop_first());
            }
        } else {
            assert((a[0] as int) != (b[0] as int));
        }
    } else if a.len() == 0 && b.len() == 0 {
        assert(a =~= b);
    }
}

/// Two texts never sort before each other.
pub proof fn lemma_text_lt_asymmetric(a: Seq<char>, b: Seq<char>)
    requires
        text_lt(a, b),
    ensures
        !text_lt(b, a),
{
    if text_lt(b, a) {
        lemma_text_lt_transitive(a, b, a);
        lemma_text_lt_irreflexive(a);
    }
}

/// Whether `a` sorts before `b`.
pub fn text_less(a: &str, b: &str) -> (r: bool)
    ensures
        r == text_lt(a@, b@),
{
    let av = chars_of(a);
    let bv = chars_of(b);
    let mut i: usize = 0;
    assert(a@.skip(0) =~= a@);
    assert(b@.skip(0) =~= b@);
    while i < av.len() && i < bv.len() && av[i] == bv[i]
        invariant
            i <= av.len(),
            i <= bv.len(),
            av@ == a@,
            bv@ == b@,
            text_lt(a@, b@) == text_lt(a@.skip(i as int), b@.skip(i as int)),
        decreases av.len() - i,
    {
        assert(a@.skip(i as int).drop_first() =~= a@.skip(i + 1));
        assert(b@.skip(i as int).drop_first() =~= b@.skip(i + 1));
        i = i + 1;
    }
    if i == av.len() {
        i < bv.len()
    } else if i == bv.len() {
        false
    } else {
        av[i] < bv[i]
    }
}

/// The order of (text, text, number) triples: by the first text, then the
/// second, then the number.
pub open spec fn triple_lt(x: (Seq<char>, Seq<char>, usize), y: (Seq<char>, Seq<char>, usize)) -> bool {
    text_lt(x.0, y.0) || (x.0 == y.0 && (text_lt(x.1, y.1) || (x.1 == y.1 && x.2 < y.2)))
}

/// The order of triples is transitive.
pub proof fn lemma_triple_lt_transitive(
    x: (Seq<char>, Seq<char>, usize),
    y: (Seq<char>, Seq<char>, usize),
    z: (Seq<char>, Seq<char>, usize),
)
    requires
        triple_lt(x, y),
        triple_lt(y, z),
    ensures
        triple_lt(x, z),
{
    if text_lt(x.0, y.0) && text_lt(y.0, z.0) {
        lemma_text_lt_transitive(x.0, y.0, z.0);
    }
    if x.0 == y.0 && y.0 == z.0 && text_lt(x.1, y.1) && text_lt(y.1, z.1) {
        lemma_text_lt_transitive(x.1, y.1, z.1);
    }
}

/// Of two different triples, one sorts before the other.
pub proof fn lemma_triple_lt_total(x: (Seq<char>, Seq<char>, usize), y: (Seq<char>, Seq<char>, usize))
    ensures
        x == y || triple_lt(x, y) || triple_lt(y, x),
{
    lemma_text_lt_total(x.0, y.0);
    lemma_text_lt_total(x.1, y.1);
}

/// No triple sorts before itself.
pub proof fn lemma_triple_lt_irreflexive(x: (Seq<char>, Seq<char>, usize))
    ensures
        !triple_lt(x, x),
{
    lemma_text_lt_irreflexive(x.0);
    lemma_text_lt_irreflexive(x.1);
}

pub open spec fn tview(t: (String, String, usize)) -> (Seq<char>, Seq<char>, usize) {
    (t.0@, t.1@, t.2)
}

/// Whether a sequence of triples is strictly increasing.
pub open spec fn strictly_sorted(s: Seq<(String, String, usize)>) -> bool {
    forall|i: int, j: int| 0 <= i < j < s.len() ==> triple_lt(tview(#[trigger] s[i]), tview(#[trigger] s[j]))
}

/// Whether a sequence of triples holds `t`.
pub open spec fn holds(s: Seq<(String, String, usize)>, t: (Seq<char>, Seq<char>, usize)) -> bool {
    exists|i: int| 0 <= i < s.len() && tview(#[trigger] s[i]) == t
}

fn triple_less(x: &(String, String, usize), y: &(String, String, usize)) -> (r: bool)
    ensures
        r == triple_lt(tview(*x), tview(*y)),
{
    if text_less(x.0.as_str(), y.0.as_str()) {
        return true;
    }
    if !crate::paths::same_text(x.0.as_str(), y.0.as_str()) {
        return false;
    }
    if text_less(x.1.as_str(), y.1.as_str()) {
        return true;
    }
    crate::paths::same_text(x.1.as_str(), y.1.as_str()) && x.2 < y.2
}

/// Adds `t` to a strictly increasing sequence of triples, where it belongs,
/// unless it is already there.
pub fn insert_sorted(s: &mut Vec<(String, String, usize)>, t: (String, String, usize))
    requires
        strictly_sorted(old(s)@),
    ensures
        strictly_sorted(final(s)@),
        forall|u: (Seq<char>, Seq<char>, usize)| #[trigger]
            holds(final(s)@, u) <==> (holds(old(s)@, u) || u == tview(t)),
{
    let mut p: usize = 0;
    while p < s.len() && triple_less(&s[p], &t)
        invariant
            p <= s.len(),
            s@ == old(s)@,
            strictly_sorted(s@),
            forall|i: int| 0 <= i < p ==> triple_lt(tview(#[trigger] s@[i]), tview(t)),
        decreases s.len() - p,
    {
        p = p + 1;
    }
    if p < s.len() && crate::paths::same_text(s[p].0.as_str(), t.0.as_str())
        && crate::paths::same_text(s[p].1.as_str(), t.1.as_str()) && s[p].2 == t.2 {
        assert(tview(s@[p as int]) == tview(t));
        return;
    }
    let ghost before = s@;
    let ghost tv = tview(t);
    proof {
        if p < before.len() {
            lemma_triple_lt_total(tview(before[p as int]), tv);
            assert(tview(before[p as int]) != tv);
            assert(triple_lt(tv, tview(before[p as int])));
        }
    }
    s.insert(p, t);
    assert(s@ =~= before.subrange(0, p as int).push(s@[p as int]) + before.subrange(
        p as int,
        before.len() as int,
    ));
    assert(tview(s@[p as int]) == tv);
    assert forall|i: int, j: int| 0 <= i < j < s@.len() implies triple_lt(
        tview(#[trigger] s@[i]),
        tview(#[trigger] s@[j]),
    ) by {
        if j < p {
            assert(s@[i] == before[i] && s@[j] == before[j]);
        } else if j == p {
            assert(s@[i] == before[i]);
        } else if i == p {
            assert(s@[j] == before[j - 1]);
            if j - 1 > p {
                assert(triple_lt(tview(before[p as int]), tview(before[j - 1])));
                lemma_triple_lt_transitive(tv, tview(before[p as int]), tview(before[j - 1]));
            }
        } else if i < p {
            assert(s@[i] == before[i] && s@[j] == before[j - 1]);
            assert(triple_lt(tview(before[i]), tv));
            lemma_triple_lt_transitive(tview(before[i]), tv, tview(before[p as int]));
            if j - 1 > p {
                lemma_triple_lt_transitive(tview(before[i]), tview(before[p as int]), tview(before[j - 1]));
            }
        } else {
            assert(s@[i] == before[i - 1] && s@[j] == before[j - 1]);
        }
    }
    assert forall|u: (Seq<char>, Seq<char>, usize)| #[trigger]
        holds(s@, u) <==> (holds(before, u) || u == tv) by {
        if holds(s@, u) {
            let i = choose|i: int| 0 <= i < s@.len() && tview(#[trigger] s@[i]) == u;
            if i < p {
                assert(s@[i] == before[i]);
            } else if i > p {
                assert(s@[i] == before[i - 1]);
            }
        }
        if holds(before, u) {
            let i = choose|i: int| 0 <= i < before.len() && tview(#[trigger] before[i]) == u;
            if i < p {
                assert(s@[i] == before[i]);
            } else {
                assert(s@[i + 1] == before[i]);
            }
        }
    }
}

/// A report sort key: whether the context is missing, the context, a name,
/// and a rank.
pub open spec fn key_view(k: (bool, String, String, usize)) -> (bool, Seq<char>, Seq<char>, usize) {
    (k.0, k.1@, k.2@, k.3)
}

/// The order of report keys: a present context before a missing one, then
/// by context, by name, by rank.
pub open spec fn key_lt(a: (bool, Seq<char>, Seq<char>, usize), b: (bool, Seq<char>, Seq<char>, usize)) -> bool {
    (!a.0 && b.0) || (a.0 == b.0 && (text_lt(a.1, b.1) || (a.1 == b.1 && (text_lt(a.2, b.2) || (
    a.2 == b.2 && a.3 < b.3)))))
}

/// The order of report keys is transitive.
pub proof fn lemma_key_lt_transitive(
    a: (bool, Seq<char>, Seq<char>, usize),
    b: (bool, Seq<char>, Seq<char>, usize),
    c: (bool, Seq<char>, Seq<char>, usize),
)
    requires
        key_lt(a, b),
        key_lt(b, c),
    ensures
        key_lt(a, c),
{
    if text_lt(a.1, b.1) && text_lt(b.1, c.1) {
        lemma_text_lt_transitive(a.1, b.1, c.1);
    }
    if text_lt(a.2, b.2) && text_lt(b.2, c.2) {
        lemma_text_lt_transitive(a.2, b.2, c.2);
    }
}

/// Of two different report keys, one sorts before the other.
pub proof fn lemma_key_lt_total(a: (bool, Seq<char>, Seq<char>, usize), b: (bool, Seq<char>, Seq<char>, usize))
    ensures
        a == b || key_lt(a, b) || key_lt(b, a),
{
    lemma_text_lt_total(a.1, b.1);
    lemma_text_lt_total(a.2, b.2);
}

/// No report key sorts before itself.
pub proof fn lemma_key_lt_irreflexive(a: (bool, Seq<char>, Seq<char>, usize))
    ensures
        !key_lt(a, a),
{
    lemma_text_lt_irreflexive(a.1);
    lemma_text_lt_irreflexive(a.2);
}

/// Two report keys never sort before each other.
pub proof fn lemma_key_lt_asymmetric(a: (bool, Seq<char>, Seq<char>, usize), b: (bool, Seq<char>, Seq<char>, usize))
    requires
        key_lt(a, b),
    ensures
        !key_lt(b, a),
{
    if key_lt(b, a) {
        lemma_key_lt_transitive(a, b, a);
        lemma_key_lt_irreflexive(a);
    }
}

fn key_less(a: &(bool, String, String, usize), b: &(bool, String, String, usize)) -> (r: bool)
    ensures
        r == key_lt(key_view(*a), key_view(*b)),
{
    if !a.0 && b.0 {
        return true;
    }
    if a.0 != b.0 {
        return false;
    }
    if text_less(a.1.as_str(), b.1.as_str()) {
        return true;
    }
    if !crate::paths::same_text(a.1.as_str(), b.1.as_str()) {
        return false;
    }
    if text_less(a.2.as_str(), b.2.as_str()) {
        return true;
    }
    crate::paths::same_text(a.2.as_str(), b.2.as_str()) && a.3 < b.3
}

/// Whether `order` lists each of `0..n` once.
pub open spec fn is_permutation(order: Seq<usize>, n: nat) -> bool {
    &&& order.len() == n
    &&& forall|i: int| 0 <= i < order.len() ==> (#[trigger] order[i]) < n
    &&& forall|i: int, j: int| 0 <= i < j < order.len() ==> order[i] != order[j]
}

/// Whether `order` lists the keys in order, equal keys in their own order.
pub open spec fn sorted_stably(keys: Seq<(bool, Seq<char>, Seq<char>, usize)>, order: Seq<usize>) -> bool {
    forall|i: int, j: int|
        0 <= i < j < order.len() ==> !key_lt(keys[#[trigger] order[j] as int], keys[#[trigger] order[i] as int]) && (
        keys[order[i] as int] == keys[order[j] as int] ==> order[i] < order[j])
}

/// Whether position `i` comes before position `j` in a stable sort of
/// `keys`: a smaller key, or an equal key that stood earlier.
pub open spec fn stably_before(keys: Seq<(bool, Seq<char>, Seq<char>, usize)>, i: int, j: int) -> bool {
    key_lt(keys[i], keys[j]) || (keys[i] == keys[j] && i < j)
}

proof fn lemma_sorted_before(keys: Seq<(bool, Seq<char>, Seq<char>, usize)>, o: Seq<usize>, a: int, b: int)
    requires
        is_permutation(o, keys.len()),
        sorted_stably(keys, o),
        0 <= a < b < o.len(),
    ensures
        stably_before(keys, o[a] as int, o[b] as int),
{
    let ka = keys[o[a] as int];
    let kb = keys[o[b] as int];
    assert(!key_lt(kb, ka));
    lemma_key_lt_total(ka, kb);
}

proof fn lemma_permutation_covers(o: Seq<usize>, n: nat, x: usize)
    requires
        is_permutation(o, n),
        x < n,
    ensures
        exists|p: int| 0 <= p < o.len() && o[p] == x,
{
    broadcast use vstd::seq_lib::seq_to_set_is_finite;

    let oi = o.map_values(|u: usize| u as int);
    assert forall|i: int, j: int| 0 <= i < oi.len() && 0 <= j < oi.len() && i != j implies oi[i] != oi[j] by {
        if i < j {
            assert(o[i] != o[j]);
        } else {
            assert(o[j] != o[i]);
        }
    }
    assert(oi.no_duplicates());
    oi.unique_seq_to_set();
    let range = vstd::set_lib::set_int_range(0, n as int);
    assert forall|v: int| oi.to_set().contains(v) implies range.contains(v) by {
        let i = choose|i: int| 0 <= i < oi.len() && oi[i] == v;
        assert(o[i] < n);
    }
    vstd::set_lib::lemma_int_range(0, n as int);
    vstd::set_lib::lemma_subset_equality(oi.to_set(), range);
    assert(range.contains(x as int));
    assert(oi.to_set().contains(x as int));
    let p = choose|p: int| 0 <= p < oi.len() && oi[p] == x as int;
    assert(o[p] == x);
}

proof fn lemma_orders_agree_at(
    keys: Seq<(bool, Seq<char>, Seq<char>, usize)>,
    o1: Seq<usize>,
    o2: Seq<usize>,
    a: int,
)
    requires
        is_permutation(o1, keys.len()),
        is_permutation(o2, keys.len()),
        sorted_stably(keys, o1),
        sorted_stably(keys, o2),
        0 <= a < o1.len(),
        forall|c: int| 0 <= c < a ==> o1[c] == o2[c],
    ensures
        o1[a] == o2[a],
{
    let x = o1[a];
    let y = o2[a];
    if x != y {
        lemma_permutation_covers(o1, keys.len(), y);
        let b = choose|p: int| 0 <= p < o1.len() && o1[p] == y;
        if b < a {
            assert(o2[b] == y);
        }
        lemma_sorted_before(keys, o1, a, b);
        lemma_permutation_covers(o2, keys.len(), x);
        let c = choose|p: int| 0 <= p < o2.len() && o2[p] == x;
        if c < a {
            assert(o1[c] == x);
        }
        lemma_sorted_before(keys, o2, a, c);
        let kx = keys[x as int];
        let ky = keys[y as int];
        lemma_key_lt_irreflexive(kx);
        lemma_key_lt_asymmetric(kx, ky);
    }
}

proof fn lemma_orders_agree_below(
    keys: Seq<(bool, Seq<char>, Seq<char>, usize)>,
    o1: Seq<usize>,
    o2: Seq<usize>,
    a: int,
)
    requires
        is_permutation(o1, keys.len()),
        is_permutation(o2, keys.len()),
        sorted_stably(keys, o1),
        sorted_stably(keys, o2),
        0 <= a <= o1.len(),
    ensures
        forall|c: int| 0 <= c < a ==> o1[c] == o2[c],
    decreases a,
{
    if a > 0 {
        lemma_orders_agree_below(keys, o1, o2, a - 1);
        lemma_orders_agree_at(keys, o1, o2, a - 1);
    }
}

/// Stable sorts agree: two orders that each list every position once and
/// each sort `keys` stably are the same order.
pub proof fn stable_orders_agree(
    keys: Seq<(bool, Seq<char>, Seq<char>, usize)>,
    o1: Seq<usize>,
    o2: Seq<usize>,
)
    requires
        is_permutation(o1, keys.len()),
        is_permutation(o2, keys.len()),
        sorted_stably(keys, o1),
        sorted_stably(keys, o2),
    ensures
        o1 == o2,
{
    lemma_orders_agree_below(keys, o1, o2, o1.len() as int);
    assert(o1 =~= o2);
}

/// The positions of `keys` in key order, keys that are equal in their
/// original order (a stable sort).
pub fn stable_order(keys: &Vec<(bool, String, String, usize)>) -> (order: Vec<usize>)
    ensures
        is_permutation(order@, keys.len() as nat),
        sorted_stably(keys@.map_values(|k: (bool, String, String, usize)| key_view(k)), order@),
{
    let ghost kv = keys@.map_values(|k: (bool, String, String, usize)| key_view(k));
    let mut order: Vec<usize> = Vec::new();
    let mut i: usize = 0;
    while i < keys.len()
        invariant
            i <= keys.len(),
            kv == keys@.map_values(|k: (bool, String, String, usize)| key_view(k)),
            is_permutation(order@, i as nat),
            sorted_stably(kv, order@),
        decreases keys.len() - i,
    {
        let mut p: usize = 0;
        while p < order.len() && !key_less(&keys[i], &keys[order[p]])
            invariant
                p <= order.len(),
                i < keys.len(),
                kv == keys@.map_values(|k: (bool, String, String, usize)| key_view(k)),
                is_permutation(order@, i as nat),
                forall|q: int| 0 <= q < p ==> !key_lt(kv[i as int], kv[#[trigger] order@[q] as int]),
            decreases order.len() - p,
        {
            p = p + 1;
        }
        let ghost before = order@;
        let ghost ki = kv[i as int];
        proof {
            if p < before.len() {
                assert(key_lt(ki, kv[before[p as int] as int]));
            }
        }
        order.insert(p, i);
        assert(order@ =~= before.subrange(0, p as int).push(i) + before.subrange(p as int, before.len() as int));
        assert forall|a: int, b: int| 0 <= a < b < order@.len() implies order@[a] != order@[b] by {
            if a < p && b < p {
                assert(order@[a] == before[a] && order@[b] == before[b]);
            } else if a < p && b == p {
                assert(order@[a] == before[a]);
            } else if a < p {
                assert(order@[a] == before[a] && order@[b] == before[b - 1]);
            } else if a == p {
                assert(order@[b] == before[b - 1]);
            } else {
                assert(order@[a] == before[a - 1] && order@[b] == before[b - 1]);
            }
        }
        assert forall|a: int| 0 <= a < order@.len() implies (#[trigger] order@[a]) < i + 1 by {
            if a < p {
                assert(order@[a] == before[a]);
            } else if a > p {
                assert(order@[a] == before[a - 1]);
            }
        }
        assert forall|a: int, b: int|
            0 <= a < b < order@.len() implies !key_lt(kv[#[trigger] order@[b] as int], kv[#[trigger] order@[a] as int]) && (
            kv[order@[a] as int] == kv[order@[b] as int] ==> order@[a] < order@[b]) by {
            if a < p && b < p {
                assert(order@[a] == before[a] && order@[b] == before[b]);
            } else if a < p && b == p {
                assert(order@[a] == before[a]);
                assert(!key_lt(ki, kv[before[a] as int]));
            } else if a < p && b > p {
                assert(order@[a] == before[a] && order@[b] == before[b - 1]);
            } else if a == p {
                let e = before[b - 1];
                assert(order@[b] == e);
                assert(key_lt(ki, kv[before[p as int] as int]));
                if b - 1 > p {
                    assert(!key_lt(kv[e as int], kv[before[p as int] as int]));
                    lemma_key_lt_total(kv[e as int], kv[before[p as int] as int]);
                    if kv[e as int] != kv[before[p as int] as int] {
                        lemma_key_lt_transitive(ki, kv[before[p as int] as int], kv[e as int]);
                    }
                }
                assert(key_lt(ki, kv[e as int]));
                lemma_key_lt_asymmetric(ki, kv[e as int]);
                lemma_key_lt_irreflexive(ki);
            } else {
                assert(order@[a] == before[a - 1] && order@[b] == before[b - 1]);
            }
        }
        i = i + 1;
    }
    order
}

} // verus!
