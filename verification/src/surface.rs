//! The declared surface: which unit owns a qualified name, by the prefixes
//! the contexts' `Owns` blocks declare.
use vstd::prelude::*;
use crate::assembly::OwnershipAmbiguity;
use crate::model::{ContextDecl, OwnedUnit};
use crate::paths::same_text;
use crate::text::{chars_of, starts_with, starts_with_at, text_of};

verus! {

/// Whether the prefix `unit` owns the name `q`: `q` is the prefix, or
/// continues it after a `\` namespace separator.
pub open spec fn owns_name(unit: Seq<char>, q: Seq<char>) -> bool {
    q == unit || starts_with(q, unit.push('\\'))
}

/// Whether the prefix `inner` lies beneath the prefix `outer`.
pub open spec fn nests_in(outer: Seq<char>, inner: Seq<char>) -> bool {
    starts_with(inner, outer.push('/')) || starts_with(inner, outer.push('\\'))
}

/// The longest of `units[..k]` that owns `q`; among equally long ones the
/// first.
pub open spec fn longest_owner(units: Seq<Seq<char>>, q: Seq<char>, k: nat) -> Option<int>
    decreases k,
{
    if k == 0 {
        None
    } else {
        let best = longest_owner(units, q, (k - 1) as nat);
        let u = units[k - 1];
        if owns_name(u, q) && (best matches Some(b) ==> units[b].len() < u.len()) {
            Some(k - 1)
        } else {
            best
        }
    }
}

/// The declared owners and the test namespaces of a code base: each
/// declared prefix with the context that declares it, and each test
/// namespace with the unit its tests exercise.
#[derive(Debug, Clone, PartialEq, Eq)]
pub struct DeclaredSurface {
    pub prefixes: Vec<(String, OwnedUnit)>,
    pub test_prefixes: Vec<(String, OwnedUnit)>,
}

pub open spec fn units_of(ps: Seq<(String, OwnedUnit)>) -> Seq<Seq<char>> {
    ps.map_values(|p: (String, OwnedUnit)| p.1@)
}

/// The unit that owns `q` on the declared surface.
pub open spec fn surface_unit(s: DeclaredSurface, q: Seq<char>) -> Option<Seq<char>> {
    let us = units_of(s.prefixes@);
    match longest_owner(us, q, us.len()) {
        Some(i) => Some(us[i]),
        None => None,
    }
}

/// The unit whose tests the test namespace owning `q` holds.
pub open spec fn surface_test_unit(s: DeclaredSurface, q: Seq<char>) -> Option<Seq<char>> {
    let ns = s.test_prefixes@.map_values(|p: (String, OwnedUnit)| p.0@);
    match longest_owner(ns, q, ns.len()) {
        Some(i) => Some(s.test_prefixes@[i].1@),
        None => None,
    }
}

fn owns_exec(unit: &str, q: &str) -> (r: bool)
    ensures
        r == owns_name(unit@, q@),
{
    if same_text(unit, q) {
        return true;
    }
    let mut with_sep = text_of(unit);
    with_sep.push('\\');
    let v = chars_of(q);
    assert(v@.subrange(0, v.len() as int) =~= q@);
    starts_with_at(&v, 0, v.len(), with_sep.as_str())
}

fn longest_owner_exec(ps: &Vec<(String, OwnedUnit)>, q: &str, by_key: bool) -> (r: Option<usize>)
    ensures
        match r {
            Some(i) => i < ps.len() && longest_owner(
                if by_key {
                    ps@.map_values(|p: (String, OwnedUnit)| p.0@)
                } else {
                    units_of(ps@)
                },
                q@,
                ps.len() as nat,
            ) == Some(i as int),
            None => longest_owner(
                if by_key {
                    ps@.map_values(|p: (String, OwnedUnit)| p.0@)
                } else {
                    units_of(ps@)
                },
                q@,
                ps.len() as nat,
            ) is None,
        },
{
    let ghost us = if by_key {
        ps@.map_values(|p: (String, OwnedUnit)| p.0@)
    } else {
        units_of(ps@)
    };
    let mut best: Option<usize> = None;
    let mut best_len: usize = 0;
    let mut k: usize = 0;
    while k < ps.len()
        invariant
            k <= ps.len(),
            us.len() == ps.len(),
            us == if by_key {
                ps@.map_values(|p: (String, OwnedUnit)| p.0@)
            } else {
                units_of(ps@)
            },
            match best {
                Some(b) => b < k && longest_owner(us, q@, k as nat) == Some(b as int) && best_len
                    == us[b as int].len(),
                None => longest_owner(us, q@, k as nat) is None,
            },
        decreases ps.len() - k,
    {
        let u: &str = if by_key {
            ps[k].0.as_str()
        } else {
            ps[k].1.0.as_str()
        };
        assert(u@ == us[k as int]);
        let ulen = u.unicode_len();
        if owns_exec(u, q) {
            let better = match best {
                Some(_) => best_len < ulen,
                None => true,
            };
            if better {
                best = Some(k);
                best_len = ulen;
            }
        }
        k = k + 1;
    }
    best
}

impl DeclaredSurface {
    /// A surface that declares nothing.
    pub fn empty() -> (s: DeclaredSurface)
        ensures
            s.prefixes@.len() == 0,
            s.test_prefixes@.len() == 0,
    {
        DeclaredSurface { prefixes: Vec::new(), test_prefixes: Vec::new() }
    }

    /// The unit that owns a qualified name: the longest declared prefix the
    /// name lies under.
    pub fn unit_of(&self, qname: &str) -> (r: Option<&str>)
        ensures
            r.is_some() == surface_unit(*self, qname@).is_some(),
            r matches Some(u) ==> surface_unit(*self, qname@) == Some(u@),
    {
        match longest_owner_exec(&self.prefixes, qname, false) {
            Some(i) => Some(self.prefixes[i].1.0.as_str()),
            None => None,
        }
    }

    /// The unit a test namespace owning the name belongs to.
    pub fn test_unit_of(&self, qname: &str) -> (r: Option<&str>)
        ensures
            r.is_some() == surface_test_unit(*self, qname@).is_some(),
            r matches Some(u) ==> surface_test_unit(*self, qname@) == Some(u@),
    {
        match longest_owner_exec(&self.test_prefixes, qname, true) {
            Some(i) => Some(self.test_prefixes[i].1.0.as_str()),
            None => None,
        }
    }
}

/// Every owned unit, with the index of the context that owns it, in context
/// order and then in `Owns` order.
pub open spec fn owned_entries(contexts: Seq<ContextDecl>) -> Seq<(int, Seq<char>, Seq<char>)>
    decreases contexts.len(),
{
    if contexts.len() == 0 {
        seq![]
    } else {
        let c = contexts.last();
        owned_entries(contexts.drop_last()) + c.owned_units@.map_values(
            |u: OwnedUnit| (contexts.len() - 1, c.name@, u@),
        )
    }
}

/// The first pair of units of two different contexts where one nests in
/// the other, scanning each unit against those before it.
pub open spec fn first_nesting(es: Seq<(int, Seq<char>, Seq<char>)>, k: nat) -> Option<(int, int)>
    decreases k,
{
    if k == 0 {
        None
    } else {
        match first_nesting(es, (k - 1) as nat) {
            Some(p) => Some(p),
            None => nesting_with(es, k - 1, (k - 1) as nat),
        }
    }
}

/// The first `j < m` whose unit and that of `k` nest, across contexts, as
/// (outer, inner).
pub open spec fn nesting_with(es: Seq<(int, Seq<char>, Seq<char>)>, k: int, m: nat) -> Option<(int, int)>
    decreases m,
{
    if m == 0 {
        None
    } else {
        match nesting_with(es, k, (m - 1) as nat) {
            Some(p) => Some(p),
            None => {
                let j = m - 1;
                if es[j].0 != es[k].0 && nests_in(es[j].2, es[k].2) {
                    Some((j, k))
                } else if es[j].0 != es[k].0 && nests_in(es[k].2, es[j].2) {
                    Some((k, j))
                } else {
                    None
                }
            },
        }
    }
}

fn nests_exec(outer: &str, inner: &str) -> (r: bool)
    ensures
        r == nests_in(outer@, inner@),
{
    let v = chars_of(inner);
    assert(v@.subrange(0, v.len() as int) =~= inner@);
    let mut a = text_of(outer);
    a.push('/');
    let mut b = text_of(outer);
    b.push('\\');
    starts_with_at(&v, 0, v.len(), a.as_str()) || starts_with_at(&v, 0, v.len(), b.as_str())
}

/// Whether `a` is the ambiguity between entries `o` (outer) and `i` (inner).
pub open spec fn is_ambiguity(a: OwnershipAmbiguity, es: Seq<(int, Seq<char>, Seq<char>)>, o: int, i: int) -> bool {
    a.outer_context@ == es[o].1 && a.outer@ == es[o].2 && a.inner_context@ == es[i].1
        && a.inner@ == es[i].2
}

impl DeclaredSurface {
    /// The surface the contexts declare: each owned unit as a prefix of the
    /// context that owns it. Refused when a unit of one context nests in a
    /// unit of another, since an item beneath the inner one would then have
    /// two owners.
    pub fn from_contexts(contexts: &Vec<ContextDecl>) -> (r: Result<DeclaredSurface, OwnershipAmbiguity>)
        ensures
            match r {
                Ok(s) => first_nesting(
                    owned_entries(contexts@),
                    owned_entries(contexts@).len(),
                ) is None && s.prefixes@.map_values(|p: (String, OwnedUnit)| (p.0@, p.1@))
                    == owned_entries(contexts@).map_values(
                    |e: (int, Seq<char>, Seq<char>)| (e.1, e.2),
                ) && s.test_prefixes@.len() == 0,
                Err(a) => first_nesting(owned_entries(contexts@), owned_entries(contexts@).len())
                    matches Some((o, i)) && is_ambiguity(a, owned_entries(contexts@), o, i),
            },
    {
        let mut entries: Vec<(usize, String, String)> = Vec::new();
        let ghost mut es: Seq<(int, Seq<char>, Seq<char>)> = seq![];
        let mut c: usize = 0;
        while c < contexts.len()
            invariant
                c <= contexts.len(),
                es == owned_entries(contexts@.take(c as int)),
                entries.len() == es.len(),
                forall|j: int|
                    0 <= j < entries.len() ==> (#[trigger] entries@[j]).0 as int == es[j].0
                        && entries@[j].1@ == es[j].1 && entries@[j].2@ == es[j].2,
            decreases contexts.len() - c,
        {
            let ctx = &contexts[c];
            assert(contexts@.take(c + 1).drop_last() =~= contexts@.take(c as int));
            assert(contexts@.take(c + 1).last() == *ctx);
            let ghost base = es;
            let ghost add = ctx.owned_units@.map_values(
                |u: OwnedUnit| ((c + 1) - 1, ctx.name@, u@),
            );
            assert(owned_entries(contexts@.take(c + 1)) == base + add);
            let mut u: usize = 0;
            while u < ctx.owned_units.len()
                invariant
                    u <= ctx.owned_units.len(),
                    es == base + add.take(u as int),
                    add.len() == ctx.owned_units.len(),
                    add == ctx.owned_units@.map_values(|u: OwnedUnit| ((c + 1) - 1, ctx.name@, u@)),
                    entries.len() == es.len(),
                    forall|j: int|
                        0 <= j < entries.len() ==> (#[trigger] entries@[j]).0 as int == es[j].0
                            && entries@[j].1@ == es[j].1 && entries@[j].2@ == es[j].2,
                decreases ctx.owned_units.len() - u,
            {
                entries.push((c, ctx.name.clone(), ctx.owned_units[u].0.clone()));
                proof {
                    es = es.push(add[u as int]);
                }
                assert(base + add.take(u + 1) =~= es);
                u = u + 1;
            }
            assert(add.take(u as int) =~= add);
            c = c + 1;
        }
        assert(contexts@.take(c as int) =~= contexts@);
        let mut k: usize = 0;
        while k < entries.len()
            invariant
                k <= entries.len() == es.len(),
                es == owned_entries(contexts@),
                forall|j: int|
                    0 <= j < entries.len() ==> (#[trigger] entries@[j]).0 as int == es[j].0
                        && entries@[j].1@ == es[j].1 && entries@[j].2@ == es[j].2,
                first_nesting(es, k as nat) is None,
            decreases entries.len() - k,
        {
            let mut j: usize = 0;
            while j < k
                invariant
                    j <= k < entries.len() == es.len(),
                    forall|q: int|
                        0 <= q < entries.len() ==> (#[trigger] entries@[q]).0 as int == es[q].0
                            && entries@[q].1@ == es[q].1 && entries@[q].2@ == es[q].2,
                    nesting_with(es, k as int, j as nat) is None,
                    es == owned_entries(contexts@),
                    first_nesting(es, k as nat) is None,
                decreases k - j,
            {
                if entries[j].0 != entries[k].0 {
                    if nests_exec(entries[j].2.as_str(), entries[k].2.as_str()) {
                        proof {
                            lemma_nesting_stays(es, k as int, (j + 1) as nat, k as nat);
                            lemma_first_stays(es, (k + 1) as nat, es.len());
                        }
                        return Err(
                            OwnershipAmbiguity {
                                outer_context: entries[j].1.clone(),
                                outer: OwnedUnit(entries[j].2.clone()),
                                inner_context: entries[k].1.clone(),
                                inner: OwnedUnit(entries[k].2.clone()),
                            },
                        );
                    }
                    if nests_exec(entries[k].2.as_str(), entries[j].2.as_str()) {
                        proof {
                            lemma_nesting_stays(es, k as int, (j + 1) as nat, k as nat);
                            lemma_first_stays(es, (k + 1) as nat, es.len());
                        }
                        return Err(
                            OwnershipAmbiguity {
                                outer_context: entries[k].1.clone(),
                                outer: OwnedUnit(entries[k].2.clone()),
                                inner_context: entries[j].1.clone(),
                                inner: OwnedUnit(entries[j].2.clone()),
                            },
                        );
                    }
                }
                j = j + 1;
            }
            k = k + 1;
        }
        let mut prefixes: Vec<(String, OwnedUnit)> = Vec::new();
        let mut q: usize = 0;
        while q < entries.len()
            invariant
                q <= entries.len() == es.len(),
                forall|j: int|
                    0 <= j < entries.len() ==> (#[trigger] entries@[j]).0 as int == es[j].0
                        && entries@[j].1@ == es[j].1 && entries@[j].2@ == es[j].2,
                prefixes@.map_values(|p: (String, OwnedUnit)| (p.0@, p.1@)) =~= es.take(
                    q as int,
                ).map_values(|e: (int, Seq<char>, Seq<char>)| (e.1, e.2)),
            decreases entries.len() - q,
        {
            let ghost before = prefixes@;
            let item = (entries[q].1.clone(), OwnedUnit(entries[q].2.clone()));
            prefixes.push(item);
            assert(prefixes@ == before.push(item));
            assert(es.take(q + 1) =~= es.take(q as int).push(es[q as int]));
            assert(prefixes@.map_values(|p: (String, OwnedUnit)| (p.0@, p.1@)) =~= before.map_values(
                |p: (String, OwnedUnit)| (p.0@, p.1@),
            ).push((es[q as int].1, es[q as int].2)));
            q = q + 1;
        }
        assert(es.take(q as int) =~= es);
        Ok(DeclaredSurface { prefixes, test_prefixes: Vec::new() })
    }
}

proof fn lemma_nesting_stays(es: Seq<(int, Seq<char>, Seq<char>)>, k: int, m: nat, n: nat)
    requires
        m <= n,
        nesting_with(es, k, m) is Some,
    ensures
        nesting_with(es, k, n) == nesting_with(es, k, m),
    decreases n - m,
{
    if m < n {
        lemma_nesting_stays(es, k, m, (n - 1) as nat);
    }
}

proof fn lemma_first_stays(es: Seq<(int, Seq<char>, Seq<char>)>, m: nat, n: nat)
    requires
        m <= n,
        first_nesting(es, m) is Some,
    ensures
        first_nesting(es, n) == first_nesting(es, m),
    decreases n - m,
{
    if m < n {
        lemma_first_stays(es, m, (n - 1) as nat);
    }
}

} // verus!
