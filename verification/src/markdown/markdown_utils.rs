//! Line arithmetic, path tests and context identifiers shared by the
//! markdown readers.
use crate::text::{
    ascii_lower, ascii_lowercase, chars_of, is_ascii_text, is_ws, join, lowercase, push_str, slice_chars,
    to_lowercase, word_bounds, words,
};
use vstd::string::StringSliceAdditionalSpecFns;
use vstd::prelude::*;

verus! {

/// Byte offsets at which the lines of a text start: 0, then one past every
/// `\n` byte.
pub open spec fn line_starts(b: Seq<u8>) -> Seq<usize>
    decreases b.len(),
{
    if b.len() == 0 {
        seq![0usize]
    } else {
        let r = line_starts(b.drop_last());
        if b.last() == 10u8 {
            r.push(b.len() as usize)
        } else {
            r
        }
    }
}

pub fn compute_line_starts(source: &str) -> (starts: Vec<usize>)
    ensures
        starts@ == line_starts(source.spec_bytes()),
{
    let bytes = source.as_bytes();
    let mut starts: Vec<usize> = Vec::new();
    starts.push(0);
    let mut i: usize = 0;
    while i < bytes.len()
        invariant
            i <= bytes@.len(),
            bytes@ == source.spec_bytes(),
            starts@ == line_starts(bytes@.take(i as int)),
        decreases bytes.len() - i,
    {
        assert(bytes@.take(i + 1).drop_last() =~= bytes@.take(i as int));
        if bytes[i] == 10u8 {
            starts.push(i + 1);
        }
        i = i + 1;
    }
    assert(bytes@.take(i as int) =~= bytes@);
    starts
}

/// How many of `starts` are at most `offset`.
pub open spec fn count_at_most(starts: Seq<usize>, offset: usize) -> nat
    decreases starts.len(),
{
    if starts.len() == 0 {
        0
    } else {
        count_at_most(starts.drop_last(), offset) + if starts.last() <= offset {
            1nat
        } else {
            0nat
        }
    }
}

/// The 1-based line holding `offset`: the number of line starts at or before
/// it, and never less than 1.
pub open spec fn line_number(starts: Seq<usize>, offset: usize) -> nat {
    let n = count_at_most(starts, offset);
    if n < 1 {
        1
    } else {
        n
    }
}

pub fn line_of_offset(starts: &[usize], offset: usize) -> (line: usize)
    ensures
        line == line_number(starts@, offset),
{
    let mut n: usize = 0;
    let mut i: usize = 0;
    while i < starts.len()
        invariant
            i <= starts@.len(),
            n == count_at_most(starts@.take(i as int), offset),
            n <= i,
        decreases starts.len() - i,
    {
        assert(starts@.take(i + 1).drop_last() =~= starts@.take(i as int));
        if starts[i] <= offset {
            n = n + 1;
        }
        i = i + 1;
    }
    assert(starts@.take(i as int) =~= starts@);
    if n < 1 {
        1
    } else {
        n
    }
}

/// `starts` opens at 0 and rises strictly.
pub open spec fn rising_from_zero(starts: Seq<usize>) -> bool {
    &&& starts.len() >= 1
    &&& starts[0] == 0
    &&& forall|i: int, j: int| 0 <= i < j < starts.len() ==> starts[i] < starts[j]
}

proof fn lemma_line_starts_rise(b: Seq<u8>)
    requires
        b.len() <= usize::MAX,
    ensures
        rising_from_zero(line_starts(b)),
        forall|i: int| 0 <= i < line_starts(b).len() ==> line_starts(b)[i] <= b.len(),
    decreases b.len(),
{
    if b.len() > 0 {
        lemma_line_starts_rise(b.drop_last());
    }
}

proof fn lemma_count_brackets(starts: Seq<usize>, offset: usize)
    requires
        rising_from_zero(starts),
    ensures
        1 <= count_at_most(starts, offset) <= starts.len(),
        starts[count_at_most(starts, offset) - 1] <= offset,
        count_at_most(starts, offset) == starts.len() || offset < starts[count_at_most(
            starts,
            offset,
        ) as int],
    decreases starts.len(),
{
    if starts.len() > 1 {
        let d = starts.drop_last();
        assert(rising_from_zero(d));
        lemma_count_brackets(d, offset);
        let l = count_at_most(d, offset);
        assert(count_at_most(starts, offset) == l + if starts.last() <= offset {
            1nat
        } else {
            0nat
        });
        if starts.last() <= offset {
            if l < d.len() {
                assert(starts[l as int] < starts[starts.len() - 1]);
            }
            assert(l == d.len());
            assert(starts[count_at_most(starts, offset) - 1] == starts.last());
        } else {
            assert(starts[l - 1] == d[l - 1]);
            if l < d.len() {
                assert(starts[l as int] == d[l as int]);
            }
        }
    } else {
        assert(starts.drop_last().len() == 0);
        assert(count_at_most(starts.drop_last(), offset) == 0);
    }
}

/// The lines of a text are well placed: its line starts open at 0, rise
/// strictly and lie within the text; the line `line_of_offset` gives an
/// offset is the one whose start is at or before it and whose successor's
/// start (if any) is after it; and the line of a line's start is that
/// line.
pub proof fn line_of_offset_brackets(b: Seq<u8>, offset: usize)
    requires
        b.len() <= usize::MAX,
    ensures
        rising_from_zero(line_starts(b)),
        forall|i: int| 0 <= i < line_starts(b).len() ==> line_starts(b)[i] <= b.len(),
        1 <= line_number(line_starts(b), offset) <= line_starts(b).len(),
        line_starts(b)[line_number(line_starts(b), offset) - 1] <= offset,
        line_number(line_starts(b), offset) == line_starts(b).len() || offset < line_starts(
            b,
        )[line_number(line_starts(b), offset) as int],
        forall|k: int|
            0 <= k < line_starts(b).len() ==> line_number(line_starts(b), #[trigger] line_starts(b)[k])
                == k + 1,
{
    let st = line_starts(b);
    lemma_line_starts_rise(b);
    lemma_count_brackets(st, offset);
    assert forall|k: int| 0 <= k < st.len() implies line_number(st, #[trigger] st[k]) == k + 1 by {
        lemma_count_brackets(st, st[k]);
        let l = count_at_most(st, st[k]);
        if l - 1 > k {
            assert(st[k] < st[l - 1]);
        }
        if l < k + 1 {
            assert(st[l as int] <= st[k]);
        }
    }
}

/// `p[i..j]` is one `/`-separated segment of the path `p`.
pub open spec fn segment_at(p: Seq<char>, i: int, j: int) -> bool {
    &&& 0 <= i <= j <= p.len()
    &&& (i == 0 || p[i - 1] == '/')
    &&& (j == p.len() || p[j] == '/')
    &&& forall|k: int| i <= k < j ==> p[k] != '/'
}

/// Some component of the path `p` is `name`: the root `/`, a leading `.`,
/// or a non-empty segment other than an inner `.`
/// (`Path::components`, compared by `as_os_str`).
pub open spec fn has_component(p: Seq<char>, name: Seq<char>) -> bool {
    ||| name == "/"@ && p.len() > 0 && p[0] == '/'
    ||| exists|i: int, j: int|
        #![trigger p.subrange(i, j)]
        segment_at(p, i, j) && p.subrange(i, j) == name && name.len() > 0 && (name != "."@ || i
            == 0)
}

/// `pv[from..to]` holds exactly the characters of `nv`.
fn same_chars(pv: &Vec<char>, from: usize, to: usize, nv: &Vec<char>) -> (b: bool)
    requires
        from <= to <= pv.len(),
    ensures
        b == (pv@.subrange(from as int, to as int) == nv@),
{
    if to - from != nv.len() {
        return false;
    }
    let mut k: usize = 0;
    while k < nv.len()
        invariant
            from <= to <= pv.len(),
            to - from == nv.len(),
            k <= nv.len(),
            forall|m: int| 0 <= m < k ==> pv@[from + m] == nv@[m],
        decreases nv.len() - k,
    {
        if pv[from + k] != nv[k] {
            assert(pv@.subrange(from as int, to as int)[k as int] != nv@[k as int]);
            return false;
        }
        k = k + 1;
    }
    assert(pv@.subrange(from as int, to as int) =~= nv@);
    true
}

pub fn path_under_dir(p: &str, name: &str) -> (b: bool)
    ensures
        b == has_component(p@, name@),
{
    let pv = chars_of(p);
    let nv = chars_of(name);
    proof {
        reveal_strlit("/");
        reveal_strlit(".");
    }
    let is_root = nv.len() == 1 && nv[0] == '/';
    if is_root && pv.len() > 0 && pv[0] == '/' {
        assert(name@ =~= "/"@);
        return true;
    }
    let is_dot = nv.len() == 1 && nv[0] == '.';
    assert(is_dot <==> name@ == "."@) by {
        if name@ == "."@ {
            assert(name@[0] == '.');
        }
        if is_dot {
            assert(name@ =~= "."@);
        }
    }
    let mut s: usize = 0;
    let mut j: usize = 0;
    loop
        invariant
            pv@ == p@,
            nv@ == name@,
            s <= j <= pv.len(),
            is_dot <==> name@ == "."@,
            forall|k: int| s <= k < j ==> pv@[k] != '/',
            s == 0 || pv@[s - 1] == '/',
            forall|i: int, jj: int|
                #![trigger p@.subrange(i, jj)]
                i < s && segment_at(p@, i, jj) ==> !(p@.subrange(i, jj) == name@ && name@.len()
                    > 0 && (name@ != "."@ || i == 0)),
            !(name@ == "/"@ && p@.len() > 0 && p@[0] == '/'),
        decreases pv.len() - j,
    {
        if j == pv.len() || pv[j] == '/' {
            let ghost old_s = s;
            let eq = j - s == nv.len() && nv.len() > 0 && (!is_dot || s == 0) && same_chars(
                &pv,
                s,
                j,
                &nv,
            );
            if eq {
                assert(p@.subrange(s as int, j as int) =~= name@);
                assert(segment_at(p@, s as int, j as int));
                return true;
            }
            assert forall|i: int, jj: int|
                #![trigger p@.subrange(i, jj)]
                i < j + 1 && segment_at(p@, i, jj) implies !(p@.subrange(i, jj) == name@
                && name@.len() > 0 && (name@ != "."@ || i == 0)) by {
                if i == old_s {
                    if jj < j {
                        assert(p@[jj] != '/');
                    }
                    if jj > j {
                        assert(p@[j as int] == '/');
                    }
                    assert(jj == j);
                } else if i > old_s {
                    assert(p@[i - 1] != '/');
                }
            }
            if j == pv.len() {
                return false;
            }
            s = j + 1;
        }
        j = j + 1;
    }
}

} // verus!

verus! {

/// The lowercased words of `raw`, joined by `-`.
pub open spec fn context_id_of(raw: Seq<char>) -> Seq<char> {
    join(words(raw).map_values(|w: Seq<char>| lowercase(w)), "-"@)
}

/// What `context_id_of` is on an ASCII text: its words lowercased the
/// ASCII way, joined by `-`.
pub open spec fn ascii_context_id(raw: Seq<char>) -> Seq<char> {
    join(words(raw).map_values(|w: Seq<char>| ascii_lowercase(w)), "-"@)
}

/// A character a context id of an ASCII text is made of: ASCII, not
/// whitespace, and its own ASCII lowercase.
pub open spec fn id_char_ok(c: char) -> bool {
    (c as u32) < 128 && !is_ws(c) && ascii_lower(c) == c
}

proof fn lemma_words_ascii(s: Seq<char>)
    requires
        is_ascii_text(s),
    ensures
        forall|i: int|
            0 <= i < words(s).len() ==> (#[trigger] words(s)[i]).len() > 0 && is_ascii_text(words(s)[i])
                && forall|j: int| 0 <= j < words(s)[i].len() ==> !is_ws(#[trigger] words(s)[i][j]),
    decreases s.len(),
{
    if s.len() > 0 {
        let d = s.drop_last();
        assert(is_ascii_text(d)) by {
            assert forall|i: int| 0 <= i < d.len() implies (#[trigger] d[i] as u32) < 128 by {
                assert(d[i] == s[i]);
            }
        }
        lemma_words_ascii(d);
        let w = words(d);
        let c = s.last();
        assert((s[s.len() - 1] as u32) < 128);
        if is_ws(c) {
            assert(words(s) == w);
        } else if s.len() >= 2 && !is_ws(s[s.len() - 2]) {
            assert(d.last() == s[s.len() - 2]);
            crate::text::lemma_words_nonempty(d);
            let nl = w.last().push(c);
            assert(words(s) == w.update(w.len() - 1, nl));
            assert(w.last() == w[w.len() - 1]);
            assert forall|i: int| 0 <= i < words(s).len() implies (#[trigger] words(s)[i]).len() > 0
                && is_ascii_text(words(s)[i]) && forall|j: int|
                0 <= j < words(s)[i].len() ==> !is_ws(#[trigger] words(s)[i][j]) by {
                if i < w.len() - 1 {
                    assert(words(s)[i] == w[i]);
                } else {
                    assert(words(s)[i] == nl);
                    assert forall|j: int| 0 <= j < nl.len() implies (#[trigger] nl[j] as u32) < 128 by {
                        if j < w.last().len() {
                            assert(nl[j] == w[w.len() - 1][j]);
                        }
                    }
                    assert forall|j: int| 0 <= j < nl.len() implies !is_ws(#[trigger] nl[j]) by {
                        if j < w.last().len() {
                            assert(nl[j] == w[w.len() - 1][j]);
                        }
                    }
                }
            }
        } else {
            assert(words(s) == w.push(seq![c]));
            assert forall|i: int| 0 <= i < words(s).len() implies (#[trigger] words(s)[i]).len() > 0
                && is_ascii_text(words(s)[i]) && forall|j: int|
                0 <= j < words(s)[i].len() ==> !is_ws(#[trigger] words(s)[i][j]) by {
                if i < w.len() {
                    assert(words(s)[i] == w[i]);
                } else {
                    assert(words(s)[i] == seq![c]);
                }
            }
        }
    }
}

proof fn lemma_lower_ok(w: Seq<char>)
    requires
        is_ascii_text(w),
        forall|j: int| 0 <= j < w.len() ==> !is_ws(#[trigger] w[j]),
    ensures
        forall|j: int| 0 <= j < ascii_lowercase(w).len() ==> id_char_ok(#[trigger] ascii_lowercase(w)[j]),
{
    assert forall|j: int| 0 <= j < ascii_lowercase(w).len() implies id_char_ok(#[trigger] ascii_lowercase(w)[j]) by {
        let c = w[j];
        assert((c as u32) < 128);
        if 'A' <= c && c <= 'Z' {
            let l = ((c as u32) + 32) as char;
            assert(97 <= (l as u32) <= 122);
        }
    }
}

proof fn lemma_join_ok(parts: Seq<Seq<char>>)
    requires
        forall|i: int, j: int| 0 <= i < parts.len() && 0 <= j < parts[i].len() ==> id_char_ok(#[trigger] parts[i][j]),
    ensures
        forall|j: int| 0 <= j < join(parts, "-"@).len() ==> id_char_ok(#[trigger] join(parts, "-"@)[j]),
    decreases parts.len(),
{
    reveal_strlit("-");
    if parts.len() > 1 {
        let d = parts.drop_last();
        assert forall|i: int, j: int| 0 <= i < d.len() && 0 <= j < d[i].len() implies id_char_ok(#[trigger] d[i][j]) by {
            assert(d[i] == parts[i]);
        }
        lemma_join_ok(d);
        let a = join(d, "-"@);
        let l = parts.last();
        assert forall|j: int| 0 <= j < join(parts, "-"@).len() implies id_char_ok(#[trigger] join(parts, "-"@)[j]) by {
            if j < a.len() {
                assert(join(parts, "-"@)[j] == a[j]);
            } else if j == a.len() {
                assert(join(parts, "-"@)[j] == '-');
            } else {
                assert(join(parts, "-"@)[j] == l[j - a.len() - 1]);
                assert(l == parts[parts.len() - 1]);
            }
        }
    } else if parts.len() == 1 {
        assert forall|j: int| 0 <= j < parts[0].len() implies id_char_ok(#[trigger] parts[0][j]) by {}
    }
}

proof fn lemma_words_single(s: Seq<char>)
    requires
        s.len() > 0,
        forall|j: int| 0 <= j < s.len() ==> !is_ws(#[trigger] s[j]),
    ensures
        words(s) == seq![s],
    decreases s.len(),
{
    let c = s.last();
    assert(!is_ws(s[s.len() - 1]));
    if s.len() > 1 {
        let d = s.drop_last();
        assert forall|j: int| 0 <= j < d.len() implies !is_ws(#[trigger] d[j]) by {
            assert(d[j] == s[j]);
        }
        lemma_words_single(d);
        assert(!is_ws(s[s.len() - 2]));
        assert(words(s) == words(d).update(0, words(d).last().push(c)));
        assert(d.push(c) =~= s);
        assert(words(s) =~= seq![s]);
    } else {
        assert(words(s.drop_last()) == Seq::<Seq<char>>::empty());
        assert(words(s) == Seq::<Seq<char>>::empty().push(seq![c]));
        assert(seq![c] =~= s);
        assert(words(s) =~= seq![s]);
    }
}

proof fn lemma_ascii_id_ok(raw: Seq<char>)
    requires
        is_ascii_text(raw),
    ensures
        forall|j: int| 0 <= j < ascii_context_id(raw).len() ==> id_char_ok(#[trigger] ascii_context_id(raw)[j]),
{
    lemma_words_ascii(raw);
    let ws = words(raw);
    let lw = ws.map_values(|w: Seq<char>| ascii_lowercase(w));
    assert forall|i: int, j: int| 0 <= i < lw.len() && 0 <= j < lw[i].len() implies id_char_ok(#[trigger] lw[i][j]) by {
        lemma_lower_ok(ws[i]);
        assert(lw[i] == ascii_lowercase(ws[i]));
    }
    lemma_join_ok(lw);
}

/// Context ids of ASCII headings are settled: the id is ASCII, holds no
/// whitespace, and reading it again as a heading gives it back.
pub proof fn ascii_context_ids_are_settled(raw: Seq<char>)
    requires
        is_ascii_text(raw),
    ensures
        is_ascii_text(ascii_context_id(raw)),
        forall|j: int| 0 <= j < ascii_context_id(raw).len() ==> !is_ws(#[trigger] ascii_context_id(raw)[j]),
        ascii_context_id(ascii_context_id(raw)) == ascii_context_id(raw),
{
    let id = ascii_context_id(raw);
    lemma_ascii_id_ok(raw);
    assert(is_ascii_text(id)) by {
        assert forall|i: int| 0 <= i < id.len() implies (#[trigger] id[i] as u32) < 128 by {
            assert(id_char_ok(id[i]));
        }
    }
    assert forall|j: int| 0 <= j < id.len() implies !is_ws(#[trigger] id[j]) by {
        assert(id_char_ok(id[j]));
    }
    if id.len() == 0 {
        assert(words(id) =~= Seq::<Seq<char>>::empty());
        assert(ascii_context_id(id) =~= id);
    } else {
        lemma_words_single(id);
        assert(ascii_lowercase(id) =~= id) by {
            assert forall|j: int| 0 <= j < id.len() implies ascii_lowercase(id)[j] == id[j] by {
                assert(id_char_ok(id[j]));
            }
        }
        assert(words(id).map_values(|w: Seq<char>| ascii_lowercase(w)) =~= seq![id]);
    }
}

pub fn normalize_context_id(raw: &str) -> (id: String)
    ensures
        id@ == context_id_of(raw@),
        is_ascii_text(raw@) ==> id@ == ascii_context_id(raw@),
{
    let v = chars_of(raw);
    let bounds = word_bounds(&v);
    let ghost lw = words(raw@).map_values(|w: Seq<char>| lowercase(w));
    let mut out = String::new();
    let mut k: usize = 0;
    while k < bounds.len()
        invariant
            v@ == raw@,
            bounds.len() == words(v@).len(),
            forall|m: int|
                #![trigger bounds@[m]]
                0 <= m < bounds.len() ==> bounds@[m].0 <= bounds@[m].1 <= v.len() && v@.subrange(
                    bounds@[m].0 as int,
                    bounds@[m].1 as int,
                ) == words(v@)[m],
            lw == words(raw@).map_values(|w: Seq<char>| lowercase(w)),
            k <= bounds.len(),
            out@ == join(lw.take(k as int), "-"@),
            is_ascii_text(raw@) ==> forall|m: int|
                0 <= m < k ==> lw[m] == ascii_lowercase(#[trigger] words(raw@)[m]),
        decreases bounds.len() - k,
    {
        let (a, b) = bounds[k];
        let word = slice_chars(raw, a, b);
        assert(word@ == words(v@)[k as int]);
        proof {
            if is_ascii_text(raw@) {
                lemma_words_ascii(raw@);
            }
        }
        let lower = to_lowercase(word);
        assert(lw.take(k + 1).drop_last() =~= lw.take(k as int));
        if k > 0 {
            push_str(&mut out, "-");
        }
        push_str(&mut out, lower.as_str());
        proof {
            if k == 0 {
                assert(out@ =~= lw.take(1)[0]);
            }
        }
        k = k + 1;
    }
    assert(lw.take(k as int) =~= lw);
    proof {
        if is_ascii_text(raw@) {
            assert(lw =~= words(raw@).map_values(|w: Seq<char>| ascii_lowercase(w)));
        }
    }
    out
}

/// Lowercase ASCII letter or ASCII digit.
pub open spec fn is_id_char(c: char) -> bool {
    ('a' <= c && c <= 'z') || ('0' <= c && c <= '9')
}

/// Non-empty `-`-separated segments, each made of lowercase ASCII letters
/// and digits: no leading, trailing or doubled `-`.
pub open spec fn is_context_id(s: Seq<char>) -> bool {
    &&& s.len() > 0
    &&& forall|k: int| 0 <= k < s.len() ==> s[k] == '-' || is_id_char(#[trigger] s[k])
    &&& s[0] != '-'
    &&& s.last() != '-'
    &&& forall|k: int| 0 <= k < s.len() - 1 ==> !(#[trigger] s[k] == '-' && s[k + 1] == '-')
}

pub fn is_context_identifier(id: &str) -> (b: bool)
    ensures
        b == is_context_id(id@),
{
    let v = chars_of(id);
    if v.len() == 0 {
        return false;
    }
    if v[0] == '-' || v[v.len() - 1] == '-' {
        return false;
    }
    let mut k: usize = 0;
    while k < v.len()
        invariant
            v@ == id@,
            v.len() > 0,
            k <= v.len(),
            forall|m: int| 0 <= m < k ==> v@[m] == '-' || is_id_char(#[trigger] v@[m]),
            forall|m: int| 0 <= m < k && m < v.len() - 1 ==> !(#[trigger] v@[m] == '-' && v@[m + 1] == '-'),
        decreases v.len() - k,
    {
        let c = v[k];
        if !(c == '-' || ('a' <= c && c <= 'z') || ('0' <= c && c <= '9')) {
            return false;
        }
        if c == '-' && k + 1 < v.len() && v[k + 1] == '-' {
            return false;
        }
        k = k + 1;
    }
    true
}

} // verus!
