use vstd::prelude::*;
use vstd::string::StrSliceExecFns;

verus! {

/// The characters of `s`, in order.
pub fn chars_of(s: &str) -> (v: Vec<char>)
    ensures
        v@ == s@,
{
    let mut v: Vec<char> = Vec::new();
    for c in it: s.chars()
        invariant
            v@ == it.seq().take(it.index() as int),
            it.seq() == s@,
    {
        v.push(c);
    }
    v
}

/// `String::push` appends the character to the string, as std documents
/// it.
pub assume_specification[ String::push ](s: &mut String, ch: char)
    ensures
        final(s)@ == old(s)@.push(ch),
;

/// A string holding `v[from..to]`.
pub fn string_of(v: &Vec<char>, from: usize, to: usize) -> (s: String)
    requires
        from <= to <= v.len(),
    ensures
        s@ == v@.subrange(from as int, to as int),
{
    let mut s = String::new();
    let mut i = from;
    while i < to
        invariant
            from <= i <= to <= v.len(),
            s@ == v@.subrange(from as int, i as int),
        decreases to - i,
    {
        s.push(v[i]);
        i = i + 1;
        assert(s@ =~= v@.subrange(from as int, i as int));
    }
    s
}

/// The slice of `s` between two character positions.
pub fn slice_chars<'a>(s: &'a str, from: usize, to: usize) -> (r: &'a str)
    requires
        from <= to <= s@.len(),
    ensures
        r@ == s@.subrange(from as int, to as int),
{
    s.substring_char(from, to)
}

/// Unicode `White_Space`, the set that `char::is_whitespace` tests.
pub open spec fn is_ws(c: char) -> bool {
    let u = c as u32;
    ||| u == 0x20
    ||| 0x09 <= u <= 0x0d
    ||| u == 0x85
    ||| u == 0xa0
    ||| u == 0x1680
    ||| 0x2000 <= u <= 0x200a
    ||| u == 0x2028
    ||| u == 0x2029
    ||| u == 0x202f
    ||| u == 0x205f
    ||| u == 0x3000
}

pub fn is_whitespace(c: char) -> (b: bool)
    ensures
        b == is_ws(c),
{
    let u = c as u32;
    u == 0x20 || (0x09 <= u && u <= 0x0d) || u == 0x85 || u == 0xa0 || u == 0x1680 || (0x2000
        <= u && u <= 0x200a) || u == 0x2028 || u == 0x2029 || u == 0x202f || u == 0x205f || u
        == 0x3000
}

/// `s` without its leading whitespace (`str::trim_start`).
pub open spec fn trim_start(s: Seq<char>) -> Seq<char>
    decreases s.len(),
{
    if s.len() > 0 && is_ws(s[0]) {
        trim_start(s.drop_first())
    } else {
        s
    }
}

/// `s` without its trailing whitespace (`str::trim_end`).
pub open spec fn trim_end(s: Seq<char>) -> Seq<char>
    decreases s.len(),
{
    if s.len() > 0 && is_ws(s.last()) {
        trim_end(s.drop_last())
    } else {
        s
    }
}

/// `s` without leading and trailing whitespace (`str::trim`).
pub open spec fn trim(s: Seq<char>) -> Seq<char> {
    trim_end(trim_start(s))
}

/// Where the run of leading whitespace of `v[from..to]` ends.
pub fn trim_start_at(v: &Vec<char>, from: usize, to: usize) -> (i: usize)
    requires
        from <= to <= v.len(),
    ensures
        from <= i <= to,
        v@.subrange(i as int, to as int) == trim_start(v@.subrange(from as int, to as int)),
{
    let mut i = from;
    while i < to && is_whitespace(v[i])
        invariant
            from <= i <= to <= v.len(),
            trim_start(v@.subrange(i as int, to as int)) == trim_start(
                v@.subrange(from as int, to as int),
            ),
        decreases to - i,
    {
        assert(v@.subrange(i as int, to as int).drop_first() =~= v@.subrange(
            i + 1,
            to as int,
        ));
        i = i + 1;
    }
    i
}

/// Where `v[from..to]` ends once its trailing whitespace is dropped.
pub fn trim_end_at(v: &Vec<char>, from: usize, to: usize) -> (j: usize)
    requires
        from <= to <= v.len(),
    ensures
        from <= j <= to,
        v@.subrange(from as int, j as int) == trim_end(v@.subrange(from as int, to as int)),
{
    let mut j = to;
    while j > from && is_whitespace(v[j - 1])
        invariant
            from <= j <= to <= v.len(),
            trim_end(v@.subrange(from as int, j as int)) == trim_end(
                v@.subrange(from as int, to as int),
            ),
        decreases j - from,
    {
        assert(v@.subrange(from as int, j as int).drop_last() =~= v@.subrange(
            from as int,
            j - 1,
        ));
        j = j - 1;
    }
    j
}

/// The bounds of `trim(v[from..to])` inside `v`.
pub fn trim_at(v: &Vec<char>, from: usize, to: usize) -> (r: (usize, usize))
    requires
        from <= to <= v.len(),
    ensures
        from <= r.0 <= r.1 <= to,
        v@.subrange(r.0 as int, r.1 as int) == trim(v@.subrange(from as int, to as int)),
{
    let a = trim_start_at(v, from, to);
    let b = trim_end_at(v, a, to);
    (a, b)
}

/// `p` is a prefix of `s`.
pub open spec fn starts_with(s: Seq<char>, p: Seq<char>) -> bool {
    p.len() <= s.len() && s.take(p.len() as int) == p
}

/// `p` occurs in `s` at position `i`.
pub open spec fn occurs_at(s: Seq<char>, p: Seq<char>, i: int) -> bool {
    0 <= i && i + p.len() <= s.len() && s.subrange(i, i + p.len()) == p
}

/// `p` occurs somewhere in `s` (`str::contains`).
pub open spec fn contains(s: Seq<char>, p: Seq<char>) -> bool {
    exists|i: int| occurs_at(s, p, i)
}

/// `v[from..to]` starts with `p`.
pub fn starts_with_at(v: &Vec<char>, from: usize, to: usize, p: &str) -> (b: bool)
    requires
        from <= to <= v.len(),
    ensures
        b == starts_with(v@.subrange(from as int, to as int), p@),
{
    let pv = chars_of(p);
    if pv.len() > to - from {
        return false;
    }
    let mut k: usize = 0;
    while k < pv.len()
        invariant
            from <= to <= v.len(),
            pv@ == p@,
            pv.len() <= to - from,
            k <= pv.len(),
            forall|m: int| 0 <= m < k ==> v@[from + m] == pv@[m],
        decreases pv.len() - k,
    {
        if v[from + k] != pv[k] {
            assert(v@.subrange(from as int, to as int).take(pv.len() as int)[k as int] != p@[k as int]);
            return false;
        }
        k = k + 1;
    }
    assert(v@.subrange(from as int, to as int).take(pv.len() as int) =~= p@);
    true
}

/// `p` occurs in `v[from..to]`.
pub fn contains_at(v: &Vec<char>, from: usize, to: usize, p: &str) -> (b: bool)
    requires
        from <= to <= v.len(),
    ensures
        b == contains(v@.subrange(from as int, to as int), p@),
{
    let ghost s = v@.subrange(from as int, to as int);
    let mut i = from;
    loop
        invariant
            from <= i <= to,
            to <= v.len(),
            s == v@.subrange(from as int, to as int),
            forall|j: int| 0 <= j < i - from ==> !occurs_at(s, p@, j),
        decreases to - i,
    {
        if starts_with_at(v, i, to, p) {
            assert(v@.subrange(i as int, to as int).take(p@.len() as int) =~= s.subrange(
                i - from,
                i - from + p@.len(),
            ));
            assert(occurs_at(s, p@, i - from));
            return true;
        }
        assert(!occurs_at(s, p@, i - from)) by {
            if occurs_at(s, p@, i - from) {
                assert(v@.subrange(i as int, to as int).take(p@.len() as int) =~= s.subrange(
                    i - from,
                    i - from + p@.len(),
                ));
            }
        }
        if i == to {
            assert forall|j: int| !occurs_at(s, p@, j) by {
                if 0 <= j && j <= i - from {
                }
            }
            return false;
        }
        i = i + 1;
    }
}

} // verus!

verus! {

/// The whitespace-separated words of `s` (`str::split_whitespace`), read
/// left to right: a non-whitespace character extends the word in progress
/// when the character before it is not whitespace, and opens a new one otherwise.
pub open spec fn words(s: Seq<char>) -> Seq<Seq<char>>
    decreases s.len(),
{
    if s.len() == 0 {
        seq![]
    } else {
        let w = words(s.drop_last());
        let c = s.last();
        if is_ws(c) {
            w
        } else if s.len() >= 2 && !is_ws(s[s.len() - 2]) {
            w.update(w.len() - 1, w.last().push(c))
        } else {
            w.push(seq![c])
        }
    }
}

/// A text whose last character is not whitespace has at least one word.
pub proof fn lemma_words_nonempty(s: Seq<char>)
    requires
        s.len() > 0,
        !is_ws(s.last()),
    ensures
        words(s).len() > 0,
    decreases s.len(),
{
    if s.len() >= 2 && !is_ws(s[s.len() - 2]) {
        lemma_words_nonempty(s.drop_last());
    }
}

/// `parts` joined with `sep` between neighbours (`[T]::join`).
pub open spec fn join(parts: Seq<Seq<char>>, sep: Seq<char>) -> Seq<char>
    decreases parts.len(),
{
    if parts.len() == 0 {
        seq![]
    } else if parts.len() == 1 {
        parts[0]
    } else {
        join(parts.drop_last(), sep) + sep + parts.last()
    }
}

/// What `str::to_lowercase` returns for a text.
pub uninterp spec fn lowercase(s: Seq<char>) -> Seq<char>;

/// Every character of `s` is ASCII.
pub open spec fn is_ascii_text(s: Seq<char>) -> bool {
    forall|i: int| 0 <= i < s.len() ==> (#[trigger] s[i] as u32) < 128
}

/// A text with its ASCII capitals as small letters.
pub open spec fn ascii_lowercase(s: Seq<char>) -> Seq<char> {
    s.map_values(|c: char| ascii_lower(c))
}

/// Calls `str::to_lowercase`. The result is named; of an ASCII text it is
/// stated, as std documents the case mapping of ASCII: each capital as its
/// small letter, every other character unchanged.
#[verifier::external_body]
pub(crate) fn to_lowercase(s: &str) -> (r: String)
    ensures
        r@ == lowercase(s@),
        is_ascii_text(s@) ==> r@ == ascii_lowercase(s@),
{
    s.to_lowercase()
}

/// A string holding `t`.
pub fn text_of(t: &str) -> (r: String)
    ensures
        r@ == t@,
{
    let mut r = String::new();
    push_str(&mut r, t);
    assert(r@ =~= t@);
    r
}

/// Appends `parts` joined with `sep` to `out`.
pub fn push_join(out: &mut String, parts: &Vec<String>, sep: &str)
    ensures
        final(out)@ == old(out)@ + join(parts.deep_view(), sep@),
{
    let ghost ps = parts.deep_view();
    let mut i: usize = 0;
    while i < parts.len()
        invariant
            i <= parts.len(),
            ps == parts.deep_view(),
            ps.len() == parts.len(),
            out@ == old(out)@ + join(ps.take(i as int), sep@),
        decreases parts.len() - i,
    {
        let ghost before = out@;
        if i > 0 {
            push_str(out, sep);
        }
        push_str(out, parts[i].as_str());
        proof {
            let t = ps.take(i + 1);
            assert(t.drop_last() =~= ps.take(i as int));
            assert(t.last() == parts[i as int]@);
            if i == 0 {
                assert(join(ps.take(0), sep@) =~= seq![]);
                assert(join(t, sep@) == t[0]);
            }
        }
        i = i + 1;
        assert(out@ =~= old(out)@ + join(ps.take(i as int), sep@));
    }
    assert(ps.take(i as int) =~= ps);
}

/// `str::split` on a text pattern: the pieces between the non-overlapping
/// occurrences of `p`, left to right.
pub open spec fn split_str(s: Seq<char>, p: Seq<char>) -> Seq<Seq<char>>
    decreases s.len(),
{
    match find_str(s, p) {
        Some(i) => if 0 <= i && p.len() > 0 && i + p.len() <= s.len() {
            seq![s.take(i)] + split_str(s.skip(i + p.len()), p)
        } else {
            seq![s]
        },
        None => seq![s],
    }
}

/// The pieces of `s` between the occurrences of `p`.
pub fn split_on(s: &str, p: &str) -> (r: Vec<String>)
    ensures
        r.deep_view() == split_str(s@, p@),
    decreases s@.len(),
{
    let v = chars_of(s);
    let plen = p.unicode_len();
    match find_in(&v, p) {
        Some(i) => {
            if plen == 0 {
                let mut r: Vec<String> = Vec::new();
                r.push(text_of(s));
                assert(r.deep_view() =~= split_str(s@, p@));
                return r;
            }
            let head = string_of(&v, 0, i);
            let tail = string_of(&v, i + plen, v.len());
            assert(tail@ =~= s@.skip(i + p@.len()));
            let rest = split_on(tail.as_str(), p);
            let mut r: Vec<String> = Vec::new();
            r.push(head);
            let mut k: usize = 0;
            while k < rest.len()
                invariant
                    k <= rest.len(),
                    r.deep_view() =~= seq![s@.take(i as int)] + rest.deep_view().take(k as int),
                decreases rest.len() - k,
            {
                let ghost before = r.deep_view();
                let c = rest[k].clone();
                r.push(c);
                assert(r.deep_view() =~= before.push(rest@[k as int]@));
                k = k + 1;
            }
            assert(rest.deep_view().take(k as int) =~= rest.deep_view());
            r
        },
        None => {
            let mut r: Vec<String> = Vec::new();
            r.push(text_of(s));
            assert(r.deep_view() =~= split_str(s@, p@));
            r
        },
    }
}

/// The character of the decimal digit `d`.
pub open spec fn digit_char(d: nat) -> char {
    if d == 0 {
        '0'
    } else if d == 1 {
        '1'
    } else if d == 2 {
        '2'
    } else if d == 3 {
        '3'
    } else if d == 4 {
        '4'
    } else if d == 5 {
        '5'
    } else if d == 6 {
        '6'
    } else if d == 7 {
        '7'
    } else if d == 8 {
        '8'
    } else {
        '9'
    }
}

/// `n` in decimal, without sign or leading zeros, as `Display` writes it.
pub open spec fn decimal(n: nat) -> Seq<char>
    decreases n,
{
    if n < 10 {
        seq![digit_char(n)]
    } else {
        decimal(n / 10).push(digit_char(n % 10))
    }
}

fn digit(d: usize) -> (c: char)
    requires
        d < 10,
    ensures
        c == digit_char(d as nat),
{
    if d == 0 {
        '0'
    } else if d == 1 {
        '1'
    } else if d == 2 {
        '2'
    } else if d == 3 {
        '3'
    } else if d == 4 {
        '4'
    } else if d == 5 {
        '5'
    } else if d == 6 {
        '6'
    } else if d == 7 {
        '7'
    } else if d == 8 {
        '8'
    } else {
        '9'
    }
}

/// Appends `n` in decimal to `s`.
pub fn push_decimal(s: &mut String, n: usize)
    ensures
        final(s)@ == old(s)@ + decimal(n as nat),
    decreases n,
{
    if n >= 10 {
        push_decimal(s, n / 10);
        s.push(digit(n % 10));
        assert(s@ =~= old(s)@ + decimal(n as nat));
    } else {
        s.push(digit(n));
        assert(s@ =~= old(s)@ + decimal(n as nat));
    }
}

/// Appends `t` to `s`.
pub fn push_str(s: &mut String, t: &str)
    ensures
        final(s)@ == old(s)@ + t@,
{
    let tv = chars_of(t);
    let mut i: usize = 0;
    while i < tv.len()
        invariant
            tv@ == t@,
            i <= tv.len(),
            s@ == old(s)@ + t@.take(i as int),
        decreases tv.len() - i,
    {
        s.push(tv[i]);
        i = i + 1;
        assert(s@ =~= old(s)@ + t@.take(i as int));
    }
    assert(t@.take(i as int) =~= t@);
}

} // verus!

verus! {

/// Where the words of `v` lie: `v[r[k].0..r[k].1]` is the `k`-th word.
pub fn word_bounds(v: &Vec<char>) -> (r: Vec<(usize, usize)>)
    ensures
        r.len() == words(v@).len(),
        forall|k: int|
            #![trigger r@[k]]
            0 <= k < r.len() ==> r@[k].0 <= r@[k].1 <= v.len() && v@.subrange(
                r@[k].0 as int,
                r@[k].1 as int,
            ) == words(v@)[k],
{
    let mut r: Vec<(usize, usize)> = Vec::new();
    let mut i: usize = 0;
    while i < v.len()
        invariant
            i <= v.len(),
            r.len() == words(v@.take(i as int)).len(),
            forall|k: int|
                #![trigger r@[k]]
                0 <= k < r.len() ==> r@[k].0 <= r@[k].1 <= i && v@.subrange(
                    r@[k].0 as int,
                    r@[k].1 as int,
                ) == words(v@.take(i as int))[k],
            i > 0 && !is_ws(v@[i - 1]) ==> r.len() > 0 && r@[r.len() - 1].1 == i,
        decreases v.len() - i,
    {
        let ghost s = v@.take(i + 1);
        assert(s.drop_last() =~= v@.take(i as int));
        let c = v[i];
        if is_whitespace(c) {
        } else if i >= 1 && !is_whitespace(v[i - 1]) {
            proof {
                lemma_words_nonempty(v@.take(i as int));
            }
            let last = r.len() - 1;
            let a = r[last].0;
            r.set(last, (a, i + 1));
            assert(v@.subrange(a as int, i + 1) =~= v@.subrange(a as int, i as int).push(c));
        } else {
            r.push((i, i + 1));
            assert(v@.subrange(i as int, i + 1) =~= seq![c]);
        }
        i = i + 1;
    }
    assert(v@.take(i as int) =~= v@);
    r
}

} // verus!

verus! {

/// The pieces of `s` between occurrences of `d` (`str::split`), read left to right.
pub open spec fn split_char(s: Seq<char>, d: char) -> Seq<Seq<char>>
    decreases s.len(),
{
    if s.len() == 0 {
        seq![seq![]]
    } else {
        let r = split_char(s.drop_last(), d);
        if s.last() == d {
            r.push(seq![])
        } else {
            r.update(r.len() - 1, r.last().push(s.last()))
        }
    }
}

pub proof fn lemma_split_char_nonempty(s: Seq<char>, d: char)
    ensures
        split_char(s, d).len() >= 1,
    decreases s.len(),
{
    if s.len() > 0 {
        lemma_split_char_nonempty(s.drop_last(), d);
    }
}

/// A line that ended in `\n` loses a `\r` that stood before it.
pub open spec fn strip_cr(l: Seq<char>) -> Seq<char> {
    if l.len() > 0 && l.last() == '\r' {
        l.drop_last()
    } else {
        l
    }
}

/// The lines of `s` (`str::lines`): the pieces between `\n`s, each that a
/// `\n` ended losing one `\r` before it, and no empty piece after a final `\n`.
pub open spec fn lines(s: Seq<char>) -> Seq<Seq<char>> {
    let p = split_char(s, '\n');
    p.drop_last().map_values(|l: Seq<char>| strip_cr(l)) + if p.last().len() > 0 {
        seq![p.last()]
    } else {
        seq![]
    }
}

/// Where the lines of `v` lie: `v[r[k].0..r[k].1]` is the `k`-th line.
pub fn line_bounds(v: &Vec<char>) -> (r: Vec<(usize, usize)>)
    ensures
        r.len() == lines(v@).len(),
        forall|k: int|
            #![trigger r@[k]]
            0 <= k < r.len() ==> r@[k].0 <= r@[k].1 <= v.len() && v@.subrange(
                r@[k].0 as int,
                r@[k].1 as int,
            ) == lines(v@)[k],
{
    let mut done: Vec<(usize, usize)> = Vec::new();
    let mut start: usize = 0;
    let mut i: usize = 0;
    while i < v.len()
        invariant
            start <= i <= v.len(),
            split_char(v@.take(i as int), '\n').len() == done.len() + 1,
            split_char(v@.take(i as int), '\n').last() == v@.subrange(start as int, i as int),
            forall|k: int|
                #![trigger done@[k]]
                0 <= k < done.len() ==> done@[k].0 <= done@[k].1 <= i && v@.subrange(
                    done@[k].0 as int,
                    done@[k].1 as int,
                ) == strip_cr(split_char(v@.take(i as int), '\n')[k]),
        decreases v.len() - i,
    {
        let ghost before = split_char(v@.take(i as int), '\n');
        assert(v@.take(i + 1).drop_last() =~= v@.take(i as int));
        if v[i] == '\n' {
            let end = if i > start && v[i - 1] == '\r' {
                i - 1
            } else {
                i
            };
            proof {
                let piece = v@.subrange(start as int, i as int);
                if i > start && v@[i - 1] == '\r' {
                    assert(piece.drop_last() =~= v@.subrange(start as int, end as int));
                } else {
                    assert(piece =~= v@.subrange(start as int, end as int));
                }
            }
            done.push((start, end));
            start = i + 1;
            assert(v@.subrange(start as int, i + 1) =~= seq![]);
        } else {
            assert(v@.subrange(start as int, i + 1) =~= v@.subrange(start as int, i as int).push(
                v@[i as int],
            ));
        }
        i = i + 1;
    }
    assert(v@.take(i as int) =~= v@);
    let ghost p = split_char(v@, '\n');
    if start < v.len() {
        done.push((start, v.len()));
    }
    assert(lines(v@).len() == done.len());
    assert forall|k: int|
        #![trigger done@[k]]
        0 <= k < done.len() implies done@[k].0 <= done@[k].1 <= v.len() && v@.subrange(
            done@[k].0 as int,
            done@[k].1 as int,
        ) == lines(v@)[k] by {
        if k < p.len() - 1 {
            assert(lines(v@)[k] == p.drop_last().map_values(|l: Seq<char>| strip_cr(l))[k]);
        }
    }
    done
}

/// `s` without every leading and trailing `c` (`str::trim_matches` on one char).
pub open spec fn trim_char(s: Seq<char>, c: char) -> Seq<char>
    decreases s.len(),
{
    if s.len() > 0 && s[0] == c {
        trim_char(s.drop_first(), c)
    } else if s.len() > 0 && s.last() == c {
        trim_char(s.drop_last(), c)
    } else {
        s
    }
}

/// The bounds of `trim_char(v[from..to], c)` inside `v`.
pub fn trim_char_at(v: &Vec<char>, from: usize, to: usize, c: char) -> (r: (usize, usize))
    requires
        from <= to <= v.len(),
    ensures
        from <= r.0 <= r.1 <= to,
        v@.subrange(r.0 as int, r.1 as int) == trim_char(v@.subrange(from as int, to as int), c),
{
    let mut a = from;
    let mut b = to;
    while a < b && (v[a] == c || v[b - 1] == c)
        invariant
            from <= a <= b <= to <= v.len(),
            trim_char(v@.subrange(a as int, b as int), c) == trim_char(
                v@.subrange(from as int, to as int),
                c,
            ),
        decreases b - a,
    {
        if v[a] == c {
            assert(v@.subrange(a as int, b as int).drop_first() =~= v@.subrange(a + 1, b as int));
            a = a + 1;
        } else {
            assert(v@.subrange(a as int, b as int).drop_last() =~= v@.subrange(a as int, b - 1));
            b = b - 1;
        }
    }
    (a, b)
}

/// ASCII letters folded to lowercase; every other character unchanged.
pub open spec fn ascii_lower(c: char) -> char {
    if 'A' <= c && c <= 'Z' {
        ((c as u8) + 32u8) as char
    } else {
        c
    }
}

/// `str::eq_ignore_ascii_case`.
pub open spec fn eq_ignore_ascii_case(a: Seq<char>, b: Seq<char>) -> bool {
    a.len() == b.len() && forall|k: int| 0 <= k < a.len() ==> ascii_lower(a[k]) == ascii_lower(b[k])
}

fn ascii_lower_exec(c: char) -> (r: char)
    ensures
        r == ascii_lower(c),
{
    if 'A' <= c && c <= 'Z' {
        ((c as u8) + 32u8) as char
    } else {
        c
    }
}

pub fn eq_ignore_ascii_case_at(v: &Vec<char>, from: usize, to: usize, w: &str) -> (b: bool)
    requires
        from <= to <= v.len(),
    ensures
        b == eq_ignore_ascii_case(v@.subrange(from as int, to as int), w@),
{
    let wv = chars_of(w);
    if to - from != wv.len() {
        return false;
    }
    let mut k: usize = 0;
    while k < wv.len()
        invariant
            from <= to <= v.len(),
            to - from == wv.len(),
            wv@ == w@,
            k <= wv.len(),
            forall|m: int| 0 <= m < k ==> ascii_lower(v@[from + m]) == ascii_lower(wv@[m]),
        decreases wv.len() - k,
    {
        if ascii_lower_exec(v[from + k]) != ascii_lower_exec(wv[k]) {
            assert(v@.subrange(from as int, to as int)[k as int] == v@[from + k]);
            return false;
        }
        k = k + 1;
    }
    assert forall|m: int| 0 <= m < wv.len() implies ascii_lower(
        v@.subrange(from as int, to as int)[m],
    ) == ascii_lower(w@[m]) by {
        assert(v@.subrange(from as int, to as int)[m] == v@[from + m]);
    }
    true
}

} // verus!

verus! {

/// `s` up to the first `c`.
pub open spec fn before_char(s: Seq<char>, c: char) -> Seq<char>
    decreases s.len(),
{
    if s.len() == 0 {
        s
    } else if s[0] == c {
        seq![]
    } else {
        seq![s[0]] + before_char(s.drop_first(), c)
    }
}

/// Where `v[from..to]` ends before its first `c`.
pub fn before_char_at(v: &Vec<char>, from: usize, to: usize, c: char) -> (e: usize)
    requires
        from <= to <= v.len(),
    ensures
        from <= e <= to,
        v@.subrange(from as int, e as int) == before_char(v@.subrange(from as int, to as int), c),
{
    let ghost s = v@.subrange(from as int, to as int);
    let mut e = from;
    assert(s.skip(0) =~= s);
    assert(s.take(0) + before_char(s, c) =~= before_char(s, c));
    while e < to && v[e] != c
        invariant
            from <= e <= to <= v.len(),
            s == v@.subrange(from as int, to as int),
            before_char(s, c) == s.take(e - from) + before_char(s.skip(e - from), c),
        decreases to - e,
    {
        assert(s.skip(e - from).drop_first() =~= s.skip(e - from + 1));
        assert(s.take(e - from + 1) =~= s.take(e - from) + seq![s[e - from]]);
        e = e + 1;
    }
    assert(before_char(s.skip(e - from), c) =~= seq![]) by {
        if e == to {
        }
    }
    assert(s.take(e - from) =~= v@.subrange(from as int, e as int));
    e
}

/// `v[from..to]` is exactly `w`.
pub fn equals_at(v: &Vec<char>, from: usize, to: usize, w: &str) -> (b: bool)
    requires
        from <= to <= v.len(),
    ensures
        b == (v@.subrange(from as int, to as int) == w@),
{
    let wv = chars_of(w);
    if to - from != wv.len() {
        return false;
    }
    let b = starts_with_at(v, from, to, w);
    assert(v@.subrange(from as int, to as int).take(w@.len() as int) =~= v@.subrange(from as int, to as int));
    b
}

} // verus!

verus! {

/// How many `\n` characters `s` holds.
pub open spec fn newline_count(s: Seq<char>) -> nat
    decreases s.len(),
{
    if s.len() == 0 {
        0
    } else {
        newline_count(s.drop_last()) + if s.last() == '\n' {
            1nat
        } else {
            0nat
        }
    }
}

pub proof fn lemma_newline_count_concat(a: Seq<char>, b: Seq<char>)
    ensures
        newline_count(a + b) == newline_count(a) + newline_count(b),
    decreases b.len(),
{
    if b.len() > 0 {
        assert((a + b).drop_last() =~= a + b.drop_last());
        lemma_newline_count_concat(a, b.drop_last());
    } else {
        assert(a + b =~= a);
    }
}

/// `n` newline characters.
pub open spec fn newlines(n: nat) -> Seq<char> {
    Seq::new(n, |i: int| '\n')
}

pub proof fn lemma_newline_count_newlines(n: nat)
    ensures
        newline_count(newlines(n)) == n,
    decreases n,
{
    if n > 0 {
        assert(newlines(n).drop_last() =~= newlines((n - 1) as nat));
        lemma_newline_count_newlines((n - 1) as nat);
    }
}

} // verus!

verus! {

pub proof fn lemma_trim_start_len(s: Seq<char>)
    ensures
        trim_start(s).len() <= s.len(),
        trim_start(s) == s.skip(s.len() - trim_start(s).len()),
    decreases s.len(),
{
    if s.len() > 0 && is_ws(s[0]) {
        lemma_trim_start_len(s.drop_first());
        assert(s.drop_first().skip(s.drop_first().len() - trim_start(s).len()) =~= s.skip(
            s.len() - trim_start(s).len(),
        ));
    } else {
        assert(s.skip(0) =~= s);
    }
}

} // verus!

verus! {

/// Where the pieces of `v[from..to]` between occurrences of `d` lie.
pub fn split_bounds(v: &Vec<char>, from: usize, to: usize, d: char) -> (r: Vec<(usize, usize)>)
    requires
        from <= to <= v.len(),
    ensures
        r.len() == split_char(v@.subrange(from as int, to as int), d).len(),
        forall|k: int|
            #![trigger r@[k]]
            0 <= k < r.len() ==> from <= r@[k].0 <= r@[k].1 <= to && v@.subrange(
                r@[k].0 as int,
                r@[k].1 as int,
            ) == split_char(v@.subrange(from as int, to as int), d)[k],
{
    let ghost s = v@.subrange(from as int, to as int);
    let mut done: Vec<(usize, usize)> = Vec::new();
    let mut start: usize = from;
    let mut i: usize = from;
    while i < to
        invariant
            from <= start <= i <= to <= v.len(),
            s == v@.subrange(from as int, to as int),
            split_char(s.take(i - from), d).len() == done.len() + 1,
            split_char(s.take(i - from), d).last() == v@.subrange(start as int, i as int),
            forall|k: int|
                #![trigger done@[k]]
                0 <= k < done.len() ==> from <= done@[k].0 <= done@[k].1 <= i && v@.subrange(
                    done@[k].0 as int,
                    done@[k].1 as int,
                ) == split_char(s.take(i - from), d)[k],
        decreases to - i,
    {
        assert(s.take(i - from + 1).drop_last() =~= s.take(i - from));
        assert(s.take(i - from + 1).last() == v@[i as int]);
        if v[i] == d {
            done.push((start, i));
            start = i + 1;
            assert(v@.subrange(start as int, i + 1) =~= seq![]);
        } else {
            assert(v@.subrange(start as int, i + 1) =~= v@.subrange(start as int, i as int).push(
                v@[i as int],
            ));
        }
        i = i + 1;
    }
    assert(s.take(i - from) =~= s);
    done.push((start, to));
    done
}

/// `p` is a suffix of `s`.
pub open spec fn ends_with(s: Seq<char>, p: Seq<char>) -> bool {
    p.len() <= s.len() && s.skip(s.len() - p.len()) == p
}

pub fn ends_with_at(v: &Vec<char>, from: usize, to: usize, p: &str) -> (b: bool)
    requires
        from <= to <= v.len(),
    ensures
        b == ends_with(v@.subrange(from as int, to as int), p@),
{
    let n = p.unicode_len();
    if n > to - from {
        return false;
    }
    let r = equals_at(v, to - n, to, p);
    assert(v@.subrange(from as int, to as int).skip((to - from - n) as int) =~= v@.subrange(
        to - n,
        to as int,
    ));
    r
}

} // verus!

verus! {

/// The first position at or after `i` where `p` occurs in `s`.
pub open spec fn find_from(s: Seq<char>, p: Seq<char>, i: int) -> Option<int>
    decreases s.len() - i,
{
    if i < 0 || i + p.len() > s.len() {
        None
    } else if occurs_at(s, p, i) {
        Some(i)
    } else if i >= s.len() {
        None
    } else {
        find_from(s, p, i + 1)
    }
}

/// The last position at or before `i` where `p` occurs in `s`.
pub open spec fn rfind_from(s: Seq<char>, p: Seq<char>, i: int) -> Option<int>
    decreases i + 1,
{
    if i < 0 {
        None
    } else if occurs_at(s, p, i) {
        Some(i)
    } else {
        rfind_from(s, p, i - 1)
    }
}

/// `str::find`: where `p` first occurs in `s`.
pub open spec fn find_str(s: Seq<char>, p: Seq<char>) -> Option<int> {
    find_from(s, p, 0)
}

/// `str::rfind`: where `p` last occurs in `s`.
pub open spec fn rfind_str(s: Seq<char>, p: Seq<char>) -> Option<int> {
    rfind_from(s, p, s.len() - p.len())
}

pub proof fn lemma_find_from_bounds(s: Seq<char>, p: Seq<char>, i: int)
    ensures
        find_from(s, p, i) matches Some(k) ==> i <= k && k + p.len() <= s.len() && occurs_at(s, p, k),
    decreases s.len() - i,
{
    if !(i < 0 || i + p.len() > s.len()) && !occurs_at(s, p, i) && i < s.len() {
        lemma_find_from_bounds(s, p, i + 1);
    }
}

pub proof fn lemma_rfind_from_bounds(s: Seq<char>, p: Seq<char>, i: int)
    ensures
        rfind_from(s, p, i) matches Some(k) ==> 0 <= k <= i && occurs_at(s, p, k),
    decreases i + 1,
{
    if i >= 0 && !occurs_at(s, p, i) {
        lemma_rfind_from_bounds(s, p, i - 1);
    }
}

/// `p` occurs in `v` at `i` (`i` counted in `v`).
fn occurs_at_exec(v: &Vec<char>, pv: &Vec<char>, i: usize) -> (b: bool)
    ensures
        b == occurs_at(v@, pv@, i as int),
{
    if i > v.len() || pv.len() > v.len() - i {
        return false;
    }
    let mut k: usize = 0;
    while k < pv.len()
        invariant
            i + pv.len() <= v.len(),
            k <= pv.len(),
            forall|m: int| 0 <= m < k ==> v@[i + m] == pv@[m],
        decreases pv.len() - k,
    {
        if v[i + k] != pv[k] {
            assert(v@.subrange(i as int, i + pv.len())[k as int] != pv@[k as int]);
            return false;
        }
        k = k + 1;
    }
    assert(v@.subrange(i as int, i + pv.len()) =~= pv@);
    true
}

/// Where `p` first occurs in `v`.
pub fn find_in(v: &Vec<char>, p: &str) -> (r: Option<usize>)
    ensures
        r matches Some(k) ==> find_str(v@, p@) == Some(k as int) && k + p@.len() <= v.len(),
        r is None ==> find_str(v@, p@) is None,
{
    let pv = chars_of(p);
    if pv.len() > v.len() {
        return None;
    }
    let mut i: usize = 0;
    while i <= v.len() - pv.len()
        invariant
            pv@ == p@,
            pv.len() <= v.len(),
            find_str(v@, p@) == find_from(v@, p@, i as int),
        decreases v.len() - i,
    {
        if occurs_at_exec(v, &pv, i) {
            return Some(i);
        }
        if i == v.len() {
            return None;
        }
        i = i + 1;
    }
    None
}

/// Where `p` last occurs in `v`.
pub fn rfind_in(v: &Vec<char>, p: &str) -> (r: Option<usize>)
    ensures
        r matches Some(k) ==> rfind_str(v@, p@) == Some(k as int) && k + p@.len() <= v.len(),
        r is None ==> rfind_str(v@, p@) is None,
{
    let pv = chars_of(p);
    if pv.len() > v.len() {
        return None;
    }
    let mut i: usize = v.len() - pv.len();
    loop
        invariant
            pv@ == p@,
            pv.len() <= v.len(),
            i + pv.len() <= v.len(),
            rfind_str(v@, p@) == rfind_from(v@, p@, i as int),
        decreases i,
    {
        if occurs_at_exec(v, &pv, i) {
            return Some(i);
        }
        if i == 0 {
            assert(rfind_from(v@, p@, -1) is None);
            return None;
        }
        i = i - 1;
    }
}

} // verus!
