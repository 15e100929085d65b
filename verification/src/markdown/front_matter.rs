//! Front matter and the "behavioral" doctrine markers of a spec document.
use crate::markdown::bullets::{impl_bullet_ok, parse_impl_bullet, parse_verb_bullet, verb_bullet_ok};
use crate::text::{
    lemma_trim_start_len,
    lemma_newline_count_concat, lemma_newline_count_newlines, newline_count, newlines,
    before_char, before_char_at, chars_of, contains, contains_at, equals_at, eq_ignore_ascii_case,
    eq_ignore_ascii_case_at, is_whitespace, line_bounds, lines, slice_chars, starts_with,
    starts_with_at, string_of, trim, trim_at, trim_char, trim_char_at, trim_start, trim_start_at,
};
use vstd::prelude::*;

verus! {

/// The text of a list item line after its `-`, `*` or `+` marker and the
/// blank that follows it, when the line is one.
pub open spec fn bullet_body(line: Seq<char>) -> Option<Seq<char>> {
    let t = trim_start(line);
    if t.len() >= 2 && (t[0] == '-' || t[0] == '*' || t[0] == '+') && (t[1] == ' ' || t[1]
        == '\t') {
        Some(trim_start(t.skip(1)))
    } else {
        None
    }
}

pub fn strip_bullet_marker(line: &str) -> (r: Option<&str>)
    ensures
        r is Some <==> bullet_body(line@) is Some,
        r matches Some(b) ==> b@ == bullet_body(line@)->0,
{
    let v = chars_of(line);
    let a = trim_start_at(&v, 0, v.len());
    assert(v@.subrange(0, v.len() as int) =~= line@);
    let ghost t = trim_start(line@);
    if a < v.len() && a + 1 < v.len() && (v[a] == '-' || v[a] == '*' || v[a] == '+') && (v[a + 1] == ' '
        || v[a + 1] == '\t') {
        let c = trim_start_at(&v, a + 1, v.len());
        assert(v@.subrange(a + 1, v.len() as int) =~= t.skip(1));
        Some(slice_chars(line, c, v.len()))
    } else {
        None
    }
}

/// `v[from..to]` is blank once trimmed.
fn blank_at(v: &Vec<char>, from: usize, to: usize) -> (b: bool)
    requires
        from <= to <= v.len(),
    ensures
        b == (trim(v@.subrange(from as int, to as int)).len() == 0),
{
    let (c, d) = trim_at(v, from, to);
    c == d
}

/// A line that gives a document behavioral substance: an invariant
/// annotation, or an `impl:` / `verb:` anchor bullet.
pub open spec fn substance_line(l: Seq<char>) -> bool {
    ||| contains(l, "[enforced-by:"@)
    ||| contains(l, "[prose-only:"@)
    ||| bullet_body(l) matches Some(b) && (impl_bullet_ok(b) || verb_bullet_ok(b))
}

pub open spec fn has_substance(source: Seq<char>) -> bool {
    exists|k: int| 0 <= k < lines(source).len() && substance_line(#[trigger] lines(source)[k])
}

pub fn has_behavioral_substance(source: &str) -> (b: bool)
    ensures
        b == has_substance(source@),
{
    let v = chars_of(source);
    let bounds = line_bounds(&v);
    let mut k: usize = 0;
    while k < bounds.len()
        invariant
            v@ == source@,
            bounds.len() == lines(v@).len(),
            forall|m: int|
                #![trigger bounds@[m]]
                0 <= m < bounds.len() ==> bounds@[m].0 <= bounds@[m].1 <= v.len() && v@.subrange(
                    bounds@[m].0 as int,
                    bounds@[m].1 as int,
                ) == lines(v@)[m],
            k <= bounds.len(),
            forall|m: int| 0 <= m < k ==> !substance_line(#[trigger] lines(source@)[m]),
        decreases bounds.len() - k,
    {
        let (a, b) = bounds[k];
        let line = slice_chars(source, a, b);
        assert(line@ == lines(source@)[k as int]);
        if contains_at(&v, a, b, "[enforced-by:") || contains_at(&v, a, b, "[prose-only:") {
            return true;
        }
        if let Some(body) = strip_bullet_marker(line) {
            if parse_impl_bullet(body).is_some() || parse_verb_bullet(body).is_some() {
                return true;
            }
        }
        k = k + 1;
    }
    false
}

/// The lines from the first that is not blank.
pub open spec fn skip_blank(ls: Seq<Seq<char>>) -> Seq<Seq<char>>
    decreases ls.len(),
{
    if ls.len() > 0 && trim(ls[0]).len() == 0 {
        skip_blank(ls.drop_first())
    } else {
        ls
    }
}

/// A front matter value as written after `key:`: up to any `#`, trimmed,
/// with surrounding quotes dropped.
pub open spec fn clean_value(rest: Seq<char>) -> Seq<char> {
    trim_char(trim_char(trim(before_char(rest, '#')), '"'), '\'')
}

/// The first front matter line that starts with `prefix`, until the closing `---`.
pub open spec fn scan_front_matter(ls: Seq<Seq<char>>, prefix: Seq<char>) -> Option<Seq<char>>
    decreases ls.len(),
{
    if ls.len() == 0 {
        None
    } else if trim(ls[0]) == "---"@ {
        None
    } else if starts_with(trim(ls[0]), prefix) {
        Some(clean_value(trim(ls[0]).skip(prefix.len() as int)))
    } else {
        scan_front_matter(ls.drop_first(), prefix)
    }
}

/// The value of `key` in the `---` block that opens the document, past any
/// blank lines.
pub open spec fn front_matter_value_of(source: Seq<char>, key: Seq<char>) -> Option<Seq<char>> {
    let ls = skip_blank(lines(source));
    if ls.len() > 0 && trim(ls[0]) == "---"@ {
        scan_front_matter(ls.drop_first(), key.push(':'))
    } else {
        None
    }
}

pub fn front_matter_value(source: &str, key: &str) -> (r: Option<String>)
    ensures
        r is Some <==> front_matter_value_of(source@, key@) is Some,
        r matches Some(s) ==> s@ == front_matter_value_of(source@, key@)->0,
{
    let v = chars_of(source);
    let bounds = line_bounds(&v);
    let ghost ls = lines(v@);
    let mut k: usize = 0;
    assert(ls.skip(0) =~= ls);
    while k < bounds.len() && blank_at(&v, bounds[k].0, bounds[k].1)
        invariant
            v@ == source@,
            ls == lines(v@),
            bounds.len() == ls.len(),
            forall|m: int|
                #![trigger bounds@[m]]
                0 <= m < bounds.len() ==> bounds@[m].0 <= bounds@[m].1 <= v.len() && v@.subrange(
                    bounds@[m].0 as int,
                    bounds@[m].1 as int,
                ) == ls[m],
            k <= bounds.len(),
            skip_blank(ls) == skip_blank(ls.skip(k as int)),
        decreases bounds.len() - k,
    {
        assert(ls.skip(k as int).drop_first() =~= ls.skip(k + 1));
        assert(ls.skip(k as int)[0] == ls[k as int]);
        k = k + 1;
    }
    assert(skip_blank(ls.skip(k as int)) == ls.skip(k as int)) by {
        if k == bounds.len() {
            assert(ls.skip(k as int).len() == 0);
        } else {
            assert(ls.skip(k as int)[0] == ls[k as int]);
        }
    }
    assert(skip_blank(lines(source@)) == ls.skip(k as int));
    if k == bounds.len() {
        return None;
    }
    let (a, b) = bounds[k];
    let (c, d) = trim_at(&v, a, b);
    assert(ls.skip(k as int)[0] == ls[k as int]);
    if !equals_at(&v, c, d, "---") {
        return None;
    }
    let mut prefix = String::from_str(key);
    prefix.push(':');
    let ghost rest = ls.skip(k + 1);
    assert(ls.skip(k as int).drop_first() =~= rest);
    assert(front_matter_value_of(source@, key@) == scan_front_matter(rest, key@.push(':')));
    let mut m: usize = k + 1;
    while m < bounds.len()
        invariant
            front_matter_value_of(source@, key@) == scan_front_matter(rest, key@.push(':')),
            v@ == source@,
            ls == lines(v@),
            bounds.len() == ls.len(),
            forall|j: int|
                #![trigger bounds@[j]]
                0 <= j < bounds.len() ==> bounds@[j].0 <= bounds@[j].1 <= v.len() && v@.subrange(
                    bounds@[j].0 as int,
                    bounds@[j].1 as int,
                ) == ls[j],
            k + 1 <= m <= bounds.len(),
            prefix@ == key@.push(':'),
            scan_front_matter(rest, key@.push(':')) == scan_front_matter(
                ls.skip(m as int),
                key@.push(':'),
            ),
        decreases bounds.len() - m,
    {
        let (a, b) = bounds[m];
        let (c, d) = trim_at(&v, a, b);
        assert(ls.skip(m as int)[0] == ls[m as int]);
        if equals_at(&v, c, d, "---") {
            return None;
        }
        if starts_with_at(&v, c, d, prefix.as_str()) {
            let s = c + key.unicode_len() + 1;
            let e = before_char_at(&v, s, d, '#');
            let (p, q) = trim_at(&v, s, e);
            let (p2, q2) = trim_char_at(&v, p, q, '"');
            let (p3, q3) = trim_char_at(&v, p2, q2, '\'');
            assert(v@.subrange(s as int, d as int) =~= trim(ls[m as int]).skip(
                key@.push(':').len() as int,
            ));
            return Some(string_of(&v, p3, q3));
        }
        assert(ls.skip(m as int).drop_first() =~= ls.skip(m + 1));
        m = m + 1;
    }
    None
}

/// The document declares `cohesion: behavioral` in its front matter (any
/// ASCII case).
pub open spec fn behavioral(source: Seq<char>) -> bool {
    front_matter_value_of(source, "cohesion"@) matches Some(v) && eq_ignore_ascii_case(
        v,
        "behavioral"@,
    )
}

pub fn is_behavioral_context(source: &str) -> (b: bool)
    ensures
        b == behavioral(source@),
{
    match front_matter_value(source, "cohesion") {
        None => false,
        Some(value) => {
            let vv = chars_of(value.as_str());
            assert(vv@.subrange(0, vv.len() as int) =~= vv@);
            eq_ignore_ascii_case_at(&vv, 0, vv.len(), "behavioral")
        },
    }
}


/// The first `\n` at or after `pos`.
pub open spec fn first_newline(s: Seq<char>, pos: int) -> Option<int>
    decreases s.len() - pos,
{
    if pos < 0 || pos >= s.len() {
        None
    } else if s[pos] == '\n' {
        Some(pos)
    } else {
        first_newline(s, pos + 1)
    }
}

/// Scanning the line that starts at `cursor`, now at `pos`: the position of
/// the `\n` that ends the first `---` line, when a `\n` ends it.
pub open spec fn closing_newline(body: Seq<char>, cursor: int, pos: int) -> Option<int>
    decreases body.len() - pos,
{
    if pos < 0 || pos >= body.len() {
        None
    } else if body[pos] == '\n' {
        if 0 <= cursor <= pos && trim(body.subrange(cursor, pos)) == "---"@ {
            Some(pos)
        } else {
            closing_newline(body, pos + 1, pos + 1)
        }
    } else {
        closing_newline(body, cursor, pos + 1)
    }
}

/// Where a front matter block that opens the document (past leading
/// whitespace) ends: just past the `\n` of its closing `---` line.
pub open spec fn front_matter_end(s: Seq<char>) -> Option<int> {
    let lead = s.len() - trim_start(s).len();
    let body = trim_start(s);
    match first_newline(body, 0) {
        None => None,
        Some(f) => if trim(body.take(f)) != "---"@ {
            None
        } else {
            match closing_newline(body, f + 1, f + 1) {
                None => None,
                Some(le) => Some(lead + le + 1),
            }
        },
    }
}

/// The document with its front matter block replaced by as many newlines as
/// the block held, so every later line keeps its number.
pub open spec fn blanked(s: Seq<char>) -> Seq<char> {
    match front_matter_end(s) {
        None => s,
        Some(e) => newlines(newline_count(s.take(e))) + s.skip(e),
    }
}

/// The closing `---` line at or after `cursor`, scanning from `pos`.
fn closing_at(v: &Vec<char>, a: usize, cursor: usize, pos: usize) -> (r: Option<usize>)
    requires
        a < cursor <= pos <= v.len(),
    ensures
        r matches Some(x) ==> closing_newline(v@.skip(a as int), cursor - a, pos - a) == Some(
            x - a,
        ),
        r is None ==> closing_newline(v@.skip(a as int), cursor - a, pos - a) is None,
        r matches Some(x) ==> pos <= x < v.len(),
    decreases v.len() - pos,
{
    let ghost body = v@.skip(a as int);
    if pos == v.len() {
        return None;
    }
    if v[pos] == '\n' {
        let (c, d) = trim_at(v, cursor, pos);
        assert(body.subrange(cursor - a, pos - a) =~= v@.subrange(cursor as int, pos as int));
        if equals_at(v, c, d, "---") {
            return Some(pos);
        }
        closing_at(v, a, pos + 1, pos + 1)
    } else {
        closing_at(v, a, cursor, pos + 1)
    }
}

/// `front_matter_end` of the characters `v`.
fn front_matter_end_at(v: &Vec<char>) -> (r: Option<usize>)
    ensures
        r matches Some(e) ==> front_matter_end(v@) == Some(e as int) && e <= v.len(),
        r is None ==> front_matter_end(v@) is None,
{
    let a = trim_start_at(v, 0, v.len());
    assert(v@.subrange(0, v.len() as int) =~= v@);
    let ghost body = trim_start(v@);
    assert(body =~= v@.skip(a as int));
    let mut f = a;
    while f < v.len() && v[f] != '\n'
        invariant
            a <= f <= v.len(),
            body == v@.skip(a as int),
            first_newline(body, 0) == first_newline(body, f - a),
        decreases v.len() - f,
    {
        f = f + 1;
    }
    if f == v.len() {
        return None;
    }
    assert(body[f - a] == v@[f as int]);
    assert(first_newline(body, 0) == Some((f - a) as int));
    assert(v@.len() - trim_start(v@).len() == a);
    let (c, d) = trim_at(v, a, f);
    assert(body.take(f - a) =~= v@.subrange(a as int, f as int));
    if !equals_at(v, c, d, "---") {
        return None;
    }
    match closing_at(v, a, f + 1, f + 1) {
        None => None,
        Some(le) => Some(le + 1),
    }
}

/// How many `\n` the first `end` characters of `v` hold.
fn newlines_before(v: &Vec<char>, end: usize) -> (n: usize)
    requires
        end <= v.len(),
    ensures
        n == newline_count(v@.take(end as int)),
{
    let mut n: usize = 0;
    let mut i: usize = 0;
    while i < end
        invariant
            end <= v.len(),
            i <= end,
            n == newline_count(v@.take(i as int)),
            n <= i,
        decreases end - i,
    {
        assert(v@.take(i + 1).drop_last() =~= v@.take(i as int));
        if v[i] == '\n' {
            n = n + 1;
        }
        i = i + 1;
    }
    n
}

pub fn blank_front_matter(source: &str) -> (out: String)
    ensures
        out@ == blanked(source@),
{
    let v = chars_of(source);
    let end = match front_matter_end_at(&v) {
        None => {
            return String::from_str(source);
        },
        Some(e) => e,
    };
    let n = newlines_before(&v, end);
    let mut out = String::new();
    let mut j: usize = 0;
    while j < n
        invariant
            j <= n,
            out@ == newlines(j as nat),
        decreases n - j,
    {
        out.push('\n');
        j = j + 1;
        assert(out@ =~= newlines(j as nat));
    }
    let mut k = end;
    while k < v.len()
        invariant
            end <= k <= v.len(),
            out@ == newlines(n as nat) + v@.subrange(end as int, k as int),
        decreases v.len() - k,
    {
        out.push(v[k]);
        k = k + 1;
        assert(out@ =~= newlines(n as nat) + v@.subrange(end as int, k as int));
    }
    assert(v@.subrange(end as int, k as int) =~= source@.skip(end as int));
    out
}

proof fn lemma_closing_newline_in_bounds(body: Seq<char>, cursor: int, pos: int)
    ensures
        closing_newline(body, cursor, pos) matches Some(x) ==> 0 <= x < body.len(),
    decreases body.len() - pos,
{
    if 0 <= pos < body.len() {
        if body[pos] == '\n' {
            lemma_closing_newline_in_bounds(body, pos + 1, pos + 1);
        } else {
            lemma_closing_newline_in_bounds(body, cursor, pos + 1);
        }
    }
}

/// Blanking the front matter keeps the number of lines: every later line
/// stays where it was.
pub proof fn blanking_keeps_line_count(s: Seq<char>)
    ensures
        newline_count(blanked(s)) == newline_count(s),
{
    if let Some(e) = front_matter_end(s) {
        lemma_trim_start_len(s);
        let body = trim_start(s);
        let f = first_newline(body, 0)->0;
        lemma_closing_newline_in_bounds(body, f + 1, f + 1);
        lemma_newline_count_concat(newlines(newline_count(s.take(e))), s.skip(e));
        lemma_newline_count_newlines(newline_count(s.take(e)));
        lemma_newline_count_concat(s.take(e), s.skip(e));
        assert(s.take(e) + s.skip(e) =~= s);
    }
}

} // verus!
