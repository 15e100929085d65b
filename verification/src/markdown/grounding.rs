//! The heading ladder a document's dialect reading yields: each heading's
//! rung, marker and polarity, and the refusals that stop a run.
use crate::model::{Marker, Polarity, ReaderError, ReaderErrorV};
use crate::text::{
    chars_of, line_bounds, lines, slice_chars, starts_with, starts_with_at, string_of, trim,
    trim_at, trim_start, trim_start_at, is_ws, is_whitespace, equals_at,
};
use vstd::prelude::*;
use vstd::string::StrSliceExecFns;

verus! {

/// The lines of `source`, one string each.
pub fn lines_of(source: &str) -> (out: Vec<String>)
    ensures
        out.deep_view() == lines(source@),
{
    let v = chars_of(source);
    let bounds = line_bounds(&v);
    let mut out: Vec<String> = Vec::new();
    let mut k: usize = 0;
    while k < bounds.len()
        invariant
            v@ == source@,
            bounds.len() == lines(v@).len(),
            forall|m: int|
                #![trigger bounds@[m]]
                0 <= m < bounds.len() ==> bounds@[m].0 <= bounds@[m].1 <= v.len() && v@.subrange(
                    bounds@[m].0 as int,
                    bounds@[m].1 as int,
                ) == lines(v@)[m],
            k <= bounds.len(),
            out.deep_view() == lines(v@).take(k as int),
        decreases bounds.len() - k,
    {
        let (a, b) = bounds[k];
        let ghost before = out.deep_view();
        let line = string_of(&v, a, b);
        let ghost lv = line@;
        out.push(line);
        assert(out.deep_view() =~= before.push(lv));
        assert(out.deep_view() =~= lines(v@).take(k + 1));
        k = k + 1;
    }
    assert(lines(v@).take(k as int) =~= lines(v@));
    out
}

/// The number of `#` that open `line`.
pub open spec fn hash_run(line: Seq<char>) -> nat
    decreases line.len(),
{
    if line.len() > 0 && line[0] == '#' {
        1 + hash_run(line.drop_first())
    } else {
        0
    }
}

/// The ATX rung a line opens: one to six `#`, then a blank or the end of the line.
pub open spec fn rung_level_of(line: Seq<char>) -> Option<usize> {
    let level = hash_run(line);
    if level == 0 || level > 6 {
        None
    } else if level == line.len() || line[level as int] == ' ' || line[level as int] == '\t' {
        Some(level as usize)
    } else {
        None
    }
}

proof fn lemma_hash_run(line: Seq<char>, k: int)
    requires
        0 <= k <= line.len(),
        forall|m: int| 0 <= m < k ==> line[m] == '#',
    ensures
        hash_run(line) == k + hash_run(line.skip(k)),
    decreases k,
{
    if k > 0 {
        lemma_hash_run(line.drop_first(), k - 1);
        assert(line.drop_first().skip(k - 1) =~= line.skip(k));
    } else {
        assert(line.skip(0) =~= line);
    }
}

pub fn rung_level(line: &str) -> (r: Option<usize>)
    ensures
        r == rung_level_of(line@),
        r matches Some(l) ==> l <= line@.len(),
{
    let v = chars_of(line);
    let mut k: usize = 0;
    while k < v.len() && v[k] == '#'
        invariant
            v@ == line@,
            k <= v.len(),
            forall|m: int| 0 <= m < k ==> v@[m] == '#',
        decreases v.len() - k,
    {
        k = k + 1;
    }
    proof {
        lemma_hash_run(line@, k as int);
        if k < v.len() {
            assert(line@.skip(k as int)[0] != '#');
        }
    }
    if k == 0 || k > 6 {
        return None;
    }
    if k == v.len() || v[k] == ' ' || v[k] == '\t' {
        Some(k)
    } else {
        None
    }
}

/// A fence opener or closer: the trimmed line starts with ``` or ~~~.
pub open spec fn is_fence_line(line: Seq<char>) -> bool {
    starts_with(trim_start(line), "```"@) || starts_with(trim_start(line), "~~~"@)
}

/// The rungs of levels 1 and 4 to 6, outside fences: (level, 1-based line, name).
pub open spec fn unexported_upto(ls: Seq<Seq<char>>, n: nat) -> (Seq<(usize, usize, Seq<char>)>, bool)
    decreases n,
{
    if n == 0 {
        (seq![], false)
    } else {
        let (out, fenced) = unexported_upto(ls, (n - 1) as nat);
        let line = ls[n - 1];
        if is_fence_line(line) {
            (out, !fenced)
        } else if fenced {
            (out, fenced)
        } else {
            match rung_level_of(line) {
                None => (out, fenced),
                Some(level) => if 2 <= level <= 3 {
                    (out, fenced)
                } else {
                    (out.push((level, (n - 1 + 1) as usize, trim(line.skip(level as int)))), fenced)
                },
            }
        }
    }
}

pub fn unexported_rungs(lines: &Vec<String>) -> (out: Vec<(usize, usize, String)>)
    ensures
        out.deep_view() == unexported_upto(lines.deep_view(), lines.len() as nat).0,
{
    let ghost ls = lines.deep_view();
    let mut out: Vec<(usize, usize, String)> = Vec::new();
    let mut fenced = false;
    let mut i: usize = 0;
    assert(out.deep_view() =~= Seq::<(usize, usize, Seq<char>)>::empty());
    while i < lines.len()
        invariant
            ls == lines.deep_view(),
            i <= lines.len(),
            (out.deep_view(), fenced) == unexported_upto(ls, i as nat),
        decreases lines.len() - i,
    {
        let line = lines[i].as_str();
        assert(line@ == ls[i as int]);
        let v = chars_of(line);
        let a = trim_start_at(&v, 0, v.len());
        assert(v@.subrange(0, v.len() as int) =~= line@);
        if starts_with_at(&v, a, v.len(), "```") || starts_with_at(&v, a, v.len(), "~~~") {
            fenced = !fenced;
        } else if !fenced {
            match rung_level(line) {
                None => {},
                Some(level) => {
                    if !(2 <= level && level <= 3) {
                        let (c, d) = trim_at(&v, level, v.len());
                        assert(v@.subrange(level as int, v.len() as int) =~= line@.skip(
                            level as int,
                        ));
                        let ghost before = out.deep_view();
                        let name = string_of(&v, c, d);
                        let ghost item = (level, (i + 1) as usize, name@);
                        out.push((level, i + 1, name));
                        assert(out.deep_view() =~= before.push(item));
                    }
                },
            }
        }
        i = i + 1;
    }
    out
}


/// The status a `---` block opening the document gives every heading.
pub open spec fn scan_status(ls: Seq<Seq<char>>) -> Marker
    decreases ls.len(),
{
    if ls.len() == 0 {
        Marker::Unmarked
    } else if trim(ls[0]) == "---"@ {
        Marker::Unmarked
    } else if starts_with(trim(ls[0]), "status:"@) {
        if trim(trim(ls[0]).skip(7)) == "draft"@ {
            Marker::Draft
        } else {
            Marker::Unmarked
        }
    } else {
        scan_status(ls.drop_first())
    }
}

pub open spec fn whole_file_marker_of(ls: Seq<Seq<char>>) -> Marker {
    if ls.len() == 0 || trim(ls[0]) != "---"@ {
        Marker::Unmarked
    } else {
        scan_status(ls.drop_first())
    }
}

pub fn whole_file_marker(lines: &Vec<String>) -> (m: Marker)
    ensures
        m == whole_file_marker_of(lines.deep_view()),
{
    let ghost ls = lines.deep_view();
    if lines.len() == 0 {
        return Marker::Unmarked;
    }
    let v0 = chars_of(lines[0].as_str());
    let (a0, b0) = trim_at(&v0, 0, v0.len());
    assert(v0@.subrange(0, v0.len() as int) =~= ls[0]);
    if !equals_at(&v0, a0, b0, "---") {
        return Marker::Unmarked;
    }
    let mut i: usize = 1;
    assert(ls.skip(1) =~= ls.drop_first());
    while i < lines.len()
        invariant
            ls == lines.deep_view(),
            1 <= i <= lines.len(),
            whole_file_marker_of(ls) == scan_status(ls.drop_first()),
            scan_status(ls.drop_first()) == scan_status(ls.skip(i as int)),
        decreases lines.len() - i,
    {
        let v = chars_of(lines[i].as_str());
        let (a, b) = trim_at(&v, 0, v.len());
        assert(v@.subrange(0, v.len() as int) =~= ls[i as int]);
        assert(ls.skip(i as int)[0] == ls[i as int]);
        if equals_at(&v, a, b, "---") {
            return Marker::Unmarked;
        }
        if starts_with_at(&v, a, b, "status:") {
            proof {
                reveal_strlit("status:");
            }
            let (c, d) = trim_at(&v, a + 7, b);
            assert(v@.subrange(a + 7, b as int) =~= trim(ls[i as int]).skip(7));
            if equals_at(&v, c, d, "draft") {
                return Marker::Draft;
            }
            return Marker::Unmarked;
        }
        assert(ls.skip(i as int).drop_first() =~= ls.skip(i + 1));
        i = i + 1;
    }
    Marker::Unmarked
}

/// The first line at or after index `j` that is not blank.
pub open spec fn first_nonblank(ls: Seq<Seq<char>>, j: int) -> Option<int>
    decreases ls.len() - j,
{
    if j < 0 || j >= ls.len() {
        None
    } else if trim(ls[j]).len() == 0 {
        first_nonblank(ls, j + 1)
    } else {
        Some(j)
    }
}

/// `line` is the marker bullet `b`, alone or followed by whitespace.
pub open spec fn is_marker_bullet(line: Seq<char>, b: Seq<char>) -> bool {
    starts_with(line, b) && (line.len() == b.len() || is_ws(line[b.len() as int]))
}

/// The marker of a heading the dialect reading leaves unplaced: a status
/// bullet on the first non-blank line after it, else the whole file's.
pub open spec fn unplaced_marker_of(ls: Seq<Seq<char>>, heading_line: usize, whole: Marker) -> Marker {
    match first_nonblank(ls, heading_line as int) {
        None => whole,
        Some(j) => {
            let l = trim(ls[j]);
            if is_marker_bullet(l, "- status: retired"@) {
                Marker::Retired
            } else if is_marker_bullet(l, "- status: draft"@) {
                Marker::Draft
            } else {
                whole
            }
        },
    }
}

fn marker_bullet_at(v: &Vec<char>, a: usize, b: usize, bullet: &str) -> (r: bool)
    requires
        a <= b <= v.len(),
    ensures
        r == is_marker_bullet(v@.subrange(a as int, b as int), bullet@),
{
    if !starts_with_at(v, a, b, bullet) {
        return false;
    }
    let n = bullet.unicode_len();
    if a + n == b {
        return true;
    }
    assert(v@.subrange(a as int, b as int)[n as int] == v@[a + n]);
    is_whitespace(v[a + n])
}

pub fn unplaced_marker(lines: &Vec<String>, heading_line: usize, whole_file: Marker) -> (m: Marker)
    ensures
        m == unplaced_marker_of(lines.deep_view(), heading_line, whole_file),
{
    let ghost ls = lines.deep_view();
    let mut j = heading_line;
    while j < lines.len() && blank_line(lines[j].as_str())
        invariant
            ls == lines.deep_view(),
            heading_line <= j,
            first_nonblank(ls, heading_line as int) == first_nonblank(ls, j as int),
        decreases lines.len() - j,
    {
        assert(lines[j as int]@ == ls[j as int]);
        j = j + 1;
    }
    if j >= lines.len() {
        return whole_file;
    }
    assert(lines[j as int]@ == ls[j as int]);
    let v = chars_of(lines[j].as_str());
    let (a, b) = trim_at(&v, 0, v.len());
    assert(v@.subrange(0, v.len() as int) =~= ls[j as int]);
    if marker_bullet_at(&v, a, b, "- status: retired") {
        return Marker::Retired;
    }
    if marker_bullet_at(&v, a, b, "- status: draft") {
        return Marker::Draft;
    }
    whole_file
}

fn blank_line(s: &str) -> (b: bool)
    ensures
        b == (trim(s@).len() == 0),
{
    let v = chars_of(s);
    let (a, b) = trim_at(&v, 0, v.len());
    assert(v@.subrange(0, v.len() as int) =~= s@);
    a == b
}


/// A heading site the dialect reading reports.
#[derive(Debug, Clone, PartialEq, Eq)]
pub struct Site {
    pub name: String,
    pub line: usize,
    pub level: usize,
}

/// A concept the dialect reading declares at a grounded heading.
#[derive(Debug, Clone, PartialEq, Eq)]
pub struct DeclaredConcept {
    pub name: String,
    pub line: usize,
    pub retired: bool,
    pub draft: bool,
    pub polarity: Polarity,
}

/// What the dialect reading makes of one document.
#[derive(Debug, Clone, PartialEq, Eq)]
pub struct ParsedSpec {
    pub sites: Vec<Site>,
    pub concepts: Vec<DeclaredConcept>,
    /// Lines of code fences that never close.
    pub unclosed_fences: Vec<usize>,
    /// `(name, reason, line)` of headings the reading refuses.
    pub malformed_headings: Vec<(String, String, usize)>,
    /// Lines of grounding declarations that attach to no concept.
    pub orphans: Vec<usize>,
    /// Reasons the front matter is refused.
    pub malformed_frontmatter: Vec<String>,
    /// `(site, reason)` of the files the reading refuses.
    pub malformed: Vec<(String, String)>,
}

/// One rung of a document's ladder.
#[derive(Debug, Clone, PartialEq, Eq)]
pub struct DialectHeading {
    pub name: String,
    pub line: usize,
    pub level: usize,
    pub marker: Marker,
    pub polarity: Polarity,
}

pub struct DialectHeadingV {
    pub name: Seq<char>,
    pub line: usize,
    pub level: usize,
    pub marker: Marker,
    pub polarity: Polarity,
}

impl View for DialectHeading {
    type V = DialectHeadingV;

    open spec fn view(&self) -> DialectHeadingV {
        DialectHeadingV {
            name: self.name@,
            line: self.line,
            level: self.level,
            marker: self.marker,
            polarity: self.polarity,
        }
    }
}

impl DeepView for DialectHeading {
    type V = DialectHeadingV;

    open spec fn deep_view(&self) -> DialectHeadingV {
        self@
    }
}

pub open spec fn marker_of_concept(c: DeclaredConcept) -> Marker {
    if c.retired {
        Marker::Retired
    } else if c.draft {
        Marker::Draft
    } else {
        Marker::Unmarked
    }
}

pub fn marker_of(c: &DeclaredConcept) -> (m: Marker)
    ensures
        m == marker_of_concept(*c),
{
    if c.retired {
        Marker::Retired
    } else if c.draft {
        Marker::Draft
    } else {
        Marker::Unmarked
    }
}

pub fn polarity_of(c: &DeclaredConcept) -> (p: Polarity)
    ensures
        p == c.polarity,
{
    c.polarity
}

/// The first declared concept at `line` named `name`.
pub open spec fn declared_at(cs: Seq<DeclaredConcept>, line: usize, name: Seq<char>) -> Option<DeclaredConcept>
    decreases cs.len(),
{
    if cs.len() == 0 {
        None
    } else if cs[0].line == line && cs[0].name@ == name {
        Some(cs[0])
    } else {
        declared_at(cs.drop_first(), line, name)
    }
}

/// The rung a reported site stands on.
pub open spec fn site_heading(ls: Seq<Seq<char>>, whole: Marker, cs: Seq<DeclaredConcept>, site: Site) -> DialectHeadingV {
    let declared = declared_at(cs, site.line, site.name@);
    DialectHeadingV {
        name: site.name@,
        line: site.line,
        level: site.level,
        marker: match declared {
            Some(c) => marker_of_concept(c),
            None => unplaced_marker_of(ls, site.line, whole),
        },
        polarity: match declared {
            Some(c) => c.polarity,
            None => Polarity::Declared,
        },
    }
}

/// Where a stable sort by line puts `key`: after every earlier rung whose
/// line is not greater.
pub open spec fn insert_pos(sorted: Seq<DialectHeadingV>, key: usize) -> nat
    decreases sorted.len(),
{
    if sorted.len() == 0 {
        0
    } else if sorted.last().line > key {
        insert_pos(sorted.drop_last(), key)
    } else {
        sorted.len()
    }
}

/// `s` sorted by line, stably.
pub open spec fn sort_by_line(s: Seq<DialectHeadingV>) -> Seq<DialectHeadingV>
    decreases s.len(),
{
    if s.len() == 0 {
        s
    } else {
        let sorted = sort_by_line(s.drop_last());
        let k = insert_pos(sorted, s.last().line) as int;
        sorted.take(k) + seq![s.last()] + sorted.skip(k)
    }
}

/// The rungs before sorting: the reported sites, then the unexported rungs.
pub open spec fn unsorted_ladder(ls: Seq<Seq<char>>, parsed: ParsedSpec) -> Seq<DialectHeadingV> {
    let whole = whole_file_marker_of(ls);
    parsed.sites@.map_values(|site: Site| site_heading(ls, whole, parsed.concepts@, site))
        + unexported_upto(ls, ls.len()).0.map_values(
        |r: (usize, usize, Seq<char>)|
            DialectHeadingV {
                name: r.2,
                line: r.1,
                level: r.0,
                marker: Marker::Unmarked,
                polarity: Polarity::Declared,
            },
    )
}

/// The ladder of a document: every rung, in line order.
pub open spec fn ladder_of(source: Seq<char>, parsed: ParsedSpec) -> Seq<DialectHeadingV> {
    sort_by_line(unsorted_ladder(lines(source), parsed))
}

/// Sorts `v` by line, stably.
fn sort_by_line_exec(v: Vec<DialectHeading>) -> (out: Vec<DialectHeading>)
    ensures
        out.deep_view() == sort_by_line(v.deep_view()),
{
    let ghost s = v.deep_view();
    let mut out: Vec<DialectHeading> = Vec::new();
    let mut rest = v;
    let ghost n = s.len();
    assert(out.deep_view() =~= sort_by_line(s.take(0)));
    assert(rest.deep_view() =~= s.skip(0));
    while rest.len() > 0
        invariant
            rest.len() <= n,
            n == s.len(),
            rest.deep_view() == s.skip(n - rest.len()),
            out.deep_view() == sort_by_line(s.take(n - rest.len())),
        decreases rest.len(),
    {
        let ghost i = n - rest.len();
        let ghost before_rest = rest.deep_view();
        let ghost old_v = rest@;
        let x = rest.remove(0);
        assert(before_rest[0] == old_v[0].deep_view());
        assert(s.skip(i)[0] == s[i]);
        assert(x@ == s[i]);
        assert forall|j: int| 0 <= j < rest.len() implies rest.deep_view()[j] == s.skip(i + 1)[j] by {
            assert(rest@[j] == old_v[j + 1]);
            assert(before_rest[j + 1] == old_v[j + 1].deep_view());
            assert(s.skip(i)[j + 1] == s.skip(i + 1)[j]);
        }
        assert(rest.deep_view() =~= s.skip(i + 1));
        let ghost sorted = out.deep_view();
        let mut k = out.len();
        assert(sorted.take(k as int) =~= sorted);
        while k > 0 && out[k - 1].line > x.line
            invariant
                k <= out.len(),
                out.deep_view() == sorted,
                insert_pos(sorted, x.line) == insert_pos(sorted.take(k as int), x.line),
            decreases k,
        {
            assert(sorted.take(k as int).drop_last() =~= sorted.take(k - 1));
            assert(sorted.take(k as int).last() == out@[k - 1]@);
            k = k - 1;
        }
        assert(insert_pos(sorted.take(k as int), x.line) == k) by {
            if k > 0 {
                assert(sorted.take(k as int).last() == out@[k - 1]@);
            }
        }
        let ghost xv = x@;
        out.insert(k, x);
        assert(s.take(i + 1).drop_last() =~= s.take(i));
        assert(s.take(i + 1).last() == xv);
        assert(out.deep_view() =~= sorted.take(k as int) + seq![xv] + sorted.skip(k as int));
    }
    assert(s.take(n as int) =~= s);
    out
}


/// The first declared concept at `line` named `name`.
fn find_declared<'a>(cs: &'a Vec<DeclaredConcept>, line: usize, name: &String) -> (r: Option<&'a DeclaredConcept>)
    ensures
        r is Some <==> declared_at(cs@, line, name@) is Some,
        r matches Some(c) ==> *c == declared_at(cs@, line, name@)->0,
{
    let mut i: usize = 0;
    assert(cs@.skip(0) =~= cs@);
    while i < cs.len()
        invariant
            i <= cs.len(),
            declared_at(cs@, line, name@) == declared_at(cs@.skip(i as int), line, name@),
        decreases cs.len() - i,
    {
        assert(cs@.skip(i as int)[0] == cs@[i as int]);
        if cs[i].line == line && cs[i].name == *name {
            return Some(&cs[i]);
        }
        assert(cs@.skip(i as int).drop_first() =~= cs@.skip(i + 1));
        i = i + 1;
    }
    None
}

/// Every rung of the document, in line order: the sites the dialect reading
/// reports, with their declared marker and polarity (an unplaced site reads
/// its marker from the lines after it), and the context and callout rungs.
pub fn ladder(source: &str, parsed: &ParsedSpec) -> (out: Vec<DialectHeading>)
    ensures
        out.deep_view() == ladder_of(source@, *parsed),
{
    let text_lines = lines_of(source);
    let ghost ls = lines(source@);
    let whole = whole_file_marker(&text_lines);
    let ghost f = |site: Site| site_heading(ls, whole, parsed.concepts@, site);
    let mut out: Vec<DialectHeading> = Vec::new();
    let mut i: usize = 0;
    assert(out.deep_view() =~= parsed.sites@.take(0).map_values(f));
    while i < parsed.sites.len()
        invariant
            i <= parsed.sites.len(),
            text_lines.deep_view() == ls,
            whole == whole_file_marker_of(ls),
            f == (|site: Site| site_heading(ls, whole, parsed.concepts@, site)),
            out.deep_view() == parsed.sites@.take(i as int).map_values(f),
        decreases parsed.sites.len() - i,
    {
        let site = &parsed.sites[i];
        let (marker, polarity) = match find_declared(&parsed.concepts, site.line, &site.name) {
            Some(c) => (marker_of(c), polarity_of(c)),
            None => (unplaced_marker(&text_lines, site.line, whole), Polarity::Declared),
        };
        let h = DialectHeading {
            name: site.name.clone(),
            line: site.line,
            level: site.level,
            marker,
            polarity,
        };
        let ghost hv = h@;
        let ghost before = out.deep_view();
        out.push(h);
        assert(hv == f(parsed.sites@[i as int]));
        assert(out.deep_view() =~= before.push(hv));
        assert(parsed.sites@.take(i + 1).map_values(f) =~= parsed.sites@.take(i as int).map_values(
            f,
        ).push(f(parsed.sites@[i as int])));
        i = i + 1;
    }
    assert(parsed.sites@.take(i as int) =~= parsed.sites@);
    let rungs = unexported_rungs(&text_lines);
    let ghost g = |r: (usize, usize, Seq<char>)|
        DialectHeadingV {
            name: r.2,
            line: r.1,
            level: r.0,
            marker: Marker::Unmarked,
            polarity: Polarity::Declared,
        };
    let ghost head = out.deep_view();
    let mut j: usize = 0;
    assert(out.deep_view() =~= head + rungs.deep_view().take(0).map_values(g));
    while j < rungs.len()
        invariant
            j <= rungs.len(),
            g == (|r: (usize, usize, Seq<char>)|
                DialectHeadingV {
                    name: r.2,
                    line: r.1,
                    level: r.0,
                    marker: Marker::Unmarked,
                    polarity: Polarity::Declared,
                }),
            out.deep_view() == head + rungs.deep_view().take(j as int).map_values(g),
        decreases rungs.len() - j,
    {
        let (level, line, name) = (rungs[j].0, rungs[j].1, rungs[j].2.clone());
        let h = DialectHeading { name, line, level, marker: Marker::Unmarked, polarity: Polarity::Declared };
        let ghost hv = h@;
        let ghost before = out.deep_view();
        out.push(h);
        assert(hv == g(rungs.deep_view()[j as int]));
        assert(out.deep_view() =~= before.push(hv));
        assert(rungs.deep_view().take(j + 1).map_values(g) =~= rungs.deep_view().take(
            j as int,
        ).map_values(g).push(g(rungs.deep_view()[j as int])));
        j = j + 1;
    }
    assert(rungs.deep_view().take(j as int) =~= rungs.deep_view());
    assert(out.deep_view() =~= unsorted_ladder(ls, *parsed));
    sort_by_line_exec(out)
}


/// The refusal the dialect reading's findings make, in the order they are
/// checked: an unclosed fence, a malformed heading, an orphaned grounding,
/// malformed front matter, a malformed file.
pub open spec fn refusal_of(path: Seq<char>, file: Seq<char>, parsed: ParsedSpec) -> Option<ReaderErrorV> {
    if parsed.unclosed_fences.len() > 0 {
        Some(ReaderErrorV::ParseFailed {
            path,
            line: parsed.unclosed_fences@[0],
            message: "unclosed code fence"@,
        })
    } else if parsed.malformed_headings.len() > 0 {
        let h = parsed.malformed_headings@[0];
        Some(ReaderErrorV::ParseFailed {
            path,
            line: h.2,
            message: "`"@ + h.0@ + "`: "@ + h.1@,
        })
    } else if parsed.orphans.len() > 0 {
        Some(ReaderErrorV::ParseFailed {
            path,
            line: parsed.orphans@[0],
            message: "grounding declaration attaches to no concept"@,
        })
    } else if parsed.malformed_frontmatter.len() > 0 {
        Some(ReaderErrorV::ParseFailed { path, line: 1, message: parsed.malformed_frontmatter@[0]@ })
    } else {
        match malformed_for(parsed.malformed@, file) {
            Some(reason) => Some(ReaderErrorV::ParseFailed { path, line: 1, message: reason }),
            None => None,
        }
    }
}

/// The reason of the first malformed entry for `file`.
pub open spec fn malformed_for(m: Seq<(String, String)>, file: Seq<char>) -> Option<Seq<char>>
    decreases m.len(),
{
    if m.len() == 0 {
        None
    } else if m[0].0@ == file {
        Some(m[0].1@)
    } else {
        malformed_for(m.drop_first(), file)
    }
}

pub fn refusal(path: &str, line: usize, message: &str) -> (e: ReaderError)
    ensures
        e@ == (ReaderErrorV::ParseFailed { path: path@, line, message: message@ }),
{
    ReaderError::ParseFailed {
        path: String::from_str(path),
        line,
        message: String::from_str(message),
    }
}

pub fn refuse(path: &str, file: &str, parsed: &ParsedSpec) -> (r: Result<(), ReaderError>)
    ensures
        r is Ok <==> refusal_of(path@, file@, *parsed) is None,
        r matches Err(e) ==> Some(e@) == refusal_of(path@, file@, *parsed),
{
    if parsed.unclosed_fences.len() > 0 {
        return Err(refusal(path, parsed.unclosed_fences[0], "unclosed code fence"));
    }
    if parsed.malformed_headings.len() > 0 {
        let h = &parsed.malformed_headings[0];
        let mut message = String::from_str("`");
        crate::text::push_str(&mut message, h.0.as_str());
        crate::text::push_str(&mut message, "`: ");
        crate::text::push_str(&mut message, h.1.as_str());
        return Err(refusal(path, h.2, message.as_str()));
    }
    if parsed.orphans.len() > 0 {
        return Err(
            refusal(path, parsed.orphans[0], "grounding declaration attaches to no concept"),
        );
    }
    if parsed.malformed_frontmatter.len() > 0 {
        return Err(refusal(path, 1, parsed.malformed_frontmatter[0].as_str()));
    }
    let file_s = String::from_str(file);
    let mut i: usize = 0;
    assert(parsed.malformed@.skip(0) =~= parsed.malformed@);
    while i < parsed.malformed.len()
        invariant
            i <= parsed.malformed.len(),
            file_s@ == file@,
            parsed.unclosed_fences.len() == 0,
            parsed.malformed_headings.len() == 0,
            parsed.orphans.len() == 0,
            parsed.malformed_frontmatter.len() == 0,
            malformed_for(parsed.malformed@, file@) == malformed_for(
                parsed.malformed@.skip(i as int),
                file@,
            ),
        decreases parsed.malformed.len() - i,
    {
        assert(parsed.malformed@.skip(i as int)[0] == parsed.malformed@[i as int]);
        if parsed.malformed[i].0 == file_s {
            return Err(refusal(path, 1, parsed.malformed[i].1.as_str()));
        }
        assert(parsed.malformed@.skip(i as int).drop_first() =~= parsed.malformed@.skip(i + 1));
        i = i + 1;
    }
    Ok(())
}

/// A document's ladder, as the reader uses it.
#[derive(Debug)]
pub struct DialectRead {
    pub ladder: Vec<DialectHeading>,
}

/// Where the rung at `line` stops owning lines: the line of the first later
/// rung, or the end of the document.
pub open spec fn extent_end(ladder: Seq<DialectHeadingV>, line: usize) -> usize
    decreases ladder.len(),
{
    if ladder.len() == 0 {
        usize::MAX
    } else if ladder[0].line > line {
        ladder[0].line
    } else {
        extent_end(ladder.drop_first(), line)
    }
}

impl DialectRead {
    /// The concept rungs (`##` and `###`).
    pub fn concepts(&self) -> (r: Vec<&DialectHeading>)
        ensures
            forall|k: int| 0 <= k < r.len() ==> 2 <= (#[trigger] r@[k]).level <= 3,
            r.len() == concept_rungs(self.ladder.deep_view()).len(),
            forall|k: int| 0 <= k < r.len() ==> (#[trigger] r@[k])@ == concept_rungs(self.ladder.deep_view())[k],
    {
        let ghost l = self.ladder.deep_view();
        let mut out: Vec<&DialectHeading> = Vec::new();
        let mut i: usize = 0;
        while i < self.ladder.len()
            invariant
                l == self.ladder.deep_view(),
                i <= self.ladder.len(),
                forall|k: int| 0 <= k < out.len() ==> 2 <= (#[trigger] out@[k]).level <= 3,
                out.len() == concept_rungs(l.take(i as int)).len(),
                forall|k: int| 0 <= k < out.len() ==> (#[trigger] out@[k])@ == concept_rungs(l.take(i as int))[k],
            decreases self.ladder.len() - i,
        {
            assert(l.take(i + 1).drop_last() =~= l.take(i as int));
            assert(l.take(i + 1).last() == self.ladder@[i as int]@);
            let h = &self.ladder[i];
            if 2 <= h.level && h.level <= 3 {
                out.push(h);
            }
            i = i + 1;
        }
        assert(l.take(i as int) =~= l);
        out
    }

    /// The lines a rung owns: from its own line to the next rung's.
    pub fn extent(&self, heading: &DialectHeading) -> (r: (usize, usize))
        ensures
            r == (heading.line, extent_end(self.ladder.deep_view(), heading.line)),
    {
        let ghost l = self.ladder.deep_view();
        let mut i: usize = 0;
        assert(l.skip(0) =~= l);
        while i < self.ladder.len()
            invariant
                l == self.ladder.deep_view(),
                i <= self.ladder.len(),
                extent_end(l, heading.line) == extent_end(l.skip(i as int), heading.line),
            decreases self.ladder.len() - i,
        {
            assert(l.skip(i as int)[0] == self.ladder@[i as int]@);
            if self.ladder[i].line > heading.line {
                return (heading.line, self.ladder[i].line);
            }
            assert(l.skip(i as int).drop_first() =~= l.skip(i + 1));
            i = i + 1;
        }
        (heading.line, usize::MAX)
    }
}

/// The concept rungs of a ladder, in order.
pub open spec fn concept_rungs(l: Seq<DialectHeadingV>) -> Seq<DialectHeadingV>
    decreases l.len(),
{
    if l.len() == 0 {
        seq![]
    } else {
        let r = concept_rungs(l.drop_last());
        if 2 <= l.last().level <= 3 {
            r.push(l.last())
        } else {
            r
        }
    }
}

/// Reads a document's ladder from what the dialect reading made of it, or
/// the refusal its findings make.
pub fn read(path: &str, source: &str, parsed: &ParsedSpec) -> (r: Result<DialectRead, ReaderError>)
    ensures
        match r {
            Ok(d) => refusal_of(path@, path@, *parsed) is None && d.ladder.deep_view() == ladder_of(
                source@,
                *parsed,
            ),
            Err(e) => Some(e@) == refusal_of(path@, path@, *parsed),
        },
{
    match refuse(path, path, parsed) {
        Err(e) => Err(e),
        Ok(()) => Ok(DialectRead { ladder: ladder(source, parsed) }),
    }
}


/// Rung lines never decrease along the ladder.
pub open spec fn lines_ascend(l: Seq<DialectHeadingV>) -> bool {
    forall|i: int, j: int| 0 <= i < j < l.len() ==> l[i].line <= l[j].line
}

proof fn lemma_insert_pos(sorted: Seq<DialectHeadingV>, key: usize)
    requires
        lines_ascend(sorted),
    ensures
        insert_pos(sorted, key) <= sorted.len(),
        forall|k: int| 0 <= k < insert_pos(sorted, key) ==> sorted[k].line <= key,
        forall|k: int| insert_pos(sorted, key) <= k < sorted.len() ==> sorted[k].line > key,
    decreases sorted.len(),
{
    if sorted.len() > 0 {
        let n = sorted.len() - 1;
        if sorted.last().line > key {
            let d = sorted.drop_last();
            assert(lines_ascend(d));
            lemma_insert_pos(d, key);
            assert forall|k: int| insert_pos(sorted, key) <= k < sorted.len() implies sorted[k].line
                > key by {
                if k < n {
                    assert(sorted[k] == d[k]);
                }
            }
            assert forall|k: int| 0 <= k < insert_pos(sorted, key) implies sorted[k].line <= key by {
                assert(sorted[k] == d[k]);
            }
        } else {
            assert forall|k: int| 0 <= k < insert_pos(sorted, key) implies sorted[k].line <= key by {
                if k < n {
                    assert(sorted[k].line <= sorted[n].line);
                }
            }
        }
    }
}

proof fn lemma_sort_by_line(s: Seq<DialectHeadingV>)
    ensures
        lines_ascend(sort_by_line(s)),
        sort_by_line(s).len() == s.len(),
    decreases s.len(),
{
    if s.len() > 0 {
        let sorted = sort_by_line(s.drop_last());
        lemma_sort_by_line(s.drop_last());
        let x = s.last();
        lemma_insert_pos(sorted, x.line);
        let k = insert_pos(sorted, x.line) as int;
        let r = sorted.take(k) + seq![x] + sorted.skip(k);
        assert forall|i: int, j: int| 0 <= i < j < r.len() implies r[i].line <= r[j].line by {
            if j < k {
                assert(r[i] == sorted[i] && r[j] == sorted[j]);
            } else if j == k {
                assert(r[i] == sorted[i]);
            } else if i < k {
                assert(r[i] == sorted[i] && r[j] == sorted[j - 1]);
            } else if i == k {
                assert(r[j] == sorted[j - 1]);
            } else {
                assert(r[i] == sorted[i - 1] && r[j] == sorted[j - 1]);
            }
        }
    }
}

/// A document's ladder lists its rungs in line order.
pub proof fn ladder_in_line_order(source: Seq<char>, parsed: ParsedSpec)
    ensures
        lines_ascend(ladder_of(source, parsed)),
{
    lemma_sort_by_line(unsorted_ladder(lines(source), parsed));
}

} // verus!
