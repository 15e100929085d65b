//! Module paths of source files, and the owning unit of a file.
//!
//! Paths here are `/`-separated text. A path is read as its components: the
//! non-empty pieces between separators other than `.`, and whether it starts
//! at the root.
use vstd::prelude::*;
use crate::text::{
    chars_of, ends_with, ends_with_at, equals_at, join, push_join, push_str, rfind_in, rfind_str,
    split_bounds, split_char, starts_with, starts_with_at, string_of, text_of,
};

verus! {

/// `s` without its prefix `p` when it has one, else `s`.
pub open spec fn strip_or_keep(s: Seq<char>, p: Seq<char>) -> Seq<char> {
    if starts_with(s, p) {
        s.skip(p.len() as int)
    } else {
        s
    }
}

/// `s` without its suffix `p` when it has one, else `s`.
pub open spec fn strip_suffix_or_keep(s: Seq<char>, p: Seq<char>) -> Seq<char> {
    if ends_with(s, p) {
        s.take(s.len() - p.len())
    } else {
        s
    }
}

/// `s` without every leading `c` (`str::trim_start_matches` on one char).
pub open spec fn trim_start_char(s: Seq<char>, c: char) -> Seq<char>
    decreases s.len(),
{
    if s.len() > 0 && s[0] == c {
        trim_start_char(s.drop_first(), c)
    } else {
        s
    }
}

/// The file names that stand for the module that holds them.
pub open spec fn is_root_stem(s: Seq<char>) -> bool {
    s == "lib"@ || s == "mod"@ || s == "main"@
}

/// The non-empty pieces of `parts`, in order.
pub open spec fn nonempty_parts(parts: Seq<Seq<char>>) -> Seq<Seq<char>> {
    parts.filter(|x: Seq<char>| x.len() > 0)
}

/// The module segments of the file at `rel` inside `unit`: what lies between
/// `<unit>/src/` and `.rs`, split at `/`, with a closing `lib`, `mod` or
/// `main` dropped.
pub open spec fn module_segments(rel: Seq<char>, unit: Seq<char>) -> Seq<Seq<char>> {
    let stem = strip_suffix_or_keep(
        strip_or_keep(trim_start_char(strip_or_keep(rel, unit), '/'), "src/"@),
        ".rs"@,
    );
    let segs = nonempty_parts(split_char(stem, '/'));
    if segs.len() > 0 && is_root_stem(segs.last()) {
        segs.drop_last()
    } else {
        segs
    }
}

/// `unit`, followed by `::` and the module segments joined with `::` when
/// there are any.
pub open spec fn module_path_text(rel: Seq<char>, unit: Seq<char>) -> Seq<char> {
    let segs = module_segments(rel, unit);
    if segs.len() == 0 {
        unit
    } else {
        unit + "::"@ + join(segs, "::"@)
    }
}

/// The first position of `v[from..]` that does not hold `c`.
pub fn skip_char(v: &Vec<char>, from: usize, c: char) -> (i: usize)
    requires
        from <= v.len(),
    ensures
        from <= i <= v.len(),
        trim_start_char(v@.subrange(from as int, v.len() as int), c) == v@.subrange(
            i as int,
            v.len() as int,
        ),
{
    let mut i = from;
    while i < v.len() && v[i] == c
        invariant
            from <= i <= v.len(),
            trim_start_char(v@.subrange(from as int, v.len() as int), c) == trim_start_char(
                v@.subrange(i as int, v.len() as int),
                c,
            ),
        decreases v.len() - i,
    {
        assert(v@.subrange(i as int, v.len() as int).drop_first() =~= v@.subrange(
            i + 1,
            v.len() as int,
        ));
        i = i + 1;
    }
    i
}

/// The module segments of the file at `rel` inside `unit`.
pub fn file_module_segments(rel: &str, unit: &str) -> (segs: Vec<String>)
    ensures
        segs.deep_view() == module_segments(rel@, unit@),
{
    let v = chars_of(rel);
    let n = v.len();
    let mut start: usize = 0;
    if starts_with_at(&v, 0, n, unit) {
        start = unit.unicode_len();
    }
    assert(v@.subrange(start as int, n as int) =~= strip_or_keep(rel@, unit@)) by {
        assert(v@.subrange(0, n as int) =~= v@);
    }
    start = skip_char(&v, start, '/');
    let ghost after_unit = v@.subrange(start as int, n as int);
    if starts_with_at(&v, start, n, "src/") {
        proof {
            reveal_strlit("src/");
        }
        start = start + 4;
    }
    assert(v@.subrange(start as int, n as int) =~= strip_or_keep(after_unit, "src/"@)) by {
        reveal_strlit("src/");
    }
    let mut end: usize = n;
    let ghost after_src = v@.subrange(start as int, n as int);
    if ends_with_at(&v, start, n, ".rs") {
        proof {
            reveal_strlit(".rs");
        }
        end = n - 3;
    }
    let ghost stem = v@.subrange(start as int, end as int);
    assert(stem =~= strip_suffix_or_keep(after_src, ".rs"@)) by {
        reveal_strlit(".rs");
    }
    let bounds = split_bounds(&v, start, end, '/');
    let ghost parts = split_char(stem, '/');
    let mut segs: Vec<String> = Vec::new();
    let mut last: (usize, usize) = (0, 0);
    let mut k: usize = 0;
    while k < bounds.len()
        invariant
            k <= bounds.len(),
            bounds.len() == parts.len(),
            parts == split_char(stem, '/'),
            stem == v@.subrange(start as int, end as int),
            start <= end <= v.len(),
            forall|j: int|
                #![trigger bounds@[j]]
                0 <= j < bounds.len() ==> start <= bounds@[j].0 <= bounds@[j].1 <= end
                    && v@.subrange(bounds@[j].0 as int, bounds@[j].1 as int) == parts[j],
            segs.deep_view() =~= nonempty_parts(parts.take(k as int)),
            segs.len() > 0 ==> last.0 <= last.1 <= v.len() && v@.subrange(
                last.0 as int,
                last.1 as int,
            ) == segs.deep_view().last(),
        decreases bounds.len() - k,
    {
        let b = bounds[k];
        let ghost before = segs.deep_view();
        assert(parts.take(k + 1).drop_last() =~= parts.take(k as int));
        assert(parts.take(k + 1).last() == parts[k as int]);
        assert(nonempty_parts(parts.take(k + 1)) == if parts[k as int].len() > 0 {
            nonempty_parts(parts.take(k as int)).push(parts[k as int])
        } else {
            nonempty_parts(parts.take(k as int))
        }) by {
            reveal(Seq::filter);
        }
        if b.0 < b.1 {
            let seg = string_of(&v, b.0, b.1);
            segs.push(seg);
            last = b;
            assert(segs.deep_view() =~= before.push(parts[k as int]));
        }
        k = k + 1;
    }
    assert(parts.take(k as int) =~= parts);
    if segs.len() > 0 {
        let lib = equals_at(&v, last.0, last.1, "lib");
        let md = equals_at(&v, last.0, last.1, "mod");
        let mn = equals_at(&v, last.0, last.1, "main");
        if lib || md || mn {
            segs.pop();
        }
    }
    segs
}

/// `unit` followed by `::` and the module segments of `rel` joined with
/// `::`, or `unit` alone when the file is the unit's root module.
pub fn module_path_of_rel(rel: &str, unit: &str) -> (r: String)
    ensures
        r@ == module_path_text(rel@, unit@),
{
    let segs = file_module_segments(rel, unit);
    if segs.len() == 0 {
        text_of(unit)
    } else {
        let mut r = text_of(unit);
        push_str(&mut r, "::");
        push_join(&mut r, &segs, "::");
        r
    }
}

/// Whether a path starts at the root.
pub open spec fn is_absolute(s: Seq<char>) -> bool {
    s.len() > 0 && s[0] == '/'
}

/// A piece between separators that names a component.
pub open spec fn is_component(x: Seq<char>) -> bool {
    x.len() > 0 && x != "."@
}

/// The components of a path, root aside.
pub open spec fn path_parts(s: Seq<char>) -> Seq<Seq<char>> {
    split_char(s, '/').filter(|x: Seq<char>| is_component(x))
}

/// A path's components after those of `root`, joined with `/`, when `root`
/// is a leading part of it (`Path::strip_prefix`).
pub open spec fn rel_path(path: Seq<char>, root: Seq<char>) -> Option<Seq<char>> {
    let p = path_parts(path);
    let r = path_parts(root);
    if is_absolute(path) == is_absolute(root) && r.len() <= p.len() && p.take(r.len() as int)
        == r {
        Some(join(p.skip(r.len() as int), "/"@))
    } else {
        None
    }
}

/// `s` with every `\\` written as `/`.
pub open spec fn unbackslash(s: Seq<char>) -> Seq<char> {
    s.map_values(|c: char| if c == '\\' { '/' } else { c })
}

/// The last component of a path, unless there is none or it is `..`
/// (`Path::file_name`).
pub open spec fn file_name(s: Seq<char>) -> Option<Seq<char>> {
    let p = path_parts(s);
    if p.len() > 0 && p.last() != ".."@ {
        Some(p.last())
    } else {
        None
    }
}

/// The name of the unit rooted at `dir`: its path below `root`, or its own
/// name when it is not below `root` or is `root` itself.
pub open spec fn unit_name(dir: Seq<char>, root: Seq<char>) -> Option<Seq<char>> {
    match rel_path(dir, root) {
        Some(rel) if rel.len() > 0 => Some(unbackslash(rel)),
        _ => file_name(dir),
    }
}

/// The crate-root-collapsed module path of `file`, for a known unit.
pub open spec fn rust_module_path(file: Seq<char>, root: Seq<char>, unit: Option<Seq<char>>) -> Option<Seq<char>> {
    match unit {
        None => None,
        Some(u) => {
            let rel = match rel_path(file, root) {
                Some(r) => unbackslash(r),
                None => seq![],
            };
            Some(module_path_text(rel, u))
        },
    }
}

/// The components of `s`, and whether it starts at the root.
pub fn components(s: &str) -> (r: (bool, Vec<String>))
    ensures
        r.0 == is_absolute(s@),
        r.1.deep_view() == path_parts(s@),
{
    let v = chars_of(s);
    let n = v.len();
    let abs = n > 0 && v[0] == '/';
    let bounds = split_bounds(&v, 0, n, '/');
    let ghost parts = split_char(v@.subrange(0, n as int), '/');
    assert(v@.subrange(0, n as int) =~= s@);
    let mut out: Vec<String> = Vec::new();
    let mut k: usize = 0;
    while k < bounds.len()
        invariant
            k <= bounds.len(),
            n == v.len(),
            bounds.len() == parts.len(),
            parts == split_char(v@.subrange(0, n as int), '/'),
            forall|j: int|
                #![trigger bounds@[j]]
                0 <= j < bounds.len() ==> 0 <= bounds@[j].0 <= bounds@[j].1 <= n
                    && v@.subrange(bounds@[j].0 as int, bounds@[j].1 as int) == parts[j],
            out.deep_view() =~= parts.take(k as int).filter(|x: Seq<char>| is_component(x)),
        decreases bounds.len() - k,
    {
        let b = bounds[k];
        let ghost before = out.deep_view();
        assert(parts.take(k + 1).drop_last() =~= parts.take(k as int));
        assert(parts.take(k + 1).last() == parts[k as int]);
        assert(parts.take(k + 1).filter(|x: Seq<char>| is_component(x)) == if is_component(
            parts[k as int],
        ) {
            parts.take(k as int).filter(|x: Seq<char>| is_component(x)).push(parts[k as int])
        } else {
            parts.take(k as int).filter(|x: Seq<char>| is_component(x))
        }) by {
            reveal(Seq::filter);
        }
        if b.0 < b.1 && !equals_at(&v, b.0, b.1, ".") {
            let c = string_of(&v, b.0, b.1);
            out.push(c);
            assert(out.deep_view() =~= before.push(parts[k as int]));
        }
        k = k + 1;
    }
    assert(parts.take(k as int) =~= parts);
    (abs, out)
}

/// Whether two texts are the same.
pub fn same_text(a: &str, b: &str) -> (r: bool)
    ensures
        r == (a@ == b@),
{
    let v = chars_of(a);
    assert(v@.subrange(0, v.len() as int) =~= v@);
    equals_at(&v, 0, v.len(), b)
}

/// Whether `a` begins with the components `b`.
fn parts_prefix(a: &Vec<String>, b: &Vec<String>) -> (r: bool)
    ensures
        r == (b.len() <= a.len() && a.deep_view().take(b.len() as int) == b.deep_view()),
{
    if b.len() > a.len() {
        return false;
    }
    let mut i: usize = 0;
    while i < b.len()
        invariant
            b.len() <= a.len(),
            i <= b.len(),
            forall|j: int| 0 <= j < i ==> a@[j]@ == b@[j]@,
        decreases b.len() - i,
    {
        if !same_text(a[i].as_str(), b[i].as_str()) {
            assert(a.deep_view().take(b.len() as int)[i as int] != b.deep_view()[i as int]);
            return false;
        }
        i = i + 1;
    }
    assert(a.deep_view().take(b.len() as int) =~= b.deep_view());
    true
}

/// A copy of `parts[from..to]`.
fn parts_range(parts: &Vec<String>, from: usize, to: usize) -> (r: Vec<String>)
    requires
        from <= to <= parts.len(),
    ensures
        r.deep_view() == parts.deep_view().subrange(from as int, to as int),
{
    let mut rest: Vec<String> = Vec::new();
    let mut i = from;
    while i < to
        invariant
            from <= i <= to <= parts.len(),
            rest.deep_view() =~= parts.deep_view().subrange(from as int, i as int),
        decreases to - i,
    {
        let ghost before = rest.deep_view();
        let c = parts[i].clone();
        rest.push(c);
        assert(rest.deep_view() =~= before.push(parts@[i as int]@));
        i = i + 1;
    }
    rest
}

/// `parts[from..]` joined with `/`.
fn join_from(parts: &Vec<String>, from: usize) -> (r: String)
    requires
        from <= parts.len(),
    ensures
        r@ == join(parts.deep_view().skip(from as int), "/"@),
{
    let rest = parts_range(parts, from, parts.len());
    assert(parts.deep_view().subrange(from as int, parts.len() as int) =~= parts.deep_view().skip(
        from as int,
    ));
    let mut r = String::new();
    push_join(&mut r, &rest, "/");
    assert(r@ =~= join(parts.deep_view().skip(from as int), "/"@));
    r
}

/// `path` below `root`, when `root` is a leading part of it.
pub fn strip_path_prefix(path: &str, root: &str) -> (r: Option<String>)
    ensures
        r.deep_view() == rel_path(path@, root@),
{
    let (pa, pp) = components(path);
    let (ra, rp) = components(root);
    if pa == ra && parts_prefix(&pp, &rp) {
        Some(join_from(&pp, rp.len()))
    } else {
        None
    }
}

/// `s` with every `\\` written as `/`.
pub fn replace_backslashes(s: &str) -> (r: String)
    ensures
        r@ == unbackslash(s@),
{
    let v = chars_of(s);
    let mut r = String::new();
    let mut i: usize = 0;
    while i < v.len()
        invariant
            i <= v.len(),
            v@ == s@,
            r@ =~= unbackslash(s@).take(i as int),
        decreases v.len() - i,
    {
        if v[i] == '\\' {
            r.push('/');
        } else {
            r.push(v[i]);
        }
        i = i + 1;
    }
    assert(unbackslash(s@).take(i as int) =~= unbackslash(s@));
    r
}

/// The last component of a path, unless there is none or it is `..`.
pub fn path_file_name(s: &str) -> (r: Option<String>)
    ensures
        r.deep_view() == file_name(s@),
{
    let (_, parts) = components(s);
    if parts.len() == 0 {
        return None;
    }
    let last = parts[parts.len() - 1].clone();
    if same_text(last.as_str(), "..") {
        None
    } else {
        Some(last)
    }
}

/// The name of the unit rooted at `dir` (the directory of a `Cargo.toml`):
/// its path relative to `root`, or its own name when that is empty or
/// `dir` is not under `root`.
pub fn unit_name_for(dir: &str, root: &str) -> (r: Option<String>)
    ensures
        r.deep_view() == unit_name(dir@, root@),
{
    if let Some(rel) = strip_path_prefix(dir, root) {
        if rel.unicode_len() > 0 {
            return Some(replace_backslashes(rel.as_str()));
        }
    }
    path_file_name(dir)
}

/// The crate-root-collapsed module path of a source file: `unit`, then
/// `::` and the path components between `<unit>/src/` and the file with a
/// closing `lib`, `mod` or `main` dropped. `None` when `unit` is unknown.
pub fn module_path_of(file_path: &str, root: &str, unit: Option<&str>) -> (r: Option<String>)
    ensures
        r.deep_view() == rust_module_path(
            file_path@,
            root@,
            match unit {
                Some(u) => Some(u@),
                None => None,
            },
        ),
{
    match unit {
        None => None,
        Some(u) => {
            let rel = match strip_path_prefix(file_path, root) {
                Some(r) => replace_backslashes(r.as_str()),
                None => String::new(),
            };
            Some(module_path_of_rel(rel.as_str(), u))
        },
    }
}

/// Whether one of `dirs` has the components `comps` and starts at the root
/// exactly when `abs` holds.
pub open spec fn manifest_at(dirs: Seq<Seq<char>>, abs: bool, comps: Seq<Seq<char>>) -> bool {
    exists|j: int|
        0 <= j < dirs.len() && is_absolute(#[trigger] dirs[j]) == abs && path_parts(dirs[j])
            == comps
}

/// The deepest `i < k` whose leading `i` components of `p` name one of
/// `dirs`.
pub open spec fn nearest_manifest(dirs: Seq<Seq<char>>, abs: bool, p: Seq<Seq<char>>, k: nat) -> Option<nat>
    decreases k,
{
    if k == 0 {
        None
    } else if manifest_at(dirs, abs, p.take(k - 1)) {
        Some((k - 1) as nat)
    } else {
        nearest_manifest(dirs, abs, p, (k - 1) as nat)
    }
}

/// A path from its components.
pub open spec fn render_path(abs: bool, comps: Seq<Seq<char>>) -> Seq<char> {
    if abs {
        "/"@ + join(comps, "/"@)
    } else {
        join(comps, "/"@)
    }
}

/// The unit that owns `file`: the nearest of its ancestor directories that
/// is one of `manifest_dirs`, named by `unit_name`.
pub open spec fn owned_unit(file: Seq<char>, root: Seq<char>, manifest_dirs: Seq<Seq<char>>) -> Option<Seq<char>> {
    let p = path_parts(file);
    let abs = is_absolute(file);
    match nearest_manifest(manifest_dirs, abs, p, p.len()) {
        Some(k) => unit_name(render_path(abs, p.take(k as int)), root),
        None => None,
    }
}

pub fn parts_equal(a: &Vec<String>, b: &Vec<String>) -> (r: bool)
    ensures
        r == (a.deep_view() == b.deep_view()),
{
    if a.len() != b.len() {
        assert(a.deep_view().len() != b.deep_view().len());
        return false;
    }
    let r = parts_prefix(a, b);
    assert(a.deep_view().take(b.len() as int) =~= a.deep_view());
    r
}

/// The owning unit of a source file, found by walking up from the file to
/// the nearest directory that holds a `Cargo.toml`. Which directories hold
/// one is told by `manifest_dirs`; a directory is matched by its components.
/// `None` when no ancestor does.
pub fn find_owned_unit(file_path: &str, root: &str, manifest_dirs: &Vec<String>) -> (r: Option<String>)
    ensures
        r.deep_view() == owned_unit(file_path@, root@, manifest_dirs.deep_view()),
{
    let ghost dirs = manifest_dirs.deep_view();
    let mut known: Vec<(bool, Vec<String>)> = Vec::new();
    let mut j: usize = 0;
    while j < manifest_dirs.len()
        invariant
            j <= manifest_dirs.len(),
            dirs == manifest_dirs.deep_view(),
            known.len() == j,
            forall|i: int|
                0 <= i < j ==> (#[trigger] known@[i]).0 == is_absolute(dirs[i])
                    && known@[i].1.deep_view() == path_parts(dirs[i]),
        decreases manifest_dirs.len() - j,
    {
        known.push(components(manifest_dirs[j].as_str()));
        j = j + 1;
    }
    let (abs, p) = components(file_path);
    let ghost pv = p.deep_view();
    let mut k: usize = p.len();
    while k > 0
        invariant
            k <= p.len(),
            pv == p.deep_view(),
            abs == is_absolute(file_path@),
            pv == path_parts(file_path@),
            dirs == manifest_dirs.deep_view(),
            known.len() == dirs.len(),
            forall|i: int|
                0 <= i < known.len() ==> (#[trigger] known@[i]).0 == is_absolute(dirs[i])
                    && known@[i].1.deep_view() == path_parts(dirs[i]),
            nearest_manifest(dirs, abs, pv, pv.len()) == nearest_manifest(dirs, abs, pv, k as nat),
        decreases k,
    {
        let prefix = parts_range(&p, 0, k - 1);
        assert(pv.subrange(0, k - 1) =~= pv.take(k - 1));
        let mut found = false;
        let mut i: usize = 0;
        while i < known.len()
            invariant
                i <= known.len(),
                known.len() == dirs.len(),
                prefix.deep_view() == pv.take(k - 1),
                forall|q: int|
                    0 <= q < known.len() ==> (#[trigger] known@[q]).0 == is_absolute(dirs[q])
                        && known@[q].1.deep_view() == path_parts(dirs[q]),
                found == exists|q: int|
                    0 <= q < i && is_absolute(#[trigger] dirs[q]) == abs && path_parts(dirs[q])
                        == pv.take(k - 1),
            decreases known.len() - i,
        {
            if known[i].0 == abs && parts_equal(&known[i].1, &prefix) {
                found = true;
            }
            i = i + 1;
        }
        if found {
            let rendered = if abs {
                let mut r = text_of("/");
                let rest = join_from(&prefix, 0);
                assert(prefix.deep_view().skip(0) =~= prefix.deep_view());
                push_str(&mut r, rest.as_str());
                r
            } else {
                let r = join_from(&prefix, 0);
                assert(prefix.deep_view().skip(0) =~= prefix.deep_view());
                r
            };
            return unit_name_for(rendered.as_str(), root);
        }
        k = k - 1;
    }
    None
}

/// The extension of a path's file name: what follows its last `.`, unless
/// the name has no `.` or its only `.` opens it (`Path::extension`).
pub open spec fn extension(s: Seq<char>) -> Option<Seq<char>> {
    match file_name(s) {
        None => None,
        Some(f) => match rfind_str(f, "."@) {
            None => None,
            Some(i) => if i == 0 {
                None
            } else {
                Some(f.skip(i + 1))
            },
        },
    }
}

pub fn path_extension(s: &str) -> (r: Option<String>)
    ensures
        r.deep_view() == extension(s@),
{
    let f = match path_file_name(s) {
        None => return None,
        Some(f) => f,
    };
    let v = chars_of(f.as_str());
    match rfind_in(&v, ".") {
        None => None,
        Some(i) => {
            if i == 0 {
                None
            } else {
                proof {
                    reveal_strlit(".");
                }
                Some(string_of(&v, i + 1, v.len()))
            }
        },
    }
}

/// Whether a file is Rust source: its extension is `rs`.
pub open spec fn is_rust_source(s: Seq<char>) -> bool {
    extension(s) == Some("rs"@)
}

pub fn is_rust_file(path: &str) -> (r: bool)
    ensures
        r == is_rust_source(path@),
{
    match path_extension(path) {
        Some(e) => same_text(e.as_str(), "rs"),
        None => false,
    }
}

/// Loads the Rust sources of a code base.
#[derive(Debug, Clone, Copy, PartialEq, Eq, Default)]
pub struct RustLoader;

impl RustLoader {
    pub fn new() -> (r: RustLoader)
        ensures
            r == RustLoader,
    {
        RustLoader
    }
}

/// A relative path with no `\`, made of components only: no empty or `.`
/// piece between its `/`s.
pub open spec fn plain_relative(rel: Seq<char>) -> bool {
    &&& rel.len() > 0
    &&& forall|i: int| 0 <= i < rel.len() ==> rel[i] != '\\'
    &&& forall|k: int| 0 <= k < split_char(rel, '/').len() ==> is_component(#[trigger] split_char(rel, '/')[k])
}

proof fn lemma_split_concat(a: Seq<char>, b: Seq<char>, d: char)
    ensures
        split_char(a + seq![d] + b, d) == split_char(a, d) + split_char(b, d),
    decreases b.len(),
{
    let ad = a + seq![d];
    if b.len() == 0 {
        assert(ad + b =~= ad);
        assert(ad.drop_last() =~= a);
        assert(split_char(b, d) == seq![Seq::<char>::empty()]);
        assert(split_char(ad, d) =~= split_char(a, d) + split_char(b, d));
    } else {
        let b0 = b.drop_last();
        lemma_split_concat(a, b0, d);
        crate::text::lemma_split_char_nonempty(b0, d);
        assert((ad + b).drop_last() =~= ad + b0);
        assert((ad + b).last() == b.last());
        let r = split_char(a, d) + split_char(b0, d);
        if b.last() == d {
            assert(split_char(ad + b, d) =~= r.push(seq![]));
            assert(split_char(b, d) =~= split_char(b0, d).push(seq![]));
            assert(r.push(seq![]) =~= split_char(a, d) + split_char(b, d));
        } else {
            let sb = split_char(b0, d);
            assert(split_char(b, d) =~= sb.update(sb.len() - 1, sb.last().push(b.last())));
            assert(split_char(ad + b, d) =~= r.update(r.len() - 1, r.last().push(b.last())));
            assert(r.update(r.len() - 1, r.last().push(b.last())) =~= split_char(a, d) + split_char(b, d));
        }
    }
}

proof fn lemma_filter_keeps_components(s: Seq<Seq<char>>)
    requires
        forall|k: int| 0 <= k < s.len() ==> is_component(#[trigger] s[k]),
    ensures
        s.filter(|x: Seq<char>| is_component(x)) == s,
    decreases s.len(),
{
    reveal(Seq::filter);
    if s.len() > 0 {
        let d = s.drop_last();
        assert forall|k: int| 0 <= k < d.len() implies is_component(#[trigger] d[k]) by {
            assert(d[k] == s[k]);
        }
        lemma_filter_keeps_components(d);
        assert(is_component(s[s.len() - 1]));
        assert(d.push(s.last()) =~= s);
    }
}

proof fn lemma_join_split(s: Seq<char>, d: char)
    ensures
        join(split_char(s, d), seq![d]) == s,
    decreases s.len(),
{
    if s.len() > 0 {
        let s0 = s.drop_last();
        lemma_join_split(s0, d);
        crate::text::lemma_split_char_nonempty(s0, d);
        let r = split_char(s0, d);
        if s.last() == d {
            assert(split_char(s, d) == r.push(seq![]));
            assert(r.push(seq![]).drop_last() =~= r);
            assert(join(r.push(seq![]), seq![d]) =~= s);
        } else {
            let u = r.update(r.len() - 1, r.last().push(s.last()));
            assert(split_char(s, d) == u);
            if r.len() == 1 {
                assert(join(r, seq![d]) == r[0]);
                assert(join(u, seq![d]) =~= s);
            } else {
                assert(u.drop_last() =~= r.drop_last());
                assert(u.last() == r.last().push(s.last()));
                assert(join(r, seq![d]) == join(r.drop_last(), seq![d]) + seq![d] + r.last());
                assert(join(u, seq![d]) == join(u.drop_last(), seq![d]) + seq![d] + u.last());
                assert(s =~= s0.push(s.last()));
                assert(join(u, seq![d]) =~= join(r, seq![d]).push(s.last()));
            }
        }
    }
}

/// Joining a code root and a plain relative path gives the path the
/// relative path's module path: the source walk, which sees the file under
/// its root, and a keyspace, which records the path below the root, agree
/// on an item's module path.
pub proof fn module_path_of_a_joined_path(root: Seq<char>, rel: Seq<char>, unit: Seq<char>)
    requires
        root.len() > 0,
        plain_relative(rel),
    ensures
        rust_module_path(root + "/"@ + rel, root, Some(unit)) == Some(module_path_text(rel, unit)),
{
    reveal_strlit("/");
    let file = root + "/"@ + rel;
    assert("/"@ =~= seq!['/']);
    assert(file =~= root + seq!['/'] + rel);
    lemma_split_concat(root, rel, '/');
    let pred = |x: Seq<char>| is_component(x);
    let sr = split_char(root, '/');
    let sl = split_char(rel, '/');
    Seq::filter_distributes_over_add(sr, sl, pred);
    assert(path_parts(file) == sr.filter(pred) + sl.filter(pred));
    lemma_filter_keeps_components(sl);
    let r = path_parts(root);
    assert(is_absolute(file) == is_absolute(root)) by {
        assert(file[0] == root[0]);
    }
    assert(path_parts(file).take(r.len() as int) =~= r);
    assert(path_parts(file).skip(r.len() as int) =~= sl);
    lemma_join_split(rel, '/');
    assert(rel_path(file, root) == Some(rel));
    assert(unbackslash(rel) =~= rel);
}

} // verus!
