//! Paths as text: joining, comparing by components, and the ordered, duplicate-free
//! search lists of directories and executables used to find tools and Python.
use vstd::prelude::*;
use crate::text::{
    chars_of, concat, has_prefix, parse_u32, parse_u32_spec, split_char, split_on, starts_with, str_eq,
    string_from, trim, trim_str, views,
};

verus! {

// ---------------------------------------------------------------------------
// Joining and comparing
// ---------------------------------------------------------------------------

/// `base.join(rel)` for Unix paths: an absolute `rel` replaces `base`; otherwise one
/// separator goes between them unless `base` is empty or already ends with one.
pub open spec fn join_path(base: Seq<char>, rel: Seq<char>) -> Seq<char> {
    if rel.len() > 0 && rel[0] == '/' {
        rel
    } else if base.len() == 0 {
        rel
    } else if base.last() == '/' {
        base + rel
    } else {
        base + seq!['/'] + rel
    }
}

/// A component that is a plain name (not empty, not `.`).
pub open spec fn is_normal_part(x: Seq<char>) -> bool {
    x.len() > 0 && x != seq!['.']
}

/// The plain names among the pieces, in order.
pub open spec fn keep_normal(ps: Seq<Seq<char>>) -> Seq<Seq<char>>
    decreases ps.len(),
{
    if ps.len() == 0 {
        Seq::empty()
    } else {
        let r = keep_normal(ps.drop_last());
        if is_normal_part(ps.last()) {
            r.push(ps.last())
        } else {
            r
        }
    }
}

/// The components of a Unix path as `Path::components` yields them: the root (written
/// `/`) when the path is absolute, a leading `.` when a relative path starts with one,
/// then the names between separators, with empty names and other `.` names left out.
pub open spec fn path_components(p: Seq<char>) -> Seq<Seq<char>> {
    let pieces = split_on(p, '/');
    let lead = if p.len() > 0 && p[0] == '/' {
        seq![seq!['/']]
    } else if pieces.len() > 0 && pieces[0] == seq!['.'] {
        seq![seq!['.']]
    } else {
        Seq::<Seq<char>>::empty()
    };
    lead + keep_normal(pieces)
}

/// Two paths are equal as `Path`s are: component by component.
pub open spec fn same_path(a: Seq<char>, b: Seq<char>) -> bool {
    path_components(a) == path_components(b)
}

/// `base.join(rel)`.
pub fn path_join(base: &str, rel: &str) -> (r: String)
    ensures
        r@ == join_path(base@, rel@),
{
    let rv = chars_of(rel);
    let bv = chars_of(base);
    if rv.len() > 0 && rv[0] == '/' {
        String::from_str(rel)
    } else if bv.len() == 0 {
        String::from_str(rel)
    } else if bv[bv.len() - 1] == '/' {
        concat(base, rel)
    } else {
        let mut s = String::from_str(base);
        s.push('/');
        s.append(rel);
        s
    }
}

/// The components of a path.
pub fn components(p: &str) -> (r: Vec<String>)
    ensures
        views(r@) == path_components(p@),
{
    let pieces = split_char(p, '/');
    let pv = chars_of(p);
    let mut out: Vec<String> = Vec::new();
    proof {
        reveal_strlit("/");
        reveal_strlit(".");
        assert("/"@ =~= seq!['/']);
        assert("."@ =~= seq!['.']);
        assert(views(pieces@).len() == pieces@.len());
        if pieces@.len() > 0 {
            assert(views(pieces@)[0] == pieces@[0]@);
        }
    }
    if pv.len() > 0 && pv[0] == '/' {
        out.push(String::from_str("/"));
        assert(views(out@) =~= seq![seq!['/']]);
    } else if pieces.len() > 0 && str_eq(pieces[0].as_str(), ".") {
        out.push(String::from_str("."));
        assert(views(out@) =~= seq![seq!['.']]);
    } else {
        assert(views(out@) =~= Seq::<Seq<char>>::empty());
    }
    let ghost lead = views(out@);
    let ghost ps = views(pieces@);
    let mut i: usize = 0;
    assert(ps.take(0) =~= Seq::<Seq<char>>::empty());
    assert(lead + keep_normal(ps.take(0)) =~= lead);
    while i < pieces.len()
        invariant
            ps == views(pieces@),
            i <= pieces.len(),
            views(out@) == lead + keep_normal(ps.take(i as int)),
        decreases pieces.len() - i,
    {
        let piece = pieces[i].as_str();
        let n = piece.unicode_len();
        let is_dot = str_eq(piece, ".");
        proof {
            reveal_strlit(".");
            assert("."@ =~= seq!['.']);
            assert(ps.take(i + 1).drop_last() == ps.take(i as int));
            assert(ps.take(i + 1).last() == pieces@[i as int]@);
            assert(is_normal_part(pieces@[i as int]@) == (n > 0 && !is_dot));
        }
        if n > 0 && !is_dot {
            let ghost before = views(out@);
            out.push(pieces[i].clone());
            assert(views(out@) == before.push(pieces@[i as int]@));
        }
        i = i + 1;
    }
    assert(ps.take(pieces.len() as int) == ps);
    out
}

/// Two lists of strings hold the same texts in the same order.
pub fn strings_eq(a: &Vec<String>, b: &Vec<String>) -> (r: bool)
    ensures
        r == (views(a@) == views(b@)),
{
    if a.len() != b.len() {
        assert(views(a@).len() != views(b@).len());
        return false;
    }
    let mut i: usize = 0;
    while i < a.len()
        invariant
            a.len() == b.len(),
            i <= a.len(),
            forall|k: int| 0 <= k < i ==> a@[k]@ == b@[k]@,
        decreases a.len() - i,
    {
        if a[i] != b[i] {
            assert(views(a@)[i as int] != views(b@)[i as int]);
            return false;
        }
        i = i + 1;
    }
    assert(views(a@) =~= views(b@));
    true
}

/// Two paths are the same path.
pub fn paths_equal(a: &str, b: &str) -> (r: bool)
    ensures
        r == same_path(a@, b@),
{
    let ca = components(a);
    let cb = components(b);
    strings_eq(&ca, &cb)
}

// ---------------------------------------------------------------------------
// Duplicate-free lists
// ---------------------------------------------------------------------------

/// Some entry of `s` is the same path as `p`.
pub open spec fn has_path(s: Seq<Seq<char>>, p: Seq<char>) -> bool {
    exists|i: int| 0 <= i < s.len() && same_path(#[trigger] s[i], p)
}

/// Adding `p` to the list unless it is empty or the list already has it.
pub open spec fn push_unique_spec(s: Seq<Seq<char>>, p: Seq<char>) -> Seq<Seq<char>> {
    if p.len() == 0 || has_path(s, p) {
        s
    } else {
        s.push(p)
    }
}

/// Adding each of `items` in turn to `acc`, skipping empty ones and repeats.
pub open spec fn push_all(acc: Seq<Seq<char>>, items: Seq<Seq<char>>) -> Seq<Seq<char>>
    decreases items.len(),
{
    if items.len() == 0 {
        acc
    } else {
        push_unique_spec(push_all(acc, items.drop_last()), items.last())
    }
}

/// No entry is empty and no two entries are the same path.
pub open spec fn unique_paths(s: Seq<Seq<char>>) -> bool {
    &&& forall|i: int| 0 <= i < s.len() ==> (#[trigger] s[i]).len() > 0
    &&& forall|i: int, j: int| 0 <= i < j < s.len() ==> !same_path(#[trigger] s[i], #[trigger] s[j])
}

/// Adds `path` to `paths` unless it is empty or the same path is there already.
pub fn push_unique(paths: &mut Vec<String>, path: String)
    ensures
        views(final(paths)@) == push_unique_spec(views(old(paths)@), path@),
{
    if path.as_str().unicode_len() == 0 {
        return;
    }
    let mut i: usize = 0;
    while i < paths.len()
        invariant
            i <= paths.len(),
            paths@ == old(paths)@,
            forall|k: int| 0 <= k < i ==> !same_path(#[trigger] views(paths@)[k], path@),
        decreases paths.len() - i,
    {
        if paths_equal(paths[i].as_str(), path.as_str()) {
            assert(same_path(views(paths@)[i as int], path@));
            return;
        }
        i = i + 1;
    }
    let ghost before = views(paths@);
    paths.push(path);
    assert(views(paths@) == before.push(path@));
}

/// Adds each of `items` in turn with [`push_unique`].
pub fn push_all_unique(paths: &mut Vec<String>, items: &Vec<String>)
    ensures
        views(final(paths)@) == push_all(views(old(paths)@), views(items@)),
{
    let ghost init = views(paths@);
    let ghost its = views(items@);
    let mut i: usize = 0;
    assert(its.take(0) =~= Seq::<Seq<char>>::empty());
    while i < items.len()
        invariant
            i <= items.len(),
            its == views(items@),
            init == views(old(paths)@),
            views(paths@) == push_all(init, its.take(i as int)),
        decreases items.len() - i,
    {
        assert(its.take(i + 1).drop_last() == its.take(i as int));
        assert(its.take(i + 1).last() == items@[i as int]@);
        push_unique(paths, items[i].clone());
        i = i + 1;
    }
    assert(its.take(items.len() as int) == its);
}

/// Adding a path keeps a list free of empty entries and repeats.
pub proof fn lemma_push_unique_keeps_unique(s: Seq<Seq<char>>, p: Seq<char>)
    requires
        unique_paths(s),
    ensures
        unique_paths(push_unique_spec(s, p)),
{
    if !(p.len() == 0 || has_path(s, p)) {
        let t = s.push(p);
        assert forall|i: int, j: int| 0 <= i < j < t.len() implies !same_path(#[trigger] t[i], #[trigger] t[j]) by {
            if j == s.len() {
                assert(t[i] == s[i]);
                assert(!same_path(s[i], p));
            } else {
                assert(t[i] == s[i] && t[j] == s[j]);
            }
        }
    }
}

/// Every list built by adding paths one by one to an empty list has no empty entries
/// and no two entries that are the same path.
pub proof fn lemma_push_all_unique(acc: Seq<Seq<char>>, items: Seq<Seq<char>>)
    requires
        unique_paths(acc),
    ensures
        unique_paths(push_all(acc, items)),
    decreases items.len(),
{
    if items.len() > 0 {
        lemma_push_all_unique(acc, items.drop_last());
        lemma_push_unique_keeps_unique(push_all(acc, items.drop_last()), items.last());
    }
}

/// Every non-empty path handed to the list is in it afterwards, as the same path.
pub proof fn lemma_push_all_covers(acc: Seq<Seq<char>>, items: Seq<Seq<char>>)
    ensures
        forall|k: int|
            0 <= k < items.len() && (#[trigger] items[k]).len() > 0 ==> has_path(
                push_all(acc, items),
                items[k],
            ),
    decreases items.len(),
{
    if items.len() > 0 {
        let prev = items.drop_last();
        lemma_push_all_covers(acc, prev);
        let before = push_all(acc, prev);
        assert(push_all(acc, items) == push_unique_spec(before, items.last()));
        assert forall|k: int| 0 <= k < items.len() && (#[trigger] items[k]).len() > 0 implies has_path(
            push_all(acc, items),
            items[k],
        ) by {
            let after = push_all(acc, items);
            if k < prev.len() {
                assert(items[k] == prev[k]);
                assert(has_path(before, prev[k]));
                let w = choose|i: int| 0 <= i < before.len() && same_path(#[trigger] before[i], prev[k]);
                assert(after[w] == before[w]);
            } else {
                if has_path(before, items.last()) {
                    let w = choose|i: int| 0 <= i < before.len() && same_path(#[trigger] before[i], items.last());
                    assert(after[w] == before[w]);
                } else {
                    assert(after[before.len() as int] == items.last());
                }
            }
        }
    }
}

// ---------------------------------------------------------------------------
// Tool search directories
// ---------------------------------------------------------------------------

/// The Python versions looked for, newest first.
pub open spec fn python_versions() -> Seq<Seq<char>> {
    seq!["3.14"@, "3.13"@, "3.12"@, "3.11"@, "3.10"@]
}

/// The oldest Python 3 minor version that is supported.
pub const MIN_MINOR: u32 = 10;

/// The usual places of package managers' binaries.
pub open spec fn fixed_tool_dirs() -> Seq<Seq<char>> {
    seq![
        "/opt/homebrew/bin"@,
        "/opt/homebrew/sbin"@,
        "/usr/local/bin"@,
        "/usr/local/sbin"@,
        "/opt/local/bin"@,
        "/opt/local/sbin"@,
        "/usr/bin"@,
        "/bin"@,
        "/usr/sbin"@,
        "/sbin"@,
    ]
}

/// The version-manager shim directories under a home directory.
pub open spec fn home_tool_dirs(home: Seq<char>) -> Seq<Seq<char>> {
    seq![
        join_path(home, ".pyenv/shims"@),
        join_path(home, ".pyenv/bin"@),
        join_path(home, ".asdf/shims"@),
        join_path(home, ".local/share/mise/shims"@),
        join_path(home, ".local/bin"@),
    ]
}

/// For each version, the two Homebrew `python@` formula directories.
pub open spec fn versioned_tool_dirs(vs: Seq<Seq<char>>) -> Seq<Seq<char>>
    decreases vs.len(),
{
    if vs.len() == 0 {
        Seq::empty()
    } else {
        let v = vs.last();
        versioned_tool_dirs(vs.drop_last()) + seq![
            "/opt/homebrew/opt/python@"@ + v + "/bin"@,
            "/usr/local/opt/python@"@ + v + "/bin"@,
        ]
    }
}

/// Every directory considered, in order, before repeats are dropped: the fixed ones,
/// those under the home directory (when known), the versioned formula directories,
/// then the entries of the `PATH` value (when set).
pub open spec fn tool_dir_candidates(home: Option<Seq<char>>, path_var: Option<Seq<char>>) -> Seq<
    Seq<char>,
> {
    let h = match home {
        Some(hd) => home_tool_dirs(hd),
        None => Seq::empty(),
    };
    let p = match path_var {
        Some(pv) => split_on(pv, ':'),
        None => Seq::empty(),
    };
    fixed_tool_dirs() + h + versioned_tool_dirs(python_versions()) + p
}

/// The directories searched for tools, in order, without empty entries or repeats.
pub open spec fn tool_search_dirs_spec(home: Option<Seq<char>>, path_var: Option<Seq<char>>) -> Seq<
    Seq<char>,
> {
    push_all(Seq::empty(), tool_dir_candidates(home, path_var))
}

pub open spec fn opt_view(o: Option<String>) -> Option<Seq<char>> {
    match o {
        Some(s) => Some(s@),
        None => None,
    }
}

fn python_version_list() -> (r: Vec<String>)
    ensures
        views(r@) == python_versions(),
{
    let mut r: Vec<String> = Vec::new();
    r.push(String::from_str("3.14"));
    r.push(String::from_str("3.13"));
    r.push(String::from_str("3.12"));
    r.push(String::from_str("3.11"));
    r.push(String::from_str("3.10"));
    assert(views(r@) =~= python_versions());
    r
}

fn push_str(v: &mut Vec<String>, s: &str)
    ensures
        views(final(v)@) == views(old(v)@).push(s@),
{
    let ghost before = views(v@);
    v.push(String::from_str(s));
    assert(views(v@) =~= before.push(s@));
}

fn three(a: &str, b: &str, c: &str) -> (r: String)
    ensures
        r@ == a@ + b@ + c@,
{
    let mut s = String::from_str(a);
    s.append(b);
    s.append(c);
    s
}

/// The directories searched for tools, given the home directory and the `PATH` value
/// of the environment.
pub fn tool_search_dirs(home: Option<String>, path_var: Option<String>) -> (r: Vec<String>)
    ensures
        views(r@) == tool_search_dirs_spec(opt_view(home), opt_view(path_var)),
{
    let mut cands: Vec<String> = Vec::new();
    push_str(&mut cands, "/opt/homebrew/bin");
    push_str(&mut cands, "/opt/homebrew/sbin");
    push_str(&mut cands, "/usr/local/bin");
    push_str(&mut cands, "/usr/local/sbin");
    push_str(&mut cands, "/opt/local/bin");
    push_str(&mut cands, "/opt/local/sbin");
    push_str(&mut cands, "/usr/bin");
    push_str(&mut cands, "/bin");
    push_str(&mut cands, "/usr/sbin");
    push_str(&mut cands, "/sbin");
    assert(views(cands@) =~= fixed_tool_dirs());
    let ghost after_fixed = views(cands@);
    match &home {
        Some(h) => {
            let hs = h.as_str();
            let ghost b0 = views(cands@);
            cands.push(path_join(hs, ".pyenv/shims"));
            cands.push(path_join(hs, ".pyenv/bin"));
            cands.push(path_join(hs, ".asdf/shims"));
            cands.push(path_join(hs, ".local/share/mise/shims"));
            cands.push(path_join(hs, ".local/bin"));
            assert(views(cands@) =~= b0 + home_tool_dirs(h@));
        },
        None => {
            assert(views(cands@) =~= after_fixed + Seq::<Seq<char>>::empty());
        },
    }
    let ghost after_home = views(cands@);
    let versions = python_version_list();
    let ghost vs = python_versions();
    let mut k: usize = 0;
    assert(vs.take(0) =~= Seq::<Seq<char>>::empty());
    assert(after_home + versioned_tool_dirs(vs.take(0)) =~= after_home);
    while k < versions.len()
        invariant
            k <= versions.len(),
            views(versions@) == vs,
            vs == python_versions(),
            views(cands@) == after_home + versioned_tool_dirs(vs.take(k as int)),
        decreases versions.len() - k,
    {
        let v = versions[k].as_str();
        let ghost b = views(cands@);
        assert(vs.take(k + 1).drop_last() == vs.take(k as int));
        assert(vs.take(k + 1).last() == v@);
        cands.push(three("/opt/homebrew/opt/python@", v, "/bin"));
        cands.push(three("/usr/local/opt/python@", v, "/bin"));
        assert(views(cands@) =~= b + seq![
            "/opt/homebrew/opt/python@"@ + v@ + "/bin"@,
            "/usr/local/opt/python@"@ + v@ + "/bin"@,
        ]);
        k = k + 1;
    }
    assert(vs.take(versions.len() as int) == vs);
    let ghost after_versions = views(cands@);
    match &path_var {
        Some(p) => {
            let parts = split_char(p.as_str(), ':');
            let mut j: usize = 0;
            while j < parts.len()
                invariant
                    j <= parts.len(),
                    views(cands@) == after_versions + views(parts@).take(j as int),
                decreases parts.len() - j,
            {
                let ghost b = views(cands@);
                cands.push(parts[j].clone());
                assert(views(parts@).take(j + 1) == views(parts@).take(j as int).push(parts@[j as int]@));
                assert(views(cands@) =~= b.push(parts@[j as int]@));
                j = j + 1;
            }
            assert(views(parts@).take(parts.len() as int) == views(parts@));
        },
        None => {
            assert(views(cands@) =~= after_versions + Seq::<Seq<char>>::empty());
        },
    }
    assert(views(cands@) =~= tool_dir_candidates(opt_view(home), opt_view(path_var)));
    let mut dirs: Vec<String> = Vec::new();
    assert(views(dirs@) =~= Seq::<Seq<char>>::empty());
    push_all_unique(&mut dirs, &cands);
    dirs
}

/// The directories searched for tools have no empty entries and no repeated path, and
/// every non-empty candidate directory is among them.
pub proof fn lemma_tool_search_dirs_unique(home: Option<Seq<char>>, path_var: Option<Seq<char>>)
    ensures
        unique_paths(tool_search_dirs_spec(home, path_var)),
        forall|k: int|
            0 <= k < tool_dir_candidates(home, path_var).len() && (#[trigger] tool_dir_candidates(
                home,
                path_var,
            )[k]).len() > 0 ==> has_path(
                tool_search_dirs_spec(home, path_var),
                tool_dir_candidates(home, path_var)[k],
            ),
{
    lemma_push_all_unique(Seq::empty(), tool_dir_candidates(home, path_var));
    lemma_push_all_covers(Seq::empty(), tool_dir_candidates(home, path_var));
}

/// Some entry contains the `:` separator.
pub open spec fn any_has_colon(dirs: Seq<Seq<char>>) -> bool {
    exists|i: int, j: int| 0 <= i < dirs.len() && 0 <= j < dirs[i].len() && #[trigger] dirs[i][j] == ':'
}

/// The entries joined with `:` between them.
pub open spec fn join_colon(dirs: Seq<Seq<char>>) -> Seq<char>
    decreases dirs.len(),
{
    if dirs.len() == 0 {
        Seq::empty()
    } else if dirs.len() == 1 {
        dirs[0]
    } else {
        join_colon(dirs.drop_last()) + seq![':'] + dirs.last()
    }
}

/// What `join_paths(dirs)` gives, falling back to the current `PATH` value (or an empty
/// one) when some entry holds the separator.
pub open spec fn path_env_spec(dirs: Seq<Seq<char>>, path_var: Option<Seq<char>>) -> Seq<char> {
    if any_has_colon(dirs) {
        match path_var {
            Some(p) => p,
            None => Seq::empty(),
        }
    } else {
        join_colon(dirs)
    }
}

fn has_colon(s: &str) -> (r: bool)
    ensures
        r == exists|j: int| 0 <= j < s@.len() && s@[j] == ':',
{
    let v = chars_of(s);
    let mut i: usize = 0;
    while i < v.len()
        invariant
            v@ == s@,
            i <= v.len(),
            forall|j: int| 0 <= j < i ==> v@[j] != ':',
        decreases v.len() - i,
    {
        if v[i] == ':' {
            return true;
        }
        i = i + 1;
    }
    false
}

/// The `PATH` value handed to child processes: the search directories joined by `:`,
/// or the current `PATH` when they cannot be joined.
pub fn tool_path_env(dirs: &Vec<String>, path_var: Option<String>) -> (r: String)
    ensures
        r@ == path_env_spec(views(dirs@), opt_view(path_var)),
{
    let ghost ds = views(dirs@);
    let mut out = String::new();
    let mut i: usize = 0;
    assert(ds.take(0) =~= Seq::<Seq<char>>::empty());
    while i < dirs.len()
        invariant
            ds == views(dirs@),
            i <= dirs.len(),
            forall|a: int, j: int| 0 <= a < i && 0 <= j < ds[a].len() ==> ds[a][j] != ':',
            out@ == join_colon(ds.take(i as int)),
        decreases dirs.len() - i,
    {
        if has_colon(dirs[i].as_str()) {
            proof {
                let j = choose|j: int| 0 <= j < dirs@[i as int]@.len() && dirs@[i as int]@[j] == ':';
                assert(ds[i as int][j] == ':');
            }
            return match path_var {
                Some(p) => p,
                None => String::new(),
            };
        }
        assert(ds.take(i + 1).drop_last() == ds.take(i as int));
        if i > 0 {
            out.push(':');
        }
        out.append(dirs[i].as_str());
        proof {
            if i == 0 {
                assert(ds.take(1)[0] == ds[0]);
                assert(out@ =~= join_colon(ds.take(1)));
            }
        }
        i = i + 1;
    }
    assert(ds.take(dirs.len() as int) == ds);
    out
}

/// `name` joined onto each directory, in order.
pub open spec fn joined(dirs: Seq<Seq<char>>, name: Seq<char>) -> Seq<Seq<char>>
    decreases dirs.len(),
{
    if dirs.len() == 0 {
        Seq::empty()
    } else {
        joined(dirs.drop_last(), name).push(join_path(dirs.last(), name))
    }
}

/// The places where a tool named `binary` is looked for: that name under each search
/// directory, then the bare name itself, without repeats.
pub open spec fn tool_candidates_spec(binary: Seq<char>, dirs: Seq<Seq<char>>) -> Seq<Seq<char>> {
    push_all(Seq::empty(), joined(dirs, binary).push(binary))
}

/// The places where a tool named `binary` is looked for.
pub fn tool_candidates(binary: &str, dirs: &Vec<String>) -> (r: Vec<String>)
    ensures
        views(r@) == tool_candidates_spec(binary@, views(dirs@)),
{
    let mut items: Vec<String> = Vec::new();
    let mut i: usize = 0;
    assert(views(dirs@).take(0) =~= Seq::<Seq<char>>::empty());
    assert(views(items@) =~= Seq::<Seq<char>>::empty());
    while i < dirs.len()
        invariant
            i <= dirs.len(),
            views(items@) == joined(views(dirs@).take(i as int), binary@),
        decreases dirs.len() - i,
    {
        let ghost b = views(items@);
        items.push(path_join(dirs[i].as_str(), binary));
        assert(views(dirs@).take(i + 1).drop_last() == views(dirs@).take(i as int));
        assert(views(dirs@).take(i + 1).last() == dirs@[i as int]@);
        assert(views(items@) =~= b.push(join_path(dirs@[i as int]@, binary@)));
        i = i + 1;
    }
    assert(views(dirs@).take(dirs.len() as int) == views(dirs@));
    let ghost b = views(items@);
    items.push(String::from_str(binary));
    assert(views(items@) =~= b.push(binary@));
    let mut out: Vec<String> = Vec::new();
    assert(views(out@) =~= Seq::<Seq<char>>::empty());
    push_all_unique(&mut out, &items);
    out
}

// ---------------------------------------------------------------------------
// Python candidates
// ---------------------------------------------------------------------------

/// The interpreter paths tried for one version `v`.
pub open spec fn version_python_paths(v: Seq<char>) -> Seq<Seq<char>> {
    seq![
        "/opt/homebrew/bin/python"@ + v,
        "/usr/local/bin/python"@ + v,
        "/opt/homebrew/opt/python@"@ + v + "/bin/python"@ + v,
        "/opt/homebrew/opt/python@"@ + v + "/bin/python3"@,
        "/usr/local/opt/python@"@ + v + "/bin/python"@ + v,
        "/usr/local/opt/python@"@ + v + "/bin/python3"@,
        "/opt/local/bin/python"@ + v,
        "/Library/Frameworks/Python.framework/Versions/"@ + v + "/bin/python3"@,
    ]
}

/// The versioned interpreter paths, newest version first.
pub open spec fn versioned_python_paths(vs: Seq<Seq<char>>) -> Seq<Seq<char>>
    decreases vs.len(),
{
    if vs.len() == 0 {
        Seq::empty()
    } else {
        versioned_python_paths(vs.drop_last()) + version_python_paths(vs.last())
    }
}

/// The version-manager shims under a home directory.
pub open spec fn home_python_paths(home: Seq<char>) -> Seq<Seq<char>> {
    seq![
        join_path(home, ".pyenv/shims/python3"@),
        join_path(home, ".asdf/shims/python3"@),
        join_path(home, ".local/share/mise/shims/python3"@),
    ]
}

/// `python3` then `python` under each search directory.
pub open spec fn generic_python_paths(dirs: Seq<Seq<char>>) -> Seq<Seq<char>>
    decreases dirs.len(),
{
    if dirs.len() == 0 {
        Seq::empty()
    } else {
        generic_python_paths(dirs.drop_last()) + seq![
            join_path(dirs.last(), "python3"@),
            join_path(dirs.last(), "python"@),
        ]
    }
}

/// The interpreters tried, in order of preference, without repeats: versioned installs
/// newest first, version-manager shims, then generic names in every search directory.
pub open spec fn default_python_candidates_spec(home: Option<Seq<char>>, dirs: Seq<Seq<char>>) -> Seq<
    Seq<char>,
> {
    let h = match home {
        Some(hd) => home_python_paths(hd),
        None => Seq::empty(),
    };
    push_all(
        Seq::empty(),
        versioned_python_paths(python_versions()) + h + generic_python_paths(dirs),
    )
}

fn push_version_paths(out: &mut Vec<String>, v: &str)
    ensures
        views(final(out)@) == views(old(out)@) + version_python_paths(v@),
{
    let ghost b = views(out@);
    out.push(concat("/opt/homebrew/bin/python", v));
    out.push(concat("/usr/local/bin/python", v));
    let mut s = three("/opt/homebrew/opt/python@", v, "/bin/python");
    s.append(v);
    out.push(s);
    out.push(three("/opt/homebrew/opt/python@", v, "/bin/python3"));
    let mut s2 = three("/usr/local/opt/python@", v, "/bin/python");
    s2.append(v);
    out.push(s2);
    out.push(three("/usr/local/opt/python@", v, "/bin/python3"));
    out.push(concat("/opt/local/bin/python", v));
    out.push(three("/Library/Frameworks/Python.framework/Versions/", v, "/bin/python3"));
    assert(views(out@) =~= b + version_python_paths(v@));
}

/// The interpreters tried when looking for Python, given the home directory and the
/// tool search directories.
pub fn default_python_candidates(home: Option<String>, dirs: &Vec<String>) -> (r: Vec<String>)
    ensures
        views(r@) == default_python_candidates_spec(opt_view(home), views(dirs@)),
{
    let mut paths: Vec<String> = Vec::new();
    let versions = python_version_list();
    let ghost vs = python_versions();
    let mut k: usize = 0;
    assert(vs.take(0) =~= Seq::<Seq<char>>::empty());
    assert(views(paths@) =~= versioned_python_paths(vs.take(0)));
    while k < versions.len()
        invariant
            k <= versions.len(),
            views(versions@) == vs,
            vs == python_versions(),
            views(paths@) == versioned_python_paths(vs.take(k as int)),
        decreases versions.len() - k,
    {
        assert(vs.take(k + 1).drop_last() == vs.take(k as int));
        assert(vs.take(k + 1).last() == versions@[k as int]@);
        push_version_paths(&mut paths, versions[k].as_str());
        k = k + 1;
    }
    assert(vs.take(versions.len() as int) == vs);
    let ghost after_versions = views(paths@);
    match &home {
        Some(h) => {
            let hs = h.as_str();
            paths.push(path_join(hs, ".pyenv/shims/python3"));
            paths.push(path_join(hs, ".asdf/shims/python3"));
            paths.push(path_join(hs, ".local/share/mise/shims/python3"));
            assert(views(paths@) =~= after_versions + home_python_paths(h@));
        },
        None => {
            assert(views(paths@) =~= after_versions + Seq::<Seq<char>>::empty());
        },
    }
    let ghost after_home = views(paths@);
    let ghost ds = views(dirs@);
    let mut i: usize = 0;
    assert(ds.take(0) =~= Seq::<Seq<char>>::empty());
    assert(after_home + generic_python_paths(ds.take(0)) =~= after_home);
    while i < dirs.len()
        invariant
            i <= dirs.len(),
            ds == views(dirs@),
            views(paths@) == after_home + generic_python_paths(ds.take(i as int)),
        decreases dirs.len() - i,
    {
        let d = dirs[i].as_str();
        let ghost b = views(paths@);
        assert(ds.take(i + 1).drop_last() == ds.take(i as int));
        assert(ds.take(i + 1).last() == d@);
        paths.push(path_join(d, "python3"));
        paths.push(path_join(d, "python"));
        assert(views(paths@) =~= b + seq![join_path(d@, "python3"@), join_path(d@, "python"@)]);
        i = i + 1;
    }
    assert(ds.take(dirs.len() as int) == ds);
    let mut unique: Vec<String> = Vec::new();
    assert(views(unique@) =~= Seq::<Seq<char>>::empty());
    proof {
        let h = match opt_view(home) {
            Some(hd) => home_python_paths(hd),
            None => Seq::<Seq<char>>::empty(),
        };
        assert(views(paths@) =~= versioned_python_paths(python_versions()) + h
            + generic_python_paths(ds));
    }
    push_all_unique(&mut unique, &paths);
    unique
}

// ---------------------------------------------------------------------------
// Python version
// ---------------------------------------------------------------------------

/// What running `python --version` printed (each stream decoded as UTF-8, lossily).
pub struct VersionOutput {
    pub stdout: String,
    pub stderr: String,
}

/// The `(major, minor)` version read from the output of `python --version`: the
/// standard output when it is not empty, else the standard error, trimmed, must read
/// `Python ` followed by at least two `.`-separated numbers.
pub open spec fn python_version_spec(out: Option<VersionOutput>) -> Option<(u32, u32)> {
    match out {
        None => None,
        Some(o) => {
            let text = if o.stdout@.len() > 0 {
                o.stdout@
            } else {
                o.stderr@
            };
            let t = trim(text);
            if has_prefix(t, "Python "@) {
                let parts = split_on(t.skip(7), '.');
                if parts.len() >= 2 {
                    match (parse_u32_spec(parts[0]), parse_u32_spec(parts[1])) {
                        (Some(major), Some(minor)) => Some((major, minor)),
                        _ => None,
                    }
                } else {
                    None
                }
            } else {
                None
            }
        },
    }
}

/// A version is supported when it is at least 3.10.
pub open spec fn version_supported(v: Option<(u32, u32)>) -> bool {
    match v {
        Some((major, minor)) => major > 3 || (major == 3 && minor >= MIN_MINOR),
        None => false,
    }
}

/// The version reported by an interpreter (`None` when it could not be run).
pub fn python_version(out: &Option<VersionOutput>) -> (r: Option<(u32, u32)>)
    ensures
        r == python_version_spec(*out),
{
    match out {
        None => None,
        Some(o) => {
            let text = if o.stdout.as_str().unicode_len() > 0 {
                o.stdout.as_str()
            } else {
                o.stderr.as_str()
            };
            let t = trim_str(text);
            if !starts_with(t.as_str(), "Python ") {
                return None;
            }
            proof {
                reveal_strlit("Python ");
            }
            let tv = chars_of(t.as_str());
            let rest = string_from(&tv, 7, tv.len());
            assert(tv@.subrange(7, tv@.len() as int) == t@.skip(7));
            let parts = split_char(rest.as_str(), '.');
            if parts.len() < 2 {
                return None;
            }
            assert(views(parts@)[0] == parts@[0]@);
            assert(views(parts@)[1] == parts@[1]@);
            let major = parse_u32(parts[0].as_str());
            let minor = parse_u32(parts[1].as_str());
            match (major, minor) {
                (Some(a), Some(b)) => Some((a, b)),
                _ => None,
            }
        },
    }
}

/// The interpreter that printed this output is Python 3.10 or newer.
pub fn is_supported_python(out: &Option<VersionOutput>) -> (r: bool)
    ensures
        r == version_supported(python_version_spec(*out)),
{
    match python_version(out) {
        Some((major, minor)) => major > 3 || (major == 3 && minor >= MIN_MINOR),
        None => false,
    }
}

// ---------------------------------------------------------------------------
// Scripts and environments
// ---------------------------------------------------------------------------

/// The interpreter inside a virtual environment directory.
pub fn venv_python_path(venv_dir: &str) -> (r: String)
    ensures
        r@ == join_path(venv_dir@, "bin/python3"@),
{
    path_join(venv_dir, "bin/python3")
}

/// The `python/<script>` path under a root directory.
pub fn script_path(root: &str, script_name: &str) -> (r: String)
    ensures
        r@ == join_path(join_path(root@, "python"@), script_name@),
{
    let dir = path_join(root, "python");
    path_join(dir.as_str(), script_name)
}

/// Where a bundled Python script is run from: the source tree's copy under `dev_root`
/// when that copy exists, else the copy among the packaged resources.
pub fn resolve_script(resource_dir: &str, dev_root: &str, script_name: &str, dev_copy_exists: bool) -> (r:
    String)
    ensures
        dev_copy_exists ==> r@ == join_path(join_path(dev_root@, "python"@), script_name@),
        !dev_copy_exists ==> r@ == join_path(join_path(resource_dir@, "python"@), script_name@),
{
    if dev_copy_exists {
        script_path(dev_root, script_name)
    } else {
        script_path(resource_dir, script_name)
    }
}

} // verus!
