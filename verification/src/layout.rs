//! Versioned tool directories: ordering installed versions and resolving a
//! requested version to an installed one.
use crate::text::{join_with, lemma_join_with_push, parse_uint, parse_uint_str, split_char, split_on, str_eq};
use crate::orchestrator::{outcome_view, HostCall};
use vstd::prelude::*;

verus! {

/// One dotted component as a number; a component that does not parse as a
/// `u32` counts as 0.
pub open spec fn component_value(p: Seq<char>) -> u32 {
    match parse_uint(p, 0xFFFF_FFFF) {
        Some(n) => n as u32,
        None => 0,
    }
}

/// Numeric version sort key, e.g. "8.3.31" -> [8,3,31].
pub open spec fn spec_version_key(v: Seq<char>) -> Seq<u32> {
    split_on(v, '.').map_values(|p: Seq<char>| component_value(p))
}

/// Numeric version sort key, e.g. "8.3.31" -> [8,3,31]. Non-numeric parts -> 0.
pub fn version_key(v: &str) -> (k: Vec<u32>)
    ensures
        k@ == spec_version_key(v@),
{
    let parts = split_char(v, '.');
    let ghost ps = parts@.map_values(|p: String| p@);
    let mut k: Vec<u32> = Vec::new();
    let mut i: usize = 0;
    while i < parts.len()
        invariant
            0 <= i <= parts@.len(),
            ps == parts@.map_values(|p: String| p@),
            ps == split_on(v@, '.'),
            k@ == ps.take(i as int).map_values(|p: Seq<char>| component_value(p)),
        decreases parts@.len() - i,
    {
        let n: u32 = match parse_uint_str(parts[i].as_str(), 0xFFFF_FFFF) {
            Some(n) => n as u32,
            None => 0,
        };
        proof {
            assert(ps[i as int] == parts@[i as int]@);
            assert(ps.take(i + 1) == ps.take(i as int).push(ps[i as int]));
        }
        k.push(n);
        i = i + 1;
    }
    assert(ps.take(i as int) == ps);
    k
}

/// `a < b` in the lexicographic order of number lists (a proper prefix is
/// smaller), as `Vec<u32>` compares.
pub open spec fn lex_lt(a: Seq<u32>, b: Seq<u32>) -> bool
    decreases a.len(),
{
    if a.len() == 0 {
        b.len() > 0
    } else if b.len() == 0 {
        false
    } else if a[0] < b[0] {
        true
    } else if a[0] > b[0] {
        false
    } else {
        lex_lt(a.drop_first(), b.drop_first())
    }
}

/// Whether `a < b` lexicographically.
pub fn key_less(a: &Vec<u32>, b: &Vec<u32>) -> (r: bool)
    ensures
        r == lex_lt(a@, b@),
{
    let mut i: usize = 0;
    assert(a@.skip(0) == a@);
    assert(b@.skip(0) == b@);
    while i < a.len() && i < b.len()
        invariant
            0 <= i <= a@.len(),
            i <= b@.len(),
            lex_lt(a@, b@) == lex_lt(a@.skip(i as int), b@.skip(i as int)),
        decreases a@.len() - i,
    {
        assert(a@.skip(i as int)[0] == a@[i as int]);
        assert(b@.skip(i as int)[0] == b@[i as int]);
        if a[i] < b[i] {
            return true;
        }
        if a[i] > b[i] {
            return false;
        }
        assert(a@.skip(i as int).drop_first() == a@.skip(i + 1));
        assert(b@.skip(i as int).drop_first() == b@.skip(i + 1));
        i = i + 1;
    }
    i == a.len() && i < b.len()
}

/// The `major.minor` of a version: its first two dotted components.
pub open spec fn minor_of(v: Seq<char>) -> Seq<char> {
    let ps = split_on(v, '.');
    join_with(if ps.len() < 2 { ps } else { ps.take(2) }, "."@)
}

pub fn minor_string(v: &str) -> (m: String)
    ensures
        m@ == minor_of(v@),
{
    let parts = split_char(v, '.');
    let ghost ps = parts@.map_values(|p: String| p@);
    proof {
        reveal_strlit(".");
    }
    let mut m = String::new();
    let n: usize = if parts.len() < 2 {
        parts.len()
    } else {
        2
    };
    let mut i: usize = 0;
    assert(ps.take(0) == Seq::<Seq<char>>::empty());
    while i < n
        invariant
            0 <= i <= n <= parts@.len(),
            n == if parts@.len() < 2 { parts@.len() } else { 2 },
            ps == parts@.map_values(|p: String| p@),
            ps == split_on(v@, '.'),
            m@ == join_with(ps.take(i as int), "."@),
        decreases n - i,
    {
        proof {
            lemma_join_with_push(ps.take(i as int), "."@, ps[i as int]);
            assert(ps.take(i + 1) == ps.take(i as int).push(ps[i as int]));
            assert(ps[i as int] == parts@[i as int]@);
        }
        if i > 0 {
            m.append(".");
        }
        m.append(parts[i].as_str());
        i = i + 1;
    }
    proof {
        if ps.len() < 2 {
            assert(ps.take(i as int) == ps);
        }
    }
    m
}

/// Among `vs`, the last one of highest key whose minor is `requested`.
pub open spec fn best_installed(vs: Seq<Seq<char>>, requested: Seq<char>) -> Option<Seq<char>>
    decreases vs.len(),
{
    if vs.len() == 0 {
        None
    } else {
        let b = best_installed(vs.drop_last(), requested);
        let v = vs.last();
        if minor_of(v) == requested && (b is None || lex_lt(spec_version_key(b.unwrap()), spec_version_key(v))) {
            Some(v)
        } else {
            b
        }
    }
}

/// Resolve a requested version to an installed one: an exact version
/// directory wins (`exact_installed`); otherwise the highest installed full
/// version (first among equals) whose major.minor equals `requested`, so
/// "8.3" maps to e.g. "8.3.31". `None` if nothing matches.
pub fn resolve_installed_version(requested: &str, exact_installed: bool, installed: &[String]) -> (r: Option<String>)
    ensures
        exact_installed ==> (r matches Some(v) && v@ == requested@),
        !exact_installed ==> match r {
            Some(v) => best_installed(installed@.map_values(|s: String| s@), requested@) == Some(v@),
            None => best_installed(installed@.map_values(|s: String| s@), requested@) is None,
        },
        // the highest installed patch of the requested major.minor
        !exact_installed ==> match r {
            Some(v) => {
                &&& minor_of(v@) == requested@
                &&& exists|k: int| 0 <= k < installed@.len() && installed@[k]@ == v@
                &&& forall|j: int|
                    0 <= j < installed@.len() && minor_of(installed@[j]@) == requested@ ==> !lex_lt(
                        spec_version_key(v@),
                        #[trigger] spec_version_key(installed@[j]@),
                    )
            },
            None => forall|j: int| 0 <= j < installed@.len() ==> #[trigger] minor_of(installed@[j]@) != requested@,
        },
{
    proof {
        let vs = installed@.map_values(|s: String| s@);
        lemma_best_installed_is_highest(vs, requested@);
        match best_installed(vs, requested@) {
            Some(b) => {
                let k = choose|k: int| 0 <= k < vs.len() && vs[k] == b;
                assert(installed@[k]@ == b);
                assert forall|j: int|
                    0 <= j < installed@.len() && minor_of(installed@[j]@) == requested@ implies !lex_lt(
                        spec_version_key(b),
                        #[trigger] spec_version_key(installed@[j]@),
                    ) by {
                    assert(vs[j] == installed@[j]@);
                }
            },
            None => {
                assert forall|j: int| 0 <= j < installed@.len() implies #[trigger] minor_of(installed@[j]@) != requested@ by {
                    assert(vs[j] == installed@[j]@);
                }
            },
        }
    }
    if exact_installed {
        return Some(requested.to_string());
    }
    let ghost vs = installed@.map_values(|s: String| s@);
    let mut best: Option<(Vec<u32>, String)> = None;
    let mut i: usize = 0;
    while i < installed.len()
        invariant
            0 <= i <= installed@.len(),
            vs == installed@.map_values(|s: String| s@),
            match best {
                Some(b) => best_installed(vs.take(i as int), requested@) == Some(b.1@) && b.0@ == spec_version_key(b.1@),
                None => best_installed(vs.take(i as int), requested@) is None,
            },
        decreases installed@.len() - i,
    {
        let v = &installed[i];
        proof {
            assert(vs.take(i + 1).drop_last() == vs.take(i as int));
            assert(vs.take(i + 1).last() == v@);
        }
        let minor = minor_string(v.as_str());
        if str_eq(minor.as_str(), requested) {
            let key = version_key(v.as_str());
            let better = match &best {
                Some(b) => key_less(&b.0, &key),
                None => true,
            };
            if better {
                best = Some((key, v.clone()));
            }
        }
        i = i + 1;
    }
    assert(vs.take(i as int) == vs);
    match best {
        Some(b) => Some(b.1),
        None => None,
    }
}


// ---------------------------------------------------------------------------
// Version catalogs
// ---------------------------------------------------------------------------

/// The `(major, minor)` of a version as a two-number key; a missing or
/// unparsable component counts as 0.
pub open spec fn minor_key(v: Seq<char>) -> Seq<u32> {
    let ps = split_on(v, '.');
    seq![
        if ps.len() > 0 { component_value(ps[0]) } else { 0 },
        if ps.len() > 1 { component_value(ps[1]) } else { 0 },
    ]
}

/// The key a catalog sorts by: `(major, minor)` or every component.
pub open spec fn sort_key(v: Seq<char>, by_minor: bool) -> Seq<u32> {
    if by_minor {
        minor_key(v)
    } else {
        spec_version_key(v)
    }
}

fn sort_key_of(v: &str, by_minor: bool) -> (k: Vec<u32>)
    ensures
        k@ == sort_key(v@, by_minor),
{
    let full = version_key(v);
    if !by_minor {
        return full;
    }
    let parts = split_char(v, '.');
    let ghost ps = parts@.map_values(|p: String| p@);
    let a: u32 = if parts.len() > 0 {
        match parse_uint_str(parts[0].as_str(), 0xFFFF_FFFF) {
            Some(n) => n as u32,
            None => 0,
        }
    } else {
        0
    };
    let b: u32 = if parts.len() > 1 {
        match parse_uint_str(parts[1].as_str(), 0xFFFF_FFFF) {
            Some(n) => n as u32,
            None => 0,
        }
    } else {
        0
    };
    proof {
        if parts@.len() > 0 {
            assert(ps[0] == parts@[0]@);
        }
        if parts@.len() > 1 {
            assert(ps[1] == parts@[1]@);
        }
    }
    let mut k: Vec<u32> = Vec::new();
    k.push(a);
    k.push(b);
    assert(k@ =~= minor_key(v@));
    k
}

/// `known` followed by each installed version not already listed.
pub open spec fn union_versions(known: Seq<Seq<char>>, installed: Seq<Seq<char>>) -> Seq<Seq<char>>
    decreases installed.len(),
{
    if installed.len() == 0 {
        known
    } else {
        let u = union_versions(known, installed.drop_last());
        if u.contains(installed.last()) {
            u
        } else {
            u.push(installed.last())
        }
    }
}

/// Where `x` goes in `s` sorted newest first: before the first older
/// element (after its equals, so sorting is stable).
pub open spec fn newest_pos(s: Seq<Seq<char>>, x: Seq<char>, by_minor: bool) -> int
    decreases s.len(),
{
    if s.len() == 0 {
        0
    } else if lex_lt(sort_key(s[0], by_minor), sort_key(x, by_minor)) {
        0
    } else {
        1 + newest_pos(s.drop_first(), x, by_minor)
    }
}

/// Stable sort, newest first.
pub open spec fn sort_newest_first(s: Seq<Seq<char>>, by_minor: bool) -> Seq<Seq<char>>
    decreases s.len(),
{
    if s.len() == 0 {
        s
    } else {
        let sorted = sort_newest_first(s.drop_last(), by_minor);
        sorted.insert(newest_pos(sorted, s.last(), by_minor), s.last())
    }
}

/// Where `x` goes in `s` sorted oldest first: before the first newer
/// element (after its equals).
pub open spec fn oldest_pos(s: Seq<Seq<char>>, x: Seq<char>, by_minor: bool) -> int
    decreases s.len(),
{
    if s.len() == 0 {
        0
    } else if lex_lt(sort_key(x, by_minor), sort_key(s[0], by_minor)) {
        0
    } else {
        1 + oldest_pos(s.drop_first(), x, by_minor)
    }
}

/// Stable sort, oldest first.
pub open spec fn sort_oldest_first(s: Seq<Seq<char>>, by_minor: bool) -> Seq<Seq<char>>
    decreases s.len(),
{
    if s.len() == 0 {
        s
    } else {
        let sorted = sort_oldest_first(s.drop_last(), by_minor);
        sorted.insert(oldest_pos(sorted, s.last(), by_minor), s.last())
    }
}

pub open spec fn string_views(v: Seq<String>) -> Seq<Seq<char>> {
    v.map_values(|s: String| s@)
}

/// Whether `v` holds a string equal to `s`.
pub fn contains_string(v: &Vec<String>, s: &str) -> (b: bool)
    ensures
        b == string_views(v@).contains(s@),
{
    let mut i: usize = 0;
    while i < v.len()
        invariant
            0 <= i <= v@.len(),
            forall|k: int| 0 <= k < i ==> #[trigger] v@[k]@ != s@,
        decreases v@.len() - i,
    {
        if str_eq(v[i].as_str(), s) {
            assert(string_views(v@)[i as int] == s@);
            return true;
        }
        i = i + 1;
    }
    proof {
        if string_views(v@).contains(s@) {
            let k = choose|k: int| 0 <= k < string_views(v@).len() && string_views(v@)[k] == s@;
            assert(v@[k]@ == s@);
        }
    }
    false
}

/// `known` followed by each installed version not already listed.
pub fn merge_versions(known: Vec<String>, installed: &[String]) -> (r: Vec<String>)
    ensures
        string_views(r@) == union_versions(string_views(known@), string_views(installed@)),
{
    let ghost iv = string_views(installed@);
    let mut r = known;
    let ghost kv = string_views(r@);
    let mut i: usize = 0;
    while i < installed.len()
        invariant
            0 <= i <= installed@.len(),
            iv == string_views(installed@),
            string_views(r@) == union_versions(kv, iv.take(i as int)),
        decreases installed@.len() - i,
    {
        proof {
            assert(iv.take(i + 1).drop_last() == iv.take(i as int));
            assert(iv.take(i + 1).last() == installed@[i as int]@);
        }
        if !contains_string(&r, installed[i].as_str()) {
            let ghost before = string_views(r@);
            r.push(installed[i].clone());
            assert(string_views(r@) =~= before.push(installed@[i as int]@));
        }
        i = i + 1;
    }
    assert(iv.take(i as int) == iv);
    r
}

/// Sort versions by their key, newest first (`newest`) or oldest first,
/// keeping the order of equal keys.
pub fn sort_versions(v: Vec<String>, by_minor: bool, newest: bool) -> (r: Vec<String>)
    ensures
        string_views(r@) == if newest {
            sort_newest_first(string_views(v@), by_minor)
        } else {
            sort_oldest_first(string_views(v@), by_minor)
        },
{
    let ghost orig = string_views(v@);
    let ghost mut k: int = 0;
    let mut src = v;
    let mut out: Vec<String> = Vec::new();
    assert(orig.skip(0) == orig);
    while src.len() > 0
        invariant
            0 <= k <= orig.len(),
            string_views(src@) == orig.skip(k),
            string_views(out@) == if newest {
                sort_newest_first(orig.take(k), by_minor)
            } else {
                sort_oldest_first(orig.take(k), by_minor)
            },
        decreases src@.len(),
    {
        let ghost before = src@;
        let x = src.remove(0);
        let ghost xv = x@;
        proof {
            assert(string_views(before).len() == before.len());
            assert(orig.skip(k).len() == orig.len() - k);
            assert(string_views(before)[0] == orig.skip(k)[0]);
            assert forall|j: int| 0 <= j < src@.len() implies #[trigger] string_views(src@)[j] == orig.skip(k + 1)[j] by {
                assert(src@[j] == before[j + 1]);
                assert(string_views(before)[j + 1] == orig.skip(k)[j + 1]);
                assert(orig.skip(k + 1)[j] == orig[k + 1 + j]);
                assert(orig.skip(k)[j + 1] == orig[k + j + 1]);
            }
            assert(string_views(src@) =~= orig.skip(k + 1));
            assert(orig.take(k + 1).drop_last() =~= orig.take(k));
            assert(orig.take(k + 1).last() == xv);
        }
        let xk = sort_key_of(x.as_str(), by_minor);
        let ghost sorted = string_views(out@);
        let mut p: usize = 0;
        let mut done = false;
        assert(sorted.skip(0) == sorted);
        while !done && p < out.len()
            invariant
                0 <= p <= out@.len(),
                sorted == string_views(out@),
                xv == x@,
                xk@ == sort_key(xv, by_minor),
                !done ==> (if newest { newest_pos(sorted, xv, by_minor) } else { oldest_pos(sorted, xv, by_minor) })
                    == p + (if newest { newest_pos(sorted.skip(p as int), xv, by_minor) } else { oldest_pos(sorted.skip(p as int), xv, by_minor) }),
                done ==> (if newest { newest_pos(sorted, xv, by_minor) } else { oldest_pos(sorted, xv, by_minor) }) == p,
            decreases out@.len() - p, (if done { 0int } else { 1int }),
        {
            assert(sorted.skip(p as int)[0] == sorted[p as int]);
            assert(sorted.skip(p as int).drop_first() == sorted.skip(p + 1));
            let pk = sort_key_of(out[p].as_str(), by_minor);
            let before_here = if newest {
                key_less(&pk, &xk)
            } else {
                key_less(&xk, &pk)
            };
            if before_here {
                done = true;
            } else {
                p = p + 1;
            }
        }
        proof {
            if !done {
                assert(sorted.skip(p as int).len() == 0);
            }
        }
        out.insert(p, x);
        assert(string_views(out@) =~= sorted.insert(p as int, xv));
        proof {
            k = k + 1;
        }
    }
    assert(orig.take(k) == orig);
    out
}

// ---------------------------------------------------------------------------
// Reconciling the `current` links
// ---------------------------------------------------------------------------

/// What reconciling one configured version reports: nothing when its
/// directory exists and the link was set; a warning when the link could not
/// be set or the version is not installed.
pub open spec fn spec_version_warning(tool: Seq<char>, version: Seq<char>, dir_exists: bool, set: Option<Result<(), String>>) -> Option<Seq<char>> {
    if dir_exists {
        match set {
            Some(Err(e)) => Some(tool + ": set_current failed: "@ + e@),
            _ => None,
        }
    } else {
        Some(tool + ": version "@ + version + " not installed"@)
    }
}

/// The warning for one configured version (see [`spec_version_warning`]);
/// `set` is what setting the link gave, when it was tried.
pub fn version_warning(tool: &str, version: &str, dir_exists: bool, set: Option<Result<(), String>>) -> (r: Option<String>)
    ensures
        match r {
            Some(w) => spec_version_warning(tool@, version@, dir_exists, set) == Some(w@),
            None => spec_version_warning(tool@, version@, dir_exists, set) is None,
        },
{
    if dir_exists {
        match set {
            Some(Err(e)) => {
                let mut w = crate::text::cat(tool, ": set_current failed: ");
                w.append(e.as_str());
                Some(w)
            },
            _ => None,
        }
    } else {
        let mut w = crate::text::cat(tool, ": version ");
        w.append(version);
        w.append(" not installed");
        Some(w)
    }
}

/// The warnings of reconciling the configured versions `vs`, in order, given
/// whether each one's directory exists (`dirs`) and what setting its link
/// gave (`sets`).
pub open spec fn version_warnings(
    vs: Seq<(String, String)>,
    dirs: Seq<bool>,
    sets: Seq<Option<Result<(), String>>>,
) -> Seq<Seq<char>>
    decreases vs.len(),
{
    if vs.len() == 0 || dirs.len() == 0 || sets.len() == 0 {
        seq![]
    } else {
        let prev = version_warnings(vs.drop_last(), dirs.drop_last(), sets.drop_last());
        match spec_version_warning(vs.last().0@, vs.last().1@, dirs.last(), sets.last()) {
            Some(w) => prev.push(w),
            None => prev,
        }
    }
}

/// The requests made of the host while reconciling the configured versions
/// `vs`, given its answers: for each version in order, whether its folder
/// exists (`dirs`), then, for one that does, setting its link (with the
/// outcome in `sets`).
pub open spec fn apply_record(
    paths: crate::paths::LaragonPaths,
    vs: Seq<(String, String)>,
    dirs: Seq<bool>,
    sets: Seq<Option<Result<(), String>>>,
) -> Seq<HostCall>
    decreases vs.len(),
{
    if vs.len() == 0 || dirs.len() == 0 || sets.len() == 0 {
        seq![]
    } else {
        let (t, v) = (vs.last().0@, vs.last().1@);
        apply_record(paths, vs.drop_last(), dirs.drop_last(), sets.drop_last()) + seq![
            HostCall::IsDir(paths.spec_version_dir(t, v), dirs.last()),
        ] + match sets.last() {
            Some(res) => seq![HostCall::SetCurrent(t, v, outcome_view(res))],
            None => seq![],
        }
    }
}

/// Materialize the `current` links of the configured versions through
/// `host`: each version's folder is asked about; a version whose folder
/// exists gets its link set, the others are left alone; every missing
/// version, and every link that could not be set, is reported, in order.
/// Best effort: it never stops early. Also gives the requests made of the
/// host, with its answers.
pub fn apply_versions(paths: &crate::paths::LaragonPaths, versions: &Vec<(String, String)>, host: &dyn crate::orchestrator::StackHost) -> (r: (
    Vec<String>,
    Ghost<Seq<HostCall>>,
))
    ensures
        exists|dirs: Seq<bool>, sets: Seq<Option<Result<(), String>>>|
            dirs.len() == versions@.len() && sets.len() == versions@.len()
            && (forall|i: int| 0 <= i < dirs.len() ==> (dirs[i] <==> sets[i] is Some))
            && #[trigger] apply_record(*paths, versions@, dirs, sets) == r.1@
            && version_warnings(versions@, dirs, sets) == string_views(r.0@),
{
    let mut warnings: Vec<String> = Vec::new();
    let ghost mut dirs: Seq<bool> = seq![];
    let ghost mut sets: Seq<Option<Result<(), String>>> = seq![];
    let ghost mut calls: Seq<HostCall> = seq![];
    let mut i: usize = 0;
    while i < versions.len()
        invariant
            0 <= i <= versions@.len(),
            dirs.len() == i,
            sets.len() == i,
            forall|k: int| 0 <= k < dirs.len() ==> (dirs[k] <==> sets[k] is Some),
            version_warnings(versions@.take(i as int), dirs, sets) == string_views(warnings@),
            apply_record(*paths, versions@.take(i as int), dirs, sets) == calls,
        decreases versions@.len() - i,
    {
        let tool = versions[i].0.as_str();
        let version = versions[i].1.as_str();
        let dir = paths.version_dir(tool, version);
        let exists = host.is_dir(dir.as_str());
        let set = if exists {
            Some(host.set_current(tool, version))
        } else {
            None
        };
        let ghost gset = set;
        let ghost prev = warnings@;
        match version_warning(tool, version, exists, set) {
            Some(w) => warnings.push(w),
            None => {},
        }
        proof {
            let vt = versions@.take(i + 1);
            assert(vt.drop_last() =~= versions@.take(i as int));
            assert(vt.last() == versions@[i as int]);
            assert(dirs.push(exists).drop_last() =~= dirs);
            assert(sets.push(gset).drop_last() =~= sets);
            assert(string_views(warnings@) =~= match spec_version_warning(tool@, version@, exists, gset) {
                Some(w) => string_views(prev).push(w),
                None => string_views(prev),
            });
            calls = calls + seq![HostCall::IsDir(paths.spec_version_dir(tool@, version@), exists)] + match gset {
                Some(res) => seq![HostCall::SetCurrent(tool@, version@, outcome_view(res))],
                None => seq![],
            };
            dirs = dirs.push(exists);
            sets = sets.push(gset);
        }
        i = i + 1;
    }
    assert(versions@.take(i as int) =~= versions@);
    assert(apply_record(*paths, versions@, dirs, sets) == calls);
    (warnings, Ghost(calls))
}

/// Whether a character is an ASCII digit.
fn digit(c: char) -> (b: bool)
    ensures
        b == ('0' <= c && c <= '9'),
{
    '0' <= c && c <= '9'
}

pub open spec fn is_ascii_digit(c: char) -> bool {
    '0' <= c && c <= '9'
}

/// Where the run of digits and inner dots that starts at `i` ends: a dot
/// belongs to it only when a digit follows.
pub open spec fn run_end(s: Seq<char>, i: int) -> int
    decreases s.len() - i,
{
    if i < 0 || i >= s.len() {
        i
    } else if is_ascii_digit(s[i]) || (s[i] == '.' && i + 1 < s.len() && is_ascii_digit(s[i + 1])) {
        run_end(s, i + 1)
    } else {
        i
    }
}

/// How many dots `s[i..j]` holds.
pub open spec fn dots_in(s: Seq<char>, i: int, j: int) -> nat
    decreases j - i,
{
    if i >= j {
        0
    } else {
        dots_in(s, i, j - 1) + if s[j - 1] == '.' { 1nat } else { 0nat }
    }
}

/// The first version-like token from position `i` on: a run that starts
/// with a digit and holds at least one dot (`N.N`, `N.N.N`, ...); a run
/// without a dot is skipped whole.
pub open spec fn version_from(s: Seq<char>, i: int) -> Option<Seq<char>>
    decreases s.len() - i,
{
    if i < 0 || i >= s.len() {
        None
    } else if is_ascii_digit(s[i]) {
        let e = run_end(s, i);
        if dots_in(s, i, e) >= 1 {
            Some(s.subrange(i, e))
        } else if i < e && e <= s.len() {
            version_from(s, e)
        } else {
            None
        }
    } else {
        version_from(s, i + 1)
    }
}

proof fn lemma_run_end(s: Seq<char>, i: int)
    requires
        0 <= i <= s.len(),
    ensures
        i <= run_end(s, i) <= s.len(),
    decreases s.len() - i,
{
    if i < s.len() && (is_ascii_digit(s[i]) || (s[i] == '.' && i + 1 < s.len() && is_ascii_digit(s[i + 1]))) {
        lemma_run_end(s, i + 1);
    }
}

/// The first `N.N` or `N.N.N`-like token of a program's version output.
pub fn extract_version(s: &str) -> (r: Option<String>)
    ensures
        match r {
            Some(v) => version_from(s@, 0) == Some(v@),
            None => version_from(s@, 0) is None,
        },
{
    let v = crate::text::chars_of(s);
    let mut i: usize = 0;
    while i < v.len()
        invariant
            0 <= i <= v@.len(),
            v@ == s@,
            version_from(s@, 0) == version_from(s@, i as int),
        decreases v@.len() - i,
    {
        if digit(v[i]) {
            let start = i;
            let mut dots: usize = 0;
            proof {
                lemma_run_end(v@, start as int);
            }
            while i < v.len() && (digit(v[i]) || (v[i] == '.' && i + 1 < v.len() && digit(v[i + 1])))
                invariant
                    start <= i <= v@.len(),
                    v@ == s@,
                    run_end(v@, start as int) == run_end(v@, i as int),
                    dots == dots_in(v@, start as int, i as int),
                    dots <= i - start,
                decreases v@.len() - i,
            {
                if v[i] == '.' {
                    dots = dots + 1;
                }
                i = i + 1;
            }
            if dots >= 1 {
                return Some(crate::text::string_of(&v, start, i));
            }
            assert(i > start);
        } else {
            i = i + 1;
        }
    }
    None
}

/// The names other than `current`, in order.
pub open spec fn without_current(ns: Seq<Seq<char>>) -> Seq<Seq<char>>
    decreases ns.len(),
{
    if ns.len() == 0 {
        seq![]
    } else if ns.last() == "current"@ {
        without_current(ns.drop_last())
    } else {
        without_current(ns.drop_last()).push(ns.last())
    }
}

/// The installed versions of a tool from the names of the directories under
/// `bin/<tool>`: every one but the `current` link, oldest first by numeric
/// components (equal keys keep their order).
pub fn installed_versions(dir_names: &[String]) -> (r: Vec<String>)
    ensures
        string_views(r@) == sort_oldest_first(without_current(string_views(dir_names@)), false),
{
    let ghost nv = string_views(dir_names@);
    let mut kept: Vec<String> = Vec::new();
    let mut i: usize = 0;
    while i < dir_names.len()
        invariant
            0 <= i <= dir_names@.len(),
            nv == string_views(dir_names@),
            string_views(kept@) == without_current(nv.take(i as int)),
        decreases dir_names@.len() - i,
    {
        proof {
            assert(nv.take(i + 1).drop_last() == nv.take(i as int));
            assert(nv.take(i + 1).last() == dir_names@[i as int]@);
        }
        if !str_eq(dir_names[i].as_str(), "current") {
            let ghost before = string_views(kept@);
            kept.push(dir_names[i].clone());
            assert(string_views(kept@) =~= before.push(dir_names@[i as int]@));
        }
        i = i + 1;
    }
    assert(nv.take(i as int) == nv);
    sort_versions(kept, false, false)
}
/// Resolving picks the highest installed patch: the version chosen among
/// `vs` for `requested` is one of them, has that major.minor, and no other
/// installed version with that major.minor has a higher numeric key; none
/// is chosen only when no installed version has that major.minor.
pub proof fn lemma_best_installed_is_highest(vs: Seq<Seq<char>>, requested: Seq<char>)
    ensures
        match best_installed(vs, requested) {
            Some(r) => {
                &&& vs.contains(r)
                &&& minor_of(r) == requested
                &&& forall|j: int|
                    0 <= j < vs.len() && minor_of(vs[j]) == requested ==> !lex_lt(
                        spec_version_key(r),
                        #[trigger] spec_version_key(vs[j]),
                    )
            },
            None => forall|j: int| 0 <= j < vs.len() ==> #[trigger] minor_of(vs[j]) != requested,
        },
    decreases vs.len(),
{
    if vs.len() > 0 {
        let init = vs.drop_last();
        let v = vs.last();
        lemma_best_installed_is_highest(init, requested);
        let b = best_installed(init, requested);
        assert forall|j: int| 0 <= j < init.len() implies init[j] == vs[j] by {}
        let takes_last = minor_of(v) == requested && match b {
            Some(bb) => lex_lt(spec_version_key(bb), spec_version_key(v)),
            None => true,
        };
        if takes_last {
            assert(vs[vs.len() - 1] == v);
            assert forall|j: int|
                0 <= j < vs.len() && minor_of(vs[j]) == requested implies !lex_lt(
                    spec_version_key(v),
                    #[trigger] spec_version_key(vs[j]),
                ) by {
                if j < vs.len() - 1 {
                    assert(init[j] == vs[j]);
                    let bb = b.unwrap();
                    if lex_lt(spec_version_key(v), spec_version_key(vs[j])) {
                        lemma_lex_lt_transitive(spec_version_key(bb), spec_version_key(v), spec_version_key(vs[j]));
                    }
                } else {
                    lemma_lex_lt_irreflexive(spec_version_key(v));
                }
            }
        } else {
            match b {
                Some(bb) => {
                    let k = choose|k: int| 0 <= k < init.len() && init[k] == bb;
                    assert(vs[k] == bb);
                    assert forall|j: int|
                        0 <= j < vs.len() && minor_of(vs[j]) == requested implies !lex_lt(
                            spec_version_key(bb),
                            #[trigger] spec_version_key(vs[j]),
                        ) by {
                        if j < vs.len() - 1 {
                            assert(init[j] == vs[j]);
                        } else {
                            assert(vs[j] == v);
                        }
                    }
                },
                None => {
                    assert forall|j: int| 0 <= j < vs.len() implies #[trigger] minor_of(vs[j]) != requested by {
                        if j < vs.len() - 1 {
                            assert(init[j] == vs[j]);
                        } else {
                            assert(vs[j] == v);
                        }
                    }
                },
            }
        }
    }
}

proof fn lemma_lex_lt_irreflexive(a: Seq<u32>)
    ensures
        !lex_lt(a, a),
    decreases a.len(),
{
    if a.len() > 0 {
        assert(a.drop_first() == a.drop_first());
        lemma_lex_lt_irreflexive(a.drop_first());
    }
}

// ---------------------------------------------------------------------------
// The version sorts order by key
// ---------------------------------------------------------------------------

proof fn lemma_lex_lt_asymmetric(a: Seq<u32>, b: Seq<u32>)
    ensures
        lex_lt(a, b) ==> !lex_lt(b, a),
    decreases a.len(),
{
    if a.len() > 0 && b.len() > 0 && a[0] == b[0] {
        lemma_lex_lt_asymmetric(a.drop_first(), b.drop_first());
    }
}

proof fn lemma_lex_lt_transitive(a: Seq<u32>, b: Seq<u32>, c: Seq<u32>)
    requires
        lex_lt(a, b),
        lex_lt(b, c),
    ensures
        lex_lt(a, c),
    decreases a.len(),
{
    if a.len() > 0 && a[0] == b[0] && b[0] == c[0] {
        lemma_lex_lt_transitive(a.drop_first(), b.drop_first(), c.drop_first());
    }
}

/// No version comes before a newer one.
pub open spec fn newest_first(s: Seq<Seq<char>>, by_minor: bool) -> bool {
    forall|i: int, j: int|
        0 <= i < j < s.len() ==> !lex_lt(#[trigger] sort_key(s[i], by_minor), #[trigger] sort_key(s[j], by_minor))
}

/// No version comes before an older one.
pub open spec fn oldest_first(s: Seq<Seq<char>>, by_minor: bool) -> bool {
    forall|i: int, j: int|
        0 <= i < j < s.len() ==> !lex_lt(#[trigger] sort_key(s[j], by_minor), #[trigger] sort_key(s[i], by_minor))
}

proof fn lemma_newest_pos(s: Seq<Seq<char>>, x: Seq<char>, by_minor: bool)
    ensures
        0 <= newest_pos(s, x, by_minor) <= s.len(),
        forall|k: int| 0 <= k < newest_pos(s, x, by_minor) ==> !lex_lt(#[trigger] sort_key(s[k], by_minor), sort_key(x, by_minor)),
        newest_pos(s, x, by_minor) < s.len() ==> lex_lt(sort_key(s[newest_pos(s, x, by_minor)], by_minor), sort_key(x, by_minor)),
    decreases s.len(),
{
    if s.len() > 0 && !lex_lt(sort_key(s[0], by_minor), sort_key(x, by_minor)) {
        let t = s.drop_first();
        lemma_newest_pos(t, x, by_minor);
        assert(newest_pos(s, x, by_minor) == 1 + newest_pos(t, x, by_minor));
        assert forall|k: int| 0 <= k < newest_pos(s, x, by_minor) implies !lex_lt(#[trigger] sort_key(s[k], by_minor), sort_key(x, by_minor)) by {
            if k > 0 {
                assert(s[k] == t[k - 1]);
            }
        }
        if newest_pos(s, x, by_minor) < s.len() {
            assert(s[newest_pos(s, x, by_minor)] == t[newest_pos(t, x, by_minor)]);
        }
    }
}

proof fn lemma_oldest_pos(s: Seq<Seq<char>>, x: Seq<char>, by_minor: bool)
    ensures
        0 <= oldest_pos(s, x, by_minor) <= s.len(),
        forall|k: int| 0 <= k < oldest_pos(s, x, by_minor) ==> !lex_lt(sort_key(x, by_minor), #[trigger] sort_key(s[k], by_minor)),
        oldest_pos(s, x, by_minor) < s.len() ==> lex_lt(sort_key(x, by_minor), sort_key(s[oldest_pos(s, x, by_minor)], by_minor)),
    decreases s.len(),
{
    if s.len() > 0 && !lex_lt(sort_key(x, by_minor), sort_key(s[0], by_minor)) {
        let t = s.drop_first();
        lemma_oldest_pos(t, x, by_minor);
        assert(oldest_pos(s, x, by_minor) == 1 + oldest_pos(t, x, by_minor));
        assert forall|k: int| 0 <= k < oldest_pos(s, x, by_minor) implies !lex_lt(sort_key(x, by_minor), #[trigger] sort_key(s[k], by_minor)) by {
            if k > 0 {
                assert(s[k] == t[k - 1]);
            }
        }
        if oldest_pos(s, x, by_minor) < s.len() {
            assert(s[oldest_pos(s, x, by_minor)] == t[oldest_pos(t, x, by_minor)]);
        }
    }
}

proof fn lemma_newest_insert(s: Seq<Seq<char>>, x: Seq<char>, by_minor: bool)
    requires
        newest_first(s, by_minor),
    ensures
        newest_first(s.insert(newest_pos(s, x, by_minor), x), by_minor),
{
    let p = newest_pos(s, x, by_minor);
    lemma_newest_pos(s, x, by_minor);
    let r = s.insert(p, x);
    s.insert_ensures(p, x);
    let kx = sort_key(x, by_minor);
    assert forall|i: int, j: int| 0 <= i < j < r.len() implies !lex_lt(#[trigger] sort_key(r[i], by_minor), #[trigger] sort_key(r[j], by_minor)) by {
        if j < p {
            assert(r[i] == s[i] && r[j] == s[j]);
        } else if j == p {
            assert(r[i] == s[i] && r[j] == x);
        } else if i < p {
            assert(r[i] == s[i] && r[j] == s[j - 1]);
        } else if i == p {
            assert(r[i] == x && r[j] == s[j - 1]);
            let kp = sort_key(s[p], by_minor);
            let kj = sort_key(s[j - 1], by_minor);
            if lex_lt(kx, kj) {
                lemma_lex_lt_transitive(kp, kx, kj);
                if j - 1 == p {
                    lemma_lex_lt_asymmetric(kp, kp);
                } else {
                    assert(!lex_lt(sort_key(s[p], by_minor), sort_key(s[j - 1], by_minor)));
                }
            }
        } else {
            assert(r[i] == s[i - 1] && r[j] == s[j - 1]);
        }
    }
}

proof fn lemma_oldest_insert(s: Seq<Seq<char>>, x: Seq<char>, by_minor: bool)
    requires
        oldest_first(s, by_minor),
    ensures
        oldest_first(s.insert(oldest_pos(s, x, by_minor), x), by_minor),
{
    let p = oldest_pos(s, x, by_minor);
    lemma_oldest_pos(s, x, by_minor);
    let r = s.insert(p, x);
    s.insert_ensures(p, x);
    let kx = sort_key(x, by_minor);
    assert forall|i: int, j: int| 0 <= i < j < r.len() implies !lex_lt(#[trigger] sort_key(r[j], by_minor), #[trigger] sort_key(r[i], by_minor)) by {
        if j < p {
            assert(r[i] == s[i] && r[j] == s[j]);
        } else if j == p {
            assert(r[i] == s[i] && r[j] == x);
        } else if i < p {
            assert(r[i] == s[i] && r[j] == s[j - 1]);
        } else if i == p {
            assert(r[i] == x && r[j] == s[j - 1]);
            let kp = sort_key(s[p], by_minor);
            let kj = sort_key(s[j - 1], by_minor);
            if lex_lt(kj, kx) {
                lemma_lex_lt_transitive(kj, kx, kp);
                if j - 1 == p {
                    lemma_lex_lt_asymmetric(kp, kp);
                } else {
                    assert(!lex_lt(sort_key(s[j - 1], by_minor), sort_key(s[p], by_minor)));
                }
            }
        } else {
            assert(r[i] == s[i - 1] && r[j] == s[j - 1]);
        }
    }
}

/// The version sorts order by key: newest first puts no version before a
/// newer one, oldest first none before an older one.
pub proof fn lemma_version_sorts_ordered(s: Seq<Seq<char>>, by_minor: bool)
    ensures
        newest_first(sort_newest_first(s, by_minor), by_minor),
        oldest_first(sort_oldest_first(s, by_minor), by_minor),
    decreases s.len(),
{
    if s.len() > 0 {
        lemma_version_sorts_ordered(s.drop_last(), by_minor);
        lemma_newest_insert(sort_newest_first(s.drop_last(), by_minor), s.last(), by_minor);
        lemma_oldest_insert(sort_oldest_first(s.drop_last(), by_minor), s.last(), by_minor);
    }
}

} // verus!
