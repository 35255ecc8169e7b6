//! Finding programs: where a program name is looked for, and the nginx
//! bind-capability preflight.
use crate::layout::string_views;
use crate::privileged::Privileged;
use crate::text::{contains_seq, contains_str, has_char, join_path, path_join, split_char, split_on};
use vstd::prelude::*;

verus! {

/// The system directories searched after `$PATH`.
pub open spec fn fallback_dirs() -> Seq<Seq<char>> {
    seq!["/usr/local/sbin"@, "/usr/local/bin"@, "/usr/sbin"@, "/usr/bin"@, "/sbin"@, "/bin"@]
}

/// The directories searched for a bare program name, in order: the extra
/// ones, those of `$PATH`, then the system ones.
pub open spec fn search_dirs(extra: Seq<Seq<char>>, path_var: Option<Seq<char>>) -> Seq<Seq<char>> {
    extra + match path_var {
        Some(p) => split_on(p, ':'),
        None => seq![],
    } + fallback_dirs()
}

/// The paths tried, in order, for a program name: a name containing `/` is
/// itself the only one; a bare name is tried in each search directory.
pub open spec fn spec_candidates(name: Seq<char>, extra: Seq<Seq<char>>, path_var: Option<Seq<char>>) -> Seq<Seq<char>> {
    if has_char(name, '/') {
        seq![name]
    } else {
        search_dirs(extra, path_var).map_values(|d: Seq<char>| path_join(d, name))
    }
}

fn push_joined(out: &mut Vec<String>, dirs: &Vec<String>, name: &str)
    ensures
        string_views(final(out)@) == string_views(old(out)@) + string_views(dirs@).map_values(|d: Seq<char>| path_join(d, name@)),
{
    let ghost start = string_views(out@);
    let ghost dv = string_views(dirs@);
    let mut i: usize = 0;
    while i < dirs.len()
        invariant
            0 <= i <= dirs@.len(),
            dv == string_views(dirs@),
            string_views(out@) == start + dv.take(i as int).map_values(|d: Seq<char>| path_join(d, name@)),
        decreases dirs@.len() - i,
    {
        let ghost before = string_views(out@);
        out.push(join_path(dirs[i].as_str(), name));
        proof {
            assert(string_views(out@) =~= before.push(path_join(dirs@[i as int]@, name@)));
            assert(dv.take(i + 1).map_values(|d: Seq<char>| path_join(d, name@)) =~= dv.take(i as int).map_values(
                |d: Seq<char>| path_join(d, name@),
            ).push(path_join(dv[i as int], name@)));
        }
        i = i + 1;
    }
    assert(dv.take(i as int) == dv);
}

/// The paths to try, in order, when resolving `name` (the first that is a
/// file wins): `name` itself when it contains `/`; otherwise `name` in each
/// of `extra_dirs`, in each directory of `path_var` (`$PATH`), then in
/// `/usr/local/sbin`, `/usr/local/bin`, `/usr/sbin`, `/usr/bin`, `/sbin`,
/// `/bin`.
pub fn resolve_candidates(name: &str, extra_dirs: &Vec<String>, path_var: Option<&str>) -> (r: Vec<String>)
    ensures
        string_views(r@) == spec_candidates(
            name@,
            string_views(extra_dirs@),
            match path_var {
                Some(p) => Some(p@),
                None => None,
            },
        ),
{
    let v = crate::text::chars_of(name);
    match crate::text::find_char(&v, '/') {
        Some(_) => {
            let mut r: Vec<String> = Vec::new();
            r.push(name.to_owned());
            assert(string_views(r@) =~= seq![name@]);
            return r;
        },
        None => {},
    }
    let mut r: Vec<String> = Vec::new();
    push_joined(&mut r, extra_dirs, name);
    let ghost pv: Seq<Seq<char>> = match path_var {
        Some(p) => split_on(p@, ':'),
        None => seq![],
    };
    match path_var {
        Some(p) => {
            let parts = split_char(p, ':');
            assert(string_views(parts@) == parts@.map_values(|x: String| x@));
            push_joined(&mut r, &parts, name);
        },
        None => {},
    }
    let mut fb: Vec<String> = Vec::new();
    fb.push("/usr/local/sbin".to_owned());
    fb.push("/usr/local/bin".to_owned());
    fb.push("/usr/sbin".to_owned());
    fb.push("/usr/bin".to_owned());
    fb.push("/sbin".to_owned());
    fb.push("/bin".to_owned());
    assert(string_views(fb@) =~= fallback_dirs());
    push_joined(&mut r, &fb, name);
    proof {
        let f = |d: Seq<char>| path_join(d, name@);
        let ex = string_views(extra_dirs@);
        assert((ex + pv + fallback_dirs()).map_values(f) =~= ex.map_values(f) + pv.map_values(f) + fallback_dirs().map_values(f));
        if path_var is None {
            assert(pv.map_values(f) =~= Seq::<Seq<char>>::empty());
        }
    }
    r
}

/// The resolved path if one was found, else the bare name (so that the
/// lookup in `$PATH` still applies when spawning).
pub fn resolve_or_name(name: &str, resolved: Option<String>) -> (r: String)
    ensures
        r@ == match resolved {
            Some(p) => p@,
            None => name@,
        },
{
    match resolved {
        Some(p) => p,
        None => name.to_owned(),
    }
}

/// True iff `getcap` output reports the net-bind capability.
pub fn getcap_indicates_cap(output: &str) -> (b: bool)
    ensures
        b == contains_seq(output@, "cap_net_bind_service"@),
{
    contains_str(output, "cap_net_bind_service")
}

/// Preflight before starting nginx: when an nginx binary was found and
/// `has_cap` says it lacks the net-bind capability, re-apply it with
/// `setcap` (best effort: a failure does not block startup). Returns
/// whether `setcap` was asked for.
pub fn ensure_nginx_bind_cap(nginx: Option<&str>, has_cap: impl Fn(&str) -> bool, privileged: &dyn Privileged) -> (asked: bool)
    requires
        forall|s: &str| call_requires(has_cap, (s,)),
    ensures
        nginx is None ==> !asked,
        nginx matches Some(n) ==> (asked ==> call_ensures(has_cap, (n,), false)) && (!asked ==> call_ensures(has_cap, (n,), true)),
{
    match nginx {
        Some(n) => {
            if !has_cap(n) {
                let _ = privileged.setcap_nginx(n);
                true
            } else {
                false
            }
        },
        None => false,
    }
}

/// `f` answered `out` for some argument spelling `name`.
pub open spec fn resolved_to<F: Fn(&str) -> Option<String>>(f: F, name: Seq<char>, out: Option<String>) -> bool {
    exists|b: &str| b@ == name && #[trigger] call_ensures(f, (b,), out)
}

/// `r` is what `f` answered for the first name of `order` it found, or
/// `None` when it found none of them.
pub open spec fn first_found<F: Fn(&str) -> Option<String>>(order: Seq<Seq<char>>, f: F, r: Option<String>) -> bool {
    &&& r is None ==> forall|j: int| 0 <= j < order.len() ==> resolved_to(f, #[trigger] order[j], None)
    &&& r is Some ==> exists|i: int|
        0 <= i < order.len() && resolved_to(f, #[trigger] order[i], r) && forall|j: int|
            0 <= j < i ==> resolved_to(f, #[trigger] order[j], None)
}

/// The first candidate that `resolve` finds, in order.
pub fn first_resolved(cands: &Vec<&str>, resolve: impl Fn(&str) -> Option<String>) -> (r: Option<String>)
    requires
        forall|s: &str| call_requires(resolve, (s,)),
    ensures
        first_found(cands@.map_values(|s: &str| s@), resolve, r),
{
    let ghost cv = cands@.map_values(|s: &str| s@);
    let mut i: usize = 0;
    while i < cands.len()
        invariant
            0 <= i <= cands@.len(),
            forall|s: &str| call_requires(resolve, (s,)),
            cv == cands@.map_values(|s: &str| s@),
            forall|j: int| 0 <= j < i ==> resolved_to(resolve, #[trigger] cv[j], None),
        decreases cands@.len() - i,
    {
        let c = cands[i];
        let found = resolve(c);
        assert(cv[i as int] == c@);
        assert(resolved_to(resolve, c@, found));
        match found {
            Some(p) => {
                let r = Some(p);
                assert(cv[i as int] == cands@[i as int]@);
                assert(resolved_to(resolve, cv[i as int], r));
                return r;
            },
            None => {},
        }
        i = i + 1;
    }
    None
}

} // verus!
