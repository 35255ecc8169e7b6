//! Recognizing processes of the managed stack left over from an earlier
//! session: by the path of their executable.
use crate::layout::string_views;
use crate::text::{ends_with, ends_with_str, find_last, rfind_char, split_char, split_on, str_eq, string_of, trim_start, chars_of};
use vstd::prelude::*;

verus! {

/// A component that names something (not empty, not `.`).
pub open spec fn normal_part(p: Seq<char>) -> bool {
    p.len() > 0 && p != "."@
}

/// The normal pieces of `ps`, in order.
pub open spec fn normal_parts(ps: Seq<Seq<char>>) -> Seq<Seq<char>>
    decreases ps.len(),
{
    if ps.len() == 0 {
        seq![]
    } else if normal_part(ps.last()) {
        normal_parts(ps.drop_last()).push(ps.last())
    } else {
        normal_parts(ps.drop_last())
    }
}

/// The components of a Unix path as `Path::components` yields them: the
/// root (`/`) of an absolute path, a leading `.` of a relative one, then
/// every piece between separators that is neither empty nor `.`.
pub open spec fn path_components(p: Seq<char>) -> Seq<Seq<char>> {
    let segs = split_on(p, '/');
    if p.len() > 0 && p[0] == '/' {
        seq!["/"@] + normal_parts(segs.drop_first())
    } else if segs[0] == "."@ {
        seq!["."@] + normal_parts(segs.drop_first())
    } else {
        normal_parts(segs)
    }
}

/// `Path::starts_with`: the components of `base` begin those of `p`.
pub open spec fn path_starts_with(p: Seq<char>, base: Seq<char>) -> bool {
    let a = path_components(p);
    let b = path_components(base);
    b.len() <= a.len() && a.take(b.len() as int) == b
}

fn normal_of(ps: &Vec<String>, from: usize) -> (r: Vec<String>)
    requires
        from <= ps@.len(),
    ensures
        string_views(r@) == normal_parts(string_views(ps@).skip(from as int)),
{
    let ghost pv = string_views(ps@).skip(from as int);
    let mut r: Vec<String> = Vec::new();
    let mut i = from;
    while i < ps.len()
        invariant
            from <= i <= ps@.len(),
            pv == string_views(ps@).skip(from as int),
            string_views(r@) == normal_parts(pv.take(i - from)),
        decreases ps@.len() - i,
    {
        proof {
            assert(pv.take(i - from + 1).drop_last() =~= pv.take(i - from));
            assert(pv.take(i - from + 1).last() == ps@[i as int]@);
        }
        let v = chars_of(ps[i].as_str());
        if v.len() > 0 && !str_eq(ps[i].as_str(), ".") {
            let ghost before = string_views(r@);
            r.push(ps[i].clone());
            assert(string_views(r@) =~= before.push(ps@[i as int]@));
        }
        i = i + 1;
    }
    assert(pv.take(i - from) =~= pv);
    r
}

/// The components of a path.
pub fn components(p: &str) -> (r: Vec<String>)
    ensures
        string_views(r@) == path_components(p@),
{
    let segs = split_char(p, '/');
    assert(string_views(segs@) == split_on(p@, '/'));
    let v = chars_of(p);
    proof {
        crate::text::lemma_split_nonempty(p@, '/');
    }
    if v.len() > 0 && v[0] == '/' {
        let rest = normal_of(&segs, 1);
        let mut r: Vec<String> = Vec::new();
        r.push("/".to_owned());
        let ghost head = string_views(r@);
        let mut i: usize = 0;
        let mut out = r;
        while i < rest.len()
            invariant
                0 <= i <= rest@.len(),
                string_views(out@) == head + string_views(rest@).take(i as int),
            decreases rest@.len() - i,
        {
            let ghost before = string_views(out@);
            out.push(rest[i].clone());
            assert(string_views(out@) =~= before.push(rest@[i as int]@));
            assert(string_views(rest@).take(i + 1) =~= string_views(rest@).take(i as int).push(rest@[i as int]@));
            assert(string_views(out@) =~= head + string_views(rest@).take(i + 1));
            i = i + 1;
        }
        assert(string_views(rest@).take(i as int) == string_views(rest@));
        assert(head =~= seq!["/"@]);
        assert(string_views(segs@).drop_first() == string_views(segs@).skip(1));
        out
    } else if str_eq(segs[0].as_str(), ".") {
        assert(string_views(segs@)[0] == segs@[0]@);
        let rest = normal_of(&segs, 1);
        let mut out: Vec<String> = Vec::new();
        out.push(".".to_owned());
        let ghost head = string_views(out@);
        let mut i: usize = 0;
        while i < rest.len()
            invariant
                0 <= i <= rest@.len(),
                string_views(out@) == head + string_views(rest@).take(i as int),
            decreases rest@.len() - i,
        {
            let ghost before = string_views(out@);
            out.push(rest[i].clone());
            assert(string_views(out@) =~= before.push(rest@[i as int]@));
            assert(string_views(rest@).take(i + 1) =~= string_views(rest@).take(i as int).push(rest@[i as int]@));
            assert(string_views(out@) =~= head + string_views(rest@).take(i + 1));
            i = i + 1;
        }
        assert(string_views(rest@).take(i as int) == string_views(rest@));
        assert(head =~= seq!["."@]);
        assert(string_views(segs@).drop_first() == string_views(segs@).skip(1));
        out
    } else {
        assert(string_views(segs@)[0] == segs@[0]@);
        assert(string_views(segs@).skip(0) == string_views(segs@));
        normal_of(&segs, 0)
    }
}

/// The executable path with the kernel's ` (deleted)` marker (of an
/// unlinked binary) removed.
pub open spec fn without_deleted(exe: Seq<char>) -> Seq<char> {
    if ends_with(exe, " (deleted)"@) {
        exe.take(exe.len() - " (deleted)"@.len())
    } else {
        exe
    }
}

/// True when `exe` (the resolved `/proc/<pid>/exe`) lies at or below
/// `match_dir`, component-wise: `/x/bin` covers `/x/bin/php/8.4/sbin/php-fpm`
/// but not `/x/binary`.
pub fn is_managed_exe(exe: &str, match_dir: &str) -> (b: bool)
    ensures
        b == path_starts_with(without_deleted(exe@), match_dir@),
{
    let v = chars_of(exe);
    let clean = if ends_with_str(exe, " (deleted)") {
        proof {
            reveal_strlit(" (deleted)");
        }
        string_of(&v, 0, v.len() - 10)
    } else {
        exe.to_owned()
    };
    assert(clean@ == without_deleted(exe@));
    let a = components(clean.as_str());
    let b = components(match_dir);
    assert(string_views(a@).len() == a@.len());
    assert(string_views(b@).len() == b@.len());
    if b.len() > a.len() {
        return false;
    }
    let mut i: usize = 0;
    while i < b.len()
        invariant
            0 <= i <= b@.len() <= a@.len(),
            string_views(a@) == path_components(without_deleted(exe@)),
            string_views(b@) == path_components(match_dir@),
            forall|k: int| 0 <= k < i ==> a@[k]@ == b@[k]@,
        decreases b@.len() - i,
    {
        if !str_eq(a[i].as_str(), b[i].as_str()) {
            proof {
                assert(string_views(a@)[i as int] == a@[i as int]@);
                assert(string_views(b@)[i as int] == b@[i as int]@);
                assert(string_views(a@).take(b@.len() as int)[i as int] != string_views(b@)[i as int]);
                assert(string_views(a@).take(b@.len() as int) != string_views(b@));
            }
            return false;
        }
        i = i + 1;
    }
    assert(string_views(a@).take(b@.len() as int) =~= string_views(b@));
    true
}

/// Whether a `/proc/<pid>/stat` text reports a zombie: the state is the
/// first character after the last `)` (the command name may hold spaces
/// and parentheses), leading whitespace skipped.
pub open spec fn spec_stat_is_zombie(stat: Seq<char>) -> bool {
    match find_last(stat, ')') {
        Some(i) => {
            let rest = trim_start(stat.skip(i + 1));
            rest.len() > 0 && rest[0] == 'Z'
        },
        None => false,
    }
}

/// Whether a `/proc/<pid>/stat` text reports a zombie process.
pub fn stat_is_zombie(stat: &str) -> (b: bool)
    ensures
        b == spec_stat_is_zombie(stat@),
{
    let v = chars_of(stat);
    match rfind_char(&v, ')') {
        Some(i) => {
            assert(i < v.len());
            let rest = string_of(&v, i + 1, v.len());
            assert(rest@ == stat@.skip(i + 1));
            let t = crate::text::trim_start_str(rest.as_str());
            let tv = chars_of(t.as_str());
            tv.len() > 0 && tv[0] == 'Z'
        },
        None => false,
    }
}

} // verus!
