//! Foreman-style Procfiles: `name: command` lines declaring a site's processes.
use crate::text::{
    chars_of, find_char, find_first, has_char, is_ws, join_path, lines, path_join, split_lines, split_once, string_of,
    str_eq, trim, trim_end, trim_start, trim_str,
};
use vstd::prelude::*;

verus! {

/// One declared process from a Procfile line `name: command`.
#[derive(Debug, Clone, PartialEq, Eq)]
pub struct ProcEntry {
    pub name: String,
    pub command: String,
}

/// A character allowed in a process name: ASCII alphanumeric, `_` or `-`.
pub open spec fn name_char(c: char) -> bool {
    ('a' <= c && c <= 'z') || ('A' <= c && c <= 'Z') || ('0' <= c && c <= '9') || c == '_' || c == '-'
}

/// The `(name, command)` a line declares, if it is a well-formed entry:
/// not blank, not a `#` comment, split at its first `:`, both sides trimmed
/// and non-empty, the name made of name characters.
pub open spec fn line_entry(line: Seq<char>) -> Option<(Seq<char>, Seq<char>)> {
    let t = trim(line);
    if t.len() == 0 || t[0] == '#' {
        None
    } else {
        match split_once(t, ':') {
            None => None,
            Some(p) => {
                let name = trim(p.0);
                let cmd = trim(p.1);
                if name.len() == 0 || cmd.len() == 0 {
                    None
                } else if !(forall|i: int| 0 <= i < name.len() ==> name_char(#[trigger] name[i])) {
                    None
                } else {
                    Some((name, cmd))
                }
            },
        }
    }
}

/// The entries of the given lines, in order; a repeated name keeps its first
/// occurrence.
pub open spec fn entries_of(ls: Seq<Seq<char>>) -> Seq<(Seq<char>, Seq<char>)>
    decreases ls.len(),
{
    if ls.len() == 0 {
        seq![]
    } else {
        let prev = entries_of(ls.drop_last());
        match line_entry(ls.last()) {
            Some(e) => if exists|k: int| 0 <= k < prev.len() && #[trigger] prev[k].0 == e.0 {
                prev
            } else {
                prev.push(e)
            },
            None => prev,
        }
    }
}

pub open spec fn entry_views(v: Seq<ProcEntry>) -> Seq<(Seq<char>, Seq<char>)> {
    v.map_values(|e: ProcEntry| (e.name@, e.command@))
}

fn is_name(s: &str) -> (b: bool)
    ensures
        b == forall|i: int| 0 <= i < s@.len() ==> name_char(#[trigger] s@[i]),
{
    let v = chars_of(s);
    let mut i: usize = 0;
    while i < v.len()
        invariant
            0 <= i <= v@.len(),
            v@ == s@,
            forall|j: int| 0 <= j < i ==> name_char(#[trigger] v@[j]),
        decreases v@.len() - i,
    {
        let c = v[i];
        if !(('a' <= c && c <= 'z') || ('A' <= c && c <= 'Z') || ('0' <= c && c <= '9') || c == '_' || c == '-') {
            return false;
        }
        i = i + 1;
    }
    true
}

/// The entry a line declares (see [`line_entry`]).
fn parse_line(line: &str) -> (r: Option<ProcEntry>)
    ensures
        match r {
            Some(e) => line_entry(line@) == Some((e.name@, e.command@)),
            None => line_entry(line@) is None,
        },
{
    let t = trim_str(line);
    let v = chars_of(t.as_str());
    if v.len() == 0 || v[0] == '#' {
        return None;
    }
    match find_char(&v, ':') {
        None => None,
        Some(i) => {
            let left = string_of(&v, 0, i);
            let right = string_of(&v, i + 1, v.len());
            assert(left@ == t@.take(i as int));
            assert(right@ == t@.skip(i + 1));
            let name = trim_str(left.as_str());
            let command = trim_str(right.as_str());
            if name.as_str().is_empty() || command.as_str().is_empty() {
                return None;
            }
            if !is_name(name.as_str()) {
                return None;
            }
            Some(ProcEntry { name, command })
        },
    }
}

/// Parse Foreman-style Procfile text. Lenient: blank lines and `#` comments are
/// ignored, malformed lines are skipped (never aborts), `name` must match
/// `[A-Za-z0-9_-]+`, and a duplicate name keeps the first occurrence.
pub fn parse_procfile(text: &str) -> (out: Vec<ProcEntry>)
    ensures
        entry_views(out@) == entries_of(lines(text@)),
{
    let ls = split_lines(text);
    let ghost lv = ls@.map_values(|l: String| l@);
    let mut out: Vec<ProcEntry> = Vec::new();
    let mut i: usize = 0;
    while i < ls.len()
        invariant
            0 <= i <= ls@.len(),
            lv == ls@.map_values(|l: String| l@),
            entry_views(out@) == entries_of(lv.take(i as int)),
        decreases ls@.len() - i,
    {
        proof {
            assert(lv.take(i + 1).drop_last() == lv.take(i as int));
            assert(lv.take(i + 1).last() == ls@[i as int]@);
        }
        match parse_line(ls[i].as_str()) {
            Some(e) => {
                let ghost prev = entry_views(out@);
                let mut dup = false;
                let mut k: usize = 0;
                while k < out.len()
                    invariant
                        0 <= k <= out@.len(),
                        prev == entry_views(out@),
                        !dup ==> forall|j: int| 0 <= j < k ==> #[trigger] prev[j].0 != e.name@,
                        dup ==> exists|j: int| 0 <= j < prev.len() && #[trigger] prev[j].0 == e.name@,
                    decreases out@.len() - k,
                {
                    assert(prev[k as int].0 == out@[k as int].name@);
                    if str_eq(out[k].name.as_str(), e.name.as_str()) {
                        dup = true;
                    }
                    k = k + 1;
                }
                if !dup {
                    out.push(e);
                    assert(entry_views(out@) == prev.push((e.name@, e.command@)));
                }
            },
            None => {},
        }
        i = i + 1;
    }
    assert(lv.take(i as int) == lv);
    out
}

/// Where a site's Procfile is: `<root>/Procfile`, or nowhere when the site
/// has no folder (an empty root).
pub fn procfile_path(site_root: &str) -> (r: Option<String>)
    ensures
        site_root@.len() == 0 ==> r is None,
        site_root@.len() > 0 ==> (r matches Some(p) && p@ == path_join(site_root@, "Procfile"@)),
{
    if site_root.is_empty() {
        None
    } else {
        Some(join_path(site_root, "Procfile"))
    }
}

/// A line `name: command` declares the process `name` running `command`
/// whenever the name is non-empty and made only of ASCII letters, digits,
/// `_` and `-`, and the command is non-empty with no whitespace around it;
/// after earlier lines that did not declare that name, it adds exactly that
/// entry.
pub proof fn lemma_declared_line_is_entry(ls: Seq<Seq<char>>, name: Seq<char>, cmd: Seq<char>)
    requires
        name.len() > 0,
        forall|i: int|
            0 <= i < name.len() ==> ({
                let ch = #[trigger] name[i];
                ('a' <= ch && ch <= 'z') || ('A' <= ch && ch <= 'Z') || ('0' <= ch && ch <= '9') || ch == '_' || ch == '-'
            }),
        cmd.len() > 0,
        !is_ws(cmd[0]),
        !is_ws(cmd.last()),
    ensures
        line_entry(name + ":"@ + cmd) == Some((name, cmd)),
        (forall|k: int| 0 <= k < entries_of(ls).len() ==> #[trigger] entries_of(ls)[k].0 != name) ==> entries_of(
            ls.push(name + ":"@ + cmd),
        ) == entries_of(ls).push((name, cmd)),
        // a name declared again keeps its first declaration
        (exists|k: int| 0 <= k < entries_of(ls).len() && #[trigger] entries_of(ls)[k].0 == name) ==> entries_of(
            ls.push(name + ":"@ + cmd),
        ) == entries_of(ls),
{
    reveal_strlit(":");
    let line = name + ":"@ + cmd;
    let n = name.len() as int;
    assert(line[0] == name[0]);
    assert(line.last() == cmd.last());
    assert(trim_start(line) == line);
    assert(trim_end(line) == line);
    assert(trim(line) == line);
    assert(line[n] == ':');
    assert(exists|i: int| 0 <= i < line.len() && line[i] == ':');
    let f = find_first(line, ':').unwrap();
    assert(f == n) by {
        if f < n {
            assert(line[f] == name[f]);
        } else if f > n {
            assert(line[n] == ':');
        }
    }
    assert(line.take(n) =~= name);
    assert(line.skip(n + 1) =~= cmd);
    assert(name.last() == name[n - 1]);
    assert(trim_start(name) == name);
    assert(trim_end(name) == name);
    assert(trim_start(cmd) == cmd);
    assert(trim_end(cmd) == cmd);
    assert forall|i: int| 0 <= i < name.len() implies name_char(#[trigger] name[i]) by {}
    assert(ls.push(line).drop_last() == ls);
    assert(ls.push(line).last() == line);
}

/// Blank lines and `#` comments declare nothing.
pub proof fn lemma_blank_and_comment_lines_ignored(ls: Seq<Seq<char>>, line: Seq<char>)
    requires
        trim(line).len() == 0 || trim(line)[0] == '#',
    ensures
        entries_of(ls.push(line)) == entries_of(ls),
{
    assert(ls.push(line).drop_last() == ls);
    assert(ls.push(line).last() == line);
}

} // verus!
