//! The PHP version catalog: the known minors unioned with the installed
//! ones, newest first.
use crate::layout::{
    merge_versions, minor_of, minor_string, sort_newest_first, sort_oldest_first, sort_versions,
    string_views, union_versions, contains_string,
};
use crate::text::{split_char, split_on, str_eq};
use vstd::prelude::*;

verus! {

/// The PHP minor installed when none is asked for.
pub const DEFAULT_PHP_VERSION: &'static str = "8.5";

/// The PHP minors offered for installation.
pub open spec fn known_php() -> Seq<Seq<char>> {
    seq!["8.0"@, "8.1"@, "8.2"@, "8.3"@, "8.4"@, "8.5"@]
}

/// The PHP minors offered for installation, oldest first.
pub fn known_php_versions() -> (r: Vec<String>)
    ensures
        string_views(r@) == known_php(),
{
    let mut r: Vec<String> = Vec::new();
    r.push("8.0".to_owned());
    r.push("8.1".to_owned());
    r.push("8.2".to_owned());
    r.push("8.3".to_owned());
    r.push("8.4".to_owned());
    r.push("8.5".to_owned());
    assert(string_views(r@) =~= known_php());
    r
}

/// One entry of the catalog.
#[derive(Debug, Clone, PartialEq, Eq)]
pub struct PhpVersionInfo {
    pub version: String,
    pub installed: bool,
    pub active: bool,
}

pub open spec fn info_views(v: Seq<PhpVersionInfo>) -> Seq<(Seq<char>, bool, bool)> {
    v.map_values(|i: PhpVersionInfo| (i.version@, i.installed, i.active))
}

/// Each version flagged installed and active.
pub open spec fn flagged(vs: Seq<Seq<char>>, installed: Seq<Seq<char>>, active: Seq<char>) -> Seq<(Seq<char>, bool, bool)> {
    vs.map_values(|v: Seq<char>| (v, installed.contains(v), v == active))
}

/// The catalog from the known minors and the installed ones: every version
/// once, newest `(major, minor)` first, each flagged installed and active.
pub open spec fn spec_php_versions_from(installed: Seq<Seq<char>>, active: Seq<char>) -> Seq<(Seq<char>, bool, bool)> {
    flagged(sort_newest_first(union_versions(known_php(), installed), true), installed, active)
}

/// Build the version catalog from the known list unioned with the installed
/// versions, newest first.
pub fn php_versions_from(installed: &[String], active: &str) -> (r: Vec<PhpVersionInfo>)
    ensures
        info_views(r@) == spec_php_versions_from(string_views(installed@), active@),
{
    let merged = merge_versions(known_php_versions(), installed);
    let sorted = sort_versions(merged, true, true);
    let ghost sv = string_views(sorted@);
    let inst = copy_all(installed);
    let mut r: Vec<PhpVersionInfo> = Vec::new();
    let mut i: usize = 0;
    while i < sorted.len()
        invariant
            0 <= i <= sorted@.len(),
            sv == string_views(sorted@),
            string_views(inst@) == string_views(installed@),
            info_views(r@) == flagged(sv.take(i as int), string_views(installed@), active@),
        decreases sorted@.len() - i,
    {
        let v = sorted[i].clone();
        let is_installed = contains_string(&inst, v.as_str());
        let is_active = str_eq(v.as_str(), active);
        let ghost before = info_views(r@);
        r.push(PhpVersionInfo { version: v, installed: is_installed, active: is_active });
        proof {
            assert(sv[i as int] == sorted@[i as int]@);
            assert(info_views(r@) =~= before.push((sv[i as int], is_installed, is_active)));
            assert(sv.take(i + 1) =~= sv.take(i as int).push(sv[i as int]));
            assert(flagged(sv.take(i + 1), string_views(installed@), active@) =~= flagged(sv.take(i as int), string_views(installed@), active@).push(
                (sv[i as int], string_views(installed@).contains(sv[i as int]), sv[i as int] == active@)));
        }
        i = i + 1;
    }
    assert(sv.take(i as int) == sv);
    r
}

fn copy_all(v: &[String]) -> (r: Vec<String>)
    ensures
        string_views(r@) == string_views(v@),
{
    let mut r: Vec<String> = Vec::new();
    let mut i: usize = 0;
    while i < v.len()
        invariant
            0 <= i <= v@.len(),
            string_views(r@) == string_views(v@.take(i as int)),
        decreases v@.len() - i,
    {
        let ghost before = r@;
        r.push(v[i].clone());
        proof {
            assert(v@.take(i + 1) =~= v@.take(i as int).push(v@[i as int]));
            assert(string_views(r@) =~= string_views(before).push(v@[i as int]@));
            assert(string_views(v@.take(i + 1)) =~= string_views(v@.take(i as int)).push(v@[i as int]@));
        }
        i = i + 1;
    }
    assert(v@.take(i as int) == v@);
    r
}

/// The `major.minor` of each version with at least two components, each
/// once, in order of first appearance.
pub open spec fn minors_of(fs: Seq<Seq<char>>) -> Seq<Seq<char>>
    decreases fs.len(),
{
    if fs.len() == 0 {
        seq![]
    } else {
        let prev = minors_of(fs.drop_last());
        let v = fs.last();
        if split_on(v, '.').len() >= 2 && !prev.contains(minor_of(v)) {
            prev.push(minor_of(v))
        } else {
            prev
        }
    }
}

/// Reduce full patch versions to the sorted, unique `major.minor` strings.
pub fn installed_minors(full_versions: &[String]) -> (r: Vec<String>)
    ensures
        string_views(r@) == sort_oldest_first(minors_of(string_views(full_versions@)), true),
{
    let ghost fv = string_views(full_versions@);
    let mut minors: Vec<String> = Vec::new();
    let mut i: usize = 0;
    while i < full_versions.len()
        invariant
            0 <= i <= full_versions@.len(),
            fv == string_views(full_versions@),
            string_views(minors@) == minors_of(fv.take(i as int)),
        decreases full_versions@.len() - i,
    {
        proof {
            assert(fv.take(i + 1).drop_last() == fv.take(i as int));
            assert(fv.take(i + 1).last() == full_versions@[i as int]@);
        }
        let parts = split_char(full_versions[i].as_str(), '.');
        assert(parts@.map_values(|p: String| p@).len() == parts@.len());
        if parts.len() >= 2 {
            let m = minor_string(full_versions[i].as_str());
            if !contains_string(&minors, m.as_str()) {
                let ghost before = string_views(minors@);
                minors.push(m);
                assert(string_views(minors@) =~= before.push(minor_of(fv[i as int])));
            }
        }
        i = i + 1;
    }
    assert(fv.take(i as int) == fv);
    sort_versions(minors, true, false)
}

/// The minor a configured version selects: its `major.minor` when it has
/// two components, else the text itself.
pub open spec fn active_minor(a: Seq<char>) -> Seq<char> {
    if split_on(a, '.').len() >= 2 {
        minor_of(a)
    } else {
        a
    }
}

/// The catalog for the installed full versions, `active` being a full
/// version ("8.3.31") or a minor ("8.3"); compared on the minor.
pub fn php_versions(installed_full: &[String], active: &str) -> (r: Vec<PhpVersionInfo>)
    ensures
        info_views(r@) == spec_php_versions_from(
            sort_oldest_first(minors_of(string_views(installed_full@)), true),
            active_minor(active@),
        ),
{
    let installed = installed_minors(installed_full);
    let parts = split_char(active, '.');
    assert(parts@.map_values(|p: String| p@).len() == parts@.len());
    let am = if parts.len() >= 2 {
        minor_string(active)
    } else {
        active.to_owned()
    };
    php_versions_from(installed.as_slice(), am.as_str())
}

} // verus!
