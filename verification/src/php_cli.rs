//! Composer: where it is downloaded from and which versions are offered.
use crate::json::{json_as_str, json_get, json_str_field, parse_json, parsed_json, spec_get, str_field, Json};
use crate::layout::{merge_versions, string_views, union_versions};
use crate::text::cat;
use vstd::prelude::*;

verus! {

/// The latest stable composer.phar (the bare `composer.phar` is the
/// development snapshot).
pub const COMPOSER_URL: &'static str = "https://getcomposer.org/download/latest-stable/composer.phar";

/// The version recorded for the latest stable download when its own
/// `--version` cannot be read. It names that download (newer than the
/// pinned catalog), so it is not one of the catalog's versions.
pub const COMPOSER_FALLBACK_VERSION: &'static str = "2.10.3";

/// The release feed: `stable` lists the latest stable and the LTS line.
pub const COMPOSER_VERSIONS_URL: &'static str = "https://getcomposer.org/versions";

/// The versions offered without the release feed.
pub open spec fn known_composer() -> Seq<Seq<char>> {
    seq!["2.8.9"@, "2.7.9"@, "2.6.6"@, "2.2.25"@]
}

pub fn known_composer_versions() -> (r: Vec<String>)
    ensures
        string_views(r@) == known_composer(),
{
    let mut r: Vec<String> = Vec::new();
    r.push("2.8.9".to_owned());
    r.push("2.7.9".to_owned());
    r.push("2.6.6".to_owned());
    r.push("2.2.25".to_owned());
    assert(string_views(r@) =~= known_composer());
    r
}

/// The `version` strings of the entries, in order, entries without one
/// skipped.
pub open spec fn versions_in(es: Seq<Json>) -> Seq<Seq<char>>
    decreases es.len(),
{
    if es.len() == 0 {
        seq![]
    } else {
        let p = versions_in(es.drop_last());
        match str_field(es.last(), "version"@) {
            Some(v) => p.push(v),
            None => p,
        }
    }
}

/// The stable versions a release feed lists: the `version` of each entry
/// of its `stable` array.
pub open spec fn spec_composer_versions(root: Json) -> Seq<Seq<char>> {
    match spec_get(root, "stable"@) {
        Some(s) => match s {
            Json::Array(a) => versions_in(a@),
            _ => seq![],
        },
        None => seq![],
    }
}

/// The stable versions a release feed document lists.
pub fn composer_versions_in(root: &Json) -> (r: Vec<String>)
    ensures
        string_views(r@) == spec_composer_versions(*root),
{
    let mut r: Vec<String> = Vec::new();
    match json_get(root, "stable") {
        Some(s) => match s {
            Json::Array(a) => {
                let mut i: usize = 0;
                while i < a.len()
                    invariant
                        0 <= i <= a@.len(),
                        string_views(r@) == versions_in(a@.take(i as int)),
                    decreases a@.len() - i,
                {
                    proof {
                        assert(a@.take(i + 1).drop_last() == a@.take(i as int));
                        assert(a@.take(i + 1).last() == a@[i as int]);
                    }
                    match json_str_field(&a[i], "version") {
                        Some(v) => {
                            let ghost before = string_views(r@);
                            r.push(v.to_owned());
                            assert(string_views(r@) =~= before.push(v@));
                        },
                        None => {},
                    }
                    i = i + 1;
                }
                assert(a@.take(i as int) == a@);
            },
            _ => {},
        },
        None => {},
    }
    r
}

/// The stable versions listed by the `getcomposer.org/versions` text; none
/// when it is not JSON.
pub fn parse_composer_versions(json: &str) -> (r: Vec<String>)
    ensures
        string_views(r@) == match parsed_json(json@) {
            Some(root) => spec_composer_versions(root),
            None => seq![],
        },
{
    match parse_json(json) {
        Some(root) => composer_versions_in(&root),
        None => Vec::new(),
    }
}

/// The versions offered: the known ones unioned with those of the cached
/// release feed (`cached` is its text, empty when there is none).
pub fn composer_catalog_versions(cached: &str) -> (r: Vec<String>)
    ensures
        string_views(r@) == union_versions(
            known_composer(),
            match parsed_json(cached@) {
                Some(root) => spec_composer_versions(root),
                None => seq![],
            },
        ),
{
    let feed = parse_composer_versions(cached);
    merge_versions(known_composer_versions(), feed.as_slice())
}

pub open spec fn spec_composer_versioned_url(version: Seq<char>) -> Seq<char> {
    "https://getcomposer.org/download/"@ + version + "/composer.phar"@
}

/// The download URL of composer.phar `version`.
pub fn composer_versioned_url(version: &str) -> (r: String)
    ensures
        r@ == spec_composer_versioned_url(version@),
{
    let mut r = cat("https://getcomposer.org/download/", version);
    r.append("/composer.phar");
    r
}

/// The `composer` wrapper script: it runs the managed PHP on the managed
/// composer.phar through their `current` links, by absolute path (the
/// wrapper may run as another user, where `$HOME` would point elsewhere).
pub fn composer_wrapper(php: &str, phar: &str) -> (r: String)
    ensures
        r@ == "#!/bin/sh\nexec \""@ + php@ + "\" \""@ + phar@ + "\" \"$@\"\n"@,
{
    let mut r = cat("#!/bin/sh\nexec \"", php);
    r.append("\" \"");
    r.append(phar);
    r.append("\" \"$@\"\n");
    r
}

} // verus!
