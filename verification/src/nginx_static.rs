//! The static nginx builds: where they are listed and which is the newest
//! for this machine.
use crate::json::{json_as_str, json_get, json_str_field, parse_json, parsed_json, spec_get, str_field, Json};
use crate::layout::{key_less, lex_lt, spec_version_key, version_key};
use crate::text::{cat, str_eq};
use vstd::prelude::*;

verus! {

pub const NGINX_INDEX_URL: &'static str = "https://jirutka.github.io/nginx-binaries/index.json";

pub const NGINX_BASE_URL: &'static str = "https://jirutka.github.io/nginx-binaries";

/// Why installing nginx failed.
#[derive(Debug)]
pub enum NginxError {
    Arch(String),
    NoBuild,
    Download(String),
    Io(String),
}

impl NginxError {
    pub fn message(&self) -> (s: String)
        ensures
            s@ == match self {
                NginxError::Arch(m) => "unsupported architecture: "@ + m@,
                NginxError::NoBuild => "no nginx build for this platform"@,
                NginxError::Download(m) => "download failed: "@ + m@,
                NginxError::Io(m) => "io error: "@ + m@,
            },
    {
        match self {
            NginxError::Arch(m) => cat("unsupported architecture: ", m.as_str()),
            NginxError::NoBuild => "no nginx build for this platform".to_owned(),
            NginxError::Download(m) => cat("download failed: ", m.as_str()),
            NginxError::Io(m) => cat("io error: ", m.as_str()),
        }
    }
}

/// The architecture tag of the builds for the machine architecture.
pub fn nginx_arch(machine: &str) -> (r: Option<&'static str>)
    ensures
        r matches Some(t) ==> (machine@ == "x86_64"@ && t@ == "x86_64"@) || (machine@ == "aarch64"@ && t@ == "aarch64"@),
        r is None ==> machine@ != "x86_64"@ && machine@ != "aarch64"@,
{
    if str_eq(machine, "x86_64") {
        Some("x86_64")
    } else if str_eq(machine, "aarch64") {
        Some("aarch64")
    } else {
        None
    }
}

pub open spec fn or_empty(o: Option<Seq<char>>) -> Seq<char> {
    match o {
        Some(s) => s,
        None => seq![],
    }
}

/// The `(version, filename)` of an index entry for nginx on linux/`arch`
/// that gives both.
pub open spec fn nginx_entry(e: Json, arch: Seq<char>) -> Option<(Seq<char>, Seq<char>)> {
    if or_empty(str_field(e, "name"@)) != "nginx"@ || or_empty(str_field(e, "os"@)) != "linux"@ || or_empty(str_field(e, "arch"@))
        != arch {
        None
    } else {
        match (str_field(e, "version"@), str_field(e, "filename"@)) {
            (Some(v), Some(f)) => Some((v, f)),
            _ => None,
        }
    }
}

/// The entry of highest version among `es` (the first of equal ones).
pub open spec fn best_nginx(es: Seq<Json>, arch: Seq<char>) -> Option<(Seq<char>, Seq<char>)>
    decreases es.len(),
{
    if es.len() == 0 {
        None
    } else {
        let b = best_nginx(es.drop_last(), arch);
        match nginx_entry(es.last(), arch) {
            Some(c) => if b is None || lex_lt(spec_version_key(b.unwrap().0), spec_version_key(c.0)) {
                Some(c)
            } else {
                b
            },
            None => b,
        }
    }
}

/// The entries of an index: a bare array, or the `contents` array of an
/// object.
pub open spec fn index_entries(root: Json) -> Option<Seq<Json>> {
    match root {
        Json::Array(a) => Some(a@),
        _ => match spec_get(root, "contents"@) {
            Some(c) => match c {
                Json::Array(a) => Some(a@),
                _ => None,
            },
            None => None,
        },
    }
}

pub open spec fn spec_latest_nginx(arch: Seq<char>, root: Json) -> Option<(Seq<char>, Seq<char>)> {
    match index_entries(root) {
        Some(es) => best_nginx(es, arch),
        None => None,
    }
}

fn entry_of(e: &Json, arch: &str) -> (r: Option<(String, String)>)
    ensures
        match r {
            Some(p) => nginx_entry(*e, arch@) == Some((p.0@, p.1@)),
            None => nginx_entry(*e, arch@) is None,
        },
{
    let name = match json_str_field(e, "name") {
        Some(s) => s,
        None => "",
    };
    let os = match json_str_field(e, "os") {
        Some(s) => s,
        None => "",
    };
    let a = match json_str_field(e, "arch") {
        Some(s) => s,
        None => "",
    };
    proof {
        reveal_strlit("");
        assert(""@ =~= Seq::<char>::empty());
    }
    assert(name@ == or_empty(str_field(*e, "name"@)));
    assert(os@ == or_empty(str_field(*e, "os"@)));
    assert(a@ == or_empty(str_field(*e, "arch"@)));
    if !str_eq(name, "nginx") || !str_eq(os, "linux") || !str_eq(a, arch) {
        return None;
    }
    let ver = match json_str_field(e, "version") {
        Some(v) => v,
        None => return None,
    };
    let file = match json_str_field(e, "filename") {
        Some(f) => f,
        None => return None,
    };
    Some((ver.to_owned(), file.to_owned()))
}

/// The newest nginx build for linux/`arch` in an index document, as
/// `(version, filename)`; malformed entries are skipped.
pub fn latest_nginx_in(arch: &str, root: &Json) -> (r: Option<(String, String)>)
    ensures
        match r {
            Some(p) => spec_latest_nginx(arch@, *root) == Some((p.0@, p.1@)),
            None => spec_latest_nginx(arch@, *root) is None,
        },
{
    let arr: &Vec<Json> = match root {
        Json::Array(a) => a,
        _ => match json_get(root, "contents") {
            Some(c) => match c {
                Json::Array(a) => a,
                _ => return None,
            },
            None => return None,
        },
    };
    assert(index_entries(*root) == Some(arr@));
    let mut best: Option<(Vec<u32>, String, String)> = None;
    let mut i: usize = 0;
    while i < arr.len()
        invariant
            0 <= i <= arr@.len(),
            match best {
                Some(b) => best_nginx(arr@.take(i as int), arch@) == Some((b.1@, b.2@)) && b.0@ == spec_version_key(b.1@),
                None => best_nginx(arr@.take(i as int), arch@) is None,
            },
        decreases arr@.len() - i,
    {
        proof {
            assert(arr@.take(i + 1).drop_last() == arr@.take(i as int));
            assert(arr@.take(i + 1).last() == arr@[i as int]);
        }
        match entry_of(&arr[i], arch) {
            Some((ver, file)) => {
                let key = version_key(ver.as_str());
                let better = match &best {
                    None => true,
                    Some(b) => key_less(&b.0, &key),
                };
                if better {
                    best = Some((key, ver, file));
                }
            },
            None => {},
        }
        i = i + 1;
    }
    assert(arr@.take(i as int) == arr@);
    match best {
        Some(b) => Some((b.1, b.2)),
        None => None,
    }
}

/// The newest nginx build for linux/`arch` in the index text (a bare array
/// or an object with a `contents` array); `None` when the text is not JSON
/// or lists no such build.
pub fn latest_nginx(arch: &str, index_json: &str) -> (r: Option<(String, String)>)
    ensures
        match parsed_json(index_json@) {
            Some(root) => match r {
                Some(p) => spec_latest_nginx(arch@, root) == Some((p.0@, p.1@)),
                None => spec_latest_nginx(arch@, root) is None,
            },
            None => r is None,
        },
{
    match parse_json(index_json) {
        Some(root) => latest_nginx_in(arch, &root),
        None => None,
    }
}

} // verus!
