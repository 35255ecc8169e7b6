//! The static PHP builds: which listed build is the newest patch of a
//! minor.
use crate::json::{json_str_field, parse_json, parsed_json, str_field, Json};
use crate::text::{cat, decimal, decimal_string, ends_with, ends_with_str, parse_uint, parse_uint_str, starts_with, starts_with_str, str_eq, string_of};
use vstd::prelude::*;

verus! {

pub const STATIC_PHP_BASE: &'static str = "https://dl.static-php.dev/static-php-cli/bulk";

/// Why installing a static PHP build failed.
#[derive(Debug)]
pub enum PhpStaticError {
    Arch(String),
    Unavailable(String),
    Download(String),
    Extract(String),
    Io(String),
}

impl PhpStaticError {
    pub fn message(&self) -> (s: String)
        ensures
            s@ == match self {
                PhpStaticError::Arch(m) => "unsupported architecture: "@ + m@,
                PhpStaticError::Unavailable(m) => "php "@ + m@ + " is not available as a static build"@,
                PhpStaticError::Download(m) => "download failed: "@ + m@,
                PhpStaticError::Extract(m) => "extract failed: "@ + m@,
                PhpStaticError::Io(m) => "io error: "@ + m@,
            },
    {
        match self {
            PhpStaticError::Arch(m) => cat("unsupported architecture: ", m.as_str()),
            PhpStaticError::Unavailable(m) => {
                let mut s = cat("php ", m.as_str());
                s.append(" is not available as a static build");
                s
            },
            PhpStaticError::Download(m) => cat("download failed: ", m.as_str()),
            PhpStaticError::Extract(m) => cat("extract failed: ", m.as_str()),
            PhpStaticError::Io(m) => cat("io error: ", m.as_str()),
        }
    }
}

/// The static-php architecture tag of a machine architecture.
pub fn arch_from(arch: &str) -> (r: Option<&'static str>)
    ensures
        r matches Some(t) ==> (arch@ == "x86_64"@ && t@ == "x86_64"@) || (arch@ == "aarch64"@ && t@ == "aarch64"@),
        r is None ==> arch@ != "x86_64"@ && arch@ != "aarch64"@,
{
    if str_eq(arch, "x86_64") {
        Some("x86_64")
    } else if str_eq(arch, "aarch64") {
        Some("aarch64")
    } else {
        None
    }
}

/// The static-php architecture tag of the machine this runs on.
pub fn arch_tag(machine: &str) -> (r: Option<&'static str>)
    ensures
        r matches Some(t) ==> (machine@ == "x86_64"@ && t@ == "x86_64"@) || (machine@ == "aarch64"@ && t@ == "aarch64"@),
        r is None ==> machine@ != "x86_64"@ && machine@ != "aarch64"@,
{
    arch_from(machine)
}

pub open spec fn php_prefix(version: Seq<char>) -> Seq<char> {
    "php-"@ + version + "."@
}

pub open spec fn php_suffix(sapi: Seq<char>, arch: Seq<char>) -> Seq<char> {
    "-"@ + sapi + "-linux-"@ + arch + ".tar.gz"@
}

/// The patch number a build name carries: `php-<version>.<patch>-<sapi>-linux-<arch>.tar.gz`,
/// the patch a `u32`.
pub open spec fn patch_of(name: Seq<char>, p: Seq<char>, s: Seq<char>) -> Option<nat> {
    if starts_with(name, p) && ends_with(name, s) && name.len() >= p.len() + s.len() {
        parse_uint(name.subrange(p.len() as int, name.len() - s.len()), u32::MAX as nat)
    } else {
        None
    }
}

/// The highest patch among the listed names (the first of equal ones).
pub open spec fn best_patch(es: Seq<Json>, p: Seq<char>, s: Seq<char>) -> Option<(nat, Seq<char>)>
    decreases es.len(),
{
    if es.len() == 0 {
        None
    } else {
        let b = best_patch(es.drop_last(), p, s);
        match str_field(es.last(), "name"@) {
            Some(n) => match patch_of(n, p, s) {
                Some(k) => if b is None || k > b.unwrap().0 {
                    Some((k, n))
                } else {
                    b
                },
                None => b,
            },
            None => b,
        }
    }
}

/// `(<version>.<patch>, <base>/<name>)` of the newest build of a listing.
pub open spec fn spec_latest_patch(version: Seq<char>, arch: Seq<char>, sapi: Seq<char>, root: Json) -> Option<(Seq<char>, Seq<char>)> {
    match root {
        Json::Array(a) => match best_patch(a@, php_prefix(version), php_suffix(sapi, arch)) {
            Some(b) => Some((version + "."@ + decimal(b.0), STATIC_PHP_BASE@ + "/"@ + b.1)),
            None => None,
        },
        _ => None,
    }
}

fn patch_in(name: &str, prefix: &str, suffix: &str) -> (r: Option<u32>)
    ensures
        match r {
            Some(k) => patch_of(name@, prefix@, suffix@) == Some(k as nat),
            None => patch_of(name@, prefix@, suffix@) is None,
        },
{
    if !starts_with_str(name, prefix) || !ends_with_str(name, suffix) {
        return None;
    }
    let v = crate::text::chars_of(name);
    let pl = crate::text::chars_of(prefix).len();
    let sl = crate::text::chars_of(suffix).len();
    if v.len() < sl || v.len() - sl < pl {
        return None;
    }
    let mid = string_of(&v, pl, v.len() - sl);
    match parse_uint_str(mid.as_str(), 0xFFFF_FFFF) {
        Some(n) => Some(n as u32),
        None => None,
    }
}

/// The newest patch of PHP `version` for `sapi` on linux/`arch` in a
/// listing document (an array of entries with a `name`): the full version
/// and the download URL. A name whose prefix and suffix would overlap is
/// no build of that minor.
pub fn latest_patch_in(version: &str, arch: &str, sapi: &str, root: &Json) -> (r: Option<(String, String)>)
    ensures
        match r {
            Some(p) => spec_latest_patch(version@, arch@, sapi@, *root) == Some((p.0@, p.1@)),
            None => spec_latest_patch(version@, arch@, sapi@, *root) is None,
        },
{
    let entries = match root {
        Json::Array(a) => a,
        _ => return None,
    };
    let mut prefix = cat("php-", version);
    prefix.append(".");
    let mut suffix = cat("-", sapi);
    suffix.append("-linux-");
    suffix.append(arch);
    suffix.append(".tar.gz");
    let mut best: Option<(u32, String)> = None;
    let mut i: usize = 0;
    while i < entries.len()
        invariant
            0 <= i <= entries@.len(),
            prefix@ == php_prefix(version@),
            suffix@ == php_suffix(sapi@, arch@),
            match best {
                Some(b) => best_patch(entries@.take(i as int), prefix@, suffix@) == Some((b.0 as nat, b.1@)),
                None => best_patch(entries@.take(i as int), prefix@, suffix@) is None,
            },
        decreases entries@.len() - i,
    {
        proof {
            assert(entries@.take(i + 1).drop_last() == entries@.take(i as int));
            assert(entries@.take(i + 1).last() == entries@[i as int]);
        }
        match json_str_field(&entries[i], "name") {
            Some(name) => match patch_in(name, prefix.as_str(), suffix.as_str()) {
                Some(k) => {
                    let better = match &best {
                        None => true,
                        Some(b) => k > b.0,
                    };
                    if better {
                        best = Some((k, name.to_owned()));
                    }
                },
                None => {},
            },
            None => {},
        }
        i = i + 1;
    }
    assert(entries@.take(i as int) == entries@);
    match best {
        Some(b) => {
            let mut full = cat(version, ".");
            full.append(decimal_string(b.0 as u64).as_str());
            let mut url = cat(STATIC_PHP_BASE, "/");
            url.append(b.1.as_str());
            Some((full, url))
        },
        None => None,
    }
}

/// The newest patch of PHP `version` for `sapi` on linux/`arch` in the
/// listing text; `None` when the text is not a JSON array or lists no such
/// build.
pub fn latest_patch(version: &str, arch: &str, sapi: &str, listing_json: &str) -> (r: Option<(String, String)>)
    ensures
        match parsed_json(listing_json@) {
            Some(root) => match r {
                Some(p) => spec_latest_patch(version@, arch@, sapi@, root) == Some((p.0@, p.1@)),
                None => spec_latest_patch(version@, arch@, sapi@, root) is None,
            },
            None => r is None,
        },
{
    match parse_json(listing_json) {
        Some(root) => latest_patch_in(version, arch, sapi, &root),
        None => None,
    }
}

} // verus!
