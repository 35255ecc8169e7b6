//! The Valkey (Redis-compatible) tarball: where it is downloaded from.
use crate::text::{cat, join_path, path_join, str_eq};
use crate::paths::LaragonPaths;
use vstd::prelude::*;

verus! {

/// The Valkey release installed by default.
pub const VALKEY_VERSION: &'static str = "9.1.0";

/// The tag a release uses for the machine architecture (as Rust names
/// it), if there is a build for it.
pub open spec fn spec_valkey_arch(machine: Seq<char>) -> Option<Seq<char>> {
    if machine == "x86_64"@ {
        Some("x86_64"@)
    } else if machine == "aarch64"@ {
        Some("arm64"@)
    } else {
        None
    }
}

pub fn valkey_arch(machine: &str) -> (r: Option<&'static str>)
    ensures
        match r {
            Some(t) => spec_valkey_arch(machine@) == Some(t@),
            None => spec_valkey_arch(machine@) is None,
        },
{
    if str_eq(machine, "x86_64") {
        Some("x86_64")
    } else if str_eq(machine, "aarch64") {
        Some("arm64")
    } else {
        None
    }
}

pub open spec fn spec_valkey_url(version: Seq<char>, arch: Seq<char>) -> Seq<char> {
    "https://download.valkey.io/releases/valkey-"@ + version + "-jammy-"@ + arch + ".tar.gz"@
}

/// The tarball of Valkey `version` for `arch`.
pub fn valkey_url(version: &str, arch: &str) -> (r: String)
    ensures
        r@ == spec_valkey_url(version@, arch@),
{
    let mut r = String::new();
    r.append("https://download.valkey.io/releases/valkey-");
    r.append(version);
    r.append("-jammy-");
    r.append(arch);
    r.append(".tar.gz");
    assert(r@ =~= spec_valkey_url(version@, arch@));
    r
}

/// Why an install step failed.
#[derive(Debug)]
pub enum RedisError {
    Arch(String),
    Download(String),
    Extract(String),
    Io(String),
}

impl RedisError {
    /// The error as text.
    pub fn message(&self) -> (s: String)
        ensures
            s@ == match self {
                RedisError::Arch(m) => "unsupported architecture: "@ + m@,
                RedisError::Download(m) => "download failed: "@ + m@,
                RedisError::Extract(m) => "extract failed: "@ + m@,
                RedisError::Io(m) => "io error: "@ + m@,
            },
    {
        match self {
            RedisError::Arch(m) => cat("unsupported architecture: ", m.as_str()),
            RedisError::Download(m) => cat("download failed: ", m.as_str()),
            RedisError::Extract(m) => cat("extract failed: ", m.as_str()),
            RedisError::Io(m) => cat("io error: ", m.as_str()),
        }
    }
}

} // verus!
