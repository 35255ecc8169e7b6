//! The mkcert binary release: where it is downloaded from.
use crate::text::{cat, join_path, path_join, str_eq};
use crate::paths::LaragonPaths;
use vstd::prelude::*;

verus! {

/// The mkcert release installed.
pub const MKCERT_VERSION: &'static str = "1.4.4";

/// The tag a release uses for the machine architecture (as Rust names
/// it), if there is a build for it.
pub open spec fn spec_mkcert_arch(machine: Seq<char>) -> Option<Seq<char>> {
    if machine == "x86_64"@ {
        Some("amd64"@)
    } else if machine == "aarch64"@ {
        Some("arm64"@)
    } else {
        None
    }
}

pub fn mkcert_arch(machine: &str) -> (r: Option<&'static str>)
    ensures
        match r {
            Some(t) => spec_mkcert_arch(machine@) == Some(t@),
            None => spec_mkcert_arch(machine@) is None,
        },
{
    if str_eq(machine, "x86_64") {
        Some("amd64")
    } else if str_eq(machine, "aarch64") {
        Some("arm64")
    } else {
        None
    }
}

pub open spec fn spec_mkcert_url(version: Seq<char>, arch: Seq<char>) -> Seq<char> {
    "https://github.com/FiloSottile/mkcert/releases/download/v"@ + version + "/mkcert-v"@ + version + "-linux-"@ + arch
}

/// The release binary of mkcert `version` for `arch`.
pub fn mkcert_url(version: &str, arch: &str) -> (r: String)
    ensures
        r@ == spec_mkcert_url(version@, arch@),
{
    let mut r = String::new();
    r.append("https://github.com/FiloSottile/mkcert/releases/download/v");
    r.append(version);
    r.append("/mkcert-v");
    r.append(version);
    r.append("-linux-");
    r.append(arch);
    assert(r@ =~= spec_mkcert_url(version@, arch@));
    r
}

/// Why an install step failed.
#[derive(Debug)]
pub enum MkcertError {
    Arch(String),
    Download(String),
    Io(String),
}

impl MkcertError {
    /// The error as text.
    pub fn message(&self) -> (s: String)
        ensures
            s@ == match self {
                MkcertError::Arch(m) => "unsupported architecture: "@ + m@,
                MkcertError::Download(m) => "download failed: "@ + m@,
                MkcertError::Io(m) => "io error: "@ + m@,
            },
    {
        match self {
            MkcertError::Arch(m) => cat("unsupported architecture: ", m.as_str()),
            MkcertError::Download(m) => cat("download failed: ", m.as_str()),
            MkcertError::Io(m) => cat("io error: ", m.as_str()),
        }
    }
}

} // verus!
