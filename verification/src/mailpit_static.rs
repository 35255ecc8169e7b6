//! The mailpit release: where it is downloaded from.
use crate::text::{cat, join_path, path_join, str_eq};
use crate::paths::LaragonPaths;
use vstd::prelude::*;

verus! {

/// The version recorded when the latest release cannot be probed.
pub const MAILPIT_FALLBACK_VERSION: &'static str = "1.20.0";

/// The tag a release uses for the machine architecture (as Rust names
/// it), if there is a build for it.
pub open spec fn spec_mailpit_arch(machine: Seq<char>) -> Option<Seq<char>> {
    if machine == "x86_64"@ {
        Some("amd64"@)
    } else if machine == "aarch64"@ {
        Some("arm64"@)
    } else {
        None
    }
}

pub fn mailpit_arch(machine: &str) -> (r: Option<&'static str>)
    ensures
        match r {
            Some(t) => spec_mailpit_arch(machine@) == Some(t@),
            None => spec_mailpit_arch(machine@) is None,
        },
{
    if str_eq(machine, "x86_64") {
        Some("amd64")
    } else if str_eq(machine, "aarch64") {
        Some("arm64")
    } else {
        None
    }
}

pub open spec fn spec_mailpit_url(version: Seq<char>, arch: Seq<char>) -> Seq<char> {
    "https://github.com/axllent/mailpit/releases/download/v"@ + version + "/mailpit-linux-"@ + arch + ".tar.gz"@
}

/// The release tarball of mailpit `version` for `arch`.
pub fn mailpit_url(version: &str, arch: &str) -> (r: String)
    ensures
        r@ == spec_mailpit_url(version@, arch@),
{
    let mut r = String::new();
    r.append("https://github.com/axllent/mailpit/releases/download/v");
    r.append(version);
    r.append("/mailpit-linux-");
    r.append(arch);
    r.append(".tar.gz");
    assert(r@ =~= spec_mailpit_url(version@, arch@));
    r
}

pub open spec fn spec_mailpit_latest_url(arch: Seq<char>) -> Seq<char> {
    "https://github.com/axllent/mailpit/releases/latest/download/mailpit-linux-"@ + arch + ".tar.gz"@
}

/// The tarball of the latest mailpit release for `arch`.
pub fn mailpit_latest_url(arch: &str) -> (r: String)
    ensures
        r@ == spec_mailpit_latest_url(arch@),
{
    let mut r = String::new();
    r.append("https://github.com/axllent/mailpit/releases/latest/download/mailpit-linux-");
    r.append(arch);
    r.append(".tar.gz");
    assert(r@ =~= spec_mailpit_latest_url(arch@));
    r
}

/// Why an install step failed.
#[derive(Debug)]
pub enum MailpitError {
    Arch(String),
    Download(String),
    Extract(String),
    Io(String),
}

impl MailpitError {
    /// The error as text.
    pub fn message(&self) -> (s: String)
        ensures
            s@ == match self {
                MailpitError::Arch(m) => "unsupported architecture: "@ + m@,
                MailpitError::Download(m) => "download failed: "@ + m@,
                MailpitError::Extract(m) => "extract failed: "@ + m@,
                MailpitError::Io(m) => "io error: "@ + m@,
            },
    {
        match self {
            MailpitError::Arch(m) => cat("unsupported architecture: ", m.as_str()),
            MailpitError::Download(m) => cat("download failed: ", m.as_str()),
            MailpitError::Extract(m) => cat("extract failed: ", m.as_str()),
            MailpitError::Io(m) => cat("io error: ", m.as_str()),
        }
    }
}

} // verus!
