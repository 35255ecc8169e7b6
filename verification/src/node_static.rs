//! The Node.js tarball: where it is downloaded from.
use crate::text::{cat, join_path, path_join, str_eq};
use crate::paths::LaragonPaths;
use vstd::prelude::*;

verus! {

/// The Node.js release installed by default.
pub const NODE_VERSION: &'static str = "24.18.0";

/// The tag a release uses for the machine architecture (as Rust names
/// it), if there is a build for it.
pub open spec fn spec_node_arch(machine: Seq<char>) -> Option<Seq<char>> {
    if machine == "x86_64"@ {
        Some("x64"@)
    } else if machine == "aarch64"@ {
        Some("arm64"@)
    } else {
        None
    }
}

pub fn node_arch(machine: &str) -> (r: Option<&'static str>)
    ensures
        match r {
            Some(t) => spec_node_arch(machine@) == Some(t@),
            None => spec_node_arch(machine@) is None,
        },
{
    if str_eq(machine, "x86_64") {
        Some("x64")
    } else if str_eq(machine, "aarch64") {
        Some("arm64")
    } else {
        None
    }
}

pub open spec fn spec_node_url(version: Seq<char>, arch: Seq<char>) -> Seq<char> {
    "https://nodejs.org/dist/v"@ + version + "/node-v"@ + version + "-linux-"@ + arch + ".tar.xz"@
}

/// The tarball of Node.js `version` for `arch`.
pub fn node_url(version: &str, arch: &str) -> (r: String)
    ensures
        r@ == spec_node_url(version@, arch@),
{
    let mut r = String::new();
    r.append("https://nodejs.org/dist/v");
    r.append(version);
    r.append("/node-v");
    r.append(version);
    r.append("-linux-");
    r.append(arch);
    r.append(".tar.xz");
    assert(r@ =~= spec_node_url(version@, arch@));
    r
}

/// Why an install step failed.
#[derive(Debug)]
pub enum NodeError {
    Arch(String),
    Download(String),
    Extract(String),
    Io(String),
}

impl NodeError {
    /// The error as text.
    pub fn message(&self) -> (s: String)
        ensures
            s@ == match self {
                NodeError::Arch(m) => "unsupported architecture: "@ + m@,
                NodeError::Download(m) => "download failed: "@ + m@,
                NodeError::Extract(m) => "extract failed: "@ + m@,
                NodeError::Io(m) => "io error: "@ + m@,
            },
    {
        match self {
            NodeError::Arch(m) => cat("unsupported architecture: ", m.as_str()),
            NodeError::Download(m) => cat("download failed: ", m.as_str()),
            NodeError::Extract(m) => cat("extract failed: ", m.as_str()),
            NodeError::Io(m) => cat("io error: ", m.as_str()),
        }
    }
}

} // verus!
