//! The MariaDB binary tarball: where it is downloaded from.
use crate::text::{cat, join_path, path_join, str_eq};
use crate::paths::LaragonPaths;
use vstd::prelude::*;

verus! {

/// The MariaDB release installed by default.
pub const MARIADB_VERSION: &'static str = "11.4.12";

/// The tag a release uses for the machine architecture (as Rust names
/// it), if there is a build for it.
pub open spec fn spec_mariadb_arch(machine: Seq<char>) -> Option<Seq<char>> {
    if machine == "x86_64"@ {
        Some("x86_64"@)
    } else if machine == "aarch64"@ {
        Some("aarch64"@)
    } else {
        None
    }
}

pub fn mariadb_arch(machine: &str) -> (r: Option<&'static str>)
    ensures
        match r {
            Some(t) => spec_mariadb_arch(machine@) == Some(t@),
            None => spec_mariadb_arch(machine@) is None,
        },
{
    if str_eq(machine, "x86_64") {
        Some("x86_64")
    } else if str_eq(machine, "aarch64") {
        Some("aarch64")
    } else {
        None
    }
}

pub open spec fn spec_mariadb_url(version: Seq<char>, arch: Seq<char>) -> Seq<char> {
    "https://archive.mariadb.org/mariadb-"@ + version + "/bintar-linux-systemd-"@ + arch + "/mariadb-"@ + version + "-linux-systemd-"@ + arch + ".tar.gz"@
}

/// The binary tarball of MariaDB `version` for `arch`.
pub fn mariadb_url(version: &str, arch: &str) -> (r: String)
    ensures
        r@ == spec_mariadb_url(version@, arch@),
{
    let mut r = String::new();
    r.append("https://archive.mariadb.org/mariadb-");
    r.append(version);
    r.append("/bintar-linux-systemd-");
    r.append(arch);
    r.append("/mariadb-");
    r.append(version);
    r.append("-linux-systemd-");
    r.append(arch);
    r.append(".tar.gz");
    assert(r@ =~= spec_mariadb_url(version@, arch@));
    r
}

/// Why an install step failed.
#[derive(Debug)]
pub enum MariadbError {
    Arch(String),
    Download(String),
    Extract(String),
    Layout(String),
    Io(String),
}

impl MariadbError {
    /// The error as text.
    pub fn message(&self) -> (s: String)
        ensures
            s@ == match self {
                MariadbError::Arch(m) => "unsupported architecture: "@ + m@,
                MariadbError::Download(m) => "download failed: "@ + m@,
                MariadbError::Extract(m) => "extract failed: "@ + m@,
                MariadbError::Layout(m) => "layout error: "@ + m@,
                MariadbError::Io(m) => "io error: "@ + m@,
            },
    {
        match self {
            MariadbError::Arch(m) => cat("unsupported architecture: ", m.as_str()),
            MariadbError::Download(m) => cat("download failed: ", m.as_str()),
            MariadbError::Extract(m) => cat("extract failed: ", m.as_str()),
            MariadbError::Layout(m) => cat("layout error: ", m.as_str()),
            MariadbError::Io(m) => cat("io error: ", m.as_str()),
        }
    }
}

} // verus!
