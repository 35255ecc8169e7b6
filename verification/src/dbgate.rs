//! DbGate: its AppImage and where it is unpacked.
use crate::text::{cat, join_path, path_join, str_eq};
use crate::paths::LaragonPaths;
use vstd::prelude::*;

verus! {

/// The DbGate release installed.
pub const DBGATE_VERSION: &'static str = "7.2.1";

/// The tag a release uses for the machine architecture (as Rust names
/// it), if there is a build for it.
pub open spec fn spec_dbgate_arch(machine: Seq<char>) -> Option<Seq<char>> {
    if machine == "x86_64"@ {
        Some("x86_64"@)
    } else if machine == "aarch64"@ {
        Some("arm64"@)
    } else {
        None
    }
}

pub fn dbgate_arch(machine: &str) -> (r: Option<&'static str>)
    ensures
        match r {
            Some(t) => spec_dbgate_arch(machine@) == Some(t@),
            None => spec_dbgate_arch(machine@) is None,
        },
{
    if str_eq(machine, "x86_64") {
        Some("x86_64")
    } else if str_eq(machine, "aarch64") {
        Some("arm64")
    } else {
        None
    }
}

pub open spec fn spec_appimage_url(version: Seq<char>, arch: Seq<char>) -> Seq<char> {
    "https://github.com/dbgate/dbgate/releases/download/v"@ + version + "/dbgate-"@ + version + "-linux_"@ + arch + ".AppImage"@
}

/// The AppImage of DbGate `version` for `arch`.
pub fn appimage_url(version: &str, arch: &str) -> (r: String)
    ensures
        r@ == spec_appimage_url(version@, arch@),
{
    let mut r = String::new();
    r.append("https://github.com/dbgate/dbgate/releases/download/v");
    r.append(version);
    r.append("/dbgate-");
    r.append(version);
    r.append("-linux_");
    r.append(arch);
    r.append(".AppImage");
    assert(r@ =~= spec_appimage_url(version@, arch@));
    r
}

/// Why an install step failed.
#[derive(Debug)]
pub enum DbgateError {
    Arch(String),
    Download(String),
    Extract(String),
    NotInstalled,
    Spawn(String),
    Io(String),
}

impl DbgateError {
    /// The error as text.
    pub fn message(&self) -> (s: String)
        ensures
            s@ == match self {
                DbgateError::Arch(m) => "unsupported architecture: "@ + m@,
                DbgateError::Download(m) => "download failed: "@ + m@,
                DbgateError::Extract(m) => "extract failed: "@ + m@,
                DbgateError::NotInstalled => "not installed"@,
                DbgateError::Spawn(m) => "failed to launch: "@ + m@,
                DbgateError::Io(m) => "io error: "@ + m@,
            },
    {
        match self {
            DbgateError::Arch(m) => cat("unsupported architecture: ", m.as_str()),
            DbgateError::Download(m) => cat("download failed: ", m.as_str()),
            DbgateError::Extract(m) => cat("extract failed: ", m.as_str()),
            DbgateError::NotInstalled => "not installed".to_owned(),
            DbgateError::Spawn(m) => cat("failed to launch: ", m.as_str()),
            DbgateError::Io(m) => cat("io error: ", m.as_str()),
        }
    }
}

/// Where the app is unpacked: `<root>/apps/dbgate`.
pub fn install_dir(paths: &LaragonPaths) -> (r: String)
    ensures
        r@ == path_join(paths.root_view(), "apps/dbgate"@),
{
    join_path(paths.root(), "apps/dbgate")
}

/// The unpacked AppImage's entry point: `<install_dir>/squashfs-root/AppRun`.
pub fn apprun_path(paths: &LaragonPaths) -> (r: String)
    ensures
        r@ == path_join(path_join(path_join(paths.root_view(), "apps/dbgate"@), "squashfs-root"@), "AppRun"@),
{
    let d = install_dir(paths);
    let s = join_path(d.as_str(), "squashfs-root");
    join_path(s.as_str(), "AppRun")
}

} // verus!
