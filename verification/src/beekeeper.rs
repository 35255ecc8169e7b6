//! Beekeeper Studio: its AppImage and where it is unpacked.
use crate::text::{cat, join_path, path_join, str_eq};
use crate::paths::LaragonPaths;
use vstd::prelude::*;

verus! {

/// The Beekeeper Studio release installed.
pub const BEEKEEPER_VERSION: &'static str = "5.8.1";

/// The tag a release uses for the machine architecture (as Rust names
/// it), if there is a build for it.
pub open spec fn spec_beekeeper_arch(machine: Seq<char>) -> Option<Seq<char>> {
    if machine == "x86_64"@ {
        Some(""@)
    } else if machine == "aarch64"@ {
        Some("-arm64"@)
    } else {
        None
    }
}

pub fn beekeeper_arch(machine: &str) -> (r: Option<&'static str>)
    ensures
        match r {
            Some(t) => spec_beekeeper_arch(machine@) == Some(t@),
            None => spec_beekeeper_arch(machine@) is None,
        },
{
    if str_eq(machine, "x86_64") {
        Some("")
    } else if str_eq(machine, "aarch64") {
        Some("-arm64")
    } else {
        None
    }
}

pub open spec fn spec_appimage_url(version: Seq<char>, arch_suffix: Seq<char>) -> Seq<char> {
    "https://github.com/beekeeper-studio/beekeeper-studio/releases/download/v"@ + version + "/Beekeeper-Studio-"@ + version + arch_suffix + ".AppImage"@
}

/// The AppImage of Beekeeper Studio `version` (`arch_suffix` empty on x86_64).
pub fn appimage_url(version: &str, arch_suffix: &str) -> (r: String)
    ensures
        r@ == spec_appimage_url(version@, arch_suffix@),
{
    let mut r = String::new();
    r.append("https://github.com/beekeeper-studio/beekeeper-studio/releases/download/v");
    r.append(version);
    r.append("/Beekeeper-Studio-");
    r.append(version);
    r.append(arch_suffix);
    r.append(".AppImage");
    assert(r@ =~= spec_appimage_url(version@, arch_suffix@));
    r
}

/// Why an install step failed.
#[derive(Debug)]
pub enum BeekeeperError {
    Arch(String),
    Download(String),
    Extract(String),
    NotInstalled,
    Spawn(String),
    Io(String),
}

impl BeekeeperError {
    /// The error as text.
    pub fn message(&self) -> (s: String)
        ensures
            s@ == match self {
                BeekeeperError::Arch(m) => "unsupported architecture: "@ + m@,
                BeekeeperError::Download(m) => "download failed: "@ + m@,
                BeekeeperError::Extract(m) => "extract failed: "@ + m@,
                BeekeeperError::NotInstalled => "not installed"@,
                BeekeeperError::Spawn(m) => "failed to launch: "@ + m@,
                BeekeeperError::Io(m) => "io error: "@ + m@,
            },
    {
        match self {
            BeekeeperError::Arch(m) => cat("unsupported architecture: ", m.as_str()),
            BeekeeperError::Download(m) => cat("download failed: ", m.as_str()),
            BeekeeperError::Extract(m) => cat("extract failed: ", m.as_str()),
            BeekeeperError::NotInstalled => "not installed".to_owned(),
            BeekeeperError::Spawn(m) => cat("failed to launch: ", m.as_str()),
            BeekeeperError::Io(m) => cat("io error: ", m.as_str()),
        }
    }
}

/// Where the app is unpacked: `<root>/apps/beekeeper`.
pub fn install_dir(paths: &LaragonPaths) -> (r: String)
    ensures
        r@ == path_join(paths.root_view(), "apps/beekeeper"@),
{
    join_path(paths.root(), "apps/beekeeper")
}

/// The unpacked AppImage's entry point: `<install_dir>/squashfs-root/AppRun`.
pub fn apprun_path(paths: &LaragonPaths) -> (r: String)
    ensures
        r@ == path_join(path_join(path_join(paths.root_view(), "apps/beekeeper"@), "squashfs-root"@), "AppRun"@),
{
    let d = install_dir(paths);
    let s = join_path(d.as_str(), "squashfs-root");
    join_path(s.as_str(), "AppRun")
}

} // verus!
