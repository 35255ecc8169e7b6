//! The NSS certutil bundle: where its packages come from and where it is placed.
use crate::layout::string_views;
use crate::text::{cat, contains_seq, contains_str, join_path, path_join, str_eq};
use crate::paths::LaragonPaths;
use vstd::prelude::*;

verus! {

/// The NSS tools release bundled.
pub const CERTUTIL_VERSION: &'static str = "3.98";

/// The package pool the debs come from.
pub const POOL_BASE: &'static str = "http://archive.ubuntu.com/ubuntu/pool/main";

/// The tag a release uses for the machine architecture (as Rust names
/// it), if there is a build for it.
pub open spec fn spec_certutil_arch(machine: Seq<char>) -> Option<Seq<char>> {
    if machine == "x86_64"@ {
        Some("amd64"@)
    } else {
        None
    }
}

pub fn certutil_arch(machine: &str) -> (r: Option<&'static str>)
    ensures
        match r {
            Some(t) => spec_certutil_arch(machine@) == Some(t@),
            None => spec_certutil_arch(machine@) is None,
        },
{
    if str_eq(machine, "x86_64") {
        Some("amd64")
    } else {
        None
    }
}

pub open spec fn spec_deb_url(rel: Seq<char>) -> Seq<char> {
    POOL_BASE@ + "/"@ + rel
}

/// The absolute URL of a package given by its path in the pool.
pub fn deb_url(rel: &str) -> (r: String)
    ensures
        r@ == spec_deb_url(rel@),
{
    let mut r = String::new();
    r.append(POOL_BASE);
    r.append("/");
    r.append(rel);
    assert(r@ =~= spec_deb_url(rel@));
    r
}

/// Why an install step failed.
#[derive(Debug)]
pub enum CertutilError {
    Arch(String),
    Download(String),
    Extract(String),
    Layout(String),
    Io(String),
}

impl CertutilError {
    /// The error as text.
    pub fn message(&self) -> (s: String)
        ensures
            s@ == match self {
                CertutilError::Arch(m) => "unsupported architecture: "@ + m@,
                CertutilError::Download(m) => "download failed: "@ + m@,
                CertutilError::Extract(m) => "extract failed: "@ + m@,
                CertutilError::Layout(m) => "layout error: "@ + m@,
                CertutilError::Io(m) => "io error: "@ + m@,
            },
    {
        match self {
            CertutilError::Arch(m) => cat("unsupported architecture: ", m.as_str()),
            CertutilError::Download(m) => cat("download failed: ", m.as_str()),
            CertutilError::Extract(m) => cat("extract failed: ", m.as_str()),
            CertutilError::Layout(m) => cat("layout error: ", m.as_str()),
            CertutilError::Io(m) => cat("io error: ", m.as_str()),
        }
    }
}

/// Where the bundle is placed: `bin/certutil/<CERTUTIL_VERSION>`.
pub fn certutil_dir(paths: &LaragonPaths) -> (r: String)
    ensures
        r@ == paths.spec_version_dir("certutil"@, CERTUTIL_VERSION@),
{
    paths.version_dir("certutil", CERTUTIL_VERSION)
}

/// The bundled `certutil`: `<certutil_dir>/bin/certutil`.
pub fn certutil_bin(paths: &LaragonPaths) -> (r: String)
    ensures
        r@ == path_join(path_join(paths.spec_version_dir("certutil"@, CERTUTIL_VERSION@), "bin"@), "certutil"@),
{
    let d = certutil_dir(paths);
    let b = join_path(d.as_str(), "bin");
    join_path(b.as_str(), "certutil")
}

/// The bundled libraries: `<certutil_dir>/lib`.
pub fn certutil_lib_dir(paths: &LaragonPaths) -> (r: String)
    ensures
        r@ == path_join(paths.spec_version_dir("certutil"@, CERTUTIL_VERSION@), "lib"@),
{
    let d = certutil_dir(paths);
    join_path(d.as_str(), "lib")
}

/// The packages the bundle is extracted from, by their path in the pool.
pub open spec fn spec_pinned_debs() -> Seq<Seq<char>> {
    seq![
        "n/nss/libnss3_3.98-1build1_amd64.deb"@,
        "n/nss/libnss3-tools_3.98-1build1_amd64.deb"@,
        "n/nspr/libnspr4_4.35-1.1build1_amd64.deb"@,
        "s/sqlite3/libsqlite3-0_3.45.1-1ubuntu2_amd64.deb"@,
    ]
}

/// The packages the bundle is extracted from: NSS, its tools, NSPR and
/// SQLite.
pub fn pinned_debs() -> (r: Vec<&'static str>)
    ensures
        r@.map_values(|d: &str| d@) == spec_pinned_debs(),
{
    let mut r: Vec<&'static str> = Vec::new();
    r.push("n/nss/libnss3_3.98-1build1_amd64.deb");
    r.push("n/nss/libnss3-tools_3.98-1build1_amd64.deb");
    r.push("n/nspr/libnspr4_4.35-1.1build1_amd64.deb");
    r.push("s/sqlite3/libsqlite3-0_3.45.1-1ubuntu2_amd64.deb");
    assert(r@.map_values(|d: &str| d@) =~= spec_pinned_debs());
    r
}

/// The names among `files` (the regular files of the extracted library
/// folder) that are shared objects: those holding `.so`.
pub open spec fn spec_shared_libraries(files: Seq<Seq<char>>) -> Seq<Seq<char>> {
    files.filter(|n: Seq<char>| contains_seq(n, ".so"@))
}

/// The shared objects to copy out of the extracted packages (the names of
/// the regular files found in their library folder), in order; a layout
/// error when there is none.
pub fn shared_libraries(files: &Vec<String>) -> (r: Result<Vec<String>, CertutilError>)
    ensures
        match r {
            Ok(v) => string_views(v@) == spec_shared_libraries(string_views(files@)) && v@.len() > 0,
            Err(e) => spec_shared_libraries(string_views(files@)).len() == 0 && (e matches CertutilError::Layout(m)
                && m@ == "no shared libraries found in extracted debs"@),
        },
{
    let ghost src = string_views(files@);
    let mut out: Vec<String> = Vec::new();
    let mut i: usize = 0;
    while i < files.len()
        invariant
            0 <= i <= files@.len(),
            src == string_views(files@),
            string_views(out@) == spec_shared_libraries(src.take(i as int)),
        decreases files@.len() - i,
    {
        proof {
            reveal(Seq::filter);
            assert(src.take(i + 1).drop_last() == src.take(i as int));
            assert(src.take(i + 1).last() == files@[i as int]@);
        }
        if contains_str(files[i].as_str(), ".so") {
            out.push(files[i].clone());
            assert(string_views(out@) =~= spec_shared_libraries(src.take(i as int)).push(files@[i as int]@));
        }
        i = i + 1;
    }
    assert(src.take(i as int) == src);
    if out.len() == 0 {
        return Err(CertutilError::Layout(String::from_str("no shared libraries found in extracted debs")));
    }
    Ok(out)
}

} // verus!
