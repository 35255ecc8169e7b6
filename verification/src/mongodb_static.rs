//! The MongoDB server and shell tarballs: where they are downloaded from.
use crate::text::{cat, join_path, path_join, str_eq};
use crate::paths::LaragonPaths;
use vstd::prelude::*;

verus! {

/// The MongoDB release installed by default.
pub const MONGODB_VERSION: &'static str = "8.0.4";

/// The bundled mongosh release, pinned apart from the server.
pub const MONGOSH_VERSION: &'static str = "2.3.8";

/// The tag a release uses for the machine architecture (as Rust names
/// it), if there is a build for it.
pub open spec fn spec_mongodb_arch(machine: Seq<char>) -> Option<Seq<char>> {
    if machine == "x86_64"@ {
        Some("x86_64"@)
    } else if machine == "aarch64"@ {
        Some("aarch64"@)
    } else {
        None
    }
}

pub fn mongodb_arch(machine: &str) -> (r: Option<&'static str>)
    ensures
        match r {
            Some(t) => spec_mongodb_arch(machine@) == Some(t@),
            None => spec_mongodb_arch(machine@) is None,
        },
{
    if str_eq(machine, "x86_64") {
        Some("x86_64")
    } else if str_eq(machine, "aarch64") {
        Some("aarch64")
    } else {
        None
    }
}

/// The tag a release uses for the machine architecture (as Rust names
/// it), if there is a build for it.
pub open spec fn spec_mongosh_arch(machine: Seq<char>) -> Option<Seq<char>> {
    if machine == "x86_64"@ {
        Some("x64"@)
    } else if machine == "aarch64"@ {
        Some("arm64"@)
    } else {
        None
    }
}

pub fn mongosh_arch(machine: &str) -> (r: Option<&'static str>)
    ensures
        match r {
            Some(t) => spec_mongosh_arch(machine@) == Some(t@),
            None => spec_mongosh_arch(machine@) is None,
        },
{
    if str_eq(machine, "x86_64") {
        Some("x64")
    } else if str_eq(machine, "aarch64") {
        Some("arm64")
    } else {
        None
    }
}

pub open spec fn spec_mongodb_url(version: Seq<char>, arch: Seq<char>) -> Seq<char> {
    "https://fastdl.mongodb.org/linux/mongodb-linux-"@ + arch + "-ubuntu2204-"@ + version + ".tgz"@
}

/// The server tarball of MongoDB `version` for `arch`.
pub fn mongodb_url(version: &str, arch: &str) -> (r: String)
    ensures
        r@ == spec_mongodb_url(version@, arch@),
{
    let mut r = String::new();
    r.append("https://fastdl.mongodb.org/linux/mongodb-linux-");
    r.append(arch);
    r.append("-ubuntu2204-");
    r.append(version);
    r.append(".tgz");
    assert(r@ =~= spec_mongodb_url(version@, arch@));
    r
}

pub open spec fn spec_mongosh_url(version: Seq<char>, arch2: Seq<char>) -> Seq<char> {
    "https://downloads.mongodb.com/compass/mongosh-"@ + version + "-linux-"@ + arch2 + ".tgz"@
}

/// The tarball of mongosh `version` for `arch2`.
pub fn mongosh_url(version: &str, arch2: &str) -> (r: String)
    ensures
        r@ == spec_mongosh_url(version@, arch2@),
{
    let mut r = String::new();
    r.append("https://downloads.mongodb.com/compass/mongosh-");
    r.append(version);
    r.append("-linux-");
    r.append(arch2);
    r.append(".tgz");
    assert(r@ =~= spec_mongosh_url(version@, arch2@));
    r
}

/// Why an install step failed.
#[derive(Debug)]
pub enum MongodbError {
    Arch(String),
    Download(String),
    Extract(String),
    Io(String),
}

impl MongodbError {
    /// The error as text.
    pub fn message(&self) -> (s: String)
        ensures
            s@ == match self {
                MongodbError::Arch(m) => "unsupported architecture: "@ + m@,
                MongodbError::Download(m) => "download failed: "@ + m@,
                MongodbError::Extract(m) => "extract failed: "@ + m@,
                MongodbError::Io(m) => "io error: "@ + m@,
            },
    {
        match self {
            MongodbError::Arch(m) => cat("unsupported architecture: ", m.as_str()),
            MongodbError::Download(m) => cat("download failed: ", m.as_str()),
            MongodbError::Extract(m) => cat("extract failed: ", m.as_str()),
            MongodbError::Io(m) => cat("io error: ", m.as_str()),
        }
    }
}

} // verus!
