//! The PostgreSQL binaries archive: where it is downloaded from.
use crate::layout::string_views;
use crate::text::{cat, ends_with, ends_with_str, join_path, path_join, str_eq};
use crate::paths::LaragonPaths;
use std::io::Read;
use vstd::prelude::*;

verus! {

/// The PostgreSQL release installed by default.
pub const POSTGRES_VERSION: &'static str = "16.6.0";

/// The tag a release uses for the machine architecture (as Rust names
/// it), if there is a build for it.
pub open spec fn spec_postgres_arch(machine: Seq<char>) -> Option<Seq<char>> {
    if machine == "x86_64"@ {
        Some("amd64"@)
    } else if machine == "aarch64"@ {
        Some("arm64v8"@)
    } else {
        None
    }
}

pub fn postgres_arch(machine: &str) -> (r: Option<&'static str>)
    ensures
        match r {
            Some(t) => spec_postgres_arch(machine@) == Some(t@),
            None => spec_postgres_arch(machine@) is None,
        },
{
    if str_eq(machine, "x86_64") {
        Some("amd64")
    } else if str_eq(machine, "aarch64") {
        Some("arm64v8")
    } else {
        None
    }
}

pub open spec fn spec_postgres_url(version: Seq<char>, arch: Seq<char>) -> Seq<char> {
    "https://repo1.maven.org/maven2/io/zonky/test/postgres/embedded-postgres-binaries-linux-"@ + arch + "/"@ + version + "/embedded-postgres-binaries-linux-"@ + arch + "-"@ + version + ".jar"@
}

/// The binaries archive of PostgreSQL `version` for `arch`.
pub fn postgres_url(version: &str, arch: &str) -> (r: String)
    ensures
        r@ == spec_postgres_url(version@, arch@),
{
    let mut r = String::new();
    r.append("https://repo1.maven.org/maven2/io/zonky/test/postgres/embedded-postgres-binaries-linux-");
    r.append(arch);
    r.append("/");
    r.append(version);
    r.append("/embedded-postgres-binaries-linux-");
    r.append(arch);
    r.append("-");
    r.append(version);
    r.append(".jar");
    assert(r@ =~= spec_postgres_url(version@, arch@));
    r
}

/// Why an install step failed.
#[derive(Debug)]
pub enum PostgresError {
    Arch(String),
    Download(String),
    Extract(String),
    Io(String),
}

impl PostgresError {
    /// The error as text.
    pub fn message(&self) -> (s: String)
        ensures
            s@ == match self {
                PostgresError::Arch(m) => "unsupported architecture: "@ + m@,
                PostgresError::Download(m) => "download failed: "@ + m@,
                PostgresError::Extract(m) => "extract failed: "@ + m@,
                PostgresError::Io(m) => "io error: "@ + m@,
            },
    {
        match self {
            PostgresError::Arch(m) => cat("unsupported architecture: ", m.as_str()),
            PostgresError::Download(m) => cat("download failed: ", m.as_str()),
            PostgresError::Extract(m) => cat("extract failed: ", m.as_str()),
            PostgresError::Io(m) => cat("io error: ", m.as_str()),
        }
    }
}

// ---------------------------------------------------------------------------
// The jar: a zip archive holding the binaries as one `.txz` tree
// ---------------------------------------------------------------------------

#[verifier::external_type_specification]
#[verifier::external_body]
pub struct ExZipError(zip::result::ZipError);

/// How many entries `zip` finds in an archive's bytes; `None` when it
/// cannot read the archive.
pub uninterp spec fn zip_entry_count(data: Seq<u8>) -> Option<nat>;

/// The name of entry `i` that `zip` opens in an archive's bytes; `None` when
/// it cannot open that entry (or the archive).
pub uninterp spec fn zip_index_name(data: Seq<u8>, i: nat) -> Option<Seq<char>>;

/// What `zip` reads for the entry `name` of an archive's bytes: `None` when
/// it cannot open the entry (or the archive), `Some(None)` when reading the
/// opened entry fails, else `Some(Some(contents))`.
pub uninterp spec fn zip_entry_read(data: Seq<u8>, name: Seq<char>) -> Option<Option<Seq<u8>>>;

/// Why an entry could not be read: opening it failed (a `zip` error), or
/// reading it did (the I/O error's text).
pub enum ZipReadError {
    Open(zip::result::ZipError),
    Read(String),
}

/// `zip::ZipArchive::new` over the bytes, then its `len`: the count is
/// [`zip_entry_count`] of the bytes; an error exactly when that is `None`.
#[verifier::external_body]
fn zip_len(data: &[u8]) -> (r: Result<usize, zip::result::ZipError>)
    ensures
        match r {
            Ok(n) => zip_entry_count(data@) == Some(n as nat),
            Err(_) => zip_entry_count(data@) is None,
        },
{
    let z = zip::ZipArchive::new(std::io::Cursor::new(data))?;
    Ok(z.len())
}

/// `zip::ZipArchive::new` over the bytes, `by_index(i)`, then the entry's
/// `name`: the name is [`zip_index_name`] of the bytes and `i`; an error
/// exactly when that is `None`.
#[verifier::external_body]
fn zip_name_at(data: &[u8], i: usize) -> (r: Result<String, zip::result::ZipError>)
    ensures
        match r {
            Ok(n) => zip_index_name(data@, i as nat) == Some(n@),
            Err(_) => zip_index_name(data@, i as nat) is None,
        },
{
    let mut z = zip::ZipArchive::new(std::io::Cursor::new(data))?;
    let entry = z.by_index(i)?;
    Ok(entry.name().to_string())
}

/// `zip::ZipArchive::new` over the bytes and `by_name(name)`, then reading
/// the entry to its end (`Read::read_to_end`): the outcome is
/// [`zip_entry_read`] of the archive and the name; the error says which of
/// the two steps failed.
#[verifier::external_body]
fn zip_read(data: &[u8], name: &str) -> (r: Result<Vec<u8>, ZipReadError>)
    ensures
        match r {
            Ok(v) => zip_entry_read(data@, name@) == Some(Some(v@)),
            Err(ZipReadError::Open(_)) => zip_entry_read(data@, name@) is None,
            Err(ZipReadError::Read(_)) => zip_entry_read(data@, name@) == Some(None::<Seq<u8>>),
        },
{
    let mut z = zip::ZipArchive::new(std::io::Cursor::new(data)).map_err(ZipReadError::Open)?;
    let mut entry = z.by_name(name).map_err(ZipReadError::Open)?;
    let mut buf = Vec::new();
    entry.read_to_end(&mut buf).map_err(|e| ZipReadError::Read(e.to_string()))?;
    Ok(buf)
}

/// The text of a `zip` error (its `Display`).
#[verifier::external_body]
fn zip_error_text(e: &zip::result::ZipError) -> String {
    e.to_string()
}

/// The first name ending in `.txz`.
pub open spec fn first_txz(names: Seq<Seq<char>>) -> Option<Seq<char>>
    decreases names.len(),
{
    if names.len() == 0 {
        None
    } else if ends_with(names[0], ".txz"@) {
        Some(names[0])
    } else {
        first_txz(names.drop_first())
    }
}

/// The names of the entries `0..n` that `zip` opens, in archive order
/// (an entry it cannot open is passed over).
pub open spec fn openable_names(data: Seq<u8>, n: nat) -> Seq<Seq<char>>
    decreases n,
{
    if n == 0 {
        seq![]
    } else {
        let prev = openable_names(data, (n - 1) as nat);
        match zip_index_name(data, (n - 1) as nat) {
            Some(name) => prev.push(name),
            None => prev,
        }
    }
}

/// The entry of the jar that holds the binaries: the first, among the
/// entries `zip` opens, whose name ends in `.txz`.
fn first_txz_name(jar: &[u8], count: usize) -> (r: Option<String>)
    ensures
        match r {
            Some(n) => first_txz(openable_names(jar@, count as nat)) == Some(n@),
            None => first_txz(openable_names(jar@, count as nat)) is None,
        },
{
    let mut i: usize = 0;
    while i < count
        invariant
            0 <= i <= count,
            first_txz(openable_names(jar@, i as nat)) is None,
        decreases count - i,
    {
        proof {
            lemma_first_txz_push_none(jar@, i as nat);
        }
        match zip_name_at(jar, i) {
            Ok(n) => {
                if ends_with_str(n.as_str(), ".txz") {
                    proof {
                        lemma_first_txz_prefix(jar@, (i + 1) as nat, count as nat);
                    }
                    return Some(n);
                }
            },
            Err(_) => {},
        }
        i = i + 1;
    }
    None
}

/// With no `.txz` among the first `i` names, the first among `i + 1` is
/// entry `i` when it opens with such a name.
proof fn lemma_first_txz_push_none(data: Seq<u8>, i: nat)
    requires
        first_txz(openable_names(data, i)) is None,
    ensures
        first_txz(openable_names(data, i + 1)) == match zip_index_name(data, i) {
            Some(n) => if ends_with(n, ".txz"@) {
                Some(n)
            } else {
                None
            },
            None => None,
        },
{
    let prev = openable_names(data, i);
    assert(openable_names(data, i + 1) == match zip_index_name(data, i) {
        Some(n) => prev.push(n),
        None => prev,
    });
    if let Some(n) = zip_index_name(data, i) {
        lemma_first_txz_append(prev, seq![n]);
        assert(prev + seq![n] == prev.push(n));
        reveal_with_fuel(first_txz, 2);
    }
}

/// `first_txz` of a concatenation: the first's, else the second's.
proof fn lemma_first_txz_append(a: Seq<Seq<char>>, b: Seq<Seq<char>>)
    ensures
        first_txz(a + b) == match first_txz(a) {
            Some(n) => Some(n),
            None => first_txz(b),
        },
    decreases a.len(),
{
    if a.len() == 0 {
        assert(a + b == b);
    } else {
        assert((a + b)[0] == a[0]);
        assert((a + b).drop_first() == a.drop_first() + b);
        lemma_first_txz_append(a.drop_first(), b);
    }
}

/// Once a `.txz` name is among the first `i` names, it stays the first
/// among any more.
proof fn lemma_first_txz_prefix(data: Seq<u8>, i: nat, n: nat)
    requires
        i <= n,
        first_txz(openable_names(data, i)) is Some,
    ensures
        first_txz(openable_names(data, n)) == first_txz(openable_names(data, i)),
    decreases n - i,
{
    if i < n {
        lemma_first_txz_prefix(data, i, (n - 1) as nat);
        let prev = openable_names(data, (n - 1) as nat);
        if let Some(x) = zip_index_name(data, (n - 1) as nat) {
            lemma_first_txz_append(prev, seq![x]);
            assert(prev + seq![x] == prev.push(x));
        }
    }
}

/// The `.txz` tree inside a PostgreSQL binaries jar (the bytes of the jar):
/// the contents of the first entry, among those `zip` opens, whose name ends
/// in `.txz`. An archive that cannot be read, one without such an entry, and
/// an entry that cannot be opened are extract errors; a failure while
/// reading the opened entry is an I/O error.
pub fn txz_from_jar(jar: &[u8]) -> (r: Result<Vec<u8>, PostgresError>)
    ensures
        match zip_entry_count(jar@) {
            None => r matches Err(PostgresError::Extract(_)),
            Some(count) => match first_txz(openable_names(jar@, count)) {
                None => r matches Err(PostgresError::Extract(m)) && m@ == "no .txz entry in jar"@,
                Some(n) => match zip_entry_read(jar@, n) {
                    Some(Some(b)) => r matches Ok(v) && v@ == b,
                    Some(None) => r matches Err(PostgresError::Io(_)),
                    None => r matches Err(PostgresError::Extract(_)),
                },
            },
        },
{
    let count = match zip_len(jar) {
        Ok(n) => n,
        Err(e) => {
            return Err(PostgresError::Extract(zip_error_text(&e)));
        },
    };
    let name = match first_txz_name(jar, count) {
        Some(n) => n,
        None => {
            return Err(PostgresError::Extract(String::from_str("no .txz entry in jar")));
        },
    };
    match zip_read(jar, name.as_str()) {
        Ok(b) => Ok(b),
        Err(ZipReadError::Open(e)) => Err(PostgresError::Extract(zip_error_text(&e))),
        Err(ZipReadError::Read(m)) => Err(PostgresError::Io(m)),
    }
}

} // verus!
