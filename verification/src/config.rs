//! The user's settings (`laragon.toml`): domain suffix, PHP version, which
//! services run, and the tool versions in use.
use crate::layout::string_views;
use crate::symlinks::pair_views;
use crate::text::str_eq;
use vstd::prelude::*;

verus! {

/// Why the settings could not be read or written.
#[derive(Debug)]
pub enum ConfigError {
    Io(String),
    Parse(String),
    Serialize(String),
}

/// Which services are enabled.
#[derive(Debug, Clone, Copy, PartialEq, Eq, Structural)]
pub struct ServicesConfig {
    pub nginx: bool,
    pub php: bool,
    pub mariadb: bool,
    pub redis: bool,
    pub mailpit: bool,
}

impl Default for ServicesConfig {
    fn default() -> (s: ServicesConfig)
        ensures
            s.nginx && s.php && s.mariadb && s.redis && s.mailpit,
    {
        ServicesConfig { nginx: true, php: true, mariadb: true, redis: true, mailpit: true }
    }
}

/// The user's settings.
#[derive(Debug, Clone, PartialEq, Eq)]
pub struct Config {
    pub tld: String,
    pub php_version: String,
    pub services: ServicesConfig,
    pub shell_integration: bool,
    /// The active version of each managed tool, as `(tool, version)`.
    pub versions: Vec<(String, String)>,
    /// The tools whose binaries are linked into the system path.
    pub symlinks: Vec<String>,
}

impl Default for Config {
    fn default() -> (c: Config)
        ensures
            c.tld@ == "dev"@,
            c.php_version@ == "8.4"@,
            c.services.nginx && c.services.php && c.services.mariadb && c.services.redis && c.services.mailpit,
            !c.shell_integration,
            c.versions@.len() == 0,
            c.symlinks@.len() == 0,
    {
        Config {
            tld: String::from_str("dev"),
            php_version: String::from_str("8.4"),
            services: ServicesConfig::default(),
            shell_integration: false,
            versions: Vec::new(),
            symlinks: Vec::new(),
        }
    }
}

/// The version recorded for `key`: the first entry for it.
pub open spec fn version_of(vs: Seq<(Seq<char>, Seq<char>)>, key: Seq<char>) -> Option<Seq<char>>
    decreases vs.len(),
{
    if vs.len() == 0 {
        None
    } else if vs[0].0 == key {
        Some(vs[0].1)
    } else {
        version_of(vs.drop_first(), key)
    }
}

/// The version table with `key` set to `version`: its first entry is
/// replaced, or the pair is added at the end when there is none.
pub open spec fn with_version(vs: Seq<(Seq<char>, Seq<char>)>, key: Seq<char>, version: Seq<char>) -> Seq<(Seq<char>, Seq<char>)>
    decreases vs.len(),
{
    if vs.len() == 0 {
        seq![(key, version)]
    } else if vs[0].0 == key {
        seq![(key, version)] + vs.drop_first()
    } else {
        seq![vs[0]] + with_version(vs.drop_first(), key, version)
    }
}

/// A copy of the version table with `key` set to `version`.
pub fn set_version(vs: &Vec<(String, String)>, key: &str, version: &str) -> (r: Vec<(String, String)>)
    ensures
        pair_views(r@) == with_version(pair_views(vs@), key@, version@),
{
    let ghost src = pair_views(vs@);
    let mut out: Vec<(String, String)> = Vec::new();
    let mut done = false;
    let mut i: usize = 0;
    assert(src.skip(0) == src);
    while i < vs.len()
        invariant
            0 <= i <= vs@.len(),
            src == pair_views(vs@),
            pair_views(out@) + (if done { src.skip(i as int) } else { with_version(src.skip(i as int), key@, version@) })
                == with_version(src, key@, version@),
        decreases vs@.len() - i,
    {
        let ghost rest = src.skip(i as int);
        let ghost before = pair_views(out@);
        assert(rest[0] == (vs@[i as int].0@, vs@[i as int].1@));
        assert(rest.drop_first() == src.skip(i + 1));
        if !done && str_eq(vs[i].0.as_str(), key) {
            out.push((key.to_string(), version.to_string()));
            done = true;
            assert(pair_views(out@) =~= before.push((key@, version@)));
            assert(before + with_version(rest, key@, version@) =~= pair_views(out@) + src.skip(i + 1));
        } else {
            out.push((vs[i].0.clone(), vs[i].1.clone()));
            assert(pair_views(out@) =~= before.push(rest[0]));
            if done {
                assert(before + rest =~= pair_views(out@) + src.skip(i + 1));
            } else {
                assert(before + with_version(rest, key@, version@) =~= pair_views(out@) + with_version(src.skip(i + 1), key@, version@));
            }
        }
        i = i + 1;
    }
    assert(src.skip(i as int).len() == 0);
    if !done {
        let ghost before = pair_views(out@);
        out.push((key.to_string(), version.to_string()));
        assert(pair_views(out@) =~= before + with_version(src.skip(i as int), key@, version@));
    } else {
        assert(pair_views(out@) =~= pair_views(out@) + src.skip(i as int));
    }
    out
}

/// Setting a version is read back, and leaves every other tool's version
/// as it was.
pub proof fn lemma_version_read_back(vs: Seq<(Seq<char>, Seq<char>)>, key: Seq<char>, version: Seq<char>, other: Seq<char>)
    ensures
        version_of(with_version(vs, key, version), key) == Some(version),
        other != key ==> version_of(with_version(vs, key, version), other) == version_of(vs, other),
    decreases vs.len(),
{
    let w = with_version(vs, key, version);
    if vs.len() == 0 {
        assert(w[0] == (key, version));
    } else if vs[0].0 == key {
        assert(w[0] == (key, version));
        assert(w.drop_first() == vs.drop_first());
    } else {
        assert(w[0] == vs[0]);
        assert(w.drop_first() == with_version(vs.drop_first(), key, version));
        lemma_version_read_back(vs.drop_first(), key, version, other);
    }
}

/// A copy of a list of names.
fn copy_names(v: &Vec<String>) -> (r: Vec<String>)
    ensures
        string_views(r@) == string_views(v@),
{
    let mut r: Vec<String> = Vec::new();
    let mut i: usize = 0;
    while i < v.len()
        invariant
            0 <= i <= v@.len(),
            string_views(r@) == string_views(v@).take(i as int),
        decreases v@.len() - i,
    {
        r.push(v[i].clone());
        assert(string_views(v@).take(i + 1) == string_views(v@).take(i as int).push(v@[i as int]@));
        i = i + 1;
    }
    assert(string_views(v@).take(i as int) =~= string_views(v@));
    r
}

impl Config {
    /// These settings with `key`'s version set to `version` (and, for
    /// PHP, the PHP version too); nothing else changes.
    pub fn with_tool_version(&self, key: &str, version: &str, is_php: bool) -> (c: Config)
        ensures
            c.tld@ == self.tld@,
            c.php_version@ == (if is_php { version@ } else { self.php_version@ }),
            c.services == self.services,
            c.shell_integration == self.shell_integration,
            pair_views(c.versions@) == with_version(pair_views(self.versions@), key@, version@),
            string_views(c.symlinks@) == string_views(self.symlinks@),
    {
        Config {
            tld: self.tld.clone(),
            php_version: if is_php { version.to_string() } else { self.php_version.clone() },
            services: self.services,
            shell_integration: self.shell_integration,
            versions: set_version(&self.versions, key, version),
            symlinks: copy_names(&self.symlinks),
        }
    }
}

} // verus!
