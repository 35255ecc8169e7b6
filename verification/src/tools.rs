//! The managed tools: their keys, the terminal commands they ship, and the
//! catalog of versions offered for each.
use crate::layout::{merge_versions, sort_newest_first, sort_versions, string_views, union_versions, contains_string};
use crate::paths::LaragonPaths;
use crate::php_versions::{active_minor, minors_of, php_versions, spec_php_versions_from};
use crate::service::ServiceKind;
use crate::text::{cat, join_path, path_join, str_eq};
use crate::layout::sort_oldest_first;
use vstd::prelude::*;

verus! {

/// A tool whose versions are installed side by side.
#[derive(Debug, Clone, Copy, PartialEq, Eq, Structural)]
pub enum ManagedTool {
    Php,
    Nginx,
    Mariadb,
    Postgres,
    Mongodb,
    Redis,
    Mailpit,
    Mkcert,
    Composer,
    Node,
}

pub open spec fn all_tools() -> Seq<ManagedTool> {
    seq![
        ManagedTool::Php,
        ManagedTool::Nginx,
        ManagedTool::Mariadb,
        ManagedTool::Postgres,
        ManagedTool::Mongodb,
        ManagedTool::Redis,
        ManagedTool::Mailpit,
        ManagedTool::Mkcert,
        ManagedTool::Composer,
        ManagedTool::Node,
    ]
}

impl ManagedTool {
    /// Every tool, in declaration order.
    pub fn all() -> (r: Vec<ManagedTool>)
        ensures
            r@ == all_tools(),
    {
        let mut r: Vec<ManagedTool> = Vec::new();
        r.push(ManagedTool::Php);
        r.push(ManagedTool::Nginx);
        r.push(ManagedTool::Mariadb);
        r.push(ManagedTool::Postgres);
        r.push(ManagedTool::Mongodb);
        r.push(ManagedTool::Redis);
        r.push(ManagedTool::Mailpit);
        r.push(ManagedTool::Mkcert);
        r.push(ManagedTool::Composer);
        r.push(ManagedTool::Node);
        assert(r@ =~= all_tools());
        r
    }
}

pub open spec fn spec_key(t: ManagedTool) -> Seq<char> {
    match t {
        ManagedTool::Php => "php"@,
        ManagedTool::Nginx => "nginx"@,
        ManagedTool::Mariadb => "mariadb"@,
        ManagedTool::Postgres => "postgres"@,
        ManagedTool::Mongodb => "mongodb"@,
        ManagedTool::Redis => "redis"@,
        ManagedTool::Mailpit => "mailpit"@,
        ManagedTool::Mkcert => "mkcert"@,
        ManagedTool::Composer => "composer"@,
        ManagedTool::Node => "node"@,
    }
}

pub open spec fn spec_display(t: ManagedTool) -> Seq<char> {
    match t {
        ManagedTool::Php => "PHP"@,
        ManagedTool::Nginx => "Nginx"@,
        ManagedTool::Mariadb => "MariaDB"@,
        ManagedTool::Postgres => "PostgreSQL"@,
        ManagedTool::Mongodb => "MongoDB"@,
        ManagedTool::Redis => "Redis"@,
        ManagedTool::Mailpit => "Mailpit"@,
        ManagedTool::Mkcert => "mkcert"@,
        ManagedTool::Composer => "Composer"@,
        ManagedTool::Node => "Node.js"@,
    }
}

/// The terminal commands a tool ships, the primary one first.
pub open spec fn spec_clis(t: ManagedTool) -> Seq<Seq<char>> {
    match t {
        ManagedTool::Php => seq!["php"@],
        ManagedTool::Nginx => seq!["nginx"@],
        ManagedTool::Mariadb => seq!["mariadb"@, "mysql"@],
        ManagedTool::Postgres => seq!["psql"@, "pg_dump"@, "pg_restore"@, "createdb"@, "dropdb"@],
        ManagedTool::Mongodb => seq!["mongod"@, "mongosh"@],
        ManagedTool::Redis => seq!["redis-cli"@],
        ManagedTool::Mailpit => seq![],
        ManagedTool::Mkcert => seq!["mkcert"@],
        ManagedTool::Composer => seq!["composer"@],
        ManagedTool::Node => seq!["node"@, "npm"@, "npx"@],
    }
}

pub open spec fn spec_service_kind(t: ManagedTool) -> Option<ServiceKind> {
    match t {
        ManagedTool::Php => Some(ServiceKind::PhpFpm),
        ManagedTool::Nginx => Some(ServiceKind::Nginx),
        ManagedTool::Mariadb => Some(ServiceKind::Mariadb),
        ManagedTool::Postgres => Some(ServiceKind::Postgres),
        ManagedTool::Mongodb => Some(ServiceKind::Mongodb),
        ManagedTool::Redis => Some(ServiceKind::Redis),
        ManagedTool::Mailpit => Some(ServiceKind::Mailpit),
        _ => None,
    }
}

pub open spec fn str_list(v: Seq<&'static str>) -> Seq<Seq<char>> {
    v.map_values(|s: &'static str| s@)
}

/// What a tool is: its key, its display name, the terminal commands it ships
/// (the first is the primary one; empty when it has none) and the service it
/// runs as, if any.
#[derive(Debug, Clone)]
pub struct ToolInfo {
    pub key: &'static str,
    pub display: &'static str,
    pub cli_binaries: Vec<&'static str>,
    pub service_kind: Option<ServiceKind>,
}

impl ToolInfo {
    /// The primary terminal command, if any.
    pub fn cli_binary(&self) -> (r: Option<&'static str>)
        ensures
            self.cli_binaries@.len() == 0 ==> r is None,
            self.cli_binaries@.len() > 0 ==> r == Some(self.cli_binaries@[0]),
    {
        if self.cli_binaries.len() == 0 {
            None
        } else {
            Some(self.cli_binaries[0])
        }
    }
}

fn clis(names: &[&'static str]) -> (r: Vec<&'static str>)
    ensures
        r@ == names@,
{
    let mut r: Vec<&'static str> = Vec::new();
    let mut i: usize = 0;
    while i < names.len()
        invariant
            0 <= i <= names@.len(),
            r@ == names@.take(i as int),
        decreases names@.len() - i,
    {
        r.push(names[i]);
        assert(r@ =~= names@.take(i + 1));
        i = i + 1;
    }
    assert(names@.take(i as int) == names@);
    r
}

/// What a tool is.
pub fn info(tool: ManagedTool) -> (r: ToolInfo)
    ensures
        r.key@ == spec_key(tool),
        r.display@ == spec_display(tool),
        str_list(r.cli_binaries@) == spec_clis(tool),
        r.service_kind == spec_service_kind(tool),
{
    let r = match tool {
        ManagedTool::Php => ToolInfo { key: "php", display: "PHP", cli_binaries: clis(&["php"]), service_kind: Some(ServiceKind::PhpFpm) },
        ManagedTool::Nginx => ToolInfo { key: "nginx", display: "Nginx", cli_binaries: clis(&["nginx"]), service_kind: Some(ServiceKind::Nginx) },
        ManagedTool::Mariadb => ToolInfo {
            key: "mariadb",
            display: "MariaDB",
            cli_binaries: clis(&["mariadb", "mysql"]),
            service_kind: Some(ServiceKind::Mariadb),
        },
        ManagedTool::Postgres => ToolInfo {
            key: "postgres",
            display: "PostgreSQL",
            cli_binaries: clis(&["psql", "pg_dump", "pg_restore", "createdb", "dropdb"]),
            service_kind: Some(ServiceKind::Postgres),
        },
        ManagedTool::Mongodb => ToolInfo {
            key: "mongodb",
            display: "MongoDB",
            cli_binaries: clis(&["mongod", "mongosh"]),
            service_kind: Some(ServiceKind::Mongodb),
        },
        ManagedTool::Redis => ToolInfo { key: "redis", display: "Redis", cli_binaries: clis(&["redis-cli"]), service_kind: Some(ServiceKind::Redis) },
        ManagedTool::Mailpit => ToolInfo { key: "mailpit", display: "Mailpit", cli_binaries: Vec::new(), service_kind: Some(ServiceKind::Mailpit) },
        ManagedTool::Mkcert => ToolInfo { key: "mkcert", display: "mkcert", cli_binaries: clis(&["mkcert"]), service_kind: None },
        ManagedTool::Composer => ToolInfo { key: "composer", display: "Composer", cli_binaries: clis(&["composer"]), service_kind: None },
        ManagedTool::Node => ToolInfo { key: "node", display: "Node.js", cli_binaries: clis(&["node", "npm", "npx"]), service_kind: None },
    };
    assert(str_list(r.cli_binaries@) =~= spec_clis(tool));
    r
}

/// The key of a tool.
pub fn key(tool: ManagedTool) -> (k: &'static str)
    ensures
        k@ == spec_key(tool),
{
    info(tool).key
}

/// The tool whose key is `k`.
pub open spec fn spec_from_key(k: Seq<char>) -> Option<ManagedTool> {
    if k == "php"@ {
        Some(ManagedTool::Php)
    } else if k == "nginx"@ {
        Some(ManagedTool::Nginx)
    } else if k == "mariadb"@ {
        Some(ManagedTool::Mariadb)
    } else if k == "postgres"@ {
        Some(ManagedTool::Postgres)
    } else if k == "mongodb"@ {
        Some(ManagedTool::Mongodb)
    } else if k == "redis"@ {
        Some(ManagedTool::Redis)
    } else if k == "mailpit"@ {
        Some(ManagedTool::Mailpit)
    } else if k == "mkcert"@ {
        Some(ManagedTool::Mkcert)
    } else if k == "composer"@ {
        Some(ManagedTool::Composer)
    } else if k == "node"@ {
        Some(ManagedTool::Node)
    } else {
        None
    }
}

/// The tool whose key is `k`, if any.
pub fn from_key(k: &str) -> (r: Option<ManagedTool>)
    ensures
        r == spec_from_key(k@),
{
    if str_eq(k, "php") {
        Some(ManagedTool::Php)
    } else if str_eq(k, "nginx") {
        Some(ManagedTool::Nginx)
    } else if str_eq(k, "mariadb") {
        Some(ManagedTool::Mariadb)
    } else if str_eq(k, "postgres") {
        Some(ManagedTool::Postgres)
    } else if str_eq(k, "mongodb") {
        Some(ManagedTool::Mongodb)
    } else if str_eq(k, "redis") {
        Some(ManagedTool::Redis)
    } else if str_eq(k, "mailpit") {
        Some(ManagedTool::Mailpit)
    } else if str_eq(k, "mkcert") {
        Some(ManagedTool::Mkcert)
    } else if str_eq(k, "composer") {
        Some(ManagedTool::Composer)
    } else if str_eq(k, "node") {
        Some(ManagedTool::Node)
    } else {
        None
    }
}

/// Every tool is found again from its key.
pub proof fn lemma_key_roundtrip(t: ManagedTool)
    ensures
        spec_from_key(spec_key(t)) == Some(t),
{
    reveal_strlit("php");
    assert("php"@.len() == 3 && "php"@[0] == 'p' && "php"@[1] == 'h' && "php"@[2] == 'p');
    reveal_strlit("nginx");
    assert("nginx"@.len() == 5 && "nginx"@[0] == 'n' && "nginx"@[1] == 'g' && "nginx"@[2] == 'i');
    reveal_strlit("mariadb");
    assert("mariadb"@.len() == 7 && "mariadb"@[0] == 'm' && "mariadb"@[1] == 'a' && "mariadb"@[2] == 'r');
    reveal_strlit("postgres");
    assert("postgres"@.len() == 8 && "postgres"@[0] == 'p' && "postgres"@[1] == 'o' && "postgres"@[2] == 's');
    reveal_strlit("mongodb");
    assert("mongodb"@.len() == 7 && "mongodb"@[0] == 'm' && "mongodb"@[1] == 'o' && "mongodb"@[2] == 'n');
    reveal_strlit("redis");
    assert("redis"@.len() == 5 && "redis"@[0] == 'r' && "redis"@[1] == 'e' && "redis"@[2] == 'd');
    reveal_strlit("mailpit");
    assert("mailpit"@.len() == 7 && "mailpit"@[0] == 'm' && "mailpit"@[1] == 'a' && "mailpit"@[2] == 'i');
    reveal_strlit("mkcert");
    assert("mkcert"@.len() == 6 && "mkcert"@[0] == 'm' && "mkcert"@[1] == 'k' && "mkcert"@[2] == 'c');
    reveal_strlit("composer");
    assert("composer"@.len() == 8 && "composer"@[0] == 'c' && "composer"@[1] == 'o' && "composer"@[2] == 'm');
    reveal_strlit("node");
    assert("node"@.len() == 4 && "node"@[0] == 'n' && "node"@[1] == 'o' && "node"@[2] == 'd');
}

/// The path of a terminal command of a tool: `bin/<key>/current/<cli>`.
pub open spec fn cli_file(paths: LaragonPaths, t: ManagedTool, cli: Seq<char>) -> Seq<char> {
    path_join(paths.spec_current_link(spec_key(t)), cli)
}

/// The path of the tool's primary terminal command, if it ships one.
pub fn cli_path(tool: ManagedTool, paths: &LaragonPaths) -> (r: Option<String>)
    ensures
        spec_clis(tool).len() == 0 ==> r is None,
        spec_clis(tool).len() > 0 ==> (r matches Some(p) && p@ == cli_file(*paths, tool, spec_clis(tool)[0])),
{
    let i = info(tool);
    match i.cli_binary() {
        Some(b) => {
            assert(str_list(i.cli_binaries@)[0] == b@);
            let base = paths.current_link(key(tool));
            Some(join_path(base.as_str(), b))
        },
        None => None,
    }
}

/// Every terminal command of the tool paired with its path, in order; empty
/// for a tool without any.
pub fn cli_paths(tool: ManagedTool, paths: &LaragonPaths) -> (r: Vec<(&'static str, String)>)
    ensures
        r@.len() == spec_clis(tool).len(),
        forall|i: int|
            0 <= i < r@.len() ==> (#[trigger] r@[i]).0@ == spec_clis(tool)[i] && r@[i].1@ == cli_file(*paths, tool, spec_clis(tool)[i]),
{
    let base = paths.current_link(key(tool));
    let inf = info(tool);
    let mut r: Vec<(&'static str, String)> = Vec::new();
    let mut i: usize = 0;
    while i < inf.cli_binaries.len()
        invariant
            0 <= i <= inf.cli_binaries@.len(),
            str_list(inf.cli_binaries@) == spec_clis(tool),
            base@ == paths.spec_current_link(spec_key(tool)),
            r@.len() == i,
            forall|j: int|
                0 <= j < i ==> (#[trigger] r@[j]).0@ == spec_clis(tool)[j] && r@[j].1@ == cli_file(*paths, tool, spec_clis(tool)[j]),
        decreases inf.cli_binaries@.len() - i,
    {
        let b = inf.cli_binaries[i];
        assert(str_list(inf.cli_binaries@)[i as int] == b@);
        r.push((b, join_path(base.as_str(), b)));
        i = i + 1;
    }
    r
}

/// One version offered for a tool.
#[derive(Debug, Clone, PartialEq, Eq)]
pub struct ToolVersion {
    pub version: String,
    pub installed: bool,
    pub active: bool,
}

pub open spec fn version_views(v: Seq<ToolVersion>) -> Seq<(Seq<char>, bool, bool)> {
    v.map_values(|t: ToolVersion| (t.version@, t.installed, t.active))
}

/// Why installing a tool version failed.
#[derive(Debug)]
pub enum ToolError {
    Install(String),
}

impl ToolError {
    pub fn message(&self) -> (s: String)
        ensures
            s@ == match self {
                ToolError::Install(m) => "install failed: "@ + m@,
            },
    {
        match self {
            ToolError::Install(m) => cat("install failed: ", m.as_str()),
        }
    }
}

/// The versions of a tool (other than PHP) offered for installation.
pub open spec fn known_of(t: ManagedTool) -> Seq<Seq<char>> {
    match t {
        ManagedTool::Nginx => seq!["1.31.2"@, "1.30.3"@, "1.26.3"@],
        ManagedTool::Mariadb => seq!["11.8.2"@, "11.4.12"@, "10.11.10"@, "10.6.20"@],
        ManagedTool::Postgres => seq!["17.2.0"@, "16.6.0"@, "15.8.0"@, "14.13.0"@],
        ManagedTool::Mongodb => seq!["8.0.4"@, "7.0.15"@],
        ManagedTool::Redis => seq!["9.1.0"@, "8.1.3"@, "8.0.4"@, "7.2.10"@],
        ManagedTool::Mailpit => seq!["1.30.2"@, "1.27.6"@, "1.25.0"@, "1.22.3"@],
        ManagedTool::Mkcert => seq!["1.4.4"@],
        ManagedTool::Composer => seq!["2.8.9"@, "2.7.9"@, "2.6.6"@, "2.2.25"@],
        ManagedTool::Node => seq!["24.18.0"@, "22.23.1"@, "20.20.2"@, "18.20.8"@],
        ManagedTool::Php => seq!["8.0"@, "8.1"@, "8.2"@, "8.3"@, "8.4"@, "8.5"@],
    }
}

fn strings(items: &[&str]) -> (r: Vec<String>)
    ensures
        string_views(r@) == items@.map_values(|s: &str| s@),
{
    let mut r: Vec<String> = Vec::new();
    let mut i: usize = 0;
    while i < items.len()
        invariant
            0 <= i <= items@.len(),
            string_views(r@) == items@.take(i as int).map_values(|s: &str| s@),
        decreases items@.len() - i,
    {
        let ghost before = string_views(r@);
        r.push(items[i].to_owned());
        proof {
            assert(string_views(r@) =~= before.push(items@[i as int]@));
            assert(items@.take(i + 1).map_values(|s: &str| s@) =~= items@.take(i as int).map_values(|s: &str| s@).push(items@[i as int]@));
        }
        i = i + 1;
    }
    assert(items@.take(i as int) == items@);
    r
}

/// The versions of a tool offered for installation (PHP: its minors).
pub fn known_versions(tool: ManagedTool) -> (r: Vec<String>)
    ensures
        string_views(r@) == known_of(tool),
{
    let r = match tool {
        ManagedTool::Nginx => strings(&["1.31.2", "1.30.3", "1.26.3"]),
        ManagedTool::Mariadb => strings(&["11.8.2", "11.4.12", "10.11.10", "10.6.20"]),
        ManagedTool::Postgres => strings(&["17.2.0", "16.6.0", "15.8.0", "14.13.0"]),
        ManagedTool::Mongodb => strings(&["8.0.4", "7.0.15"]),
        ManagedTool::Redis => strings(&["9.1.0", "8.1.3", "8.0.4", "7.2.10"]),
        ManagedTool::Mailpit => strings(&["1.30.2", "1.27.6", "1.25.0", "1.22.3"]),
        ManagedTool::Mkcert => strings(&["1.4.4"]),
        ManagedTool::Composer => strings(&["2.8.9", "2.7.9", "2.6.6", "2.2.25"]),
        ManagedTool::Node => strings(&["24.18.0", "22.23.1", "20.20.2", "18.20.8"]),
        ManagedTool::Php => strings(&["8.0", "8.1", "8.2", "8.3", "8.4", "8.5"]),
    };
    assert(string_views(r@) =~= known_of(tool));
    r
}

/// A multi-version tool's catalog: the known versions unioned with the
/// installed ones, newest first, each flagged installed and active.
pub open spec fn spec_known_catalog(known: Seq<Seq<char>>, installed: Seq<Seq<char>>, active: Seq<char>) -> Seq<(Seq<char>, bool, bool)> {
    sort_newest_first(union_versions(known, installed), false).map_values(
        |v: Seq<char>| (v, installed.contains(v), v == active),
    )
}

fn known_catalog(known: Vec<String>, installed: &Vec<String>, active: &str) -> (r: Vec<ToolVersion>)
    ensures
        version_views(r@) == spec_known_catalog(string_views(known@), string_views(installed@), active@),
{
    let merged = merge_versions(known, installed.as_slice());
    let sorted = sort_versions(merged, false, true);
    let ghost sv = string_views(sorted@);
    let ghost iv = string_views(installed@);
    let mut r: Vec<ToolVersion> = Vec::new();
    let mut i: usize = 0;
    while i < sorted.len()
        invariant
            0 <= i <= sorted@.len(),
            sv == string_views(sorted@),
            iv == string_views(installed@),
            version_views(r@) == sv.take(i as int).map_values(|v: Seq<char>| (v, iv.contains(v), v == active@)),
        decreases sorted@.len() - i,
    {
        let v = sorted[i].clone();
        let is_installed = contains_string(installed, v.as_str());
        let is_active = str_eq(v.as_str(), active);
        let ghost before = version_views(r@);
        r.push(ToolVersion { version: v, installed: is_installed, active: is_active });
        proof {
            assert(sv[i as int] == sorted@[i as int]@);
            assert(version_views(r@) =~= before.push((sv[i as int], is_installed, is_active)));
            assert(sv.take(i + 1) =~= sv.take(i as int).push(sv[i as int]));
            assert(sv.take(i + 1).map_values(|v: Seq<char>| (v, iv.contains(v), v == active@)) =~= sv.take(i as int).map_values(
                |v: Seq<char>| (v, iv.contains(v), v == active@),
            ).push((sv[i as int], iv.contains(sv[i as int]), sv[i as int] == active@)));
        }
        i = i + 1;
    }
    assert(sv.take(i as int) == sv);
    r
}

/// The versions offered for a tool, given its installed versions and the
/// configured one: PHP by minor (see [`php_versions`]), the others from
/// their known list unioned with the installed ones, newest first.
pub fn available_versions(tool: ManagedTool, installed: &Vec<String>, active: &str) -> (r: Vec<ToolVersion>)
    ensures
        tool == ManagedTool::Php ==> version_views(r@) == spec_php_versions_from(
            sort_oldest_first(minors_of(string_views(installed@)), true),
            active_minor(active@),
        ),
        tool != ManagedTool::Php ==> version_views(r@) == spec_known_catalog(known_of(tool), string_views(installed@), active@),
{
    match tool {
        ManagedTool::Php => {
            let infos = php_versions(installed.as_slice(), active);
            let ghost target = crate::php_versions::info_views(infos@);
            let mut r: Vec<ToolVersion> = Vec::new();
            let mut i: usize = 0;
            while i < infos.len()
                invariant
                    0 <= i <= infos@.len(),
                    target == crate::php_versions::info_views(infos@),
                    version_views(r@) == target.take(i as int),
                decreases infos@.len() - i,
            {
                let ghost before = version_views(r@);
                r.push(ToolVersion { version: infos[i].version.clone(), installed: infos[i].installed, active: infos[i].active });
                proof {
                    assert(version_views(r@) =~= before.push(target[i as int]));
                    assert(target.take(i + 1) =~= target.take(i as int).push(target[i as int]));
                }
                i = i + 1;
            }
            assert(target.take(i as int) == target);
            r
        },
        _ => known_catalog(known_versions(tool), installed, active),
    }
}

} // verus!
