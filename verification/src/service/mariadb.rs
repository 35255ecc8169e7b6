use crate::paths::LaragonPaths;
use crate::service::{arg_views, ServiceKind, SpawnSpec};
use crate::text::{decimal, decimal_string, join_path, path_join};
use vstd::prelude::*;

verus! {

/// The MariaDB server on port 3306, data under `data/mariadb`.
pub struct MariadbService {
    pub port: u16,
}

impl MariadbService {
    pub fn new() -> (s: MariadbService)
        ensures
            s.port == 3306,
    {
        MariadbService { port: 3306 }
    }

    pub fn kind(&self) -> (k: ServiceKind)
        ensures
            k == ServiceKind::Mariadb,
    {
        ServiceKind::Mariadb
    }

    pub fn name(&self) -> (n: &'static str)
        ensures
            n@ == "mariadb"@,
    {
        "mariadb"
    }

    pub fn deps(&self) -> (d: Vec<ServiceKind>)
        ensures
            d@.len() == 0,
    {
        Vec::new()
    }

    pub fn port(&self) -> (p: u16)
        ensures
            p == self.port,
    {
        self.port
    }

    pub open spec fn spec_cnf_path(paths: LaragonPaths) -> Seq<char> {
        path_join(paths.spec_etc_for("mariadb"@), "my.cnf"@)
    }

    pub open spec fn spec_datadir(paths: LaragonPaths) -> Seq<char> {
        path_join(paths.spec_data(), "mariadb"@)
    }

    pub open spec fn spec_basedir(paths: LaragonPaths) -> Seq<char> {
        path_join(path_join(paths.spec_bin(), "mariadb"@), "current"@)
    }

    /// `etc/mariadb/my.cnf`.
    pub fn cnf_path(&self, paths: &LaragonPaths) -> (p: String)
        ensures
            p@ == Self::spec_cnf_path(*paths),
    {
        let etc = paths.etc_for("mariadb");
        join_path(etc.as_str(), "my.cnf")
    }

    /// `data/mariadb`.
    pub fn datadir(&self, paths: &LaragonPaths) -> (p: String)
        ensures
            p@ == Self::spec_datadir(*paths),
    {
        let data = paths.data();
        join_path(data.as_str(), "mariadb")
    }

    /// `bin/mariadb/current`.
    pub fn basedir(&self, paths: &LaragonPaths) -> (p: String)
        ensures
            p@ == Self::spec_basedir(*paths),
    {
        let bin = paths.bin();
        let tool = join_path(bin.as_str(), "mariadb");
        join_path(tool.as_str(), "current")
    }

    /// The arguments of `mariadb-install-db` that create the data directory.
    pub fn install_db_args(&self, paths: &LaragonPaths) -> (v: Vec<String>)
        ensures
            arg_views(v@) == seq![
                "--no-defaults"@,
                "--basedir="@ + Self::spec_basedir(*paths),
                "--datadir="@ + Self::spec_datadir(*paths),
                "--auth-root-authentication-method=normal"@,
            ],
    {
        let mut v: Vec<String> = Vec::new();
        v.push(String::from_str("--no-defaults"));
        let mut b = String::from_str("--basedir=");
        b.append(self.basedir(paths).as_str());
        v.push(b);
        let mut d = String::from_str("--datadir=");
        d.append(self.datadir(paths).as_str());
        v.push(d);
        v.push(String::from_str("--auth-root-authentication-method=normal"));
        proof {
            reveal_strlit("--basedir=");
            reveal_strlit("--datadir=");
            assert(arg_views(v@) =~= seq![
                "--no-defaults"@,
                "--basedir="@ + Self::spec_basedir(*paths),
                "--datadir="@ + Self::spec_datadir(*paths),
                "--auth-root-authentication-method=normal"@,
            ]);
        }
        v
    }

    /// `mariadbd --defaults-file=<my.cnf> --basedir=<bin/mariadb/current>`.
    pub fn command(&self, paths: &LaragonPaths) -> (s: SpawnSpec)
        ensures
            s.program@ == "mariadbd"@,
            arg_views(s.args@) == seq!["--defaults-file="@ + Self::spec_cnf_path(*paths), "--basedir="@ + Self::spec_basedir(*paths)],
    {
        let mut a = String::from_str("--defaults-file=");
        a.append(self.cnf_path(paths).as_str());
        let mut b = String::from_str("--basedir=");
        b.append(self.basedir(paths).as_str());
        proof {
            reveal_strlit("--defaults-file=");
            reveal_strlit("--basedir=");
        }
        SpawnSpec::new("mariadbd").arg(a.as_str()).arg(b.as_str())
    }

    pub open spec fn spec_config_text(self, paths: LaragonPaths) -> Seq<char> {
        "[mysqld]\ndatadir="@
            + path_join(paths.spec_data(), "mariadb"@)
            + "\nsocket="@
            + path_join(paths.spec_tmp(), "mysql.sock"@)
            + "\nport="@
            + decimal(self.port as nat)
            + "\nbind-address=127.0.0.1\npid-file="@
            + path_join(paths.spec_tmp(), "mariadb.pid"@)
            + "\nlog-error="@
            + path_join(paths.spec_log(), "mariadb.log"@)
            + "\n"@
    }

    /// `my.cnf`: data directory, socket, port, loopback binding, pid and log.
    pub fn config_text(&self, paths: &LaragonPaths) -> (s: String)
        ensures
            s@ == self.spec_config_text(*paths),
    {
        let tmp = paths.tmp();
        let log_dir = paths.log();
        let datadir = self.datadir(paths);
        let sock = join_path(tmp.as_str(), "mysql.sock");
        let port = decimal_string(self.port as u64);
        let pid = join_path(tmp.as_str(), "mariadb.pid");
        let log = join_path(log_dir.as_str(), "mariadb.log");
        let mut s = String::new();
        s.append("[mysqld]\ndatadir=");
        s.append(datadir.as_str());
        s.append("\nsocket=");
        s.append(sock.as_str());
        s.append("\nport=");
        s.append(port.as_str());
        s.append("\nbind-address=127.0.0.1\npid-file=");
        s.append(pid.as_str());
        s.append("\nlog-error=");
        s.append(log.as_str());
        s.append("\n");
        s
    }
}

} // verus!
