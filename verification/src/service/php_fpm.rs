use crate::paths::LaragonPaths;
use crate::service::{arg_views, ServiceKind, SpawnSpec};
use crate::text::{decimal, decimal_string, join_path, path_join};
use vstd::prelude::*;

verus! {

/// The php-fpm pool of one PHP version, listening on a unix socket.
pub struct PhpFpmService {
    pub version: String,
}

impl PhpFpmService {
    pub fn new(version: &str) -> (s: PhpFpmService)
        ensures
            s.version@ == version@,
    {
        PhpFpmService { version: version.to_string() }
    }

    pub fn kind(&self) -> (k: ServiceKind)
        ensures
            k == ServiceKind::PhpFpm,
    {
        ServiceKind::PhpFpm
    }

    pub fn name(&self) -> (n: &'static str)
        ensures
            n@ == "php-fpm"@,
    {
        "php-fpm"
    }

    pub fn deps(&self) -> (d: Vec<ServiceKind>)
        ensures
            d@.len() == 0,
    {
        Vec::new()
    }

    /// `tmp/php-fpm.sock`, the same for every version.
    pub fn socket_path(&self, paths: &LaragonPaths) -> (p: String)
        ensures
            p@ == path_join(paths.spec_tmp(), "php-fpm.sock"@),
    {
        let tmp = paths.tmp();
        join_path(tmp.as_str(), "php-fpm.sock")
    }

    pub open spec fn spec_conf_path(self, paths: LaragonPaths) -> Seq<char> {
        path_join(path_join(paths.spec_etc_for("php"@), self.version@), "php-fpm.conf"@)
    }

    /// `etc/php/<version>/php-fpm.conf`.
    pub fn conf_path(&self, paths: &LaragonPaths) -> (p: String)
        ensures
            p@ == self.spec_conf_path(*paths),
    {
        let etc = paths.etc_for("php");
        let dir = join_path(etc.as_str(), self.version.as_str());
        join_path(dir.as_str(), "php-fpm.conf")
    }

    /// `php-fpm -F -y <conf>`: the binary the active version's `current`
    /// link resolves to, in the foreground, on this version's pool file.
    pub fn command(&self, paths: &LaragonPaths) -> (s: SpawnSpec)
        ensures
            s.program@ == "php-fpm"@,
            arg_views(s.args@) == seq!["-F"@, "-y"@, self.spec_conf_path(*paths)],
    {
        let conf = self.conf_path(paths);
        SpawnSpec::new("php-fpm").arg("-F").arg("-y").arg(conf.as_str())
    }

    pub open spec fn spec_config_text(self, paths: LaragonPaths) -> Seq<char> {
        "[global]\npid = "@
            + path_join(paths.spec_tmp(), "php-fpm.pid"@)
            + "\nerror_log = "@
            + path_join(paths.spec_log(), "php-fpm.log"@)
            + "\ndaemonize = no\n\n[www]\nlisten = "@
            + path_join(paths.spec_tmp(), "php-fpm.sock"@)
            + "\nlisten.mode = 0660\npm = dynamic\npm.max_children = 10\npm.start_servers = 2\npm.min_spare_servers = 1\npm.max_spare_servers = 4\n"@
    }

    /// The pool configuration: pid and log under the data root, no
    /// daemonizing, the `www` pool on the socket.
    pub fn config_text(&self, paths: &LaragonPaths) -> (s: String)
        ensures
            s@ == self.spec_config_text(*paths),
    {
        let tmp = paths.tmp();
        let log_dir = paths.log();
        let pid = join_path(tmp.as_str(), "php-fpm.pid");
        let log = join_path(log_dir.as_str(), "php-fpm.log");
        let sock = self.socket_path(paths);
        let mut s = String::new();
        s.append("[global]\npid = ");
        s.append(pid.as_str());
        s.append("\nerror_log = ");
        s.append(log.as_str());
        s.append("\ndaemonize = no\n\n[www]\nlisten = ");
        s.append(sock.as_str());
        s.append("\nlisten.mode = 0660\npm = dynamic\npm.max_children = 10\npm.start_servers = 2\npm.min_spare_servers = 1\npm.max_spare_servers = 4\n");
        s
    }
}

} // verus!
