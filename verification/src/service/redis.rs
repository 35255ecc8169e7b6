use crate::paths::LaragonPaths;
use crate::service::{arg_views, ServiceKind, SpawnSpec};
use crate::text::{decimal, decimal_string, join_path, path_join};
use vstd::prelude::*;

verus! {

/// The Redis (Valkey) server on port 6379.
pub struct RedisService {
    pub port: u16,
}

impl RedisService {
    pub fn new() -> (s: RedisService)
        ensures
            s.port == 6379,
    {
        RedisService { port: 6379 }
    }

    pub fn kind(&self) -> (k: ServiceKind)
        ensures
            k == ServiceKind::Redis,
    {
        ServiceKind::Redis
    }

    pub fn name(&self) -> (n: &'static str)
        ensures
            n@ == "redis"@,
    {
        "redis"
    }

    pub fn deps(&self) -> (d: Vec<ServiceKind>)
        ensures
            d@.len() == 0,
    {
        Vec::new()
    }

    pub fn port(&self) -> (p: u16)
        ensures
            p == self.port,
    {
        self.port
    }

    pub open spec fn spec_conf_path(paths: LaragonPaths) -> Seq<char> {
        path_join(paths.spec_etc_for("redis"@), "redis.conf"@)
    }

    /// `etc/redis/redis.conf`.
    pub fn conf_path(&self, paths: &LaragonPaths) -> (p: String)
        ensures
            p@ == Self::spec_conf_path(*paths),
    {
        let etc = paths.etc_for("redis");
        join_path(etc.as_str(), "redis.conf")
    }

    /// `redis-server <redis.conf>`.
    pub fn command(&self, paths: &LaragonPaths) -> (s: SpawnSpec)
        ensures
            s.program@ == "redis-server"@,
            arg_views(s.args@) == seq![Self::spec_conf_path(*paths)],
    {
        let conf = self.conf_path(paths);
        SpawnSpec::new("redis-server").arg(conf.as_str())
    }

    pub open spec fn spec_config_text(self, paths: LaragonPaths) -> Seq<char> {
        "port "@
            + decimal(self.port as nat)
            + "\nbind 127.0.0.1\ndir "@
            + path_join(paths.spec_data(), "redis"@)
            + "\ndbfilename dump.rdb\nlogfile "@
            + path_join(paths.spec_log(), "redis.log"@)
            + "\n"@
    }

    /// `redis.conf`: port, loopback binding, data directory, dump file, log.
    pub fn config_text(&self, paths: &LaragonPaths) -> (s: String)
        ensures
            s@ == self.spec_config_text(*paths),
    {
        let data = paths.data();
        let log_dir = paths.log();
        let port = decimal_string(self.port as u64);
        let dir = join_path(data.as_str(), "redis");
        let log = join_path(log_dir.as_str(), "redis.log");
        let mut s = String::new();
        s.append("port ");
        s.append(port.as_str());
        s.append("\nbind 127.0.0.1\ndir ");
        s.append(dir.as_str());
        s.append("\ndbfilename dump.rdb\nlogfile ");
        s.append(log.as_str());
        s.append("\n");
        s
    }
}

} // verus!
