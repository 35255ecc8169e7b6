use crate::paths::LaragonPaths;
use crate::service::{arg_views, ServiceKind, SpawnSpec};
use crate::text::{decimal, decimal_string, join_path, path_join};
use vstd::prelude::*;

verus! {

/// The MongoDB server on port 27017, data under `data/mongodb`.
pub struct MongodbService {
    pub port: u16,
}

impl MongodbService {
    pub fn new() -> (s: MongodbService)
        ensures
            s.port == 27017,
    {
        MongodbService { port: 27017 }
    }

    pub fn kind(&self) -> (k: ServiceKind)
        ensures
            k == ServiceKind::Mongodb,
    {
        ServiceKind::Mongodb
    }

    pub fn name(&self) -> (n: &'static str)
        ensures
            n@ == "mongodb"@,
    {
        "mongodb"
    }

    pub fn deps(&self) -> (d: Vec<ServiceKind>)
        ensures
            d@.len() == 0,
    {
        Vec::new()
    }

    pub open spec fn spec_dbpath(paths: LaragonPaths) -> Seq<char> {
        path_join(paths.spec_data(), "mongodb"@)
    }

    /// `data/mongodb`, which mongod needs to exist before it starts.
    pub fn dbpath(&self, paths: &LaragonPaths) -> (p: String)
        ensures
            p@ == Self::spec_dbpath(*paths),
    {
        let data = paths.data();
        join_path(data.as_str(), "mongodb")
    }

    /// `mongod --dbpath <dir> --port <port> --bind_ip 127.0.0.1
    /// --unixSocketPrefix <tmp> --logpath <log/mongodb.log> --logappend`.
    pub fn command(&self, paths: &LaragonPaths) -> (s: SpawnSpec)
        ensures
            s.program@ == "mongod"@,
            arg_views(s.args@) == seq![
                "--dbpath"@,
                Self::spec_dbpath(*paths),
                "--port"@,
                decimal(self.port as nat),
                "--bind_ip"@,
                "127.0.0.1"@,
                "--unixSocketPrefix"@,
                paths.spec_tmp(),
                "--logpath"@,
                path_join(paths.spec_log(), "mongodb.log"@),
                "--logappend"@,
            ],
    {
        let db = self.dbpath(paths);
        let port = decimal_string(self.port as u64);
        let tmp = paths.tmp();
        let log_dir = paths.log();
        let log = join_path(log_dir.as_str(), "mongodb.log");
        SpawnSpec::new("mongod").arg("--dbpath").arg(db.as_str()).arg("--port").arg(port.as_str()).arg(
            "--bind_ip",
        ).arg("127.0.0.1").arg("--unixSocketPrefix").arg(tmp.as_str()).arg("--logpath").arg(log.as_str()).arg(
            "--logappend",
        )
    }
}

} // verus!
