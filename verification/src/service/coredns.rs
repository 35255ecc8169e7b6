use crate::coredns::{corefile, zones};
use crate::paths::LaragonPaths;
use crate::service::{arg_views, ServiceKind, SpawnSpec};
use crate::text::{join_path, path_join};
use vstd::prelude::*;

verus! {

/// CoreDNS answering every name under the given base domains.
pub struct CorednsService {
    pub bases: Vec<String>,
    pub port: u16,
}

impl CorednsService {
    pub fn new(bases: Vec<String>, port: u16) -> (s: CorednsService)
        ensures
            s.bases@ == bases@,
            s.port == port,
    {
        CorednsService { bases, port }
    }

    pub fn kind(&self) -> (k: ServiceKind)
        ensures
            k == ServiceKind::Coredns,
    {
        ServiceKind::Coredns
    }

    pub fn name(&self) -> (n: &'static str)
        ensures
            n@ == "coredns"@,
    {
        "coredns"
    }

    pub fn deps(&self) -> (d: Vec<ServiceKind>)
        ensures
            d@.len() == 0,
    {
        Vec::new()
    }

    pub open spec fn spec_conf_path(paths: LaragonPaths) -> Seq<char> {
        path_join(paths.spec_etc_for("coredns"@), "Corefile"@)
    }

    /// `etc/coredns/Corefile`.
    pub fn conf_path(&self, paths: &LaragonPaths) -> (p: String)
        ensures
            p@ == Self::spec_conf_path(*paths),
    {
        let etc = paths.etc_for("coredns");
        join_path(etc.as_str(), "Corefile")
    }

    /// `coredns -conf <Corefile>`.
    pub fn command(&self, paths: &LaragonPaths) -> (s: SpawnSpec)
        ensures
            s.program@ == "coredns"@,
            arg_views(s.args@) == seq!["-conf"@, Self::spec_conf_path(*paths)],
    {
        let conf = self.conf_path(paths);
        SpawnSpec::new("coredns").arg("-conf").arg(conf.as_str())
    }

    /// The Corefile: one zone per base.
    pub fn config_text(&self) -> (s: String)
        ensures
            s@ == zones(self.bases@.map_values(|b: String| b@), self.port),
    {
        corefile(self.bases.as_slice(), self.port)
    }
}

} // verus!
