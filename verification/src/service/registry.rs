use crate::config::Config;
use crate::paths::LaragonPaths;
use crate::service::coredns::CorednsService;
use crate::service::mailpit::MailpitService;
use crate::service::mariadb::MariadbService;
use crate::service::mongodb::MongodbService;
use crate::service::nginx::NginxService;
use crate::service::php_fpm::PhpFpmService;
use crate::service::redis::RedisService;
use crate::service::{ServiceKind, SpawnSpec};
use crate::text::path_join;
use vstd::prelude::*;

verus! {

/// One of the services the stack manages.
pub enum ManagedService {
    Nginx(NginxService),
    PhpFpm(PhpFpmService),
    Mariadb(MariadbService),
    Redis(RedisService),
    Mailpit(MailpitService),
    Coredns(CorednsService),
    Mongodb(MongodbService),
}

pub open spec fn managed_kind(m: ManagedService) -> ServiceKind {
    match m {
        ManagedService::Nginx(_) => ServiceKind::Nginx,
        ManagedService::PhpFpm(_) => ServiceKind::PhpFpm,
        ManagedService::Mariadb(_) => ServiceKind::Mariadb,
        ManagedService::Redis(_) => ServiceKind::Redis,
        ManagedService::Mailpit(_) => ServiceKind::Mailpit,
        ManagedService::Coredns(_) => ServiceKind::Coredns,
        ManagedService::Mongodb(_) => ServiceKind::Mongodb,
    }
}

/// The name of the service.
pub open spec fn managed_name(m: ManagedService) -> Seq<char> {
    match m {
        ManagedService::Nginx(_) => "nginx"@,
        ManagedService::PhpFpm(_) => "php-fpm"@,
        ManagedService::Mariadb(_) => "mariadb"@,
        ManagedService::Redis(_) => "redis"@,
        ManagedService::Mailpit(_) => "mailpit"@,
        ManagedService::Coredns(_) => "coredns"@,
        ManagedService::Mongodb(_) => "mongodb"@,
    }
}

/// The program the service runs.
pub open spec fn managed_program(m: ManagedService) -> Seq<char> {
    match m {
        ManagedService::Nginx(_) => "nginx"@,
        ManagedService::PhpFpm(_) => "php-fpm"@,
        ManagedService::Mariadb(_) => "mariadbd"@,
        ManagedService::Redis(_) => "redis-server"@,
        ManagedService::Mailpit(_) => "mailpit"@,
        ManagedService::Coredns(_) => "coredns"@,
        ManagedService::Mongodb(_) => "mongod"@,
    }
}

impl ManagedService {
    pub fn kind(&self) -> (k: ServiceKind)
        ensures
            k == managed_kind(*self),
    {
        match self {
            ManagedService::Nginx(s) => s.kind(),
            ManagedService::PhpFpm(s) => s.kind(),
            ManagedService::Mariadb(s) => s.kind(),
            ManagedService::Redis(s) => s.kind(),
            ManagedService::Mailpit(s) => s.kind(),
            ManagedService::Coredns(s) => s.kind(),
            ManagedService::Mongodb(s) => s.kind(),
        }
    }

    pub fn name(&self) -> (n: &'static str)
        ensures
            n@ == managed_name(*self),
    {
        match self {
            ManagedService::Nginx(s) => s.name(),
            ManagedService::PhpFpm(s) => s.name(),
            ManagedService::Mariadb(s) => s.name(),
            ManagedService::Redis(s) => s.name(),
            ManagedService::Mailpit(s) => s.name(),
            ManagedService::Coredns(s) => s.name(),
            ManagedService::Mongodb(s) => s.name(),
        }
    }

    /// Only nginx depends on another service (php-fpm).
    pub fn deps(&self) -> (d: Vec<ServiceKind>)
        ensures
            managed_kind(*self) == ServiceKind::Nginx ==> d@ == seq![ServiceKind::PhpFpm],
            managed_kind(*self) != ServiceKind::Nginx ==> d@.len() == 0,
    {
        match self {
            ManagedService::Nginx(s) => s.deps(),
            ManagedService::PhpFpm(s) => s.deps(),
            ManagedService::Mariadb(s) => s.deps(),
            ManagedService::Redis(s) => s.deps(),
            ManagedService::Mailpit(s) => s.deps(),
            ManagedService::Coredns(s) => s.deps(),
            ManagedService::Mongodb(s) => s.deps(),
        }
    }

    pub fn command(&self, paths: &LaragonPaths) -> (s: SpawnSpec)
        ensures
            s.program@ == managed_program(*self),
    {
        match self {
            ManagedService::Nginx(s) => s.command(paths),
            ManagedService::PhpFpm(s) => s.command(paths),
            ManagedService::Mariadb(s) => s.command(paths),
            ManagedService::Redis(s) => s.command(paths),
            ManagedService::Mailpit(s) => s.command(paths),
            ManagedService::Coredns(s) => s.command(paths),
            ManagedService::Mongodb(s) => s.command(paths),
        }
    }
}

/// The kinds enabled in `config`, in the order they are registered.
pub open spec fn enabled_kinds(config: Config) -> Seq<ServiceKind> {
    (if config.services.mariadb { seq![ServiceKind::Mariadb] } else { seq![] })
        + (if config.services.redis { seq![ServiceKind::Redis] } else { seq![] })
        + (if config.services.php { seq![ServiceKind::PhpFpm] } else { seq![] })
        + (if config.services.nginx { seq![ServiceKind::Nginx] } else { seq![] })
        + (if config.services.mailpit { seq![ServiceKind::Mailpit] } else { seq![] })
}

/// Build the set of services enabled in `config`, wiring nginx to the
/// php-fpm socket for the configured PHP version.
pub fn build_services(config: &Config, paths: &LaragonPaths) -> (v: Vec<ManagedService>)
    ensures
        v@.map_values(|m: ManagedService| managed_kind(m)) == enabled_kinds(*config),
        forall|i: int| 0 <= i < v@.len() ==> (#[trigger] v@[i] matches ManagedService::Nginx(n) ==> n.php_socket@ == path_join(
            paths.spec_tmp(),
            "php-fpm.sock"@,
        )),
        forall|i: int| 0 <= i < v@.len() ==> (#[trigger] v@[i] matches ManagedService::PhpFpm(p) ==> p.version@ == config.php_version@),
{
    let mut services: Vec<ManagedService> = Vec::new();
    let php = PhpFpmService::new(config.php_version.as_str());
    let php_socket = php.socket_path(paths);
    if config.services.mariadb {
        services.push(ManagedService::Mariadb(MariadbService::new()));
    }
    if config.services.redis {
        services.push(ManagedService::Redis(RedisService::new()));
    }
    if config.services.php {
        services.push(ManagedService::PhpFpm(php));
    }
    if config.services.nginx {
        services.push(ManagedService::Nginx(NginxService::new(php_socket)));
    }
    if config.services.mailpit {
        services.push(ManagedService::Mailpit(MailpitService::new()));
    }
    assert(services@.map_values(|m: ManagedService| managed_kind(m)) =~= enabled_kinds(*config));
    services
}

} // verus!
