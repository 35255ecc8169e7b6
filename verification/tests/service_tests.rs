use laralux_core::config::Config;
use laralux_core::paths::LaragonPaths;
use laralux_core::service::mailpit::MailpitService;
use laralux_core::service::mariadb::MariadbService;
use laralux_core::service::mongodb::MongodbService;
use laralux_core::service::nginx::NginxService;
use laralux_core::service::php_fpm::PhpFpmService;
use laralux_core::service::redis::RedisService;
use laralux_core::service::registry::build_services;
use laralux_core::service::{Service, ServiceError, ServiceKind, SpawnSpec};

struct Fake;

impl Service for Fake {
    fn kind(&self) -> ServiceKind {
        ServiceKind::Redis
    }
    fn name(&self) -> &str {
        "fake"
    }
    fn command(&self, _paths: &LaragonPaths) -> SpawnSpec {
        SpawnSpec::new("true")
    }
    fn health_check(&self, _paths: &LaragonPaths) -> Result<(), ServiceError> {
        Ok(())
    }
}

fn lara() -> LaragonPaths {
    LaragonPaths::new("/tmp/lara".to_string())
}

#[test]
fn trait_defaults_work() {
    let f = Fake;
    let p = LaragonPaths::new("/tmp/x".to_string());
    assert_eq!(f.name(), "fake");
    assert_eq!(f.kind(), ServiceKind::Redis);
    assert!(f.deps().is_empty());
    assert!(!f.needs_init(&p));
    assert_eq!(f.command(&p).program, "true");
}

#[test]
fn spawnspec_builder_sets_fields() {
    let s = SpawnSpec::new("nginx").arg("-t").env("FOO", "bar");
    assert_eq!(s.program, "nginx");
    assert_eq!(s.args, vec!["-t".to_string()]);
    assert_eq!(s.env, vec![("FOO".to_string(), "bar".to_string())]);
}

#[test]
fn command_sets_listen_and_smtp_flags() {
    let svc = MailpitService::new();
    let spec = svc.command(&lara());
    assert_eq!(spec.program, "mailpit");
    let joined = spec.args.join(" ");
    assert!(joined.contains("--listen"));
    assert!(joined.contains("8025"));
    assert!(joined.contains("--smtp"));
    assert!(joined.contains("1025"));
    assert_eq!(svc.kind(), ServiceKind::Mailpit);
}

#[test]
fn mariadb_command_and_kind() {
    let svc = MariadbService::new();
    let spec = svc.command(&lara());
    assert_eq!(spec.program, "mariadbd");
    assert!(spec.args.iter().any(|a| a.contains("--defaults-file=")));
    assert!(spec.args.iter().any(|a| a.starts_with("--basedir=")));
    assert_eq!(svc.kind(), ServiceKind::Mariadb);
}

#[test]
fn install_db_args_use_no_defaults_not_defaults_file() {
    let svc = MariadbService::new();
    let args = svc.install_db_args(&lara());
    assert!(args.contains(&"--no-defaults".to_string()));
    assert!(args.iter().any(|a| a.starts_with("--datadir=")));
    assert!(args.iter().any(|a| a.contains("auth-root-authentication-method=normal")));
    assert!(!args.iter().any(|a| a.contains("--defaults-file")));
    assert!(args.iter().any(|a| a.starts_with("--basedir=")));
}

#[test]
fn mariadb_config_sets_datadir_and_port() {
    let conf = MariadbService::new().config_text(&lara());
    assert!(conf.contains("datadir"));
    assert!(conf.contains("port=3306") || conf.contains("port = 3306"));
}

#[test]
fn mongodb_command_and_kind() {
    let svc = MongodbService::new();
    let spec = svc.command(&lara());
    assert_eq!(spec.program, "mongod");
    assert!(spec.args.iter().any(|a| a == "--dbpath"));
    assert!(spec.args.iter().any(|a| a == "27017"));
    assert!(spec.args.iter().any(|a| a == "127.0.0.1"));
    assert!(spec.args.iter().any(|a| a.ends_with("mongodb.log")));
    assert!(spec.args.iter().any(|a| a == "--unixSocketPrefix"));
    assert_eq!(svc.kind(), ServiceKind::Mongodb);
    assert_eq!(svc.name(), "mongodb");
}

#[test]
fn command_runs_nginx_with_prefix_and_daemon_off() {
    let svc = NginxService::new("/tmp/lara/tmp/php-fpm.sock".to_string());
    let spec = svc.command(&lara());
    assert_eq!(spec.program, "nginx");
    let joined = spec.args.join(" ");
    assert!(joined.contains("-p"));
    assert!(joined.contains("daemon off;"));
    assert_eq!(svc.kind(), ServiceKind::Nginx);
    assert_eq!(svc.deps(), vec![ServiceKind::PhpFpm]);
}

#[test]
fn nginx_config_wires_php_socket_sites_and_websocket_map() {
    let p = lara();
    let sock = "/tmp/lara/tmp/php-fpm.sock".to_string();
    let conf = NginxService::new(sock.clone()).config_text(&p);
    assert!(conf.contains(&format!("fastcgi_pass unix:{}", sock)));
    assert!(conf.contains("listen 80"));
    assert!(conf.contains("sites/*.conf"));
    assert!(conf.contains("map $http_upgrade $connection_upgrade"));
}

#[test]
fn command_uses_versioned_binary_and_foreground() {
    let svc = PhpFpmService::new("8.4");
    let spec = svc.command(&lara());
    // The binary is the `php-fpm` of the active PHP's `current` folder (on
    // the managed PATH), not a versioned `php-fpm8.4`: the orchestrator's
    // version switch expects the spawned program to read `php-fpm`.
    assert_eq!(spec.program, "php-fpm");
    assert!(spec.args.contains(&"-F".to_string()));
    assert!(spec.args.iter().any(|a| a.ends_with("php-fpm.conf")));
    assert_eq!(svc.kind(), ServiceKind::PhpFpm);
}

#[test]
fn socket_path_is_under_tmp() {
    let svc = PhpFpmService::new("8.4");
    assert_eq!(svc.socket_path(&lara()), "/tmp/lara/tmp/php-fpm.sock");
}

#[test]
fn php_fpm_config_defines_pool_with_socket_and_no_user() {
    let conf = PhpFpmService::new("8.4").config_text(&lara());
    assert!(conf.contains("[www]"));
    assert!(conf.contains("listen = "));
    assert!(conf.contains("php-fpm.sock"));
    assert!(!conf.contains("user ="));
}

#[test]
fn command_runs_redis_server_with_conf() {
    let svc = RedisService::new();
    let spec = svc.command(&lara());
    assert_eq!(spec.program, "redis-server");
    assert!(spec.args.iter().any(|a| a.ends_with("etc/redis/redis.conf")));
    assert_eq!(svc.kind(), ServiceKind::Redis);
}

#[test]
fn redis_config_has_port_and_dir() {
    let conf = RedisService::new().config_text(&lara());
    assert!(conf.contains("port 6379"));
    assert!(conf.contains("dir "));
}

#[test]
fn builds_all_enabled_services() {
    let cfg = Config::default();
    let svcs = build_services(&cfg, &lara());
    let kinds: Vec<ServiceKind> = svcs.iter().map(|s| s.kind()).collect();
    for k in [ServiceKind::Nginx, ServiceKind::PhpFpm, ServiceKind::Mariadb, ServiceKind::Redis, ServiceKind::Mailpit] {
        assert!(kinds.contains(&k), "missing {k:?}");
    }
}

#[test]
fn omits_disabled_services() {
    let mut cfg = Config::default();
    cfg.services.redis = false;
    cfg.services.mailpit = false;
    let kinds: Vec<ServiceKind> = build_services(&cfg, &lara()).iter().map(|s| s.kind()).collect();
    assert!(!kinds.contains(&ServiceKind::Redis));
    assert!(!kinds.contains(&ServiceKind::Mailpit));
    assert!(kinds.contains(&ServiceKind::Nginx));
}
