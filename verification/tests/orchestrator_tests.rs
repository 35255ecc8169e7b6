use laralux_core::orchestrator::{Orchestrator, StackHost};
use laralux_core::paths::LaragonPaths;
use laralux_core::process::{FakeSpawner, Process, ProcessSpawner};
use laralux_core::service::php_fpm::PhpFpmService;
use laralux_core::service::{Service, ServiceError, ServiceKind, ServiceState, SpawnSpec};

/// PHP-FPM as the library describes it, with no machine-side checks.
struct Php(PhpFpmService);

impl Service for Php {
    fn kind(&self) -> ServiceKind {
        ServiceKind::PhpFpm
    }
    fn name(&self) -> &str {
        "php-fpm"
    }
    fn command(&self, p: &LaragonPaths) -> SpawnSpec {
        self.0.command(p)
    }
    fn health_check(&self, _p: &LaragonPaths) -> Result<(), ServiceError> {
        Ok(())
    }
}

struct Dummy {
    kind: ServiceKind,
    name: &'static str,
}

impl Service for Dummy {
    fn kind(&self) -> ServiceKind {
        self.kind
    }
    fn name(&self) -> &str {
        self.name
    }
    fn command(&self, _p: &LaragonPaths) -> SpawnSpec {
        SpawnSpec::new(self.name)
    }
    fn health_check(&self, _p: &LaragonPaths) -> Result<(), ServiceError> {
        Ok(())
    }
}

struct DepDummy {
    kind: ServiceKind,
    deps: Vec<ServiceKind>,
}

impl Service for DepDummy {
    fn kind(&self) -> ServiceKind {
        self.kind
    }
    fn name(&self) -> &str {
        "dep"
    }
    fn deps(&self) -> Vec<ServiceKind> {
        self.deps.clone()
    }
    fn command(&self, _p: &LaragonPaths) -> SpawnSpec {
        SpawnSpec::new(&format!("{:?}", self.kind))
    }
    fn health_check(&self, _p: &LaragonPaths) -> Result<(), ServiceError> {
        Ok(())
    }
}

struct NoHost;

impl StackHost for NoHost {
    fn reap(&self, _dir: &str, _keep: &[u32]) -> Vec<u32> {
        Vec::new()
    }
    fn is_dir(&self, _path: &str) -> bool {
        true
    }
    fn installed_versions(&self, _tool: &str) -> Vec<String> {
        Vec::new()
    }
    fn set_current(&self, _tool: &str, _version: &str) -> Result<(), String> {
        Ok(())
    }
}

struct FailingSpawner;

impl ProcessSpawner for FailingSpawner {
    fn spawn(&self, _spec: &SpawnSpec) -> Result<Box<dyn Process>, String> {
        Err("spawn failed".to_string())
    }
}

fn paths() -> LaragonPaths {
    LaragonPaths::new("/tmp/lara".to_string())
}

fn orch(spawner: FakeSpawner) -> Orchestrator {
    let services: Vec<Box<dyn Service>> = vec![Box::new(Dummy { kind: ServiceKind::Redis, name: "redis-server" })];
    Orchestrator::new(paths(), services, Box::new(spawner))
}

#[test]
fn unknown_service_is_stopped() {
    let o = orch(FakeSpawner::new());
    assert_eq!(o.state(ServiceKind::Nginx), ServiceState::Stopped);
}

#[test]
fn start_then_stop_transitions_state() {
    let spawner = FakeSpawner::new();
    let log = spawner.log();
    let mut o = orch(spawner);
    o.start(ServiceKind::Redis).unwrap();
    assert_eq!(o.state(ServiceKind::Redis), ServiceState::Running);
    assert_eq!(log.len(), 1);
    o.stop(ServiceKind::Redis).unwrap();
    assert_eq!(o.state(ServiceKind::Redis), ServiceState::Stopped);
}

#[test]
fn starting_unregistered_kind_errors() {
    let mut o = orch(FakeSpawner::new());
    assert!(o.start(ServiceKind::Nginx).is_err());
}

#[test]
fn spawn_failure_reverts_state_to_stopped() {
    let services: Vec<Box<dyn Service>> = vec![Box::new(Dummy { kind: ServiceKind::Redis, name: "redis-server" })];
    let mut o = Orchestrator::new(paths(), services, Box::new(FailingSpawner));
    let result = o.start(ServiceKind::Redis);
    assert!(result.is_err());
    assert_eq!(o.state(ServiceKind::Redis), ServiceState::Stopped);
}

#[test]
fn start_order_respects_deps() {
    let services: Vec<Box<dyn Service>> = vec![
        Box::new(DepDummy { kind: ServiceKind::Nginx, deps: vec![ServiceKind::PhpFpm] }),
        Box::new(DepDummy { kind: ServiceKind::PhpFpm, deps: vec![ServiceKind::Mariadb] }),
        Box::new(DepDummy { kind: ServiceKind::Mariadb, deps: vec![] }),
    ];
    let o = Orchestrator::new(paths(), services, Box::new(FakeSpawner::new()));
    let order = o.start_order();
    let pos = |k| order.iter().position(|x| *x == k).unwrap();
    assert!(pos(ServiceKind::Mariadb) < pos(ServiceKind::PhpFpm));
    assert!(pos(ServiceKind::PhpFpm) < pos(ServiceKind::Nginx));
    assert_eq!(order.len(), 3);
}

#[test]
fn start_all_spawns_every_service_in_order() {
    let spawner = FakeSpawner::new();
    let log = spawner.log();
    let services: Vec<Box<dyn Service>> = vec![
        Box::new(DepDummy { kind: ServiceKind::Nginx, deps: vec![ServiceKind::PhpFpm] }),
        Box::new(DepDummy { kind: ServiceKind::PhpFpm, deps: vec![] }),
    ];
    let mut o = Orchestrator::new(paths(), services, Box::new(spawner));
    o.start_all(&NoHost).unwrap();
    let log = log.entries();
    assert_eq!(log.len(), 2);
    assert_eq!(log[0].program, "PhpFpm");
    assert_eq!(log[1].program, "Nginx");
}

#[test]
fn snapshot_lists_services_with_states() {
    let spawner = FakeSpawner::new();
    let services: Vec<Box<dyn Service>> = vec![Box::new(Dummy { kind: ServiceKind::Redis, name: "redis-server" })];
    let mut o = Orchestrator::new(paths(), services, Box::new(spawner));
    let before = o.snapshot();
    assert_eq!(before.len(), 1);
    assert_eq!(before[0].kind, ServiceKind::Redis);
    assert_eq!(before[0].state, ServiceState::Stopped);
    o.start(ServiceKind::Redis).unwrap();
    let after = o.snapshot();
    assert_eq!(after[0].state, ServiceState::Running);
}

#[test]
fn replace_php_version_restarts_when_running() {
    let spawner = FakeSpawner::new();
    let log = spawner.log();
    let services: Vec<Box<dyn Service>> = vec![Box::new(Php(PhpFpmService::new("8.4")))];
    let mut o = Orchestrator::new(paths(), services, Box::new(spawner));
    o.start(ServiceKind::PhpFpm).unwrap();
    let was_running = o.replace_php_version("8.3", &NoHost).unwrap();
    assert!(was_running);
    assert_eq!(o.state(ServiceKind::PhpFpm), ServiceState::Running);
    assert_eq!(log.entries().last().unwrap().program, "php-fpm");
    assert_eq!(log.len(), 2);
}

#[test]
fn replace_php_version_leaves_stopped_service_stopped() {
    let services: Vec<Box<dyn Service>> = vec![Box::new(Dummy { kind: ServiceKind::PhpFpm, name: "php-fpm" })];
    let mut o = Orchestrator::new(paths(), services, Box::new(FakeSpawner::new()));
    let was_running = o.replace_php_version("8.3", &NoHost).unwrap();
    assert!(!was_running);
    assert_eq!(o.state(ServiceKind::PhpFpm), ServiceState::Stopped);
}

#[test]
fn set_coredns_runs_when_given_and_stops_when_removed() {
    let spawner = FakeSpawner::new();
    let log = spawner.log();
    let mut o = Orchestrator::new(paths(), vec![], Box::new(spawner));
    o.set_coredns(Some(Box::new(Dummy { kind: ServiceKind::Coredns, name: "coredns" }))).unwrap();
    assert_eq!(o.state(ServiceKind::Coredns), ServiceState::Running);
    assert_eq!(log.entries().last().unwrap().program, "coredns");
    o.set_coredns(None).unwrap();
    assert_eq!(o.state(ServiceKind::Coredns), ServiceState::Stopped);
}

struct RecordingHost {
    installed: Vec<String>,
    fail: bool,
    calls: std::sync::Mutex<Vec<String>>,
}

impl StackHost for RecordingHost {
    fn reap(&self, dir: &str, _keep: &[u32]) -> Vec<u32> {
        self.calls.lock().unwrap().push(format!("reap {dir}"));
        Vec::new()
    }
    fn is_dir(&self, path: &str) -> bool {
        self.calls.lock().unwrap().push(format!("is_dir {path}"));
        false
    }
    fn installed_versions(&self, tool: &str) -> Vec<String> {
        self.calls.lock().unwrap().push(format!("installed {tool}"));
        self.installed.clone()
    }
    fn set_current(&self, tool: &str, version: &str) -> Result<(), String> {
        self.calls.lock().unwrap().push(format!("set_current {tool} {version}"));
        if self.fail {
            Err("denied".to_string())
        } else {
            Ok(())
        }
    }
}

#[test]
fn replacing_a_version_points_the_link_at_the_resolved_install() {
    let host = RecordingHost {
        installed: vec!["8.3.10".to_string(), "8.3.31".to_string(), "8.4.1".to_string()],
        fail: false,
        calls: std::sync::Mutex::new(Vec::new()),
    };
    let services: Vec<Box<dyn Service>> = vec![Box::new(Dummy { kind: ServiceKind::PhpFpm, name: "php-fpm" })];
    let mut o = Orchestrator::new(paths(), services, Box::new(FakeSpawner::new()));
    assert!(!o.replace_php_version("8.3", &host).unwrap());
    assert_eq!(
        *host.calls.lock().unwrap(),
        vec![
            "reap /tmp/lara/bin/php".to_string(),
            "is_dir /tmp/lara/bin/php/8.3".to_string(),
            "installed php".to_string(),
            "set_current php 8.3.31".to_string(),
        ]
    );
    let failing = RecordingHost { installed: Vec::new(), fail: true, calls: std::sync::Mutex::new(Vec::new()) };
    match o.replace_version(ServiceKind::Mariadb, "mariadb", "11.4", &failing) {
        Err(ServiceError::Config(m)) => assert_eq!(m, "set mariadb current: denied"),
        other => panic!("unexpected: {other:?}"),
    }
    assert_eq!(failing.calls.lock().unwrap().last().unwrap(), "set_current mariadb 11.4");
}
