use laralux_core::paths::LaragonPaths;
use laralux_core::process::{FakeSpawner, Process, ProcessSpawner};
use laralux_core::procfile::ProcEntry;
use laralux_core::service::{ServiceState, SpawnSpec};
use laralux_core::site_procs::{record_alive, record_death, SiteProcs, Supervised, MAX_RESTARTS, STABLE_AFTER_MS};
use std::sync::atomic::{AtomicBool, AtomicUsize, Ordering};
use std::sync::Arc;

fn paths() -> LaragonPaths {
    LaragonPaths::new("/tmp/lara-sp".to_string())
}

struct ControlledProc {
    alive: Arc<AtomicBool>,
    stop_asked: bool,
}

impl Process for ControlledProc {
    fn process_id(&self) -> u32 {
        7
    }
    fn stopped(&self) -> bool {
        self.stop_asked
    }
    fn is_alive(&mut self) -> bool {
        self.alive.load(Ordering::SeqCst)
    }
    fn stop(&mut self) -> Result<(), String> {
        self.stop_asked = true;
        self.alive.store(false, Ordering::SeqCst);
        Ok(())
    }
    fn reload(&mut self) -> Result<(), String> {
        Ok(())
    }
    fn pid(&self) -> u32 {
        7
    }
}

struct ControlledSpawner {
    alive: Arc<AtomicBool>,
    spawns: Arc<AtomicUsize>,
}

impl ProcessSpawner for ControlledSpawner {
    fn spawn(&self, _spec: &SpawnSpec) -> Result<Box<dyn Process>, String> {
        self.spawns.fetch_add(1, Ordering::SeqCst);
        Ok(Box::new(ControlledProc { alive: self.alive.clone(), stop_asked: false }))
    }
}

fn supervised() -> (SiteProcs, Arc<AtomicBool>, Arc<AtomicUsize>) {
    let alive = Arc::new(AtomicBool::new(false));
    let spawns = Arc::new(AtomicUsize::new(0));
    let sp = SiteProcs::new(paths(), Box::new(ControlledSpawner { alive: alive.clone(), spawns: spawns.clone() }));
    (sp, alive, spawns)
}

#[test]
fn start_records_shell_spec_with_cwd_and_path() {
    let spawner = FakeSpawner::new();
    let log = spawner.log();
    let mut sp = SiteProcs::new(paths(), Box::new(spawner));
    sp.start("blog", "/srv/blog", "web", "php artisan serve", 0).unwrap();
    let recorded = log.entries();
    assert_eq!(recorded.len(), 1);
    let spec = &recorded[0];
    assert_eq!(spec.program, "sh");
    assert_eq!(spec.args[0], "-c");
    assert!(spec.args[1].contains("exec php artisan serve"));
    assert!(spec.args[1].contains("proc-blog-web.log"));
    assert!(spec.args[1].contains(">>"));
    assert_eq!(spec.cwd.as_deref(), Some("/srv/blog"));
    assert!(spec.env.iter().any(|(k, _)| k == "PATH"));
}

#[test]
fn start_is_idempotent_for_live_handle() {
    let spawner = FakeSpawner::new();
    let log = spawner.log();
    let mut sp = SiteProcs::new(paths(), Box::new(spawner));
    sp.start("s", "/x", "w", "sleep 1", 0).unwrap();
    sp.start("s", "/x", "w", "sleep 1", 0).unwrap();
    assert_eq!(log.len(), 1);
    assert_eq!(sp.state_of("s", "w"), ServiceState::Running);
    assert!(sp.pid_of("s", "w").is_some());
}

#[test]
fn start_site_starts_every_entry() {
    let spawner = FakeSpawner::new();
    let log = spawner.log();
    let mut sp = SiteProcs::new(paths(), Box::new(spawner));
    let entries = vec![
        ProcEntry { name: "web".to_string(), command: "sleep 1".to_string() },
        ProcEntry { name: "queue".to_string(), command: "sleep 1".to_string() },
    ];
    sp.start_site("blog", "/srv/blog", &entries, 0);
    assert_eq!(log.len(), 2);
}

#[test]
fn stop_sets_stopped_and_drops_handle() {
    let mut sp = SiteProcs::new(paths(), Box::new(FakeSpawner::new()));
    sp.start("s", "/x", "w", "sleep 1", 0).unwrap();
    sp.stop("s", "w");
    assert_eq!(sp.state_of("s", "w"), ServiceState::Stopped);
    assert!(sp.pid_of("s", "w").is_none());
}

#[test]
fn refresh_marks_dead_handle_crashed() {
    let (mut sp, _alive, _spawns) = supervised();
    sp.start("s", "/x", "w", "sleep 1", 0).unwrap();
    sp.tick_at(0);
    assert_eq!(sp.state_of("s", "w"), ServiceState::Crashed);
    assert!(sp.pid_of("s", "w").is_none());
}

#[test]
fn state_of_defaults_stopped() {
    let sp = SiteProcs::new(paths(), Box::new(FakeSpawner::new()));
    assert_eq!(sp.state_of("nope", "nope"), ServiceState::Stopped);
}

#[test]
fn dead_proc_is_retried_with_backoff_then_given_up() {
    let (mut sp, _alive, spawns) = supervised();
    sp.start("site", "/tmp", "web", "true", 0).unwrap();
    assert_eq!(spawns.load(Ordering::SeqCst), 1);
    let mut at: u64 = 1_000_000;
    for (i, wait) in [1000u64, 5000, 15000, 30000].iter().enumerate() {
        sp.tick_at(at);
        assert_eq!(sp.failures_of("site", "web"), i as u32 + 1);
        sp.tick_at(at + *wait - 1);
        assert_eq!(spawns.load(Ordering::SeqCst), i + 1, "not due yet, no respawn");
        at += *wait;
        sp.tick_at(at);
        assert_eq!(spawns.load(Ordering::SeqCst), i + 2, "due, respawned");
        at += 1;
    }
    sp.tick_at(at);
    assert_eq!(sp.failures_of("site", "web"), 5);
    assert_eq!(sp.state_of("site", "web"), ServiceState::Crashed);
    let after_giveup = spawns.load(Ordering::SeqCst);
    sp.tick_at(at + 3_600_000);
    assert_eq!(spawns.load(Ordering::SeqCst), after_giveup, "never respawned after giving up");
}

#[test]
fn staying_alive_long_enough_resets_the_failure_counter() {
    let (mut sp, alive, _spawns) = supervised();
    sp.start("site", "/tmp", "web", "true", 0).unwrap();
    let t: u64 = 500_000;
    sp.tick_at(t);
    assert_eq!(sp.failures_of("site", "web"), 1);
    alive.store(true, Ordering::SeqCst);
    let respawned = t + 1000;
    sp.tick_at(respawned);
    assert_eq!(sp.state_of("site", "web"), ServiceState::Running);
    sp.tick_at(respawned + 29_000);
    assert_eq!(sp.failures_of("site", "web"), 1);
    sp.tick_at(respawned + 30_000);
    assert_eq!(sp.failures_of("site", "web"), 0);
}

#[test]
fn manual_stop_is_never_respawned() {
    let (mut sp, _alive, spawns) = supervised();
    sp.start("site", "/tmp", "web", "true", 0).unwrap();
    sp.stop("site", "web");
    let before = spawns.load(Ordering::SeqCst);
    sp.tick_at(600_000);
    assert_eq!(sp.state_of("site", "web"), ServiceState::Stopped);
    assert_eq!(sp.failures_of("site", "web"), 0);
    assert_eq!(spawns.load(Ordering::SeqCst), before, "a manual stop is not revived");
}

#[test]
fn manual_start_resets_the_failure_counter() {
    let (mut sp, _alive, _spawns) = supervised();
    sp.start("site", "/tmp", "web", "true", 0).unwrap();
    sp.tick_at(100);
    assert!(sp.failures_of("site", "web") > 0);
    sp.start("site", "/tmp", "web", "true", 200).unwrap();
    assert_eq!(sp.failures_of("site", "web"), 0);
}

#[test]
fn supervision_steps_follow_the_backoff_table() {
    let mut s = Supervised {
        root: "/srv/blog".to_string(),
        command: "php artisan queue:work".to_string(),
        failures: 0,
        started_at: 0,
        next_attempt_at: None,
        supervised: true,
    };
    record_death(&mut s, 10_000);
    assert_eq!((s.failures, s.next_attempt_at, s.supervised), (1, Some(11_000), true));
    record_death(&mut s, 20_000);
    assert_eq!((s.failures, s.next_attempt_at), (2, Some(25_000)));
    record_death(&mut s, 30_000);
    record_death(&mut s, 40_000);
    assert_eq!((s.failures, s.next_attempt_at), (4, Some(70_000)));
    record_death(&mut s, 50_000);
    assert_eq!((s.failures, s.next_attempt_at, s.supervised), (MAX_RESTARTS, None, false));
    // given up: further deaths count nothing
    record_death(&mut s, 60_000);
    assert_eq!(s.failures, MAX_RESTARTS);
    assert_eq!(s.root, "/srv/blog");

    let mut up = Supervised { root: String::new(), command: String::new(), failures: 3, started_at: 1_000, next_attempt_at: None, supervised: true };
    record_alive(&mut up, 1_000 + STABLE_AFTER_MS - 1);
    assert_eq!(up.failures, 3);
    record_alive(&mut up, 1_000 + STABLE_AFTER_MS);
    assert_eq!(up.failures, 0);
}
