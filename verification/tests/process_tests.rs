use laralux_core::process::{FakeSpawner, ProcessSpawner};
use laralux_core::service::SpawnSpec;

#[test]
fn fake_spawner_records_and_tracks_alive() {
    let spawner = FakeSpawner::new();
    let log = spawner.log();
    let mut p = spawner.spawn(&SpawnSpec::new("redis-server").arg("--port").arg("6379")).unwrap();
    assert!(p.is_alive());
    assert_eq!(log.len(), 1);
    assert_eq!(log.entries()[0].program, "redis-server");
    p.stop().unwrap();
    assert!(!p.is_alive());
}
