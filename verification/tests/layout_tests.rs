use laralux_core::layout::{apply_versions, extract_version, installed_versions, resolve_installed_version, sort_versions, version_key, version_warning};
use laralux_core::orchestrator::StackHost;
use laralux_core::paths::LaragonPaths;
use std::sync::Mutex;

struct Host {
    dirs: Vec<String>,
    set: Mutex<Vec<(String, String)>>,
}

impl StackHost for Host {
    fn reap(&self, _dir: &str, _keep: &[u32]) -> Vec<u32> {
        Vec::new()
    }
    fn is_dir(&self, path: &str) -> bool {
        self.dirs.iter().any(|d| d == path)
    }
    fn installed_versions(&self, _tool: &str) -> Vec<String> {
        Vec::new()
    }
    fn set_current(&self, tool: &str, version: &str) -> Result<(), String> {
        self.set.lock().unwrap().push((tool.to_string(), version.to_string()));
        Ok(())
    }
}

#[test]
fn installed_versions_lists_dirs_excluding_current() {
    let names = vec!["8.4.10".to_string(), "current".to_string(), "8.3.31".to_string()];
    assert_eq!(installed_versions(&names), vec!["8.3.31".to_string(), "8.4.10".to_string()]);
    assert!(installed_versions(&[]).is_empty());
}

#[test]
fn apply_versions_materializes_present_and_warns_missing() {
    let paths = LaragonPaths::new("/tmp/lara".to_string());
    let host = Host { dirs: vec!["/tmp/lara/bin/php/8.3.31".to_string()], set: Mutex::new(Vec::new()) };
    let versions = vec![("nginx".to_string(), "1.31.2".to_string()), ("php".to_string(), "8.3.31".to_string())];
    let (warnings, _) = apply_versions(&paths, &versions, &host);
    assert_eq!(*host.set.lock().unwrap(), vec![("php".to_string(), "8.3.31".to_string())]);
    assert_eq!(warnings, vec!["nginx: version 1.31.2 not installed".to_string()]);
}

#[test]
fn version_warning_reports_a_failed_link() {
    assert_eq!(version_warning("php", "8.3", true, Some(Err("denied".to_string()))), Some("php: set_current failed: denied".to_string()));
    assert_eq!(version_warning("php", "8.3", true, Some(Ok(()))), None);
}

#[test]
fn probe_version_extracts_semver() {
    assert_eq!(extract_version("v1.2.3 extra"), Some("1.2.3".to_string()));
    assert_eq!(extract_version("no version here"), None);
    assert_eq!(extract_version("Composer version 2.8.12 2025"), Some("2.8.12".to_string()));
    assert_eq!(extract_version("build 42 then 7.1"), Some("7.1".to_string()));
    assert_eq!(extract_version("1. 2"), None);
}

#[test]
fn resolve_installed_version_maps_minor_to_latest_patch() {
    let installed = vec!["8.3.31".to_string(), "8.3.40".to_string(), "8.4.10".to_string()];
    assert_eq!(resolve_installed_version("8.3", false, &installed), Some("8.3.40".to_string()));
    assert_eq!(resolve_installed_version("8.4.10", true, &installed), Some("8.4.10".to_string()));
    assert_eq!(resolve_installed_version("9.0", false, &installed), None);
}

#[test]
fn version_key_parses_numeric_parts() {
    assert_eq!(version_key("8.3.31"), vec![8, 3, 31]);
    assert_eq!(version_key("1.x.2"), vec![1, 0, 2]);
}

fn strs(v: &[&str]) -> Vec<String> {
    v.iter().map(|s| s.to_string()).collect()
}

#[test]
fn version_sorts_order_by_numeric_key() {
    let v = strs(&["8.3.1", "8.10.0", "8.4.2", "8.4.10"]);
    assert_eq!(sort_versions(v.clone(), false, true), strs(&["8.10.0", "8.4.10", "8.4.2", "8.3.1"]));
    assert_eq!(sort_versions(v.clone(), false, false), strs(&["8.3.1", "8.4.2", "8.4.10", "8.10.0"]));
    // By minor, equal keys keep their order.
    assert_eq!(sort_versions(v, true, true), strs(&["8.10.0", "8.4.2", "8.4.10", "8.3.1"]));
}
