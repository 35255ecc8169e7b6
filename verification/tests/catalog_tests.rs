use laralux_core::nginx_static::{latest_nginx, nginx_arch};
use laralux_core::php_cli::{composer_catalog_versions, composer_versioned_url, parse_composer_versions, COMPOSER_URL};
use laralux_core::php_static::{arch_from, latest_patch, STATIC_PHP_BASE};
use laralux_core::php_versions::{installed_minors, php_versions, php_versions_from};

const IDX: &str = r#"[
  {"name":"nginx","version":"1.24.0","arch":"x86_64","os":"linux","filename":"nginx-1.24.0-x86_64-linux"},
  {"name":"nginx","version":"1.31.2","arch":"x86_64","os":"linux","filename":"nginx-1.31.2-x86_64-linux"},
  {"name":"nginx","version":"1.31.2","arch":"aarch64","os":"linux","filename":"nginx-1.31.2-aarch64-linux"},
  {"name":"nginx","version":"1.9.0","arch":"x86_64","os":"linux","filename":"nginx-1.9.0-x86_64-linux"},
  {"name":"njs","version":"9.9.9","arch":"x86_64","os":"linux","filename":"x"}
]"#;

#[test]
fn picks_highest_linux_x86_64() {
    let (v, f) = latest_nginx("x86_64", IDX).unwrap();
    assert_eq!(v, "1.31.2");
    assert_eq!(f, "nginx-1.31.2-x86_64-linux");
    assert!(latest_nginx("riscv64", IDX).is_none());
}

#[test]
fn parses_real_contents_wrapped_index() {
    let wrapped = r#"{"formatVersion":2,"contents":[
      {"name":"nginx","version":"1.24.0","arch":"x86_64","os":"linux","filename":"nginx-1.24.0-x86_64-linux"},
      {"name":"nginx","version":"1.31.2","arch":"x86_64","os":"linux","filename":"nginx-1.31.2-x86_64-linux"}
    ]}"#;
    let (v, f) = latest_nginx("x86_64", wrapped).unwrap();
    assert_eq!(v, "1.31.2");
    assert_eq!(f, "nginx-1.31.2-x86_64-linux");
    assert!(latest_nginx("x86_64", "not json").is_none());
}

#[test]
fn nginx_arch_maps() {
    assert_eq!(nginx_arch("x86_64"), Some("x86_64"));
    assert_eq!(nginx_arch("riscv64"), None);
}

const SAMPLE: &str = r#"[
  {"name":"license/","is_dir":true},
  {"name":"php-8.3.31-fpm-linux-x86_64.tar.gz"},
  {"name":"php-8.4.9-fpm-linux-x86_64.tar.gz"},
  {"name":"php-8.4.22-fpm-linux-x86_64.tar.gz"},
  {"name":"php-8.4.22-cli-linux-x86_64.tar.gz"},
  {"name":"php-8.4.30-fpm-linux-aarch64.tar.gz"}
]"#;

#[test]
fn latest_patch_picks_highest_patch_for_arch_and_sapi() {
    let (ver, url) = latest_patch("8.4", "x86_64", "fpm", SAMPLE).unwrap();
    assert_eq!(ver, "8.4.22");
    assert_eq!(url, format!("{STATIC_PHP_BASE}/php-8.4.22-fpm-linux-x86_64.tar.gz"));
    let (ver2, url2) = latest_patch("8.4", "x86_64", "cli", SAMPLE).unwrap();
    assert_eq!(ver2, "8.4.22");
    assert_eq!(url2, format!("{STATIC_PHP_BASE}/php-8.4.22-cli-linux-x86_64.tar.gz"));
    assert!(latest_patch("7.4", "x86_64", "fpm", SAMPLE).is_none());
}

#[test]
fn latest_patch_none_for_missing_version_or_arch() {
    assert!(latest_patch("7.4", "x86_64", "fpm", SAMPLE).is_none());
    assert!(latest_patch("8.4", "riscv64", "fpm", SAMPLE).is_none());
    assert!(latest_patch("8.4", "x86_64", "fpm", "{}").is_none());
}

#[test]
fn arch_tag_maps_known() {
    assert_eq!(arch_from("x86_64"), Some("x86_64"));
    assert_eq!(arch_from("aarch64"), Some("aarch64"));
    assert_eq!(arch_from("riscv64"), None);
}

const VERSIONS_JSON: &str = r#"{
    "stable": [{"path": "/download/2.11.0/composer.phar", "version": "2.11.0"},
               {"path": "/download/2.2.31/composer.phar", "version": "2.2.31"}],
    "preview": [{"path": "/download/2.12.0-RC1/composer.phar", "version": "2.12.0-RC1"}],
    "snapshot": [{"path": "/composer.phar", "version": "abc123"}]
}"#;

#[test]
fn composer_url_is_stable_channel_not_snapshot() {
    assert!(COMPOSER_URL.contains("latest-stable"));
}

#[test]
fn parse_composer_versions_keeps_only_stable() {
    assert_eq!(parse_composer_versions(VERSIONS_JSON), vec!["2.11.0", "2.2.31"]);
    assert!(parse_composer_versions("not json").is_empty());
}

#[test]
fn catalog_merges_cached_feed_with_known_list() {
    assert_eq!(composer_catalog_versions("").len(), 4);
    let vs = composer_catalog_versions(VERSIONS_JSON);
    assert!(vs.contains(&"2.11.0".to_string()) && vs.contains(&"2.2.31".to_string()));
    assert!(!vs.iter().any(|v| v.contains("RC") || v == "abc123"));
    assert_eq!(vs.len(), 6);
}

#[test]
fn composer_versioned_url_points_at_release() {
    assert_eq!(composer_versioned_url("2.9.7"), "https://getcomposer.org/download/2.9.7/composer.phar");
}

#[test]
fn php_versions_marks_installed_and_active() {
    let infos = php_versions_from(&["8.2".to_string(), "8.4".to_string()], "8.4");
    for v in ["8.0", "8.1", "8.2", "8.3", "8.4", "8.5"] {
        assert!(infos.iter().any(|i| i.version == v), "missing {v}");
    }
    let by = |v: &str| infos.iter().find(|i| i.version == v).unwrap().clone();
    assert!(by("8.4").installed && by("8.4").active);
    assert!(by("8.2").installed && !by("8.2").active);
    assert!(!by("8.3").installed && !by("8.3").active);
    let vers: Vec<String> = infos.iter().map(|i| i.version.clone()).collect();
    let mut sorted = vers.clone();
    sorted.sort_by_key(|v| {
        let mut it = v.split('.');
        (it.next().unwrap().parse::<u32>().unwrap(), it.next().unwrap().parse::<u32>().unwrap())
    });
    sorted.reverse();
    assert_eq!(vers, sorted);
    assert_eq!(vers.first().map(String::as_str), Some("8.5"));
}

#[test]
fn php_versions_includes_unknown_installed() {
    let infos = php_versions_from(&["8.9".to_string()], "8.4");
    assert!(infos.iter().any(|i| i.version == "8.9" && i.installed));
}

#[test]
fn installed_minors_dedupes_patches() {
    let minors = installed_minors(&["8.3.31".to_string(), "8.3.40".to_string(), "8.4.10".to_string()]);
    assert_eq!(minors, vec!["8.3".to_string(), "8.4".to_string()]);
}

#[test]
fn php_versions_compares_active_on_minor() {
    let infos = php_versions(&["8.3.31".to_string(), "8.4.10".to_string()], "8.3.31");
    let act: Vec<&str> = infos.iter().filter(|i| i.active).map(|i| i.version.as_str()).collect();
    assert_eq!(act, vec!["8.3"]);
    assert_eq!(infos.iter().filter(|i| i.installed).count(), 2);
}
