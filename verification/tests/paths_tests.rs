use laralux_core::paths::LaragonPaths;

#[test]
fn builds_subpaths_under_root() {
    let p = LaragonPaths::new("/tmp/lara".to_string());
    assert_eq!(p.root(), "/tmp/lara");
    assert_eq!(p.www(), "/tmp/lara/www");
    assert_eq!(p.etc(), "/tmp/lara/etc");
    assert_eq!(p.etc_for("nginx"), "/tmp/lara/etc/nginx");
    assert_eq!(p.config_file(), "/tmp/lara/laragon.toml");
}

#[test]
fn versioned_tool_paths() {
    let p = LaragonPaths::new("/tmp/lara".to_string());
    assert_eq!(p.tool_dir("php"), "/tmp/lara/bin/php");
    assert_eq!(p.version_dir("php", "8.4.1"), "/tmp/lara/bin/php/8.4.1");
    assert_eq!(p.current_link("php"), "/tmp/lara/bin/php/current");
    assert_eq!(p.sites_file(), "/tmp/lara/sites.toml");
}
