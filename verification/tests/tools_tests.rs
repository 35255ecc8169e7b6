use laralux_core::paths::LaragonPaths;
use laralux_core::service::ServiceKind;
use laralux_core::symlinks::{link_plan, link_tool, system_link_path, system_link_paths, unlink_tool, SymlinkError};
use laralux_core::privileged::FakePrivileged;
use laralux_core::tools::{available_versions, cli_path, cli_paths, from_key, info, key, known_versions, ManagedTool, ToolError};

#[test]
fn cli_binary_mapping_and_mailpit_has_none() {
    assert_eq!(info(ManagedTool::Php).cli_binary(), Some("php"));
    assert_eq!(info(ManagedTool::Composer).cli_binary(), Some("composer"));
    assert_eq!(info(ManagedTool::Mariadb).cli_binary(), Some("mariadb"));
    assert_eq!(info(ManagedTool::Mkcert).cli_binary(), Some("mkcert"));
    assert_eq!(info(ManagedTool::Redis).cli_binary(), Some("redis-cli"));
    assert_eq!(info(ManagedTool::Nginx).cli_binary(), Some("nginx"));
    assert_eq!(info(ManagedTool::Node).cli_binary(), Some("node"));
    assert_eq!(info(ManagedTool::Node).cli_binaries, vec!["node", "npm", "npx"]);
    assert_eq!(info(ManagedTool::Mailpit).cli_binary(), None);
    assert!(info(ManagedTool::Mailpit).cli_binaries.is_empty());
}

#[test]
fn key_roundtrips_through_from_key() {
    for t in ManagedTool::all() {
        assert_eq!(from_key(key(t)), Some(t));
    }
    assert_eq!(from_key("nope"), None);
}

#[test]
fn cli_path_is_under_current_and_none_for_mailpit() {
    let p = LaragonPaths::new("/tmp/lara".to_string());
    assert_eq!(cli_path(ManagedTool::Php, &p), Some("/tmp/lara/bin/php/current/php".to_string()));
    assert_eq!(cli_path(ManagedTool::Redis, &p), Some("/tmp/lara/bin/redis/current/redis-cli".to_string()));
    assert_eq!(cli_path(ManagedTool::Mailpit, &p), None);
    let all = cli_paths(ManagedTool::Node, &p);
    assert_eq!(all.len(), 3);
    assert_eq!(all[2], ("npx", "/tmp/lara/bin/node/current/npx".to_string()));
}

#[test]
fn php_available_versions_lists_known_set() {
    let vs = available_versions(ManagedTool::Php, &Vec::new(), "8.4");
    assert_eq!(vs.len(), 6);
    assert!(vs.iter().all(|v| !v.installed));
    assert_eq!(vs[0].version, "8.5");
}

#[test]
fn nginx_available_versions_includes_known_set_and_marks_installed() {
    let vs = available_versions(ManagedTool::Nginx, &vec!["1.30.3".to_string()], "1.30.3");
    assert_eq!(vs.len(), known_versions(ManagedTool::Nginx).len());
    assert!(vs.iter().find(|v| v.version == "1.30.3").unwrap().installed);
    assert!(vs.iter().find(|v| v.version == "1.30.3").unwrap().active);
    assert!(!vs.iter().find(|v| v.version == "1.26.3").unwrap().installed);
    assert_eq!(vs[0].version, "1.31.2");
}

#[test]
fn mariadb_available_versions_includes_known_set_newest_first() {
    let vs = available_versions(ManagedTool::Mariadb, &vec!["10.11.10".to_string()], "");
    assert_eq!(vs.len(), known_versions(ManagedTool::Mariadb).len());
    assert!(vs.iter().find(|v| v.version == "10.11.10").unwrap().installed);
    assert_eq!(vs[0].version, "11.8.2");
}

#[test]
fn redis_available_versions_includes_known_set_newest_first() {
    let vs = available_versions(ManagedTool::Redis, &vec!["8.0.4".to_string()], "");
    assert_eq!(vs.len(), known_versions(ManagedTool::Redis).len());
    assert!(vs.iter().find(|v| v.version == "8.0.4").unwrap().installed);
    assert_eq!(vs[0].version, "9.1.0");
}

#[test]
fn mailpit_available_versions_includes_known_set_newest_first() {
    let vs = available_versions(ManagedTool::Mailpit, &vec!["1.25.0".to_string()], "");
    assert_eq!(vs.len(), known_versions(ManagedTool::Mailpit).len());
    assert!(vs.iter().find(|v| v.version == "1.25.0").unwrap().installed);
    assert_eq!(vs[0].version, "1.30.2");
}

#[test]
fn node_available_versions_includes_known_set_newest_first() {
    let vs = available_versions(ManagedTool::Node, &vec!["22.23.1".to_string()], "");
    assert_eq!(vs.len(), known_versions(ManagedTool::Node).len());
    assert!(vs.iter().find(|v| v.version == "22.23.1").unwrap().installed);
    assert!(!vs.iter().find(|v| v.version == "18.20.8").unwrap().installed);
    assert_eq!(vs[0].version, "24.18.0");
}

#[test]
fn composer_available_versions_includes_known_set_newest_first() {
    let vs = available_versions(ManagedTool::Composer, &vec!["2.6.6".to_string()], "");
    assert_eq!(vs.len(), known_versions(ManagedTool::Composer).len());
    assert!(vs.iter().find(|v| v.version == "2.6.6").unwrap().installed);
    assert_eq!(vs[0].version, "2.8.9"); // newest first
}

#[test]
fn unknown_installed_version_joins_catalog() {
    let vs = available_versions(ManagedTool::Composer, &vec!["2.5.8".to_string()], "");
    assert_eq!(vs.len(), 5);
    assert!(vs.iter().find(|v| v.version == "2.5.8").unwrap().installed);
    assert_eq!(vs[0].version, "2.8.9");
}

#[test]
fn postgres_tool_info_and_versions() {
    assert_eq!(key(ManagedTool::Postgres), "postgres");
    assert_eq!(info(ManagedTool::Postgres).service_kind, Some(ServiceKind::Postgres));
    let vs = available_versions(ManagedTool::Postgres, &Vec::new(), "");
    assert_eq!(vs.len(), known_versions(ManagedTool::Postgres).len());
}

#[test]
fn mongodb_tool_info_and_versions() {
    assert_eq!(key(ManagedTool::Mongodb), "mongodb");
    assert_eq!(info(ManagedTool::Mongodb).service_kind, Some(ServiceKind::Mongodb));
    let vs = available_versions(ManagedTool::Mongodb, &Vec::new(), "");
    assert_eq!(vs.len(), known_versions(ManagedTool::Mongodb).len());
}

#[test]
fn tool_error_message() {
    assert_eq!(ToolError::Install("boom".to_string()).message(), "install failed: boom");
}

#[test]
fn system_link_path_per_tool() {
    assert_eq!(system_link_path(ManagedTool::Php), Some("/usr/local/bin/php".to_string()));
    assert_eq!(system_link_path(ManagedTool::Redis), Some("/usr/local/bin/redis-cli".to_string()));
    assert_eq!(system_link_path(ManagedTool::Mailpit), None);
    assert_eq!(
        system_link_paths(ManagedTool::Node),
        vec!["/usr/local/bin/node".to_string(), "/usr/local/bin/npm".to_string(), "/usr/local/bin/npx".to_string()]
    );
}

#[test]
fn link_tool_calls_create_symlink_with_resolved_src_and_dst() {
    let paths = LaragonPaths::new("/tmp/lara".to_string());
    let p = FakePrivileged::new();
    link_tool(&paths, ManagedTool::Php, &[true], &p).0.unwrap();
    let created = p.symlinks_created().entries();
    assert_eq!(created.len(), 1);
    assert_eq!(created[0].0, "/tmp/lara/bin/php/current/php");
    assert_eq!(created[0].1, "/usr/local/bin/php");
}

#[test]
fn link_tool_links_present_node_clis_only() {
    let paths = LaragonPaths::new("/tmp/lara".to_string());
    let plan = link_plan(&paths, ManagedTool::Node, &[true, true, false]).unwrap();
    assert_eq!(plan.len(), 2);
    assert_eq!(plan[1], ("/tmp/lara/bin/node/current/npm".to_string(), "/usr/local/bin/npm".to_string()));
    assert!(matches!(link_plan(&paths, ManagedTool::Node, &[false, true, true]), Err(SymlinkError::NotInstalled)));
    assert!(matches!(link_plan(&paths, ManagedTool::Mailpit, &[]), Err(SymlinkError::NoCli)));
}

#[test]
fn unlink_tool_removes_every_link() {
    let p = FakePrivileged::new();
    unlink_tool(ManagedTool::Node, &p).0.unwrap();
    assert_eq!(p.symlinks_removed().len(), 3);
    assert!(matches!(unlink_tool(ManagedTool::Mailpit, &p).0, Err(SymlinkError::NoCli)));
}
