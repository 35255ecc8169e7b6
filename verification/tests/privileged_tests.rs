use laralux_core::privileged::{
    build_setup_script, ln_symlink_argv, ln_symlinks_script, parse_marker, php_ini_link_argv, rm_argv, rm_symlinks_script, shell_quote, systemctl_disable_argv,
    FakePrivileged, Privileged, SetupPrivPlan, SudoPrivileged, M_DISABLE_FAIL, M_DISABLE_OK, M_MKCERT_FAIL, M_MKCERT_OK,
    M_SETCAP_OK,
};
use laralux_core::coredns::COREDNS_PORT;

#[test]
fn sudo_command_builders_are_correct() {
    let (prog, args) = SudoPrivileged::hosts_cp_command("/tmp/hosts.new");
    assert_eq!(prog, "sudo");
    assert_eq!(args, vec!["cp".to_string(), "/tmp/hosts.new".to_string(), "/etc/hosts".to_string()]);
    let (prog2, args2) = SudoPrivileged::setcap_command("/usr/sbin/nginx");
    assert_eq!(prog2, "sudo");
    assert_eq!(args2, vec!["setcap".to_string(), "cap_net_bind_service=+ep".to_string(), "/usr/sbin/nginx".to_string()]);
}

#[test]
fn fake_records_hosts_write() {
    let f = FakePrivileged::new();
    let log = f.hosts_writes();
    f.write_etc_hosts("# BEGIN laralux\n# END laralux\n").unwrap();
    assert_eq!(log.len(), 1);
    assert!(log.entries()[0].contains("laralux"));
}

#[test]
fn pkexec_uses_pkexec_program() {
    let (prog, _args) = SudoPrivileged::hosts_cp_command("/tmp/h");
    assert_eq!(prog, "sudo");
}

#[test]
fn systemctl_disable_argv_skips_missing_units() {
    let argv = systemctl_disable_argv(&["nginx".to_string(), "mariadb".to_string()]);
    assert_eq!(argv[0], "sh");
    assert_eq!(argv[1], "-c");
    assert!(argv[2].contains("systemctl cat \"$u\""));
    assert!(argv[2].contains("systemctl disable --now \"$u\""));
    assert!(argv[2].contains("'nginx' 'mariadb'"));
    assert!(argv[2].contains("exit $rc"));
}

#[test]
fn build_setup_script_emits_markers_for_included_steps() {
    let units = vec!["nginx".to_string()];
    let s = build_setup_script(&units, Some("MK -install"), Some("setcap X"));
    assert!(s.contains(M_DISABLE_OK) && s.contains(M_DISABLE_FAIL));
    assert!(s.contains(M_MKCERT_OK) && s.contains("if MK -install; then"));
    assert!(s.contains(M_SETCAP_OK) && s.contains("if setcap X; then"));
    assert!(s.trim_end().ends_with("exit 0"));
    let only_disable = build_setup_script(&units, None, None);
    assert!(!only_disable.contains(M_MKCERT_OK));
    assert!(!only_disable.contains(M_SETCAP_OK));
}

#[test]
fn parse_marker_prefers_ok_then_fail_then_escalation_error() {
    assert!(parse_marker(M_MKCERT_OK, M_MKCERT_OK, M_MKCERT_FAIL, None, "x").is_ok());
    assert_eq!(parse_marker(M_MKCERT_FAIL, M_MKCERT_OK, M_MKCERT_FAIL, None, "mkcert"), Err("mkcert failed".to_string()));
    assert_eq!(
        parse_marker("", M_MKCERT_OK, M_MKCERT_FAIL, Some("pkexec command failed"), "mkcert"),
        Err("pkexec command failed".to_string())
    );
}

#[test]
fn shell_quote_escapes_single_quotes() {
    assert_eq!(shell_quote("a'b"), "'a'\\''b'");
    assert_eq!(shell_quote("/home/u/laralux"), "'/home/u/laralux'");
}

#[test]
fn fake_run_setup_privileged_records_and_skips_absent_inputs() {
    let f = FakePrivileged::new();
    let plan = SetupPrivPlan { disable_units: vec!["nginx".to_string()], mkcert_bin: Some("/x/mkcert".to_string()), nginx_bin: None };
    let out = f.run_setup_privileged(&plan);
    assert!(out.disabled_services.is_ok());
    assert!(matches!(out.mkcert_ca, Some(Ok(()))));
    assert!(out.setcap_nginx.is_none());
    assert_eq!(f.mkcert_ca_path(), Some("/x/mkcert".to_string()));
    assert_eq!(f.disabled_services().len(), 1);
}

#[test]
fn fake_records_disabled_services() {
    let f = FakePrivileged::new();
    let log = f.disabled_services();
    f.disable_system_services(&["nginx".to_string()]).unwrap();
    assert_eq!(log.len(), 1);
    assert_eq!(log.entries()[0], vec!["nginx".to_string()]);
}

#[test]
fn fake_records_resolved_dropin() {
    let f = FakePrivileged::new();
    f.write_resolved_dropin(&format!("[Resolve]\nDNS=127.0.0.1:{}\n", COREDNS_PORT)).unwrap();
    assert_eq!(f.resolved_dropins().len(), 1);
    f.remove_resolved_dropin().unwrap();
    assert!(f.resolved_removed().get());
}

#[test]
fn symlink_argv_builders_are_correct() {
    assert_eq!(
        ln_symlink_argv("/home/u/laralux/bin/php/current/php", "/usr/local/bin/php"),
        vec!["ln".to_string(), "-sfn".to_string(), "/home/u/laralux/bin/php/current/php".to_string(), "/usr/local/bin/php".to_string()]
    );
    assert_eq!(rm_argv("/usr/local/bin/php"), vec!["rm".to_string(), "-f".to_string(), "/usr/local/bin/php".to_string()]);
}

#[test]
fn fake_records_symlink_create_and_remove() {
    let p = FakePrivileged::new();
    p.create_symlink("/src/php", "/usr/local/bin/php").unwrap();
    p.remove_symlink("/usr/local/bin/php").unwrap();
    assert_eq!(p.symlinks_created().entries().as_slice(), &[("/src/php".to_string(), "/usr/local/bin/php".to_string())]);
    assert_eq!(p.symlinks_removed().entries().as_slice(), &["/usr/local/bin/php".to_string()]);
}

#[test]
fn php_ini_link_argv_is_mkdir_then_ln() {
    let argv = php_ini_link_argv("/home/u/laralux/etc/php/php.ini");
    assert_eq!(argv[0], "sh");
    assert_eq!(argv[1], "-c");
    assert!(argv[2].contains("mkdir -p /usr/local/etc/php"));
    assert!(argv[2].contains("ln -sfn /home/u/laralux/etc/php/php.ini /usr/local/etc/php/php.ini"));
}

#[test]
fn fake_records_php_ini_link() {
    let p = FakePrivileged::new();
    p.ensure_php_ini_link("/x/php.ini").unwrap();
    assert_eq!(p.php_ini_links().entries().as_slice(), &["/x/php.ini".to_string()]);
}

#[test]
fn symlink_batches_are_one_script() {
    let pairs = vec![
        ("/l/bin/php/current/php".to_string(), "/usr/local/bin/php".to_string()),
        ("/l/it's".to_string(), "/usr/local/bin/pear".to_string()),
    ];
    assert_eq!(
        ln_symlinks_script(&pairs),
        "ln -sfn '/l/bin/php/current/php' '/usr/local/bin/php' && ln -sfn '/l/it'\\''s' '/usr/local/bin/pear'"
    );
    assert_eq!(ln_symlinks_script(&[]), "");
    let dsts = vec!["/usr/local/bin/node".to_string(), "/usr/local/bin/npm".to_string()];
    assert_eq!(rm_symlinks_script(&dsts), "rm -f '/usr/local/bin/node' && rm -f '/usr/local/bin/npm'");
    assert_eq!(rm_symlinks_script(&dsts[..1]), "rm -f '/usr/local/bin/node'");
}
