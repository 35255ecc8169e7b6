use laralux_core::config::Config;
use laralux_core::hosts::apply_block;
use laralux_core::privileged::FakePrivileged;
use laralux_core::sites::scan_sites;
use laralux_core::ssl::{cert_is_current, san_contents, sort_strings, CertIssuer, FakeCertIssuer, MkcertIssuer};
use laralux_core::sync::{cert_names, conf_file, hosts_update, stale_confs, sync_hosts};

#[test]
fn default_has_dev_tld_and_php84() {
    let c = Config::default();
    assert_eq!(c.tld, "dev");
    assert_eq!(c.php_version, "8.4");
    assert!(c.services.nginx && c.services.php && c.services.mariadb);
}

#[test]
fn cert_and_key_paths_under_ssl_dir() {
    let m = MkcertIssuer::new("/tmp/ssl".to_string());
    assert_eq!(m.cert_path("app"), "/tmp/ssl/app.pem");
    assert_eq!(m.key_path("app"), "/tmp/ssl/app-key.pem");
    assert_eq!(m.san_path("app"), "/tmp/ssl/app.san");
}

#[test]
fn issue_command_targets_cert_key_and_host() {
    let m = MkcertIssuer::new("/tmp/ssl".to_string());
    let spec = m.issue_command("app", &["app.dev".to_string()]);
    assert_eq!(spec.program, "mkcert");
    assert_eq!(spec.args, vec!["-cert-file", "/tmp/ssl/app.pem", "-key-file", "/tmp/ssl/app-key.pem", "app.dev"]);
    let m2 = MkcertIssuer::new("/tmp/ssl".to_string()).with_mkcert_bin("/x/mkcert".to_string());
    assert_eq!(m2.issue_command("a", &[]).program, "/x/mkcert");
}

#[test]
fn ensure_cert_is_noop_when_files_exist() {
    let names = vec!["app.dev".to_string()];
    assert!(cert_is_current(true, true, Some("app.dev"), &names));
    assert!(!cert_is_current(true, false, Some("app.dev"), &names));
    assert!(!cert_is_current(true, true, None, &names));
}

#[test]
fn mkcert_reissues_when_san_set_changes() {
    let names = vec!["b.dev".to_string(), "a.dev".to_string()];
    assert_eq!(san_contents(&names), "a.dev\nb.dev");
    assert!(cert_is_current(true, true, Some("a.dev\nb.dev"), &names));
    assert!(!cert_is_current(true, true, Some("a.dev"), &names));
    assert_eq!(sort_strings(&["b".to_string(), "B".to_string(), "a".to_string()]), vec!["B", "a", "b"]);
}

#[test]
fn fake_issuer_records_basename_and_names() {
    let f = FakeCertIssuer::new("/tmp/ssl".to_string());
    let files = f.ensure_cert("blog", &["blog.dev".to_string(), "*.blog.dev".to_string()]).unwrap();
    assert_eq!(files.cert, "/tmp/ssl/blog.pem");
    assert_eq!(files.key, "/tmp/ssl/blog-key.pem");
    let rec = f.requested();
    assert_eq!(rec[0].0, "blog");
    assert_eq!(rec[0].1, vec!["blog.dev".to_string(), "*.blog.dev".to_string()]);
}

#[test]
fn writes_hosts_block_with_every_site() {
    let sites = scan_sites("/w", &vec!["app".to_string(), "blog".to_string()], "dev");
    let p = FakePrivileged::new();
    let wrote = sync_hosts("127.0.0.1 localhost\n", &sites, &p).0.unwrap();
    assert!(wrote);
    let writes = p.hosts_writes().entries();
    assert_eq!(writes.len(), 1);
    assert!(writes[0].contains("127.0.0.1 app.dev"));
    assert!(writes[0].contains("127.0.0.1 blog.dev"));
    assert!(writes[0].contains("127.0.0.1 localhost"));
}

#[test]
fn skips_hosts_write_when_block_already_current() {
    let sites = scan_sites("/w", &vec!["app".to_string()], "dev");
    let already = apply_block("127.0.0.1 localhost\n", &["app.dev".to_string()]);
    assert_eq!(hosts_update(&already, &sites), None);
    let p = FakePrivileged::new();
    assert!(!sync_hosts(&already, &sites, &p).0.unwrap());
    assert_eq!(p.hosts_writes().len(), 0);
}

#[test]
fn san_text_ignores_name_order() {
    let a = vec!["b.dev".to_string(), "a.dev".to_string(), "c.dev".to_string()];
    let b = vec!["c.dev".to_string(), "a.dev".to_string(), "b.dev".to_string()];
    assert_eq!(san_contents(&a), san_contents(&b));
    assert_eq!(san_contents(&a), "a.dev\nb.dev\nc.dev");
    assert!(cert_is_current(true, true, Some(&san_contents(&a)), &b));
    let c = vec!["a.dev".to_string(), "b.dev".to_string()];
    assert!(!cert_is_current(true, true, Some(&san_contents(&a)), &c));
}

#[test]
fn certificates_cover_public_domains_and_stale_vhosts_are_found() {
    let mut sites = scan_sites("/w", &vec!["shop".to_string()], "dev");
    sites[0].public_domains = vec!["shop.example.com".to_string()];
    assert_eq!(cert_names(&sites[0]), vec!["shop.dev".to_string(), "shop.example.com".to_string()]);
    assert_eq!(conf_file(&sites[0]), "shop.conf");
    let present = vec!["shop.conf".to_string(), "gone.conf".to_string(), "notes.txt".to_string(), "old.conf".to_string()];
    let written = vec!["shop.conf".to_string()];
    assert_eq!(stale_confs(&present, &written), vec!["gone.conf".to_string(), "old.conf".to_string()]);
}

#[test]
fn hosts_write_hands_the_updated_file() {
    let sites = scan_sites("/w", &vec!["app".to_string()], "dev");
    let p = FakePrivileged::new();
    let (res, _) = sync_hosts("127.0.0.1 localhost\n", &sites, &p);
    assert!(res.unwrap());
    assert_eq!(p.hosts_writes().entries()[0], hosts_update("127.0.0.1 localhost\n", &sites).unwrap());
}
