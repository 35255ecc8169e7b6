use laralux_core::setup::{
    apt_packages_for, detect, parse_content_length, stack_units_to_disable, Component, Downloader, FakeDownloader, SetupAction,
    SetupError, SetupEvent, SetupRun, ComponentStatus,
};

#[test]
fn parse_content_length_picks_last_case_insensitive() {
    let h = "HTTP/2 200\r\nContent-Length: 100\r\n\r\nHTTP/2 200\r\ncontent-length: 4096\r\n";
    assert_eq!(parse_content_length(h), 4096);
    assert_eq!(parse_content_length("no header here"), 0);
}

#[test]
fn apt_packages_for_php_is_empty() {
    assert!(apt_packages_for(Component::Php).is_empty());
}

#[test]
fn stack_units_exclude_php() {
    assert_eq!(stack_units_to_disable(), vec!["nginx".to_string(), "mariadb".to_string(), "redis-server".to_string()]);
}

#[test]
fn mailpit_has_no_apt_packages() {
    assert!(apt_packages_for(Component::Mailpit).is_empty());
}

#[test]
fn mkcert_has_no_apt_package() {
    assert!(apt_packages_for(Component::Mkcert).is_empty());
}

#[test]
fn nginx_has_no_apt_package() {
    assert!(apt_packages_for(Component::Nginx).is_empty());
}

#[test]
fn redis_has_no_apt_package() {
    assert!(apt_packages_for(Component::Redis).is_empty());
}

#[test]
fn mariadb_has_no_apt_package() {
    assert!(apt_packages_for(Component::Mariadb).is_empty());
}

#[test]
fn composer_is_a_component_with_no_apt_package() {
    assert!(Component::all().contains(&Component::Composer));
    assert!(apt_packages_for(Component::Composer).is_empty());
    assert_eq!(Component::Composer.label(), "composer");
}

#[test]
fn detect_reports_all_components() {
    let statuses = detect(|name: &str| name == "nginx");
    assert_eq!(statuses.len(), 8);
    assert!(!statuses.iter().find(|s| s.component == Component::Mailpit).unwrap().present);
    assert!(statuses.iter().find(|s| s.component == Component::Nginx).unwrap().present);
}

fn all_missing() -> Vec<ComponentStatus> {
    Component::all().into_iter().map(|c| ComponentStatus { component: c, present: false }).collect()
}

/// Drive a run to the end, answering every step with success, and return
/// the actions in order.
fn drive(mut run: SetupRun) -> (Vec<String>, SetupRun) {
    let mut seen = Vec::new();
    loop {
        match run.next_action() {
            SetupAction::Install { component, done, total } => {
                seen.push(format!("{done}/{total}:{}", component.label()));
                run.handle(SetupEvent::Installed { outcome: Ok("1.0".to_string()), persist_error: None });
            }
            SetupAction::DisableServices(units) => {
                seen.push(format!("disable:{}", units.join(",")));
                run.handle(SetupEvent::ServicesDisabled(Ok(())));
            }
            SetupAction::InstallMkcertCa => {
                seen.push("ca".to_string());
                run.handle(SetupEvent::MkcertCa(Some(Ok(()))));
            }
            SetupAction::InstallCertutil => {
                seen.push("certutil".to_string());
                run.handle(SetupEvent::Certutil(Ok(Some(Ok(())))));
            }
            SetupAction::SetcapNginx => {
                seen.push("setcap".to_string());
                run.handle(SetupEvent::Setcap(Some(Ok(()))));
            }
            SetupAction::ApplyVersions => {
                seen.push("apply".to_string());
                run.handle(SetupEvent::VersionsApplied(vec![]));
            }
            SetupAction::Finished => break,
        }
    }
    (seen, run)
}

#[test]
fn run_setup_emits_a_step_per_missing_component() {
    let (seen, run) = drive(SetupRun::new(&all_missing()));
    assert_eq!(
        seen,
        vec![
            "0/8:php-fpm", "1/8:composer", "2/8:mkcert", "3/8:nginx", "4/8:redis", "5/8:mariadb", "6/8:node",
            "disable:nginx,mariadb,redis-server", "7/8:mailpit", "ca", "certutil", "setcap", "apply",
        ]
    );
    let r = run.into_report();
    assert!(r.errors.is_empty());
    assert_eq!(r.php_version, Some("1.0".to_string()));
    assert!(r.composer_fetched && r.mailpit_fetched && r.mkcert_ca && r.mkcert_nss && r.nginx_setcap);
}

#[test]
fn run_setup_disables_distro_stack_services() {
    let present: Vec<ComponentStatus> = Component::all().into_iter().map(|c| ComponentStatus { component: c, present: true }).collect();
    let (seen, _run) = drive(SetupRun::new(&present));
    assert_eq!(seen, vec!["disable:nginx,mariadb,redis-server", "ca", "certutil", "setcap", "apply"]);
}

#[test]
fn failures_are_collected_not_fatal() {
    let mut run = SetupRun::new(&vec![ComponentStatus { component: Component::Php, present: false }]);
    assert!(matches!(run.next_action(), SetupAction::Install { component: Component::Php, done: 0, total: 1 }));
    run.handle(SetupEvent::Installed { outcome: Err("no build".to_string()), persist_error: None });
    assert!(matches!(run.next_action(), SetupAction::DisableServices(_)));
    run.handle(SetupEvent::ServicesDisabled(Err("denied".to_string())));
    run.handle(SetupEvent::MkcertCa(None));
    run.handle(SetupEvent::Certutil(Err("offline".to_string())));
    run.handle(SetupEvent::Setcap(None));
    run.handle(SetupEvent::VersionsApplied(vec!["nginx: version 1 not installed".to_string()]));
    assert!(run.is_finished());
    let r = run.into_report();
    assert_eq!(
        r.errors,
        vec![
            "install php (static): no build".to_string(),
            "disable system services: denied".to_string(),
            "mkcert -install: mkcert not found".to_string(),
            "install certutil: offline".to_string(),
            "apply versions: nginx: version 1 not installed".to_string(),
        ]
    );
    assert!(!r.nginx_setcap && !r.certutil_fetched);
}

#[test]
fn php_version_persist_failure_is_reported() {
    let mut run = SetupRun::new(&vec![ComponentStatus { component: Component::Php, present: false }]);
    run.handle(SetupEvent::Installed { outcome: Ok("8.5.1".to_string()), persist_error: Some("read-only".to_string()) });
    assert_eq!(run.report().php_version, Some("8.5.1".to_string()));
    assert_eq!(run.report().errors, vec!["persist php version: read-only".to_string()]);
}

#[test]
fn fake_downloader_records_urls() {
    let dl = FakeDownloader::new();
    dl.fetch("https://x/a.tgz", "/tmp/a.tgz").unwrap();
    dl.fetch("https://x/b.tgz", "/tmp/b.tgz").unwrap();
    assert_eq!(dl.requested().entries(), vec!["https://x/a.tgz".to_string(), "https://x/b.tgz".to_string()]);
}

#[test]
fn setup_error_messages() {
    assert_eq!(SetupError::Download("x".to_string()).message(), "download error: x");
    assert_eq!(SetupError::Io("y".to_string()).message(), "setup io error: y");
}
