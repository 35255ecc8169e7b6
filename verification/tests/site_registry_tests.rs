use laralux_core::site_registry::{normalize_upstream, validate_domain, validate_routes, ProxyRoute, RegistryError, SiteRegistry};

fn route(path: &str, up: &str) -> ProxyRoute {
    ProxyRoute { path: path.to_string(), upstream: up.to_string() }
}

#[test]
fn add_rejects_invalid_name_missing_root_and_duplicate() {
    let mut reg = SiteRegistry::default();
    assert!(matches!(reg.add("Bad Name", "/p", Some("/p")), Err(RegistryError::InvalidName(_))));
    assert!(matches!(reg.add("ok", "/nope", None), Err(RegistryError::RootNotFound(_))));
    reg.add("dup", "/p", Some("/p")).unwrap();
    assert!(matches!(reg.add("dup", "/p", Some("/p")), Err(RegistryError::Duplicate(_))));
    assert_eq!(reg.sites().len(), 1);
    assert_eq!(reg.sites()[0].root, "/p");
}

#[test]
fn remove_reports_whether_removed() {
    let mut reg = SiteRegistry::default();
    reg.add("gone", "/p", Some("/p")).unwrap();
    assert!(reg.remove("gone"));
    assert!(!reg.remove("gone"));
}

#[test]
fn normalize_upstream_variants() {
    assert_eq!(normalize_upstream("3000").unwrap(), "127.0.0.1:3000");
    assert_eq!(normalize_upstream("127.0.0.1:5173").unwrap(), "127.0.0.1:5173");
    assert_eq!(normalize_upstream("localhost:8080").unwrap(), "localhost:8080");
    assert_eq!(normalize_upstream(":3000").unwrap(), "127.0.0.1:3000");
    for bad in ["", "0", "99999", "abc", "127.0.0.1:abc"] {
        assert!(normalize_upstream(bad).is_err(), "expected error for {bad:?}");
    }
}

#[test]
fn validate_routes_checks_path_dupes_and_normalizes() {
    assert!(matches!(validate_routes(&[]), Err(RegistryError::NoRoutes)));
    let bad_path = vec![route("api", "3000")];
    assert!(matches!(validate_routes(&bad_path), Err(RegistryError::InvalidRoute(_))));
    let dupe = vec![route("/", "3000"), route("/", "3001")];
    assert!(matches!(validate_routes(&dupe), Err(RegistryError::InvalidRoute(_))));
    let ok = validate_routes(&[route("/", "3000")]).unwrap();
    assert_eq!(ok[0].upstream, "127.0.0.1:3000");
}

#[test]
fn add_proxy_rejects_duplicate_across_lists() {
    let mut reg = SiteRegistry::default();
    reg.add("folder", "/p", Some("/p")).unwrap();
    let routes = vec![route("/", "3000")];
    assert!(matches!(reg.add_proxy("folder", &routes, true), Err(RegistryError::Duplicate(_))));
    assert!(matches!(reg.add_proxy("Bad Name", &routes, true), Err(RegistryError::InvalidName(_))));
    reg.add_proxy("api", &routes, true).unwrap();
    assert!(matches!(reg.add_proxy("api", &routes, true), Err(RegistryError::Duplicate(_))));
    assert_eq!(reg.proxies().len(), 1);
    assert_eq!(reg.proxies()[0].routes[0].upstream, "127.0.0.1:3000");
}

#[test]
fn update_proxy_replaces_or_errors_not_found() {
    let mut reg = SiteRegistry::default();
    reg.add_proxy("api", &[route("/", "3000")], true).unwrap();
    let new_routes = vec![route("/", "4000")];
    reg.update_proxy("api", &new_routes, false).unwrap();
    assert_eq!(reg.proxies()[0].routes[0].upstream, "127.0.0.1:4000");
    assert!(!reg.proxies()[0].websocket);
    assert!(matches!(reg.update_proxy("ghost", &new_routes, true), Err(RegistryError::NotFound(_))));
}

#[test]
fn validate_domain_accepts_and_rejects() {
    for ok in ["app2.dev", "api.demo.dev", "my-app.local", "*.demo.dev"] {
        assert!(validate_domain(ok).is_ok(), "should accept {ok}");
    }
    for bad in ["", "Demo.dev", "a b.dev", "*.*.dev", "*x.dev", "foo.*.dev", "-x.dev"] {
        assert!(validate_domain(bad).is_err(), "should reject {bad}");
    }
}

#[test]
fn set_domains_validates_uniqueness_and_roundtrips() {
    let mut reg = SiteRegistry::default();
    assert!(matches!(reg.set_domains("a", &[]), Err(RegistryError::NoDomains)));
    assert!(matches!(reg.set_domains("a", &["Bad".to_string()]), Err(RegistryError::InvalidDomain(_))));
    reg.set_domains("a", &["a.dev".to_string(), "*.a.dev".to_string()]).unwrap();
    assert!(matches!(reg.set_domains("b", &["a.dev".to_string()]), Err(RegistryError::DomainTaken(_))));
    assert_eq!(reg.domains_for("a").unwrap(), &["a.dev".to_string(), "*.a.dev".to_string()]);
    assert!(reg.remove("a"));
    assert!(reg.domains_for("a").is_none());
}

#[test]
fn set_domains_normalizes_and_dedups() {
    let mut reg = SiteRegistry::default();
    reg.set_domains("a", &["  Demo.DEV ".to_string(), "demo.dev".to_string(), "*.Demo.dev".to_string()]).unwrap();
    assert_eq!(reg.domains_for("a").unwrap(), &["demo.dev".to_string(), "*.demo.dev".to_string()]);
}

#[test]
fn public_domains_set_get_remove_and_cross_uniqueness() {
    let mut reg = SiteRegistry::default();
    assert!(matches!(reg.set_public_domains("a", &[]), Err(RegistryError::NoDomains)));
    assert!(matches!(reg.set_public_domains("a", &["Bad".to_string()]), Err(RegistryError::InvalidDomain(_))));
    reg.set_public_domains("a", &["  App.Example.COM ".to_string(), "app.example.com".to_string()]).unwrap();
    assert_eq!(reg.public_domains_for("a").unwrap(), &["app.example.com".to_string()]);
    assert!(matches!(reg.set_domains("b", &["app.example.com".to_string()]), Err(RegistryError::DomainTaken(_))));
    reg.set_domains("c", &["c.dev".to_string()]).unwrap();
    assert!(matches!(reg.set_public_domains("d", &["c.dev".to_string()]), Err(RegistryError::DomainTaken(_))));
    assert!(reg.remove("a"));
    assert!(reg.public_domains_for("a").is_none());
}

#[test]
fn same_site_cannot_reuse_domain_across_local_and_public() {
    let mut reg = SiteRegistry::default();
    reg.set_domains("a", &["a.dev".to_string()]).unwrap();
    assert!(matches!(reg.set_public_domains("a", &["a.dev".to_string()]), Err(RegistryError::DomainTaken(_))));
    let mut reg = SiteRegistry::default();
    reg.set_public_domains("b", &["app.example.com".to_string()]).unwrap();
    assert!(matches!(reg.set_domains("b", &["app.example.com".to_string()]), Err(RegistryError::DomainTaken(_))));
}

#[test]
fn remove_handles_proxies() {
    let mut reg = SiteRegistry::default();
    reg.add_proxy("api", &[route("/", "3000")], true).unwrap();
    assert!(reg.remove("api"));
    assert!(!reg.remove("api"));
}

#[test]
fn registry_error_messages() {
    assert_eq!(RegistryError::NoDomains.message(), "a site needs at least one domain");
    let e = RegistryError::DomainTaken("a.dev".to_string()).message();
    assert!(e.contains("a.dev"));
}

#[test]
fn every_domain_stays_with_one_site() {
    let mut reg = SiteRegistry::default();
    reg.set_domains("a", &["a.test".to_string(), "shared.test".to_string()]).unwrap();
    reg.set_public_domains("b", &["b.example.com".to_string()]).unwrap();
    assert!(matches!(reg.set_domains("b", &["shared.test".to_string()]), Err(RegistryError::DomainTaken(_))));
    assert!(matches!(reg.set_public_domains("a", &["a.test".to_string()]), Err(RegistryError::DomainTaken(_))));
    assert!(matches!(reg.set_domains("c", &["b.example.com".to_string()]), Err(RegistryError::DomainTaken(_))));
    reg.set_domains("a", &["a.test".to_string()]).unwrap();
    reg.set_domains("b", &["shared.test".to_string()]).unwrap();
    assert!(reg.remove("a"));
    reg.set_public_domains("c", &["a.test".to_string()]).unwrap();
    let mut all: Vec<String> = Vec::new();
    for e in reg.domain_entries().iter().chain(reg.public_domain_entries().iter()) {
        all.extend(e.domains.iter().cloned());
    }
    let n = all.len();
    all.sort();
    all.dedup();
    assert_eq!(all.len(), n);
}
