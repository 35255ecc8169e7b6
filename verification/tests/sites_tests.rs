use laralux_core::paths::LaragonPaths;
use laralux_core::site_registry::{ProxyRoute, ProxySite, RegisteredSite, SiteDomains, SiteRegistry};
use laralux_core::sites::{
    delete_scanned_site, hide_scanned_site, list_all_sites, scan_sites, valid_scanned_name, ProxySpec, Site, SiteFsError, SiteSource,
};

fn names(v: &[&str]) -> Vec<String> {
    v.iter().map(|s| s.to_string()).collect()
}

fn proxy_site(name: &str, routes: Vec<ProxyRoute>, websocket: bool) -> Site {
    Site {
        name: name.to_string(),
        root: String::new(),
        hostname: format!("{name}.dev"),
        domains: vec![format!("{name}.dev")],
        source: SiteSource::Proxy,
        proxy: Some(ProxySpec { routes, websocket }),
        public_domains: Vec::new(),
    }
}

fn lara() -> LaragonPaths {
    LaragonPaths::new("/tmp/lara".to_string())
}

fn app_site() -> Site {
    scan_sites("/tmp/lara/www", &names(&["app"]), "dev").into_iter().next().unwrap()
}

#[test]
fn scans_only_dirs_builds_hostnames_sorted() {
    let sites = scan_sites("/tmp/lara/www", &names(&["beta", "alpha", ".hidden"]), "dev");
    let n: Vec<&str> = sites.iter().map(|s| s.name.as_str()).collect();
    assert_eq!(n, vec!["alpha", "beta"]);
    assert_eq!(sites[0].hostname, "alpha.dev");
    assert_eq!(sites[0].root, "/tmp/lara/www/alpha");
    assert_eq!(sites[0].source, SiteSource::Scanned);
}

#[test]
fn missing_www_returns_empty() {
    assert!(scan_sites("/tmp/lara/www", &Vec::new(), "dev").is_empty());
}

#[test]
fn document_root_prefers_public_subdir() {
    let s = app_site();
    assert_eq!(s.document_root(true), "/tmp/lara/www/app/public");
    assert_eq!(s.document_root(false), "/tmp/lara/www/app");
}

#[test]
fn vhost_has_https_redirect_ssl_and_fastcgi() {
    let site = app_site();
    let conf = site.vhost_config(&lara(), "/tmp/lara/tmp/php-fpm.sock", "/tmp/lara/ssl/app.dev.pem", "/tmp/lara/ssl/app.dev-key.pem", false, true);
    assert!(conf.contains("server_name app.dev;"));
    assert!(conf.contains("return 301 https://$host$request_uri;"));
    assert!(conf.contains("listen 443 ssl;"));
    assert!(conf.contains("ssl_certificate /tmp/lara/ssl/app.dev.pem;"));
    assert!(conf.contains("ssl_certificate_key /tmp/lara/ssl/app.dev-key.pem;"));
    assert!(conf.contains("root /tmp/lara/www/app/public;"));
    assert!(conf.contains("fastcgi_pass unix:/tmp/lara/tmp/php-fpm.sock;"));
    assert!(conf.contains("fastcgi_param HTTPS on;"));
    assert!(conf.contains("http2 on;"));
    assert!(conf.contains("location ~ /\\.(?!well-known).* { deny all; }"));
    assert!(conf.contains("access_log /tmp/lara/log/app-access.log;"));
}

#[test]
fn vhost_build_cache_only_for_laravel() {
    let site = app_site();
    let lara_conf = site.vhost_config(&lara(), "/s", "/c", "/k", true, true);
    let plain = site.vhost_config(&lara(), "/s", "/c", "/k", false, true);
    assert!(lara_conf.contains("location ^~ /build/ {"));
    assert!(lara_conf.contains("public, immutable"));
    assert!(!plain.contains("/build/"));
}

#[test]
fn vhost_php_public_block_serves_80_and_443_no_redirect() {
    let mut site = app_site();
    site.public_domains = vec!["app.example.com".to_string()];
    let conf = site.vhost_config(&lara(), "/s", "/tmp/lara/ssl/app.dev.pem", "/k", false, true);
    assert!(conf.contains("server_name app.dev;"));
    assert!(conf.contains("server_name app.example.com;"));
    assert!(conf.contains("\x20 listen 80;\n\x20 listen 443 ssl;"));
    assert!(conf.contains("fastcgi_param HTTPS on;"));
    assert!(conf.contains("ssl_certificate /tmp/lara/ssl/app.dev.pem;"));
    assert!(!conf.contains("server_name app.example.com app.dev;"));
    assert!(conf.contains("access_log /tmp/lara/log/app-public-access.log;"));
}

#[test]
fn php_vhost_blocks_execution_under_well_known() {
    let mut site = app_site();
    site.public_domains = vec!["app.example.com".to_string()];
    let conf = site.vhost_config(&lara(), "/s", "/c", "/k", false, true);
    assert_eq!(conf.matches("location ^~ /.well-known/").count(), 2);
    assert_eq!(conf.matches("location ~ ^/\\.well-known/(.*/)?\\. { deny all; }").count(), 2);
    assert_eq!(conf.matches("location ~ \\.(php|phar|phtml)$ { deny all; }").count(), 2);
    assert_eq!(conf.matches("location ~ /\\.well-known/.*\\.(php|phar|phtml)$ { deny all; }").count(), 2);
    assert!(!conf.contains("location ~ ^/\\.well-known/.*\\.(php|phar|phtml)$"));
    assert!(conf.contains("try_files $uri $uri/ /index.php?$query_string;"));
}

#[test]
fn proxy_vhost_has_no_well_known_guard() {
    let route = ProxyRoute { path: "/".to_string(), upstream: "127.0.0.1:3000".to_string() };
    let mut site = proxy_site("api", vec![route], true);
    site.public_domains = vec!["api.example.com".to_string()];
    let conf = site.vhost_config(&lara(), "/s", "/c", "/k", false, false);
    assert!(!conf.contains(".well-known"));
}

#[test]
fn vhost_no_public_block_when_public_domains_empty() {
    let conf = app_site().vhost_config(&lara(), "/s", "/c", "/k", false, true);
    assert!(!conf.contains("example.com"));
    assert_eq!(conf.matches("server {").count(), 2);
}

#[test]
fn proxy_vhost_has_proxy_pass_and_ws_headers() {
    let site = proxy_site("app", vec![ProxyRoute { path: "/".to_string(), upstream: "127.0.0.1:3000".to_string() }], true);
    let conf = site.vhost_config(&lara(), "/s", "/c", "/k", false, false);
    assert!(conf.contains("server_name app.dev;"));
    assert!(conf.contains("listen 443 ssl;"));
    assert!(conf.contains("location / {"));
    assert!(conf.contains("proxy_pass http://127.0.0.1:3000;"));
    assert!(conf.contains("proxy_set_header X-Forwarded-Proto $scheme;"));
    assert!(conf.contains("proxy_set_header Upgrade $http_upgrade;"));
    assert!(conf.contains("proxy_set_header Connection $connection_upgrade;"));
    assert!(!conf.contains("fastcgi_pass"));
}

#[test]
fn proxy_vhost_without_ws_omits_upgrade_and_supports_multiroute() {
    let site = proxy_site(
        "app",
        vec![
            ProxyRoute { path: "/api".to_string(), upstream: "127.0.0.1:3001".to_string() },
            ProxyRoute { path: "/".to_string(), upstream: "127.0.0.1:3000".to_string() },
        ],
        false,
    );
    let conf = site.vhost_config(&lara(), "/s", "/c", "/k", false, false);
    assert!(conf.contains("location /api {"));
    assert!(conf.contains("location / {"));
    assert!(conf.contains("proxy_pass http://127.0.0.1:3001;"));
    assert!(conf.contains("proxy_pass http://127.0.0.1:3000;"));
    assert!(!conf.contains("Upgrade $http_upgrade"));
}

#[test]
fn proxy_site_public_block_uses_http_proxy_pass() {
    let mut site = proxy_site("api", vec![ProxyRoute { path: "/".to_string(), upstream: "127.0.0.1:3000".to_string() }], true);
    site.public_domains = vec!["api.example.com".to_string()];
    let conf = site.vhost_config(&lara(), "/s", "/c", "/k", false, false);
    assert!(conf.contains("server_name api.example.com;"));
    assert!(conf.contains("\x20 listen 80;\n\x20 listen 443 ssl;"));
    assert!(conf.contains("proxy_set_header X-Forwarded-Proto https;"));
    assert!(!conf.contains("fastcgi_pass"));
}

#[test]
fn vhost_server_name_lists_all_domains() {
    let mut site = app_site();
    site.domains = vec!["demo.dev".to_string(), "*.demo.dev".to_string()];
    let conf = site.vhost_config(&lara(), "/s", "/c", "/k", false, true);
    assert!(conf.contains("server_name demo.dev *.demo.dev;"));
}

fn registry(sites: Vec<RegisteredSite>, proxies: Vec<ProxySite>, domains: Vec<SiteDomains>, public: Vec<SiteDomains>) -> SiteRegistry {
    SiteRegistry::from_parts(sites, proxies, domains, public)
}

#[test]
fn list_all_merges_scanned_and_linked_sorted() {
    let reg = registry(vec![RegisteredSite { name: "alpha".to_string(), root: "/ext/alpha".to_string() }], vec![], vec![], vec![]);
    let (sites, warnings) = list_all_sites("/w", &names(&["zeta"]), Ok(reg), &[true], &[], "dev");
    let n: Vec<&str> = sites.iter().map(|s| s.name.as_str()).collect();
    assert_eq!(n, vec!["alpha", "zeta"]);
    assert_eq!(sites[0].source, SiteSource::Linked);
    assert_eq!(sites[0].hostname, "alpha.dev");
    assert!(warnings.is_empty());
}

#[test]
fn list_all_skips_stale_root_with_warning() {
    let reg = registry(vec![RegisteredSite { name: "ghost".to_string(), root: "/gone".to_string() }], vec![], vec![], vec![]);
    let (sites, warnings) = list_all_sites("/w", &Vec::new(), Ok(reg), &[false], &[], "dev");
    assert!(sites.iter().all(|s| s.name != "ghost"));
    assert_eq!(warnings, vec!["linked site `ghost`: folder `/gone` not found".to_string()]);
}

#[test]
fn list_all_scanned_shadows_duplicate_registry_entry() {
    let reg = registry(vec![RegisteredSite { name: "dup".to_string(), root: "/ext/dup".to_string() }], vec![], vec![], vec![]);
    let (sites, warnings) = list_all_sites("/w", &names(&["dup"]), Ok(reg), &[true], &[], "dev");
    let dups: Vec<&Site> = sites.iter().filter(|s| s.name == "dup").collect();
    assert_eq!(dups.len(), 1);
    assert_eq!(dups[0].source, SiteSource::Scanned);
    assert_eq!(warnings, vec!["linked site `dup` is shadowed by a folder in www/".to_string()]);
}

fn api_proxy(root: Option<&str>) -> ProxySite {
    ProxySite {
        name: "api".to_string(),
        websocket: true,
        routes: vec![ProxyRoute { path: "/".to_string(), upstream: "127.0.0.1:3000".to_string() }],
        root: root.map(|r| r.to_string()),
    }
}

#[test]
fn list_all_includes_proxy_sites() {
    let reg = registry(vec![], vec![api_proxy(None)], vec![], vec![]);
    let (sites, _w) = list_all_sites("/w", &Vec::new(), Ok(reg), &[], &[false], "dev");
    let api = sites.iter().find(|s| s.name == "api").unwrap();
    assert_eq!(api.source, SiteSource::Proxy);
    assert_eq!(api.hostname, "api.dev");
    let spec = api.proxy.as_ref().unwrap();
    assert!(spec.websocket);
    assert_eq!(spec.routes[0].upstream, "127.0.0.1:3000");
}

#[test]
fn proxy_site_gets_root_from_registry() {
    let reg = registry(vec![], vec![api_proxy(Some("/srv/api"))], vec![], vec![]);
    let (sites, warnings) = list_all_sites("/w", &Vec::new(), Ok(reg), &[], &[true], "dev");
    assert_eq!(sites[0].root, "/srv/api");
    assert!(warnings.is_empty());
}

#[test]
fn proxy_with_missing_folder_is_kept_with_warning() {
    let reg = registry(vec![], vec![api_proxy(Some("/srv/api"))], vec![], vec![]);
    let (sites, warnings) = list_all_sites("/w", &Vec::new(), Ok(reg), &[], &[false], "dev");
    let api = sites.iter().find(|s| s.name == "api").unwrap();
    assert_eq!(api.source, SiteSource::Proxy);
    assert_eq!(api.root, "");
    assert!(api.proxy.is_some());
    assert_eq!(warnings.len(), 1);
    assert!(warnings[0].contains("api"));
}

#[test]
fn list_all_scanned_shadows_proxy_of_same_name() {
    let reg = registry(vec![], vec![api_proxy(None)], vec![], vec![]);
    let (sites, warnings) = list_all_sites("/w", &names(&["api"]), Ok(reg), &[], &[false], "dev");
    let apis: Vec<&Site> = sites.iter().filter(|s| s.name == "api").collect();
    assert_eq!(apis.len(), 1);
    assert_eq!(apis[0].source, SiteSource::Scanned);
    assert_eq!(warnings, vec!["proxy site `api` is shadowed by another site".to_string()]);
}

#[test]
fn site_has_domains_default_and_override() {
    let (sites, _) = list_all_sites("/w", &names(&["demo"]), Ok(SiteRegistry::default()), &[], &[], "dev");
    assert_eq!(sites[0].domains, vec!["demo.dev".to_string()]);
    assert_eq!(sites[0].hostname, "demo.dev");
    let mut reg = SiteRegistry::default();
    reg.set_domains("demo", &["demo.dev".to_string(), "*.demo.dev".to_string()]).unwrap();
    let (sites, _) = list_all_sites("/w", &names(&["demo"]), Ok(reg), &[], &[], "dev");
    assert_eq!(sites[0].domains, vec!["demo.dev".to_string(), "*.demo.dev".to_string()]);
}

#[test]
fn list_all_populates_public_domains_from_registry() {
    let mut reg = SiteRegistry::default();
    reg.set_public_domains("demo", &["app.example.com".to_string()]).unwrap();
    let (sites, _) = list_all_sites("/w", &names(&["demo"]), Ok(reg), &[], &[], "dev");
    assert_eq!(sites[0].domains, vec!["demo.dev".to_string()]);
    assert_eq!(sites[0].public_domains, vec!["app.example.com".to_string()]);
}

#[test]
fn unreadable_registry_is_ignored_with_warning() {
    let (sites, warnings) = list_all_sites("/w", &names(&["demo"]), Err("bad toml".to_string()), &[], &[], "dev");
    assert_eq!(sites.len(), 1);
    assert_eq!(warnings, vec!["sites.toml ignored (bad toml)".to_string()]);
}

#[test]
fn valid_scanned_name_accepts_plain_rejects_unsafe() {
    assert!(valid_scanned_name("myapp"));
    assert!(valid_scanned_name("my-app_2"));
    assert!(!valid_scanned_name(""));
    assert!(!valid_scanned_name("."));
    assert!(!valid_scanned_name(".."));
    assert!(!valid_scanned_name(".hidden"));
    assert!(!valid_scanned_name("a/b"));
    assert!(!valid_scanned_name("a\\b"));
}

#[test]
fn hide_scanned_site_renames_to_dot_prefix() {
    assert_eq!(hide_scanned_site("foo", true, false).unwrap(), ".foo");
    assert!(matches!(hide_scanned_site("missing", false, false), Err(SiteFsError::NotFound(_))));
    assert!(matches!(hide_scanned_site("../x", true, false), Err(SiteFsError::InvalidName(_))));
    assert!(matches!(hide_scanned_site("bar", true, true), Err(SiteFsError::AlreadyExists(n)) if n == ".bar"));
}

#[test]
fn delete_scanned_site_removes_folder() {
    assert!(delete_scanned_site("foo", true).is_ok());
    assert!(matches!(delete_scanned_site("missing", false), Err(SiteFsError::NotFound(_))));
    assert!(matches!(delete_scanned_site("..", true), Err(SiteFsError::InvalidName(_))));
}

#[test]
fn listings_come_sorted_by_name_with_folders_winning() {
    let reg = registry(
        vec![
            RegisteredSite { name: "mid".to_string(), root: "/ext/mid".to_string() },
            RegisteredSite { name: "beta".to_string(), root: "/ext/beta".to_string() },
        ],
        vec![api_proxy(None)],
        vec![],
        vec![],
    );
    let (sites, _w) = list_all_sites("/w", &names(&["zeta", "beta", ".hidden", "alpha"]), Ok(reg), &[true, true], &[false], "dev");
    let got: Vec<&str> = sites.iter().map(|s| s.name.as_str()).collect();
    assert_eq!(got, vec!["alpha", "api", "beta", "mid", "zeta"]);
    for w in got.windows(2) {
        assert!(w[0] <= w[1]);
    }
    let beta = sites.iter().find(|s| s.name == "beta").unwrap();
    assert_eq!(beta.source, SiteSource::Scanned);
    let scanned: Vec<String> = scan_sites("/w", &names(&["b", "c", "a"]), "dev").into_iter().map(|s| s.name).collect();
    assert_eq!(scanned, names(&["a", "b", "c"]));
}
