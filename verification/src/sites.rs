//! Sites: the projects under `www/`, linked folders and reverse proxies,
//! merged with the registry's domains, and the nginx vhost of each.
use crate::paths::LaragonPaths;
use crate::site_registry::{route_views, spec_domains_of, str_views, ProxyRoute, ProxySite, RegisteredSite, SiteDomains, SiteRegistry};
use crate::text::{
    cat, contains_seq, join_path, join_with, lemma_join_with_contains, lemma_join_with_push, lemma_seq_lt_asymmetric, lemma_seq_lt_transitive,
    path_join, seq_lt, str_eq, str_lt,
};
use vstd::prelude::*;

verus! {

/// Why a scanned site folder could not be hidden or deleted.
#[derive(Debug)]
pub enum SiteFsError {
    InvalidName(String),
    NotFound(String),
    AlreadyExists(String),
    Io(String),
}

/// Safe to treat as a direct child folder of `www`: non-empty, not `.` or
/// `..`, no path separator, not already hidden (leading `.`).
pub open spec fn spec_valid_scanned_name(n: Seq<char>) -> bool {
    &&& n.len() > 0
    &&& n != "."@
    &&& n != ".."@
    &&& n[0] != '.'
    &&& forall|i: int| 0 <= i < n.len() ==> #[trigger] n[i] != '/' && n[i] != '\\'
}

/// True iff `name` is safe to treat as a direct child folder of `www`.
pub fn valid_scanned_name(name: &str) -> (b: bool)
    ensures
        b == spec_valid_scanned_name(name@),
{
    let v = crate::text::chars_of(name);
    if v.len() == 0 || v[0] == '.' {
        return false;
    }
    let mut i: usize = 0;
    while i < v.len()
        invariant
            0 <= i <= v@.len(),
            v@ == name@,
            forall|j: int| 0 <= j < i ==> #[trigger] v@[j] != '/' && v@[j] != '\\',
        decreases v@.len() - i,
    {
        if v[i] == '/' || v[i] == '\\' {
            return false;
        }
        i = i + 1;
    }
    proof {
        reveal_strlit(".");
        reveal_strlit("..");
    }
    true
}

/// What hiding `www/<name>` renames it to (`.<name>`), given whether the
/// folder exists and whether the target does.
pub fn hide_scanned_site(name: &str, folder_exists: bool, target_exists: bool) -> (r: Result<String, SiteFsError>)
    ensures
        !spec_valid_scanned_name(name@) ==> (r matches Err(SiteFsError::InvalidName(n)) && n@ == name@),
        spec_valid_scanned_name(name@) && !folder_exists ==> (r matches Err(SiteFsError::NotFound(n)) && n@ == name@),
        spec_valid_scanned_name(name@) && folder_exists && target_exists ==> (r matches Err(SiteFsError::AlreadyExists(n)) && n@ == seq!['.'] + name@),
        r is Ok <==> spec_valid_scanned_name(name@) && folder_exists && !target_exists,
        r matches Ok(t) ==> t@ == seq!['.'] + name@,
{
    if !valid_scanned_name(name) {
        return Err(SiteFsError::InvalidName(name.to_string()));
    }
    if !folder_exists {
        return Err(SiteFsError::NotFound(name.to_string()));
    }
    let mut t = String::from_str(".");
    t.append(name);
    proof {
        reveal_strlit(".");
    }
    if target_exists {
        return Err(SiteFsError::AlreadyExists(t));
    }
    Ok(t)
}

/// Whether `www/<name>` may be deleted, given whether it is a folder.
pub fn delete_scanned_site(name: &str, folder_exists: bool) -> (r: Result<(), SiteFsError>)
    ensures
        !spec_valid_scanned_name(name@) ==> (r matches Err(SiteFsError::InvalidName(n)) && n@ == name@),
        spec_valid_scanned_name(name@) && !folder_exists ==> (r matches Err(SiteFsError::NotFound(n)) && n@ == name@),
        r is Ok <==> spec_valid_scanned_name(name@) && folder_exists,
{
    if !valid_scanned_name(name) {
        return Err(SiteFsError::InvalidName(name.to_string()));
    }
    if !folder_exists {
        return Err(SiteFsError::NotFound(name.to_string()));
    }
    Ok(())
}

/// Where a site came from: the `www/` scan, or the explicit registry.
#[derive(Debug, Clone, Copy, PartialEq, Eq, Structural)]
pub enum SiteSource {
    Scanned,
    Linked,
    Proxy,
}

/// The proxy view of a site (routes + websocket flag).
#[derive(Debug, Clone, PartialEq, Eq)]
pub struct ProxySpec {
    pub routes: Vec<ProxyRoute>,
    pub websocket: bool,
}

/// A project exposed at its domains (`<name>.<tld>` unless overridden).
#[derive(Debug, Clone, PartialEq, Eq)]
pub struct Site {
    pub name: String,
    pub root: String,
    pub hostname: String,
    pub domains: Vec<String>,
    pub source: SiteSource,
    pub proxy: Option<ProxySpec>,
    pub public_domains: Vec<String>,
}

/// Serve `.well-known`, never execute it: `^~` keeps the PHP handler away,
/// the nested rule restores the dotfile deny, and the unanchored rule covers
/// `/{tenant}/.well-known/…`.
pub const WELL_KNOWN_GUARD: &'static str = "  location ^~ /.well-known/ {\n    location ~ ^/\\.well-known/(.*/)?\\. { deny all; }\n    location ~ \\.(php|phar|phtml)$ { deny all; }\n    try_files $uri $uri/ /index.php?$query_string;\n  }\n  location ~ /\\.well-known/.*\\.(php|phar|phtml)$ { deny all; }\n";

/// Long-lived caching of Laravel's built assets.
pub const BUILD_CACHE: &'static str = "  location ^~ /build/ {\n    expires 1y;\n    add_header Cache-Control \"public, immutable\";\n    try_files $uri =404;\n  }\n";

pub const WS_HEADERS: &'static str = "    proxy_set_header Upgrade $http_upgrade;\n    proxy_set_header Connection $connection_upgrade;\n";

pub const LOC_HEAD: &'static str = "  location ";

pub const LOC_MID: &'static str = " {\n    proxy_pass http://";

/// The rest of a proxied location on the local server (forwarded protocol as
/// seen).
pub const LOC_TAIL_LOCAL: &'static str = ";\n    proxy_http_version 1.1;\n    proxy_set_header Host $host;\n    proxy_set_header X-Real-IP $remote_addr;\n    proxy_set_header X-Forwarded-For $proxy_add_x_forwarded_for;\n    proxy_set_header X-Forwarded-Proto $scheme;\n";

/// The rest of a proxied location on the public server (forwarded as https).
pub const LOC_TAIL_PUBLIC: &'static str = ";\n    proxy_http_version 1.1;\n    proxy_set_header Host $host;\n    proxy_set_header X-Real-IP $remote_addr;\n    proxy_set_header X-Forwarded-For $proxy_add_x_forwarded_for;\n    proxy_set_header X-Forwarded-Proto https;\n";

/// One proxied path prefix.
pub open spec fn loc_block(path: Seq<char>, up: Seq<char>, ws: bool, tail: Seq<char>) -> Seq<char> {
    LOC_HEAD@ + path + LOC_MID@ + up + tail + (if ws { WS_HEADERS@ } else { seq![] }) + "  }\n"@
}

/// The proxied locations of all routes, in order.
pub open spec fn spec_locations(rs: Seq<(Seq<char>, Seq<char>)>, ws: bool, tail: Seq<char>) -> Seq<char>
    decreases rs.len(),
{
    if rs.len() == 0 {
        seq![]
    } else {
        spec_locations(rs.drop_last(), ws, tail) + loc_block(rs.last().0, rs.last().1, ws, tail)
    }
}

fn locations(routes: &Vec<ProxyRoute>, ws: bool, tail: &str) -> (s: String)
    ensures
        s@ == spec_locations(route_views(routes@), ws, tail@),
{
    let ghost rv = route_views(routes@);
    let mut s = String::new();
    let mut i: usize = 0;
    while i < routes.len()
        invariant
            0 <= i <= routes@.len(),
            rv == route_views(routes@),
            s@ == spec_locations(rv.take(i as int), ws, tail@),
        decreases routes@.len() - i,
    {
        proof {
            assert(rv.take(i + 1).drop_last() == rv.take(i as int));
            assert(rv.take(i + 1).last() == (routes@[i as int].path@, routes@[i as int].upstream@));
        }
        let ghost before = s@;
        s.append(LOC_HEAD);
        s.append(routes[i].path.as_str());
        s.append(LOC_MID);
        s.append(routes[i].upstream.as_str());
        s.append(tail);
        if ws {
            s.append(WS_HEADERS);
        } else {
            assert(s@ == s@ + Seq::<char>::empty());
        }
        s.append("  }\n");
        assert(s@ =~= before + loc_block(routes@[i as int].path@, routes@[i as int].upstream@, ws, tail@));
        i = i + 1;
    }
    assert(rv.take(i as int) == rv);
    s
}

/// The local server of a proxy site: HTTP redirects to HTTPS, which proxies.
pub open spec fn local_proxy_block(names: Seq<char>, cert: Seq<char>, key: Seq<char>, alog: Seq<char>, elog: Seq<char>, locations: Seq<char>) -> Seq<char> {
    "server {\n  listen 80;\n  server_name "@
            + names
            + ";\n  return 301 https://$host$request_uri;\n}\nserver {\n  listen 443 ssl;\n  http2 on;\n  server_name "@
            + names
            + ";\n  ssl_certificate "@
            + cert
            + ";\n  ssl_certificate_key "@
            + key
            + ";\n  ssl_protocols TLSv1.2 TLSv1.3;\n  ssl_ciphers HIGH:!aNULL:!MD5;\n  ssl_session_cache shared:SSL:10m;\n  ssl_session_timeout 10m;\n  access_log "@
            + alog
            + ";\n  error_log "@
            + elog
            + ";\n"@
            + locations
            + "}\n"@
}

/// The local server of a PHP site: HTTP redirects to HTTPS, which serves the
/// document root through php-fpm.
pub open spec fn local_php_block(
    names: Seq<char>,
    cert: Seq<char>,
    key: Seq<char>,
    alog: Seq<char>,
    elog: Seq<char>,
    docroot: Seq<char>,
    sock: Seq<char>,
    is_laravel: bool,
    paths: LaragonPaths,
) -> Seq<char> {
    "server {\n  listen 80;\n  server_name "@
            + names
            + ";\n  return 301 https://$host$request_uri;\n}\nserver {\n  listen 443 ssl;\n  http2 on;\n  server_name "@
            + names
            + ";\n  ssl_certificate "@
            + cert
            + ";\n  ssl_certificate_key "@
            + key
            + ";\n  ssl_protocols TLSv1.2 TLSv1.3;\n  ssl_ciphers HIGH:!aNULL:!MD5;\n  ssl_session_cache shared:SSL:10m;\n  ssl_session_timeout 10m;\n  root "@
            + docroot
            + ";\n  index index.php index.html;\n  access_log "@
            + alog
            + ";\n  error_log "@
            + elog
            + ";\n  location ~ /\\.(?!well-known).* { deny all; }\n"@
            + WELL_KNOWN_GUARD@
            + (if is_laravel { BUILD_CACHE@ } else { seq![] })
            + "  location / { try_files $uri $uri/ /index.php?$query_string; }\n  location ~ \\.php$ {\n    fastcgi_pass unix:"@
            + sock
            + ";\n    fastcgi_index index.php;\n    include "@
            + paths.spec_etc_for("nginx"@)
            + "/fastcgi_params;\n    fastcgi_param SCRIPT_FILENAME $document_root$fastcgi_script_name;\n    fastcgi_param HTTPS on;\n  }\n}\n"@
}

/// The public server of a proxy site, on 80 and 443, no redirect.
pub open spec fn public_proxy_block(names: Seq<char>, cert: Seq<char>, key: Seq<char>, alog: Seq<char>, elog: Seq<char>, locations: Seq<char>) -> Seq<char> {
    "server {\n  listen 80;\n  listen 443 ssl;\n  http2 on;\n  server_name "@
            + names
            + ";\n  ssl_certificate "@
            + cert
            + ";\n  ssl_certificate_key "@
            + key
            + ";\n  ssl_protocols TLSv1.2 TLSv1.3;\n  ssl_ciphers HIGH:!aNULL:!MD5;\n  ssl_session_cache shared:SSL:10m;\n  ssl_session_timeout 10m;\n  access_log "@
            + alog
            + ";\n  error_log "@
            + elog
            + ";\n"@
            + locations
            + "}\n"@
}

/// The public server of a PHP site, on 80 and 443, no redirect.
pub open spec fn public_php_block(
    names: Seq<char>,
    cert: Seq<char>,
    key: Seq<char>,
    alog: Seq<char>,
    elog: Seq<char>,
    docroot: Seq<char>,
    sock: Seq<char>,
    is_laravel: bool,
    paths: LaragonPaths,
) -> Seq<char> {
    "server {\n  listen 80;\n  listen 443 ssl;\n  http2 on;\n  server_name "@
            + names
            + ";\n  ssl_certificate "@
            + cert
            + ";\n  ssl_certificate_key "@
            + key
            + ";\n  ssl_protocols TLSv1.2 TLSv1.3;\n  ssl_ciphers HIGH:!aNULL:!MD5;\n  ssl_session_cache shared:SSL:10m;\n  ssl_session_timeout 10m;\n  root "@
            + docroot
            + ";\n  index index.php index.html;\n  access_log "@
            + alog
            + ";\n  error_log "@
            + elog
            + ";\n  location ~ /\\.(?!well-known).* { deny all; }\n"@
            + WELL_KNOWN_GUARD@
            + (if is_laravel { BUILD_CACHE@ } else { seq![] })
            + "  location / { try_files $uri $uri/ /index.php?$query_string; }\n  location ~ \\.php$ {\n    fastcgi_pass unix:"@
            + sock
            + ";\n    fastcgi_index index.php;\n    include "@
            + paths.spec_etc_for("nginx"@)
            + "/fastcgi_params;\n    fastcgi_param SCRIPT_FILENAME $document_root$fastcgi_script_name;\n    fastcgi_param HTTPS on;\n  }\n}\n"@
}

fn local_proxy_text(names: &str, cert: &str, key: &str, alog: &str, elog: &str, locations: &str) -> (s: String)
    ensures
        s@ == local_proxy_block(names@, cert@, key@, alog@, elog@, locations@),
{
    let mut s = String::new();
    s.append("server {\n  listen 80;\n  server_name ");
    s.append(names);
    s.append(";\n  return 301 https://$host$request_uri;\n}\nserver {\n  listen 443 ssl;\n  http2 on;\n  server_name ");
    s.append(names);
    s.append(";\n  ssl_certificate ");
    s.append(cert);
    s.append(";\n  ssl_certificate_key ");
    s.append(key);
    s.append(";\n  ssl_protocols TLSv1.2 TLSv1.3;\n  ssl_ciphers HIGH:!aNULL:!MD5;\n  ssl_session_cache shared:SSL:10m;\n  ssl_session_timeout 10m;\n  access_log ");
    s.append(alog);
    s.append(";\n  error_log ");
    s.append(elog);
    s.append(";\n");
    s.append(locations);
    s.append("}\n");
    assert(s@ =~= local_proxy_block(names@, cert@, key@, alog@, elog@, locations@));
    s
}

fn public_proxy_text(names: &str, cert: &str, key: &str, alog: &str, elog: &str, locations: &str) -> (s: String)
    ensures
        s@ == public_proxy_block(names@, cert@, key@, alog@, elog@, locations@),
{
    let mut s = String::new();
    s.append("server {\n  listen 80;\n  listen 443 ssl;\n  http2 on;\n  server_name ");
    s.append(names);
    s.append(";\n  ssl_certificate ");
    s.append(cert);
    s.append(";\n  ssl_certificate_key ");
    s.append(key);
    s.append(";\n  ssl_protocols TLSv1.2 TLSv1.3;\n  ssl_ciphers HIGH:!aNULL:!MD5;\n  ssl_session_cache shared:SSL:10m;\n  ssl_session_timeout 10m;\n  access_log ");
    s.append(alog);
    s.append(";\n  error_log ");
    s.append(elog);
    s.append(";\n");
    s.append(locations);
    s.append("}\n");
    assert(s@ =~= public_proxy_block(names@, cert@, key@, alog@, elog@, locations@));
    s
}

fn local_php_text(names: &str, cert: &str, key: &str, alog: &str, elog: &str, docroot: &str, sock: &str, is_laravel: bool, paths: &LaragonPaths) -> (s: String)
    ensures
        s@ == local_php_block(names@, cert@, key@, alog@, elog@, docroot@, sock@, is_laravel, *paths),
{
    let nginx_etc = paths.etc_for("nginx");
    let nginx_etc = nginx_etc.as_str();
    let mut s = String::new();
    s.append("server {\n  listen 80;\n  server_name ");
    s.append(names);
    s.append(";\n  return 301 https://$host$request_uri;\n}\nserver {\n  listen 443 ssl;\n  http2 on;\n  server_name ");
    s.append(names);
    s.append(";\n  ssl_certificate ");
    s.append(cert);
    s.append(";\n  ssl_certificate_key ");
    s.append(key);
    s.append(";\n  ssl_protocols TLSv1.2 TLSv1.3;\n  ssl_ciphers HIGH:!aNULL:!MD5;\n  ssl_session_cache shared:SSL:10m;\n  ssl_session_timeout 10m;\n  root ");
    s.append(docroot);
    s.append(";\n  index index.php index.html;\n  access_log ");
    s.append(alog);
    s.append(";\n  error_log ");
    s.append(elog);
    s.append(";\n  location ~ /\\.(?!well-known).* { deny all; }\n");
    s.append(WELL_KNOWN_GUARD);
    if is_laravel {
        s.append(BUILD_CACHE);
    }
    s.append("  location / { try_files $uri $uri/ /index.php?$query_string; }\n  location ~ \\.php$ {\n    fastcgi_pass unix:");
    s.append(sock);
    s.append(";\n    fastcgi_index index.php;\n    include ");
    s.append(nginx_etc);
    s.append("/fastcgi_params;\n    fastcgi_param SCRIPT_FILENAME $document_root$fastcgi_script_name;\n    fastcgi_param HTTPS on;\n  }\n}\n");
    assert(s@ =~= local_php_block(names@, cert@, key@, alog@, elog@, docroot@, sock@, is_laravel, *paths));
    s
}

fn public_php_text(names: &str, cert: &str, key: &str, alog: &str, elog: &str, docroot: &str, sock: &str, is_laravel: bool, paths: &LaragonPaths) -> (s: String)
    ensures
        s@ == public_php_block(names@, cert@, key@, alog@, elog@, docroot@, sock@, is_laravel, *paths),
{
    let nginx_etc = paths.etc_for("nginx");
    let nginx_etc = nginx_etc.as_str();
    let mut s = String::new();
    s.append("server {\n  listen 80;\n  listen 443 ssl;\n  http2 on;\n  server_name ");
    s.append(names);
    s.append(";\n  ssl_certificate ");
    s.append(cert);
    s.append(";\n  ssl_certificate_key ");
    s.append(key);
    s.append(";\n  ssl_protocols TLSv1.2 TLSv1.3;\n  ssl_ciphers HIGH:!aNULL:!MD5;\n  ssl_session_cache shared:SSL:10m;\n  ssl_session_timeout 10m;\n  root ");
    s.append(docroot);
    s.append(";\n  index index.php index.html;\n  access_log ");
    s.append(alog);
    s.append(";\n  error_log ");
    s.append(elog);
    s.append(";\n  location ~ /\\.(?!well-known).* { deny all; }\n");
    s.append(WELL_KNOWN_GUARD);
    if is_laravel {
        s.append(BUILD_CACHE);
    }
    s.append("  location / { try_files $uri $uri/ /index.php?$query_string; }\n  location ~ \\.php$ {\n    fastcgi_pass unix:");
    s.append(sock);
    s.append(";\n    fastcgi_index index.php;\n    include ");
    s.append(nginx_etc);
    s.append("/fastcgi_params;\n    fastcgi_param SCRIPT_FILENAME $document_root$fastcgi_script_name;\n    fastcgi_param HTTPS on;\n  }\n}\n");
    assert(s@ =~= public_php_block(names@, cert@, key@, alog@, elog@, docroot@, sock@, is_laravel, *paths));
    s
}

// ---------------------------------------------------------------------------
// The site model
// ---------------------------------------------------------------------------

/// What a site is, as plain values.
pub struct SiteView {
    pub name: Seq<char>,
    pub root: Seq<char>,
    pub hostname: Seq<char>,
    pub domains: Seq<Seq<char>>,
    pub source: SiteSource,
    /// The routes (path, upstream) and the websocket flag of a proxy site.
    pub proxy: Option<(Seq<(Seq<char>, Seq<char>)>, bool)>,
    pub public_domains: Seq<Seq<char>>,
}

impl View for Site {
    type V = SiteView;

    open spec fn view(&self) -> SiteView {
        SiteView {
            name: self.name@,
            root: self.root@,
            hostname: self.hostname@,
            domains: str_views(self.domains@),
            source: self.source,
            proxy: match self.proxy {
                Some(p) => Some((route_views(p.routes@), p.websocket)),
                None => None,
            },
            public_domains: str_views(self.public_domains@),
        }
    }
}

pub open spec fn site_views(v: Seq<Site>) -> Seq<SiteView> {
    v.map_values(|s: Site| s@)
}

/// Laravel-style document root: `public/` when the project has one.
pub open spec fn spec_document_root(root: Seq<char>, has_public_dir: bool) -> Seq<char> {
    if has_public_dir {
        path_join(root, "public"@)
    } else {
        root
    }
}

/// A per-site log file under the log directory.
pub open spec fn log_file(paths: LaragonPaths, name: Seq<char>, suffix: Seq<char>) -> Seq<char> {
    path_join(paths.spec_log(), name + suffix)
}

/// The server answering a site's public domains (nothing when it has none).
pub open spec fn spec_public_vhost(
    s: SiteView,
    paths: LaragonPaths,
    sock: Seq<char>,
    cert: Seq<char>,
    key: Seq<char>,
    is_laravel: bool,
    has_public_dir: bool,
) -> Seq<char> {
    if s.public_domains.len() == 0 {
        seq![]
    } else {
        let names = join_with(s.public_domains, " "@);
        let alog = log_file(paths, s.name, "-public-access.log"@);
        let elog = log_file(paths, s.name, "-public-error.log"@);
        match s.proxy {
            Some(p) => public_proxy_block(names, cert, key, alog, elog, spec_locations(p.0, p.1, LOC_TAIL_PUBLIC@)),
            None => public_php_block(
                names,
                cert,
                key,
                alog,
                elog,
                spec_document_root(s.root, has_public_dir),
                sock,
                is_laravel,
                paths,
            ),
        }
    }
}

/// Every public domain is served: the public server of a site with public
/// domains opens with its `server_name` line, which names all the public
/// domains, in order, separated by single spaces.
pub proof fn lemma_public_server_names_every_domain(
    s: SiteView,
    paths: LaragonPaths,
    sock: Seq<char>,
    cert: Seq<char>,
    key: Seq<char>,
    is_laravel: bool,
    has_public_dir: bool,
)
    requires
        s.public_domains.len() > 0,
    ensures
        exists|rest: Seq<char>|
            spec_public_vhost(s, paths, sock, cert, key, is_laravel, has_public_dir) == "server {\n  listen 80;\n  listen 443 ssl;\n  http2 on;\n  server_name "@
                + join_with(s.public_domains, " "@) + ";\n"@ + rest,
        forall|i: int| 0 <= i < s.public_domains.len() ==> contains_seq(join_with(s.public_domains, " "@), #[trigger] s.public_domains[i]),
{
    let block = spec_public_vhost(s, paths, sock, cert, key, is_laravel, has_public_dir);
    let head = "server {\n  listen 80;\n  listen 443 ssl;\n  http2 on;\n  server_name "@ + join_with(s.public_domains, " "@);
    let line = head + ";\n"@;
    reveal_strlit(";\n");
    reveal_strlit(";\n  ssl_certificate ");
    assert(block.take(line.len() as int) =~= line);
    assert(block =~= line + block.skip(line.len() as int));
    assert forall|i: int| 0 <= i < s.public_domains.len() implies contains_seq(join_with(s.public_domains, " "@), #[trigger] s.public_domains[i]) by {
        lemma_join_with_contains(s.public_domains, " "@, i);
    }
}

/// Every local domain is served: a site's configuration opens with the
/// HTTP server that redirects to HTTPS and then the HTTPS server, each with
/// a `server_name` line naming all the site's domains, in order, separated
/// by single spaces.
#[verifier::rlimit(60)]
pub proof fn lemma_local_servers_name_every_domain(
    s: SiteView,
    paths: LaragonPaths,
    sock: Seq<char>,
    cert: Seq<char>,
    key: Seq<char>,
    is_laravel: bool,
    has_public_dir: bool,
)
    ensures
        exists|rest: Seq<char>|
            spec_vhost_config(s, paths, sock, cert, key, is_laravel, has_public_dir) == "server {\n  listen 80;\n  server_name "@
                + join_with(s.domains, " "@) + ";\n  return 301 https://$host$request_uri;\n}\nserver {\n  listen 443 ssl;\n  http2 on;\n  server_name "@
                + join_with(s.domains, " "@) + ";\n"@ + rest,
        forall|i: int| 0 <= i < s.domains.len() ==> contains_seq(join_with(s.domains, " "@), #[trigger] s.domains[i]),
{
    let conf = spec_vhost_config(s, paths, sock, cert, key, is_laravel, has_public_dir);
    let names = join_with(s.domains, " "@);
    let line = "server {\n  listen 80;\n  server_name "@ + names + ";\n  return 301 https://$host$request_uri;\n}\nserver {\n  listen 443 ssl;\n  http2 on;\n  server_name "@
        + names + ";\n"@;
    reveal_strlit(";\n");
    reveal_strlit(";\n  ssl_certificate ");
    assert(conf.take(line.len() as int) =~= line);
    assert(conf =~= line + conf.skip(line.len() as int));
    assert forall|i: int| 0 <= i < s.domains.len() implies contains_seq(join_with(s.domains, " "@), #[trigger] s.domains[i]) by {
        lemma_join_with_contains(s.domains, " "@, i);
    }
}

/// The whole nginx configuration of a site: its local server (HTTP redirect
/// plus HTTPS) followed by its public server.
pub open spec fn spec_vhost_config(
    s: SiteView,
    paths: LaragonPaths,
    sock: Seq<char>,
    cert: Seq<char>,
    key: Seq<char>,
    is_laravel: bool,
    has_public_dir: bool,
) -> Seq<char> {
    let names = join_with(s.domains, " "@);
    let alog = log_file(paths, s.name, "-access.log"@);
    let elog = log_file(paths, s.name, "-error.log"@);
    let local = match s.proxy {
        Some(p) => local_proxy_block(names, cert, key, alog, elog, spec_locations(p.0, p.1, LOC_TAIL_LOCAL@)),
        None => local_php_block(
            names,
            cert,
            key,
            alog,
            elog,
            spec_document_root(s.root, has_public_dir),
            sock,
            is_laravel,
            paths,
        ),
    };
    local + spec_public_vhost(s, paths, sock, cert, key, is_laravel, has_public_dir)
}

/// The strings of `v` joined by `sep`.
pub fn join_strings(v: &Vec<String>, sep: &str) -> (r: String)
    ensures
        r@ == join_with(str_views(v@), sep@),
{
    let ghost sv = str_views(v@);
    let mut r = String::new();
    let mut i: usize = 0;
    while i < v.len()
        invariant
            0 <= i <= v@.len(),
            sv == str_views(v@),
            r@ == join_with(sv.take(i as int), sep@),
        decreases v@.len() - i,
    {
        proof {
            lemma_join_with_push(sv.take(i as int), sep@, v@[i as int]@);
            assert(sv.take(i + 1) == sv.take(i as int).push(v@[i as int]@));
        }
        if i > 0 {
            r.append(sep);
        }
        r.append(v[i].as_str());
        i = i + 1;
    }
    assert(sv.take(i as int) == sv);
    r
}

fn log_path(paths: &LaragonPaths, name: &str, suffix: &str) -> (r: String)
    ensures
        r@ == log_file(*paths, name@, suffix@),
{
    let file = cat(name, suffix);
    join_path(paths.log().as_str(), file.as_str())
}

impl Site {
    /// Laravel-style: serve `public/` if the project has it, else the project
    /// folder.
    pub fn document_root(&self, has_public_dir: bool) -> (r: String)
        ensures
            r@ == spec_document_root(self.root@, has_public_dir),
    {
        if has_public_dir {
            join_path(self.root.as_str(), "public")
        } else {
            self.root.clone()
        }
    }

    /// The nginx vhost of this site: HTTP→HTTPS redirect and HTTPS server for
    /// its local domains, then the public server when it has public domains.
    /// `is_laravel` says whether the project has an `artisan` file,
    /// `has_public_dir` whether it has a `public/` folder.
    pub fn vhost_config(
        &self,
        paths: &LaragonPaths,
        php_socket: &str,
        cert: &str,
        key: &str,
        is_laravel: bool,
        has_public_dir: bool,
    ) -> (r: String)
        ensures
            r@ == spec_vhost_config(self@, *paths, php_socket@, cert@, key@, is_laravel, has_public_dir),
    {
        let names = join_strings(&self.domains, " ");
        let alog = log_path(paths, self.name.as_str(), "-access.log");
        let elog = log_path(paths, self.name.as_str(), "-error.log");
        let local = match &self.proxy {
            Some(p) => {
                let locs = locations(&p.routes, p.websocket, LOC_TAIL_LOCAL);
                local_proxy_text(names.as_str(), cert, key, alog.as_str(), elog.as_str(), locs.as_str())
            },
            None => {
                let docroot = self.document_root(has_public_dir);
                local_php_text(
                    names.as_str(),
                    cert,
                    key,
                    alog.as_str(),
                    elog.as_str(),
                    docroot.as_str(),
                    php_socket,
                    is_laravel,
                    paths,
                )
            },
        };
        let public = self.public_vhost_block(paths, php_socket, cert, key, is_laravel, has_public_dir);
        cat(local.as_str(), public.as_str())
    }

    /// The server for the site's public domains, on both 80 and 443 with no
    /// redirect (the upstream already terminated public TLS); empty when the
    /// site has no public domains.
    pub fn public_vhost_block(
        &self,
        paths: &LaragonPaths,
        php_socket: &str,
        cert: &str,
        key: &str,
        is_laravel: bool,
        has_public_dir: bool,
    ) -> (r: String)
        ensures
            r@ == spec_public_vhost(self@, *paths, php_socket@, cert@, key@, is_laravel, has_public_dir),
    {
        if self.public_domains.len() == 0 {
            return String::new();
        }
        let names = join_strings(&self.public_domains, " ");
        let alog = log_path(paths, self.name.as_str(), "-public-access.log");
        let elog = log_path(paths, self.name.as_str(), "-public-error.log");
        match &self.proxy {
            Some(p) => {
                let locs = locations(&p.routes, p.websocket, LOC_TAIL_PUBLIC);
                public_proxy_text(names.as_str(), cert, key, alog.as_str(), elog.as_str(), locs.as_str())
            },
            None => {
                let docroot = self.document_root(has_public_dir);
                public_php_text(
                    names.as_str(),
                    cert,
                    key,
                    alog.as_str(),
                    elog.as_str(),
                    docroot.as_str(),
                    php_socket,
                    is_laravel,
                    paths,
                )
            },
        }
    }
}


// ---------------------------------------------------------------------------
// Discovery and merging
// ---------------------------------------------------------------------------

pub open spec fn proxy_view(p: Option<ProxySpec>) -> Option<(Seq<(Seq<char>, Seq<char>)>, bool)> {
    match p {
        Some(p) => Some((route_views(p.routes@), p.websocket)),
        None => None,
    }
}

pub open spec fn host_of(name: Seq<char>, tld: Seq<char>) -> Seq<char> {
    name + "."@ + tld
}

/// A site as first discovered: reachable at `<name>.<tld>` only.
pub open spec fn fresh_view(
    name: Seq<char>,
    root: Seq<char>,
    tld: Seq<char>,
    source: SiteSource,
    proxy: Option<(Seq<(Seq<char>, Seq<char>)>, bool)>,
) -> SiteView {
    SiteView {
        name,
        root,
        hostname: host_of(name, tld),
        domains: seq![host_of(name, tld)],
        source,
        proxy,
        public_domains: seq![],
    }
}

/// A dot-prefixed (hidden) folder name.
pub open spec fn hidden(n: Seq<char>) -> bool {
    n.len() > 0 && n[0] == '.'
}

/// The visible folders of `www`, in the order given.
pub open spec fn scan_views(www: Seq<char>, names: Seq<Seq<char>>, tld: Seq<char>) -> Seq<SiteView>
    decreases names.len(),
{
    if names.len() == 0 {
        seq![]
    } else {
        let prev = scan_views(www, names.drop_last(), tld);
        let n = names.last();
        if hidden(n) {
            prev
        } else {
            prev.push(fresh_view(n, path_join(www, n), tld, SiteSource::Scanned, None))
        }
    }
}

/// Where `x` goes in `s` sorted by name: before the first element with a
/// greater name (after its equals, so sorting is stable).
pub open spec fn name_insert_pos(s: Seq<SiteView>, x: SiteView) -> int
    decreases s.len(),
{
    if s.len() == 0 {
        0
    } else if seq_lt(x.name, s[0].name) {
        0
    } else {
        1 + name_insert_pos(s.drop_first(), x)
    }
}

/// Stable sort by name.
pub open spec fn sort_sites(s: Seq<SiteView>) -> Seq<SiteView>
    decreases s.len(),
{
    if s.len() == 0 {
        s
    } else {
        let sorted = sort_sites(s.drop_last());
        sorted.insert(name_insert_pos(sorted, s.last()), s.last())
    }
}

pub open spec fn spec_scan_sites(www: Seq<char>, names: Seq<Seq<char>>, tld: Seq<char>) -> Seq<SiteView> {
    sort_sites(scan_views(www, names, tld))
}

/// Some site of `s` is named `n`.
pub open spec fn named_in(s: Seq<SiteView>, n: Seq<char>) -> bool {
    exists|k: int| 0 <= k < s.len() && #[trigger] s[k].name == n
}

pub open spec fn ignored_msg(e: Seq<char>) -> Seq<char> {
    "sites.toml ignored ("@ + e + ")"@
}

pub open spec fn linked_shadowed_msg(n: Seq<char>) -> Seq<char> {
    "linked site `"@ + n + "` is shadowed by a folder in www/"@
}

pub open spec fn linked_missing_msg(n: Seq<char>, root: Seq<char>) -> Seq<char> {
    "linked site `"@ + n + "`: folder `"@ + root + "` not found"@
}

pub open spec fn proxy_shadowed_msg(n: Seq<char>) -> Seq<char> {
    "proxy site `"@ + n + "` is shadowed by another site"@
}

pub open spec fn proxy_missing_msg(n: Seq<char>, root: Seq<char>) -> Seq<char> {
    "proxy site `"@ + n + "`: folder `"@ + root + "` not found; processes unavailable"@
}

/// The sites and warnings after the first `n` linked entries: a name already
/// taken is shadowed, a missing folder is skipped, the rest are added.
pub open spec fn merge_linked(
    base: (Seq<SiteView>, Seq<Seq<char>>),
    es: Seq<RegisteredSite>,
    dirs: Seq<bool>,
    tld: Seq<char>,
    n: nat,
) -> (Seq<SiteView>, Seq<Seq<char>>)
    decreases n,
{
    if n == 0 {
        base
    } else {
        let acc = merge_linked(base, es, dirs, tld, (n - 1) as nat);
        let e = es[n - 1];
        if named_in(acc.0, e.name@) {
            (acc.0, acc.1.push(linked_shadowed_msg(e.name@)))
        } else if !dirs[n - 1] {
            (acc.0, acc.1.push(linked_missing_msg(e.name@, e.root@)))
        } else {
            (acc.0.push(fresh_view(e.name@, e.root@, tld, SiteSource::Linked, None)), acc.1)
        }
    }
}

/// The sites and warnings after the first `n` proxies: a name already taken
/// is shadowed; otherwise the proxy is added, without its folder (and with a
/// warning) when that folder is missing.
pub open spec fn merge_proxies(
    base: (Seq<SiteView>, Seq<Seq<char>>),
    ps: Seq<ProxySite>,
    dirs: Seq<bool>,
    tld: Seq<char>,
    n: nat,
) -> (Seq<SiteView>, Seq<Seq<char>>)
    decreases n,
{
    if n == 0 {
        base
    } else {
        let acc = merge_proxies(base, ps, dirs, tld, (n - 1) as nat);
        let p = ps[n - 1];
        let pv = Some((route_views(p.routes@), p.websocket));
        if named_in(acc.0, p.name@) {
            (acc.0, acc.1.push(proxy_shadowed_msg(p.name@)))
        } else {
            match p.root {
                Some(r) => if dirs[n - 1] {
                    (acc.0.push(fresh_view(p.name@, r@, tld, SiteSource::Proxy, pv)), acc.1)
                } else {
                    (
                        acc.0.push(fresh_view(p.name@, seq![], tld, SiteSource::Proxy, pv)),
                        acc.1.push(proxy_missing_msg(p.name@, r@)),
                    )
                },
                None => (acc.0.push(fresh_view(p.name@, seq![], tld, SiteSource::Proxy, pv)), acc.1),
            }
        }
    }
}

/// A site with the registry's domains applied: a non-empty local list
/// replaces its domains (the first becomes its hostname); a public list
/// becomes its public domains.
pub open spec fn with_overrides(v: SiteView, dl: Seq<SiteDomains>, pl: Seq<SiteDomains>) -> SiteView {
    let (domains, hostname) = match spec_domains_of(dl, v.name) {
        Some(ds) => if ds.len() > 0 {
            (ds, ds[0])
        } else {
            (v.domains, v.hostname)
        },
        None => (v.domains, v.hostname),
    };
    let public_domains = match spec_domains_of(pl, v.name) {
        Some(pd) => pd,
        None => v.public_domains,
    };
    SiteView {
        name: v.name,
        root: v.root,
        hostname,
        domains,
        source: v.source,
        proxy: v.proxy,
        public_domains,
    }
}

/// The registry's lists, empty when it could not be loaded.
pub open spec fn linked_of(loaded: Result<SiteRegistry, String>) -> Seq<RegisteredSite> {
    match loaded {
        Ok(r) => r.site_list(),
        Err(_) => seq![],
    }
}

pub open spec fn proxies_of(loaded: Result<SiteRegistry, String>) -> Seq<ProxySite> {
    match loaded {
        Ok(r) => r.proxy_list(),
        Err(_) => seq![],
    }
}

pub open spec fn domains_of(loaded: Result<SiteRegistry, String>) -> Seq<SiteDomains> {
    match loaded {
        Ok(r) => r.domain_list(),
        Err(_) => seq![],
    }
}

pub open spec fn public_of(loaded: Result<SiteRegistry, String>) -> Seq<SiteDomains> {
    match loaded {
        Ok(r) => r.public_domain_list(),
        Err(_) => seq![],
    }
}

/// Every site: the scanned folders, then the linked folders and proxies
/// that no earlier site shadows, with the registry's domains applied, sorted
/// by name; and the warnings met on the way.
pub open spec fn spec_list_all(
    www: Seq<char>,
    names: Seq<Seq<char>>,
    loaded: Result<SiteRegistry, String>,
    linked_dirs: Seq<bool>,
    proxy_dirs: Seq<bool>,
    tld: Seq<char>,
) -> (Seq<SiteView>, Seq<Seq<char>>) {
    let w0 = match loaded {
        Ok(_) => seq![],
        Err(e) => seq![ignored_msg(e@)],
    };
    let ls = linked_of(loaded);
    let ps = proxies_of(loaded);
    let a = merge_linked((spec_scan_sites(www, names, tld), w0), ls, linked_dirs, tld, ls.len());
    let b = merge_proxies(a, ps, proxy_dirs, tld, ps.len());
    let dl = domains_of(loaded);
    let pl = public_of(loaded);
    (sort_sites(b.0.map_values(|v: SiteView| with_overrides(v, dl, pl))), b.1)
}

fn copy_routes(rs: &Vec<ProxyRoute>) -> (r: Vec<ProxyRoute>)
    ensures
        route_views(r@) == route_views(rs@),
{
    let mut r: Vec<ProxyRoute> = Vec::new();
    let mut i: usize = 0;
    while i < rs.len()
        invariant
            0 <= i <= rs@.len(),
            route_views(r@) == route_views(rs@.take(i as int)),
        decreases rs@.len() - i,
    {
        let ghost before = r@;
        r.push(rs[i].duplicate());
        proof {
            assert(rs@.take(i + 1) =~= rs@.take(i as int).push(rs@[i as int]));
            assert(route_views(r@) =~= route_views(before).push((rs@[i as int].path@, rs@[i as int].upstream@)));
            assert(route_views(rs@.take(i + 1)) =~= route_views(rs@.take(i as int)).push((rs@[i as int].path@, rs@[i as int].upstream@)));
        }
        i = i + 1;
    }
    assert(rs@.take(i as int) == rs@);
    r
}

fn copy_slice(v: &[String]) -> (r: Vec<String>)
    ensures
        str_views(r@) == str_views(v@),
{
    let mut r: Vec<String> = Vec::new();
    let mut i: usize = 0;
    while i < v.len()
        invariant
            0 <= i <= v@.len(),
            str_views(r@) == str_views(v@.take(i as int)),
        decreases v@.len() - i,
    {
        let ghost before = r@;
        r.push(v[i].clone());
        proof {
            assert(v@.take(i + 1) =~= v@.take(i as int).push(v@[i as int]));
            assert(str_views(r@) =~= str_views(before).push(v@[i as int]@));
            assert(str_views(v@.take(i + 1)) =~= str_views(v@.take(i as int)).push(v@[i as int]@));
        }
        i = i + 1;
    }
    assert(v@.take(i as int) == v@);
    r
}

fn fresh_site(name: &str, root: String, tld: &str, source: SiteSource, proxy: Option<ProxySpec>) -> (s: Site)
    ensures
        s@ == fresh_view(name@, root@, tld@, source, proxy_view(proxy)),
{
    let mut hostname = cat(name, ".");
    hostname.append(tld);
    let mut domains: Vec<String> = Vec::new();
    domains.push(hostname.clone());
    let s = Site {
        name: name.to_owned(),
        root,
        hostname,
        domains,
        source,
        proxy,
        public_domains: Vec::new(),
    };
    assert(s@.domains =~= seq![host_of(name@, tld@)]);
    assert(s@.public_domains =~= Seq::<Seq<char>>::empty());
    s
}

/// Sort sites by name, keeping the order of equal names.
pub fn sort_by_name(v: Vec<Site>) -> (r: Vec<Site>)
    ensures
        site_views(r@) == sort_sites(site_views(v@)),
{
    let ghost orig = site_views(v@);
    let ghost mut k: int = 0;
    let mut src = v;
    let mut out: Vec<Site> = Vec::new();
    assert(orig.skip(0) == orig);
    while src.len() > 0
        invariant
            0 <= k <= orig.len(),
            site_views(src@) == orig.skip(k),
            site_views(out@) == sort_sites(orig.take(k)),
        decreases src@.len(),
    {
        let ghost before = src@;
        let x = src.remove(0);
        let ghost xv = x@;
        proof {
            assert(site_views(before)[0] == orig.skip(k)[0]);
            assert(orig.skip(k)[0] == xv);
            assert(site_views(before).len() == before.len());
            assert(orig.skip(k).len() == orig.len() - k);
            assert(src@.len() == before.len() - 1);
            assert forall|j: int| 0 <= j < src@.len() implies #[trigger] site_views(src@)[j] == orig.skip(k + 1)[j] by {
                assert(src@[j] == before[j + 1]);
                assert(site_views(before)[j + 1] == orig.skip(k)[j + 1]);
                assert(site_views(src@)[j] == src@[j]@);
                assert(site_views(before)[j + 1] == before[j + 1]@);
                assert(orig.skip(k + 1)[j] == orig[k + 1 + j]);
                assert(orig.skip(k)[j + 1] == orig[k + j + 1]);
            }
            assert(site_views(src@) =~= orig.skip(k + 1));
            assert(orig.take(k + 1).drop_last() =~= orig.take(k));
            assert(orig.take(k + 1).last() == xv);
        }
        let ghost sorted = site_views(out@);
        let mut p: usize = 0;
        let mut done = false;
        assert(sorted.skip(0) == sorted);
        while !done && p < out.len()
            invariant
                0 <= p <= out@.len(),
                sorted == site_views(out@),
                xv == x@,
                !done ==> name_insert_pos(sorted, xv) == p + name_insert_pos(sorted.skip(p as int), xv),
                done ==> name_insert_pos(sorted, xv) == p,
            decreases out@.len() - p, (if done { 0int } else { 1int }),
        {
            assert(sorted.skip(p as int)[0] == sorted[p as int]);
            assert(sorted.skip(p as int).drop_first() == sorted.skip(p + 1));
            if str_lt(x.name.as_str(), out[p].name.as_str()) {
                done = true;
            } else {
                p = p + 1;
            }
        }
        proof {
            if !done {
                assert(sorted.skip(p as int).len() == 0);
            }
        }
        out.insert(p, x);
        assert(site_views(out@) =~= sorted.insert(p as int, xv));
        proof {
            k = k + 1;
        }
    }
    assert(orig.take(k) == orig);
    out
}

/// The sites of the `www` folders named `dir_names` (hidden ones skipped),
/// each at `<name>.<tld>`, sorted by name.
pub fn scan_sites(www: &str, dir_names: &Vec<String>, tld: &str) -> (r: Vec<Site>)
    ensures
        site_views(r@) == spec_scan_sites(www@, str_views(dir_names@), tld@),
{
    let ghost names = str_views(dir_names@);
    let mut found: Vec<Site> = Vec::new();
    let mut i: usize = 0;
    while i < dir_names.len()
        invariant
            0 <= i <= dir_names@.len(),
            names == str_views(dir_names@),
            site_views(found@) == scan_views(www@, names.take(i as int), tld@),
        decreases dir_names@.len() - i,
    {
        proof {
            assert(names.take(i + 1).drop_last() == names.take(i as int));
            assert(names.take(i + 1).last() == dir_names@[i as int]@);
        }
        let cs = crate::text::chars_of(dir_names[i].as_str());
        if !(cs.len() > 0 && cs[0] == '.') {
            let root = join_path(www, dir_names[i].as_str());
            let s = fresh_site(dir_names[i].as_str(), root, tld, SiteSource::Scanned, None);
            found.push(s);
            assert(site_views(found@) =~= scan_views(www@, names.take(i + 1), tld@));
        }
        i = i + 1;
    }
    assert(names.take(i as int) == names);
    sort_by_name(found)
}

fn has_site_named(sites: &Vec<Site>, name: &str) -> (b: bool)
    ensures
        b == named_in(site_views(sites@), name@),
{
    let mut i: usize = 0;
    while i < sites.len()
        invariant
            0 <= i <= sites@.len(),
            forall|k: int| 0 <= k < i ==> #[trigger] sites@[k].name@ != name@,
        decreases sites@.len() - i,
    {
        if str_eq(sites[i].name.as_str(), name) {
            assert(site_views(sites@)[i as int].name == name@);
            return true;
        }
        i = i + 1;
    }
    proof {
        assert forall|k: int| 0 <= k < site_views(sites@).len() implies #[trigger] site_views(sites@)[k].name != name@ by {
            assert(site_views(sites@)[k].name == sites@[k].name@);
        }
    }
    false
}

fn message3(a: &str, b: &str, c: &str) -> (r: String)
    ensures
        r@ == a@ + b@ + c@,
{
    let mut r = cat(a, b);
    r.append(c);
    r
}

fn message5(a: &str, b: &str, c: &str, d: &str, e: &str) -> (r: String)
    ensures
        r@ == a@ + b@ + c@ + d@ + e@,
{
    let mut r = message3(a, b, c);
    r.append(d);
    r.append(e);
    r
}

/// Every site: the `www` folders named `dir_names`, then the registry's
/// linked folders and proxies unless an earlier site has their name, with the
/// registry's domains applied, sorted by name; and the warnings met on the
/// way. `loaded` is the registry or why it could not be read;
/// `linked_dirs[i]` says whether the folder of the `i`-th linked site exists,
/// `proxy_dirs[i]` whether the folder of the `i`-th proxy does.
pub fn list_all_sites(
    www: &str,
    dir_names: &Vec<String>,
    loaded: Result<SiteRegistry, String>,
    linked_dirs: &[bool],
    proxy_dirs: &[bool],
    tld: &str,
) -> (r: (Vec<Site>, Vec<String>))
    requires
        linked_dirs@.len() == linked_of(loaded).len(),
        proxy_dirs@.len() == proxies_of(loaded).len(),
    ensures
        (site_views(r.0@), str_views(r.1@)) == spec_list_all(www@, str_views(dir_names@), loaded, linked_dirs@, proxy_dirs@, tld@),
{
    let ghost ld = linked_of(loaded);
    let ghost pd = proxies_of(loaded);
    let ghost dl = domains_of(loaded);
    let ghost pl = public_of(loaded);
    let mut sites = scan_sites(www, dir_names, tld);
    let mut warnings: Vec<String> = Vec::new();
    let registry = match loaded {
        Ok(r) => r,
        Err(e) => {
            warnings.push(message3("sites.toml ignored (", e.as_str(), ")"));
            assert(str_views(warnings@) =~= seq![ignored_msg(e@)]);
            let d = SiteRegistry::default();
            assert(d.site_list() =~= ld);
            assert(d.proxy_list() =~= pd);
            assert(d.domain_list() =~= dl);
            assert(d.public_domain_list() =~= pl);
            d
        },
    };
    let ghost base = (site_views(sites@), str_views(warnings@));
    assert(loaded is Ok ==> str_views(warnings@) =~= Seq::<Seq<char>>::empty());
    let linked = registry.sites();
    let mut i: usize = 0;
    while i < linked.len()
        invariant
            0 <= i <= linked@.len(),
            linked@ == ld,
            linked_dirs@.len() == ld.len(),
            (site_views(sites@), str_views(warnings@)) == merge_linked(base, ld, linked_dirs@, tld@, i as nat),
        decreases linked@.len() - i,
    {
        let e = &linked[i];
        if has_site_named(&sites, e.name.as_str()) {
            warnings.push(message3("linked site `", e.name.as_str(), "` is shadowed by a folder in www/"));
        } else if !linked_dirs[i] {
            warnings.push(message5("linked site `", e.name.as_str(), "`: folder `", e.root.as_str(), "` not found"));
        } else {
            sites.push(fresh_site(e.name.as_str(), e.root.clone(), tld, SiteSource::Linked, None));
        }
        assert((site_views(sites@), str_views(warnings@)) =~~= merge_linked(base, ld, linked_dirs@, tld@, (i + 1) as nat));
        i = i + 1;
    }
    let ghost mid = (site_views(sites@), str_views(warnings@));
    let proxies = registry.proxies();
    let mut j: usize = 0;
    while j < proxies.len()
        invariant
            0 <= j <= proxies@.len(),
            proxies@ == pd,
            proxy_dirs@.len() == pd.len(),
            (site_views(sites@), str_views(warnings@)) == merge_proxies(mid, pd, proxy_dirs@, tld@, j as nat),
        decreases proxies@.len() - j,
    {
        let p = &proxies[j];
        if has_site_named(&sites, p.name.as_str()) {
            warnings.push(message3("proxy site `", p.name.as_str(), "` is shadowed by another site"));
        } else {
            let root = match &p.root {
                Some(r) => if proxy_dirs[j] {
                    r.clone()
                } else {
                    warnings.push(message5("proxy site `", p.name.as_str(), "`: folder `", r.as_str(), "` not found; processes unavailable"));
                    String::new()
                },
                None => String::new(),
            };
            let spec = ProxySpec { routes: copy_routes(&p.routes), websocket: p.websocket };
            sites.push(fresh_site(p.name.as_str(), root, tld, SiteSource::Proxy, Some(spec)));
        }
        assert((site_views(sites@), str_views(warnings@)) =~~= merge_proxies(mid, pd, proxy_dirs@, tld@, (j + 1) as nat));
        j = j + 1;
    }
    let ghost merged = site_views(sites@);
    let mut done: Vec<Site> = Vec::new();
    let ghost mut k: int = 0;
    assert(merged.skip(0) == merged);
    while sites.len() > 0
        invariant
            0 <= k <= merged.len(),
            site_views(sites@) == merged.skip(k),
            registry.domain_list() == dl,
            registry.public_domain_list() == pl,
            site_views(done@) == merged.take(k).map_values(|v: SiteView| with_overrides(v, dl, pl)),
        decreases sites@.len(),
    {
        let ghost before = sites@;
        let mut s = sites.remove(0);
        let ghost sv = s@;
        proof {
            assert(site_views(before)[0] == merged.skip(k)[0]);
            assert(merged.skip(k)[0] == sv);
            assert(site_views(before).len() == before.len());
            assert(merged.skip(k).len() == merged.len() - k);
            assert(sites@.len() == before.len() - 1);
            assert forall|j: int| 0 <= j < sites@.len() implies #[trigger] site_views(sites@)[j] == merged.skip(k + 1)[j] by {
                assert(sites@[j] == before[j + 1]);
                assert(site_views(before)[j + 1] == merged.skip(k)[j + 1]);
                assert(site_views(sites@)[j] == sites@[j]@);
                assert(site_views(before)[j + 1] == before[j + 1]@);
                assert(merged.skip(k + 1)[j] == merged[k + 1 + j]);
                assert(merged.skip(k)[j + 1] == merged[k + j + 1]);
            }
            assert(site_views(sites@) =~= merged.skip(k + 1));
        }
        match registry.domains_for(s.name.as_str()) {
            Some(over) => {
                if over.len() > 0 {
                    s.domains = copy_slice(over);
                    s.hostname = over[0].clone();
                }
            },
            None => {},
        }
        match registry.public_domains_for(s.name.as_str()) {
            Some(pub_ds) => {
                s.public_domains = copy_slice(pub_ds);
            },
            None => {},
        }
        assert(s@ == with_overrides(sv, dl, pl));
        let ghost prev = done@;
        done.push(s);
        proof {
            assert(merged.take(k + 1) =~= merged.take(k).push(sv));
            assert(site_views(done@) =~= site_views(prev).push(with_overrides(sv, dl, pl)));
        }
        assert(site_views(done@) =~= merged.take(k + 1).map_values(|v: SiteView| with_overrides(v, dl, pl)));
        proof {
            k = k + 1;
        }
    }
    assert(merged.take(k) == merged);
    (sort_by_name(done), warnings)
}

// ---------------------------------------------------------------------------
// A folder under `www` wins over the registry
// ---------------------------------------------------------------------------

proof fn lemma_insert_pos_bounds(s: Seq<SiteView>, x: SiteView)
    ensures
        0 <= name_insert_pos(s, x) <= s.len(),
    decreases s.len(),
{
    if s.len() > 0 && !seq_lt(x.name, s[0].name) {
        lemma_insert_pos_bounds(s.drop_first(), x);
    }
}

proof fn lemma_sort_sites_multiset(s: Seq<SiteView>)
    ensures
        sort_sites(s).to_multiset() == s.to_multiset(),
    decreases s.len(),
{
    if s.len() > 0 {
        let rest = s.drop_last();
        lemma_sort_sites_multiset(rest);
        let sorted = sort_sites(rest);
        lemma_insert_pos_bounds(sorted, s.last());
        vstd::seq_lib::to_multiset_insert(sorted, name_insert_pos(sorted, s.last()), s.last());
        vstd::seq_lib::to_multiset_build(rest, s.last());
        assert(rest.push(s.last()) =~= s);
    }
}

/// Sorting by name keeps exactly the same sites.
pub proof fn lemma_sort_sites_same_members(s: Seq<SiteView>, y: SiteView)
    ensures
        sort_sites(s).contains(y) <==> s.contains(y),
{
    lemma_sort_sites_multiset(s);
    vstd::seq_lib::to_multiset_contains(sort_sites(s), y);
    vstd::seq_lib::to_multiset_contains(s, y);
}

proof fn lemma_scan_views_props(www: Seq<char>, names: Seq<Seq<char>>, tld: Seq<char>)
    ensures
        forall|k: int| 0 <= k < scan_views(www, names, tld).len()
            ==> (#[trigger] scan_views(www, names, tld)[k]).source == SiteSource::Scanned,
        forall|n: Seq<char>| names.contains(n) && !hidden(n) ==> #[trigger] named_in(scan_views(www, names, tld), n),
    decreases names.len(),
{
    if names.len() > 0 {
        let rest = names.drop_last();
        lemma_scan_views_props(www, rest, tld);
        let prev = scan_views(www, rest, tld);
        let cur = scan_views(www, names, tld);
        assert forall|n: Seq<char>| names.contains(n) && !hidden(n) implies #[trigger] named_in(cur, n) by {
            let i = choose|i: int| 0 <= i < names.len() && names[i] == n;
            if i < names.len() - 1 {
                assert(rest[i] == n);
                assert(named_in(prev, n));
                let k = choose|k: int| 0 <= k < prev.len() && #[trigger] prev[k].name == n;
                assert(cur[k] == prev[k]);
            } else {
                assert(cur[prev.len() as int].name == n);
            }
        }
    }
}

/// Merging linked folders keeps the sites already there, in place, and adds
/// only sites whose names none of them has.
proof fn lemma_merge_linked_extends(
    base: (Seq<SiteView>, Seq<Seq<char>>),
    es: Seq<RegisteredSite>,
    dirs: Seq<bool>,
    tld: Seq<char>,
    n: nat,
)
    ensures
        merge_linked(base, es, dirs, tld, n).0.len() >= base.0.len(),
        forall|k: int| 0 <= k < base.0.len() ==> #[trigger] merge_linked(base, es, dirs, tld, n).0[k] == base.0[k],
        forall|k: int| base.0.len() <= k < merge_linked(base, es, dirs, tld, n).0.len()
            ==> !named_in(base.0, (#[trigger] merge_linked(base, es, dirs, tld, n).0[k]).name),
    decreases n,
{
    if n > 0 {
        lemma_merge_linked_extends(base, es, dirs, tld, (n - 1) as nat);
        let acc = merge_linked(base, es, dirs, tld, (n - 1) as nat);
        let cur = merge_linked(base, es, dirs, tld, n);
        let e = es[n - 1];
        if !named_in(acc.0, e.name@) && dirs[n - 1] {
            assert forall|k: int| 0 <= k < base.0.len() implies #[trigger] cur.0[k] == base.0[k] by {
                assert(cur.0[k] == acc.0[k]);
            }
            assert forall|k: int| base.0.len() <= k < cur.0.len() implies !named_in(base.0, (#[trigger] cur.0[k]).name) by {
                if k < acc.0.len() {
                    assert(cur.0[k] == acc.0[k]);
                } else {
                    if named_in(base.0, e.name@) {
                        let j = choose|j: int| 0 <= j < base.0.len() && #[trigger] base.0[j].name == e.name@;
                        assert(acc.0[j] == base.0[j]);
                        assert(named_in(acc.0, e.name@));
                    }
                }
            }
        }
    }
}

/// Merging proxies keeps the sites already there, in place, and adds only
/// sites whose names none of them has.
proof fn lemma_merge_proxies_extends(
    base: (Seq<SiteView>, Seq<Seq<char>>),
    ps: Seq<ProxySite>,
    dirs: Seq<bool>,
    tld: Seq<char>,
    n: nat,
)
    ensures
        merge_proxies(base, ps, dirs, tld, n).0.len() >= base.0.len(),
        forall|k: int| 0 <= k < base.0.len() ==> #[trigger] merge_proxies(base, ps, dirs, tld, n).0[k] == base.0[k],
        forall|k: int| base.0.len() <= k < merge_proxies(base, ps, dirs, tld, n).0.len()
            ==> !named_in(base.0, (#[trigger] merge_proxies(base, ps, dirs, tld, n).0[k]).name),
    decreases n,
{
    if n > 0 {
        lemma_merge_proxies_extends(base, ps, dirs, tld, (n - 1) as nat);
        let acc = merge_proxies(base, ps, dirs, tld, (n - 1) as nat);
        let cur = merge_proxies(base, ps, dirs, tld, n);
        let p = ps[n - 1];
        if !named_in(acc.0, p.name@) {
            assert(cur.0.len() == acc.0.len() + 1);
            assert(cur.0.last().name == p.name@);
            assert forall|k: int| 0 <= k < base.0.len() implies #[trigger] cur.0[k] == base.0[k] by {
                assert(cur.0[k] == acc.0[k]);
            }
            assert forall|k: int| base.0.len() <= k < cur.0.len() implies !named_in(base.0, (#[trigger] cur.0[k]).name) by {
                if k < acc.0.len() {
                    assert(cur.0[k] == acc.0[k]);
                } else {
                    if named_in(base.0, p.name@) {
                        let j = choose|j: int| 0 <= j < base.0.len() && #[trigger] base.0[j].name == p.name@;
                        assert(acc.0[j] == base.0[j]);
                        assert(named_in(acc.0, p.name@));
                    }
                }
            }
        }
    }
}

/// A visible folder under `www` is always listed, as a scanned site, and a
/// linked folder or proxy registered under the same name never appears
/// beside it: the folder wins.
pub proof fn lemma_scanned_site_wins(
    www: Seq<char>,
    names: Seq<Seq<char>>,
    loaded: Result<SiteRegistry, String>,
    linked_dirs: Seq<bool>,
    proxy_dirs: Seq<bool>,
    tld: Seq<char>,
    n: Seq<char>,
)
    requires
        names.contains(n),
        !hidden(n),
    ensures
        named_in(spec_list_all(www, names, loaded, linked_dirs, proxy_dirs, tld).0, n),
        forall|k: int| 0 <= k < spec_list_all(www, names, loaded, linked_dirs, proxy_dirs, tld).0.len()
            && (#[trigger] spec_list_all(www, names, loaded, linked_dirs, proxy_dirs, tld).0[k]).name == n
            ==> spec_list_all(www, names, loaded, linked_dirs, proxy_dirs, tld).0[k].source == SiteSource::Scanned,
{
    let sv = scan_views(www, names, tld);
    let s0 = spec_scan_sites(www, names, tld);
    lemma_scan_views_props(www, names, tld);
    assert(named_in(sv, n));
    // The scanned sites, sorted: all scanned, one of them named `n`.
    assert forall|k: int| 0 <= k < s0.len() implies (#[trigger] s0[k]).source == SiteSource::Scanned by {
        assert(s0.contains(s0[k]));
        lemma_sort_sites_same_members(sv, s0[k]);
        let j = choose|j: int| 0 <= j < sv.len() && sv[j] == s0[k];
        assert(sv[j].source == SiteSource::Scanned);
    }
    let i0 = choose|i: int| 0 <= i < sv.len() && #[trigger] sv[i].name == n;
    assert(sv.contains(sv[i0]));
    lemma_sort_sites_same_members(sv, sv[i0]);
    let i1 = choose|i: int| 0 <= i < s0.len() && s0[i] == sv[i0];
    assert(s0[i1].name == n);
    assert(named_in(s0, n));

    let w0 = match loaded {
        Ok(_) => seq![],
        Err(e) => seq![ignored_msg(e@)],
    };
    let ls = linked_of(loaded);
    let ps = proxies_of(loaded);
    let a = merge_linked((s0, w0), ls, linked_dirs, tld, ls.len());
    let b = merge_proxies(a, ps, proxy_dirs, tld, ps.len());
    lemma_merge_linked_extends((s0, w0), ls, linked_dirs, tld, ls.len());
    lemma_merge_proxies_extends(a, ps, proxy_dirs, tld, ps.len());
    let dl = domains_of(loaded);
    let pl = public_of(loaded);
    let m = b.0.map_values(|v: SiteView| with_overrides(v, dl, pl));
    let out = sort_sites(m);
    assert(out == spec_list_all(www, names, loaded, linked_dirs, proxy_dirs, tld).0);

    // Every site of `b` past the scanned ones has a name no scanned site has.
    assert forall|k: int| s0.len() <= k < b.0.len() implies !named_in(s0, (#[trigger] b.0[k]).name) by {
        if k < a.0.len() {
            assert(b.0[k] == a.0[k]);
        } else {
            if named_in(s0, b.0[k].name) {
                let j = choose|j: int| 0 <= j < s0.len() && #[trigger] s0[j].name == b.0[k].name;
                assert(a.0[j] == s0[j]);
                assert(named_in(a.0, b.0[k].name));
            }
        }
    }

    // Existence.
    assert(a.0[i1] == s0[i1]);
    assert(b.0[i1] == a.0[i1]);
    assert(m[i1].name == n);
    assert(m.contains(m[i1]));
    lemma_sort_sites_same_members(m, m[i1]);
    let i2 = choose|i: int| 0 <= i < out.len() && out[i] == m[i1];
    assert(out[i2].name == n);

    // Uniqueness of origin.
    assert forall|k: int| 0 <= k < out.len() && (#[trigger] out[k]).name == n implies out[k].source == SiteSource::Scanned by {
        assert(out.contains(out[k]));
        lemma_sort_sites_same_members(m, out[k]);
        let j = choose|j: int| 0 <= j < m.len() && m[j] == out[k];
        assert(m[j].name == b.0[j].name);
        assert(m[j].source == b.0[j].source);
        if j < s0.len() {
            assert(b.0[j] == a.0[j]);
            assert(a.0[j] == s0[j]);
        } else {
            assert(!named_in(s0, b.0[j].name));
        }
    }
}

// ---------------------------------------------------------------------------
// The list comes sorted by name
// ---------------------------------------------------------------------------

/// No site comes after one whose name is greater.
pub open spec fn sorted_by_name(s: Seq<SiteView>) -> bool {
    forall|i: int, j: int| 0 <= i < j < s.len() ==> !seq_lt(#[trigger] s[j].name, #[trigger] s[i].name)
}

proof fn lemma_insert_pos_props(s: Seq<SiteView>, x: SiteView)
    ensures
        forall|k: int| 0 <= k < name_insert_pos(s, x) ==> !seq_lt(x.name, #[trigger] s[k].name),
        name_insert_pos(s, x) < s.len() ==> seq_lt(x.name, s[name_insert_pos(s, x)].name),
    decreases s.len(),
{
    if s.len() > 0 && !seq_lt(x.name, s[0].name) {
        let t = s.drop_first();
        lemma_insert_pos_props(t, x);
        lemma_insert_pos_bounds(t, x);
        assert(name_insert_pos(s, x) == 1 + name_insert_pos(t, x));
        assert forall|k: int| 0 <= k < name_insert_pos(s, x) implies !seq_lt(x.name, #[trigger] s[k].name) by {
            if k > 0 {
                assert(s[k] == t[k - 1]);
            }
        }
        if name_insert_pos(s, x) < s.len() {
            assert(s[name_insert_pos(s, x)] == t[name_insert_pos(t, x)]);
        }
    }
}

#[verifier::rlimit(40)]
proof fn lemma_insert_keeps_sorted(s: Seq<SiteView>, x: SiteView)
    requires
        sorted_by_name(s),
    ensures
        sorted_by_name(s.insert(name_insert_pos(s, x), x)),
{
    let p = name_insert_pos(s, x);
    lemma_insert_pos_bounds(s, x);
    lemma_insert_pos_props(s, x);
    let r = s.insert(p, x);
    s.insert_ensures(p, x);
    assert forall|i: int, j: int| 0 <= i < j < r.len() implies !seq_lt(#[trigger] r[j].name, #[trigger] r[i].name) by {
        if j < p {
            assert(r[i] == s[i] && r[j] == s[j]);
        } else if j == p {
            assert(r[i] == s[i]);
            assert(!seq_lt(x.name, s[i].name));
        } else if i < p {
            assert(r[i] == s[i] && r[j] == s[j - 1]);
        } else if i == p {
            assert(r[j] == s[j - 1]);
            assert(seq_lt(x.name, s[p].name));
            if seq_lt(s[j - 1].name, x.name) {
                lemma_seq_lt_transitive(s[j - 1].name, x.name, s[p].name);
                if j - 1 == p {
                    lemma_seq_lt_asymmetric(s[p].name, x.name);
                } else {
                    assert(!seq_lt(s[j - 1].name, s[p].name));
                }
            }
        } else {
            assert(r[i] == s[i - 1] && r[j] == s[j - 1]);
        }
    }
}

/// Sorting by name sorts by name.
pub proof fn lemma_sort_sites_sorted(s: Seq<SiteView>)
    ensures
        sorted_by_name(sort_sites(s)),
    decreases s.len(),
{
    if s.len() > 0 {
        lemma_sort_sites_sorted(s.drop_last());
        lemma_insert_keeps_sorted(sort_sites(s.drop_last()), s.last());
    }
}

/// The sites of `www` and the full listing both come sorted by name.
pub proof fn lemma_listings_sorted(
    www: Seq<char>,
    names: Seq<Seq<char>>,
    loaded: Result<SiteRegistry, String>,
    linked_dirs: Seq<bool>,
    proxy_dirs: Seq<bool>,
    tld: Seq<char>,
)
    ensures
        sorted_by_name(spec_scan_sites(www, names, tld)),
        sorted_by_name(spec_list_all(www, names, loaded, linked_dirs, proxy_dirs, tld).0),
{
    lemma_sort_sites_sorted(scan_views(www, names, tld));
    let w0 = match loaded {
        Ok(_) => seq![],
        Err(e) => seq![ignored_msg(e@)],
    };
    let ls = linked_of(loaded);
    let ps = proxies_of(loaded);
    let a = merge_linked((spec_scan_sites(www, names, tld), w0), ls, linked_dirs, tld, ls.len());
    let b = merge_proxies(a, ps, proxy_dirs, tld, ps.len());
    let dl = domains_of(loaded);
    let pl = public_of(loaded);
    lemma_sort_sites_sorted(b.0.map_values(|v: SiteView| with_overrides(v, dl, pl)));
}

} // verus!
