use crate::paths::LaragonPaths;
use crate::service::{arg_views, ServiceKind, SpawnSpec};
use crate::text::{decimal, decimal_string, join_path, path_join};
use vstd::prelude::*;

verus! {

/// The nginx front server: listens on port 80 and hands PHP to php-fpm's
/// socket; site vhosts come from `etc/nginx/sites/*.conf`.
pub struct NginxService {
    pub http_port: u16,
    pub php_socket: String,
}

/// The `fastcgi_params` file the main configuration includes.
pub const FASTCGI_PARAMS: &'static str = "fastcgi_param QUERY_STRING $query_string;\nfastcgi_param REQUEST_METHOD $request_method;\nfastcgi_param CONTENT_TYPE $content_type;\nfastcgi_param CONTENT_LENGTH $content_length;\nfastcgi_param REQUEST_URI $request_uri;\nfastcgi_param DOCUMENT_URI $document_uri;\nfastcgi_param DOCUMENT_ROOT $document_root;\nfastcgi_param SERVER_PROTOCOL $server_protocol;\nfastcgi_param GATEWAY_INTERFACE CGI/1.1;\nfastcgi_param REMOTE_ADDR $remote_addr;\nfastcgi_param SERVER_NAME $server_name;\n";

impl NginxService {
    pub fn new(php_socket: String) -> (s: NginxService)
        ensures
            s.http_port == 80,
            s.php_socket@ == php_socket@,
    {
        NginxService { http_port: 80, php_socket }
    }

    pub fn kind(&self) -> (k: ServiceKind)
        ensures
            k == ServiceKind::Nginx,
    {
        ServiceKind::Nginx
    }

    pub fn name(&self) -> (n: &'static str)
        ensures
            n@ == "nginx"@,
    {
        "nginx"
    }

    /// nginx needs php-fpm running first.
    pub fn deps(&self) -> (d: Vec<ServiceKind>)
        ensures
            d@ == seq![ServiceKind::PhpFpm],
    {
        let mut d = Vec::new();
        d.push(ServiceKind::PhpFpm);
        d
    }

    /// The port probed by the health check.
    pub fn port(&self) -> (p: u16)
        ensures
            p == self.http_port,
    {
        self.http_port
    }

    pub open spec fn spec_conf_path(paths: LaragonPaths) -> Seq<char> {
        path_join(paths.spec_etc_for("nginx"@), "nginx.conf"@)
    }

    /// `etc/nginx/nginx.conf`.
    pub fn conf_path(&self, paths: &LaragonPaths) -> (p: String)
        ensures
            p@ == Self::spec_conf_path(*paths),
    {
        let etc = paths.etc_for("nginx");
        join_path(etc.as_str(), "nginx.conf")
    }

    /// `nginx -p <etc/nginx> -c <nginx.conf> -g "daemon off;"`, in the foreground.
    pub fn command(&self, paths: &LaragonPaths) -> (s: SpawnSpec)
        ensures
            s.program@ == "nginx"@,
            arg_views(s.args@) == seq!["-p"@, paths.spec_etc_for("nginx"@), "-c"@, Self::spec_conf_path(*paths), "-g"@, "daemon off;"@],
    {
        let etc = paths.etc_for("nginx");
        let conf = self.conf_path(paths);
        SpawnSpec::new("nginx").arg("-p").arg(etc.as_str()).arg("-c").arg(conf.as_str()).arg("-g").arg("daemon off;")
    }

    pub open spec fn spec_config_text(self, paths: LaragonPaths) -> Seq<char> {
        "worker_processes auto;\npid "@
            + path_join(paths.spec_tmp(), "nginx.pid"@)
            + ";\nerror_log "@
            + path_join(paths.spec_log(), "nginx-error.log"@)
            + ";\nevents { worker_connections 1024; }\nhttp {\n  map $http_upgrade $connection_upgrade { default upgrade; '' close; }\n  access_log "@
            + path_join(paths.spec_log(), "nginx-access.log"@)
            + ";\n  client_body_temp_path "@
            + paths.spec_tmp()
            + "/nginx-client;\n  proxy_temp_path "@
            + paths.spec_tmp()
            + "/nginx-proxy;\n  fastcgi_temp_path "@
            + paths.spec_tmp()
            + "/nginx-fastcgi;\n  default_type application/octet-stream;\n  server {\n    listen "@
            + decimal(self.http_port as nat)
            + ";\n    server_name localhost;\n    root "@
            + paths.spec_www()
            + ";\n    index index.php index.html;\n    location / { try_files $uri $uri/ /index.php?$query_string; }\n    location ~ \\.php$ {\n      fastcgi_pass unix:"@
            + self.php_socket@
            + ";\n      fastcgi_index index.php;\n      include "@
            + paths.spec_etc_for("nginx"@)
            + "/fastcgi_params;\n      fastcgi_param SCRIPT_FILENAME $document_root$fastcgi_script_name;\n    }\n  }\n  include "@
            + paths.spec_etc_for("nginx"@)
            + "/sites/*.conf;\n}\n"@
    }

    /// The main configuration: pid, logs and temp paths under the data root,
    /// the websocket upgrade map, a default server on the HTTP port with PHP
    /// through php-fpm's socket, and the per-site includes.
    pub fn config_text(&self, paths: &LaragonPaths) -> (s: String)
        ensures
            s@ == self.spec_config_text(*paths),
    {
        let tmp = paths.tmp();
        let log = paths.log();
        let pid = join_path(tmp.as_str(), "nginx.pid");
        let errlog = join_path(log.as_str(), "nginx-error.log");
        let acclog = join_path(log.as_str(), "nginx-access.log");
        let port = decimal_string(self.http_port as u64);
        let www = paths.www();
        let etc = paths.etc_for("nginx");
        let mut s = String::new();
        s.append("worker_processes auto;\npid ");
        s.append(pid.as_str());
        s.append(";\nerror_log ");
        s.append(errlog.as_str());
        s.append(";\nevents { worker_connections 1024; }\nhttp {\n  map $http_upgrade $connection_upgrade { default upgrade; '' close; }\n  access_log ");
        s.append(acclog.as_str());
        s.append(";\n  client_body_temp_path ");
        s.append(tmp.as_str());
        s.append("/nginx-client;\n  proxy_temp_path ");
        s.append(tmp.as_str());
        s.append("/nginx-proxy;\n  fastcgi_temp_path ");
        s.append(tmp.as_str());
        s.append("/nginx-fastcgi;\n  default_type application/octet-stream;\n  server {\n    listen ");
        s.append(port.as_str());
        s.append(";\n    server_name localhost;\n    root ");
        s.append(www.as_str());
        s.append(";\n    index index.php index.html;\n    location / { try_files $uri $uri/ /index.php?$query_string; }\n    location ~ \\.php$ {\n      fastcgi_pass unix:");
        s.append(self.php_socket.as_str());
        s.append(";\n      fastcgi_index index.php;\n      include ");
        s.append(etc.as_str());
        s.append("/fastcgi_params;\n      fastcgi_param SCRIPT_FILENAME $document_root$fastcgi_script_name;\n    }\n  }\n  include ");
        s.append(etc.as_str());
        s.append("/sites/*.conf;\n}\n");
        s
    }
}

} // verus!
