//! Core of a local web-development stack manager: service orchestration,
//! site discovery and registry, generated nginx/DNS/hosts configuration.
pub mod text;
pub mod paths;
pub mod hosts;
pub mod scaffold;
pub mod site_registry;
pub mod service;
pub mod process;
pub mod orchestrator;
pub mod layout;
pub mod coredns;
pub mod config;
pub mod privileged;
pub mod procfile;
pub mod site_procs;
pub mod sites;
pub mod progress;
pub mod setup;
pub mod php_versions;
pub mod tools;
pub mod shell_env;
pub mod ssl;
pub mod bin;
pub mod autostart;
pub mod terminal;
pub mod filemanager;
pub mod orphans;
pub mod symlinks;
pub mod sync;
pub mod mkcert_static;
pub mod mailpit_static;
pub mod mariadb_static;
pub mod mongodb_static;
pub mod node_static;
pub mod postgres_static;
pub mod redis_static;
pub mod certutil_static;
pub mod beekeeper;
pub mod dbgate;
pub mod json;
pub mod php_cli;
pub mod nginx_static;
pub mod php_static;
pub mod switch;
pub mod tray;
