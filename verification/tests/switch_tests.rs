use laralux_core::config::{set_version, Config};
use laralux_core::service::ServiceKind;
use laralux_core::switch::{switch_plan, SwitchStep};
use laralux_core::tools::ManagedTool;

fn cfg_with(versions: &[(&str, &str)]) -> Config {
    let mut c = Config::default();
    c.versions = versions.iter().map(|(k, v)| (k.to_string(), v.to_string())).collect();
    c.symlinks = vec!["php".to_string()];
    c
}

#[test]
fn nginx_switch_stops_repoints_caps_and_restarts_when_running() {
    let cfg = cfg_with(&[("php", "8.3.10")]);
    let (next, steps) = switch_plan(&cfg, ManagedTool::Nginx, "1.27", Some("1.27.3".to_string()), true);
    assert_eq!(
        steps,
        vec![
            SwitchStep::SaveConfig,
            SwitchStep::StopNginx,
            SwitchStep::SetCurrent("nginx".to_string(), "1.27.3".to_string()),
            SwitchStep::SetNginxCap,
            SwitchStep::StartNginx,
        ]
    );
    assert_eq!(next.versions, vec![("php".to_string(), "8.3.10".to_string()), ("nginx".to_string(), "1.27.3".to_string())]);
    assert_eq!(next.php_version, cfg.php_version);
    assert_eq!(next.symlinks, cfg.symlinks);
    let (_, steps) = switch_plan(&cfg, ManagedTool::Nginx, "1.27", None, false);
    assert_eq!(
        steps,
        vec![SwitchStep::SaveConfig, SwitchStep::SetCurrent("nginx".to_string(), "1.27".to_string()), SwitchStep::SetNginxCap]
    );
}

#[test]
fn php_switch_records_the_full_version_and_ensures_the_cli() {
    let cfg = cfg_with(&[("node", "22.1.0"), ("php", "8.3.10")]);
    let (next, steps) = switch_plan(&cfg, ManagedTool::Php, "8.4", Some("8.4.2".to_string()), false);
    assert_eq!(
        steps,
        vec![
            SwitchStep::SaveConfig,
            SwitchStep::ReplaceService(ServiceKind::PhpFpm, "8.4".to_string()),
            SwitchStep::EnsurePhpCli("8.4".to_string()),
        ]
    );
    assert_eq!(next.php_version, "8.4.2");
    assert_eq!(next.versions, vec![("node".to_string(), "22.1.0".to_string()), ("php".to_string(), "8.4.2".to_string())]);
    assert_eq!(next.tld, cfg.tld);
}

#[test]
fn other_tools_switch_by_service_or_by_current_link() {
    let cfg = cfg_with(&[]);
    let (next, steps) = switch_plan(&cfg, ManagedTool::Mariadb, "11.4", None, true);
    assert_eq!(steps, vec![SwitchStep::SaveConfig, SwitchStep::ReplaceService(ServiceKind::Mariadb, "11.4".to_string())]);
    assert_eq!(next.versions, vec![("mariadb".to_string(), "11.4".to_string())]);
    let (_, steps) = switch_plan(&cfg, ManagedTool::Composer, "2.8", Some("2.8.9".to_string()), false);
    assert_eq!(steps, vec![SwitchStep::SaveConfig, SwitchStep::SetCurrent("composer".to_string(), "2.8.9".to_string())]);
    assert!(SwitchStep::SetNginxCap.is_best_effort());
    assert!(SwitchStep::EnsurePhpCli("8.4".to_string()).is_best_effort());
    assert!(!SwitchStep::SaveConfig.is_best_effort());
    assert!(!SwitchStep::SetCurrent("nginx".to_string(), "1".to_string()).is_best_effort());
}

#[test]
fn setting_a_version_is_read_back_and_keeps_the_others() {
    let vs = vec![("php".to_string(), "8.3".to_string()), ("node".to_string(), "20".to_string())];
    let out = set_version(&vs, "node", "22");
    assert_eq!(out, vec![("php".to_string(), "8.3".to_string()), ("node".to_string(), "22".to_string())]);
    let out = set_version(&out, "redis", "7");
    assert_eq!(out.len(), 3);
    assert_eq!(out[2], ("redis".to_string(), "7".to_string()));
}
