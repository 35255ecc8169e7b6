use laralux_core::autostart::{autostart_path, entry_contents, resolve_base};
use laralux_core::bin::{getcap_indicates_cap, resolve_candidates, resolve_or_name};
use laralux_core::filemanager::{detect_file_manager, file_manager_candidates_list};
use laralux_core::progress::{NullProgress, ProgressEvent, ProgressSink};
use laralux_core::terminal::{detect_terminal, terminal_argv};

#[test]
fn resolve_base_prefers_xdg_then_home_config() {
    assert_eq!(resolve_base(Some("/x/cfg"), "/home/u"), "/x/cfg");
    assert_eq!(resolve_base(Some(""), "/home/u"), "/home/u/.config");
    assert_eq!(resolve_base(None, "/home/u"), "/home/u/.config");
}

#[test]
fn autostart_entry_and_path() {
    assert_eq!(autostart_path(None, Some("/home/u")), "/home/u/.config/autostart/laralux.desktop");
    assert_eq!(autostart_path(None, None), "/root/.config/autostart/laralux.desktop");
    let body = entry_contents("/usr/bin/laralux");
    assert!(body.contains("Exec=/usr/bin/laralux"));
    assert!(body.contains("Name=Laralux"));
    assert!(body.contains("Type=Application"));
    assert!(body.contains("Icon=com.laralux.linux"));
}

#[test]
fn getcap_output_detects_bind_cap() {
    assert!(getcap_indicates_cap("/usr/sbin/nginx cap_net_bind_service=ep"));
    assert!(getcap_indicates_cap("/usr/sbin/nginx cap_net_bind_service+ep"));
    assert!(!getcap_indicates_cap(""));
    assert!(!getcap_indicates_cap("/usr/sbin/nginx cap_chown=ep"));
}

#[test]
fn unknown_binary_resolves_to_none_and_bare_name() {
    let nonexistent = "definitely-not-a-real-binary-xyz";
    assert_eq!(resolve_or_name(nonexistent, None), nonexistent.to_string());
    assert_eq!(resolve_or_name("php", Some("/x/php".to_string())), "/x/php");
}

#[test]
fn candidates_follow_extra_path_then_system_dirs() {
    let c = resolve_candidates("php", &vec!["/x/bin".to_string()], Some("/a:/b"));
    assert_eq!(c[0], "/x/bin/php");
    assert_eq!(c[1], "/a/php");
    assert_eq!(c[2], "/b/php");
    assert_eq!(c[3], "/usr/local/sbin/php");
    assert_eq!(c.last().unwrap(), "/bin/php");
    assert_eq!(c.len(), 9);
    assert_eq!(resolve_candidates("/opt/tool", &vec![], None), vec!["/opt/tool".to_string()]);
}

#[test]
fn argv_per_emulator() {
    let d = "/srv/app";
    assert_eq!(
        terminal_argv("ptyxis", d),
        vec!["--standalone".to_string(), "--new-window".to_string(), "--working-directory=/srv/app".to_string()]
    );
    assert_eq!(terminal_argv("gnome-terminal", d), vec!["--working-directory=/srv/app".to_string()]);
    assert_eq!(terminal_argv("konsole", d), vec!["--workdir".to_string(), "/srv/app".to_string()]);
    assert_eq!(terminal_argv("kitty", d), vec!["--directory".to_string(), "/srv/app".to_string()]);
    assert_eq!(terminal_argv("wezterm", d), vec!["start".to_string(), "--cwd".to_string(), "/srv/app".to_string()]);
    assert!(terminal_argv("xterm", d).is_empty());
}

#[test]
fn terminal_env_comes_first_then_candidates() {
    let found = detect_terminal(Some("myterm"), |n: &str| if n == "myterm" || n == "konsole" { Some(format!("/usr/bin/{n}")) } else { None });
    assert_eq!(found, Some("/usr/bin/myterm".to_string()));
    let found = detect_terminal(Some(""), |n: &str| if n == "konsole" || n == "xterm" { Some(format!("/usr/bin/{n}")) } else { None });
    assert_eq!(found, Some("/usr/bin/konsole".to_string()));
    assert_eq!(detect_terminal(None, |_n: &str| None), None);
}

#[test]
fn xdg_open_is_preferred_and_list_is_well_formed() {
    let c = file_manager_candidates_list();
    assert_eq!(c[0], "xdg-open");
    assert_eq!(c.len(), 7);
    assert!(c.iter().all(|x| !x.is_empty()));
    assert!(c.contains(&"nautilus"));
    assert_eq!(detect_file_manager(|n: &str| if n == "thunar" { Some("/usr/bin/thunar".to_string()) } else { None }), Some("/usr/bin/thunar".to_string()));
}

#[test]
fn null_sink_is_noop() {
    NullProgress.emit(ProgressEvent::Phase { label: "x".into() });
}
