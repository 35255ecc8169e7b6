use laralux_core::procfile::{parse_procfile, procfile_path, ProcEntry};

#[test]
fn parses_names_commands_comments_blanks() {
    let text = "\n# a comment\nweb: php artisan serve\n\nqueue:  php artisan queue:work --tries=3\n";
    let e = parse_procfile(text);
    assert_eq!(e.len(), 2);
    assert_eq!(e[0], ProcEntry { name: "web".into(), command: "php artisan serve".into() });
    assert_eq!(e[1].name, "queue");
    assert_eq!(e[1].command, "php artisan queue:work --tries=3");
}

#[test]
fn skips_malformed_and_duplicate_lines() {
    let text = "no colon here\nbad name!: cmd\nok: first\nok: second\n: empty name\nempty_cmd:   \n";
    let e = parse_procfile(text);
    assert_eq!(e.len(), 1);
    assert_eq!(e[0], ProcEntry { name: "ok".into(), command: "first".into() });
}

#[test]
fn empty_root_reads_no_procfile() {
    assert!(procfile_path("").is_none());
    assert_eq!(procfile_path("/srv/app"), Some("/srv/app/Procfile".to_string()));
}
