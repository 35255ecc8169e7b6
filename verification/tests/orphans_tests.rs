use laralux_core::orphans::{components, is_managed_exe, stat_is_zombie};

#[test]
fn matches_dir_and_descendants() {
    let base = "/home/u/laralux/bin";
    assert!(is_managed_exe("/home/u/laralux/bin", base));
    assert!(is_managed_exe("/home/u/laralux/bin/nginx/1.31.2/nginx", base));
    assert!(is_managed_exe("/home/u/laralux/bin/php/8.4/sbin/php-fpm", base));
}

#[test]
fn rejects_siblings_and_outsiders() {
    let base = "/home/u/laralux/bin";
    assert!(!is_managed_exe("/home/u/laralux/binary/x", base));
    assert!(!is_managed_exe("/usr/sbin/mariadbd", base));
}

#[test]
fn php_sub_scope_excludes_other_tools() {
    let php = "/home/u/laralux/bin/php";
    assert!(is_managed_exe("/home/u/laralux/bin/php/8.4/sbin/php-fpm", php));
    assert!(!is_managed_exe("/home/u/laralux/bin/nginx/1.31.2/nginx", php));
}

#[test]
fn strips_deleted_suffix() {
    let base = "/home/u/laralux/bin";
    assert!(is_managed_exe("/home/u/laralux/bin/mariadb/11.4.12/bin/mariadbd (deleted)", base));
}

#[test]
fn components_normalize_separators_and_dots() {
    assert_eq!(components("/a//b/./c/"), vec!["/", "a", "b", "c"]);
    assert_eq!(components("./a"), vec![".", "a"]);
    assert!(is_managed_exe("/x/bin//php/", "/x/bin/"));
}

#[test]
fn zombie_state_read_after_last_paren() {
    assert!(stat_is_zombie("42 (php (fpm)) Z 1 2 3"));
    assert!(!stat_is_zombie("42 (nginx) S 1 2 3"));
    assert!(!stat_is_zombie("garbage"));
}
