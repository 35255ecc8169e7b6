use laralux_core::scaffold::{blank_index, create_database_sql, laravel_create_argv, validate_site_name, wp_config, wp_salts_from, ScaffoldError};

#[test]
fn accepts_valid_names() {
    assert!(validate_site_name("blog").is_ok());
    assert!(validate_site_name("shop-api").is_ok());
    assert!(validate_site_name("a1").is_ok());
}

#[test]
fn rejects_invalid_names() {
    for bad in ["", "Blog", "a b", "-x", "x-", "a_b", "café"] {
        assert!(validate_site_name(bad).is_err(), "should reject {bad:?}");
    }
    let long = "a".repeat(64);
    assert!(validate_site_name(&long).is_err());
}

#[test]
fn invalid_name_error_carries_the_name() {
    match validate_site_name("a b") {
        Err(ScaffoldError::InvalidName(n)) => assert_eq!(n, "a b"),
        other => panic!("unexpected {other:?}"),
    }
    assert!(validate_site_name(&"a".repeat(63)).is_ok());
}

#[test]
fn blank_index_has_app_and_php_info() {
    let s = blank_index("blog");
    assert!(s.contains("<?php"));
    assert!(s.contains("blog"));
    assert!(s.contains("phpversion("));
    assert!(s.contains("Laragon Linux"));
    assert!(s.contains("phpinfo"));
}

#[test]
fn create_database_sql_is_backtick_quoted() {
    assert_eq!(create_database_sql("shop-api"), "CREATE DATABASE IF NOT EXISTS `shop-api`");
}

#[test]
fn laravel_argv_is_create_project() {
    assert_eq!(
        laravel_create_argv("/x/www/blog"),
        vec!["create-project".to_string(), "laravel/laravel".to_string(), "/x/www/blog".to_string()]
    );
}

#[test]
fn wp_config_embeds_db_and_salts() {
    let cfg = wp_config("blog", "root", "", "127.0.0.1", "/*SALTS*/");
    assert!(cfg.contains("define( 'DB_NAME', 'blog' )"));
    assert!(cfg.contains("define( 'DB_USER', 'root' )"));
    assert!(cfg.contains("define( 'DB_HOST', '127.0.0.1' )"));
    assert!(cfg.contains("/*SALTS*/"));
}

#[test]
fn wp_salts_from_bytes_are_eight_keyed_lines() {
    let rnd: Vec<u8> = (0..512u32).map(|i| (i * 7 % 251) as u8).collect();
    let a = wp_salts_from(&rnd);
    let lines: Vec<&str> = a.lines().filter(|l| l.contains("define(")).collect();
    assert_eq!(lines.len(), 8);
    for key in ["AUTH_KEY", "SECURE_AUTH_KEY", "LOGGED_IN_KEY", "NONCE_KEY", "AUTH_SALT", "SECURE_AUTH_SALT", "LOGGED_IN_SALT", "NONCE_SALT"] {
        assert!(a.contains(key), "missing {key}");
    }
    let other: Vec<u8> = (0..512u32).map(|i| (i * 13 % 241) as u8).collect();
    assert_ne!(a, wp_salts_from(&other));
    assert_eq!(a, wp_salts_from(&rnd));
}
