use laralux_core::hosts::{apply_block, render_block, HOSTS_BEGIN, HOSTS_END};

fn hosts(v: &[&str]) -> Vec<String> {
    v.iter().map(|s| s.to_string()).collect()
}

#[test]
fn render_block_lists_each_host() {
    let b = render_block(&hosts(&["app.dev", "blog.dev"]));
    assert!(b.starts_with(HOSTS_BEGIN));
    assert!(b.contains("\n127.0.0.1 app.dev\n"));
    assert!(b.contains("\n127.0.0.1 blog.dev\n"));
    assert!(b.trim_end().ends_with(HOSTS_END));
}

#[test]
fn apply_block_appends_to_clean_file_and_preserves_lines() {
    let existing = "127.0.0.1 localhost\n255.255.255.255 broadcasthost\n";
    let out = apply_block(existing, &hosts(&["app.dev"]));
    assert!(out.contains("127.0.0.1 localhost"));
    assert!(out.contains("broadcasthost"));
    assert!(out.contains("127.0.0.1 app.dev"));
    assert!(out.contains(HOSTS_BEGIN) && out.contains(HOSTS_END));
}

#[test]
fn apply_block_replaces_existing_block_idempotently() {
    let existing = "127.0.0.1 localhost\n";
    let once = apply_block(existing, &hosts(&["app.dev"]));
    let twice = apply_block(&once, &hosts(&["app.dev"]));
    assert_eq!(once, twice);
    assert_eq!(twice.matches("127.0.0.1 localhost").count(), 1);
}

#[test]
fn apply_block_updates_when_hosts_change() {
    let existing = "127.0.0.1 localhost\n";
    let first = apply_block(existing, &hosts(&["app.dev"]));
    let second = apply_block(&first, &hosts(&["app.dev", "blog.dev"]));
    assert!(second.contains("127.0.0.1 blog.dev"));
    assert_eq!(second.matches("127.0.0.1 app.dev").count(), 1);
}

#[test]
fn render_block_exact_text() {
    assert_eq!(
        render_block(&hosts(&["a.dev"])),
        format!("{HOSTS_BEGIN}\n127.0.0.1 a.dev\n{HOSTS_END}\n")
    );
}
