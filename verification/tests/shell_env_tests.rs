use laralux_core::shell_env::{apply_shell_block, rc_filename_for_shell, remove_shell_block, SHELL_BEGIN, SHELL_BLOCK, SHELL_END};

#[test]
fn rc_filename_matches_shell() {
    assert_eq!(rc_filename_for_shell("/usr/bin/zsh"), ".zshrc");
    assert_eq!(rc_filename_for_shell("/bin/bash"), ".bashrc");
    assert_eq!(rc_filename_for_shell(""), ".bashrc");
    assert_eq!(rc_filename_for_shell("/usr/bin/zsh/"), ".zshrc");
}

#[test]
fn apply_is_idempotent_and_remove_restores() {
    let base = "export EDITOR=vim\n";
    let once = apply_shell_block(base);
    assert!(once.contains("export PATH=\"$HOME/laragon/bin:$PATH\""));
    assert!(once.contains(SHELL_BEGIN) && once.contains(SHELL_END));
    assert!(once.contains("export EDITOR=vim"));
    let twice = apply_shell_block(&once);
    assert_eq!(once, twice, "re-apply is idempotent");
    let removed = remove_shell_block(&once);
    assert!(!removed.contains("laragon"));
    assert!(removed.contains("export EDITOR=vim"));
}

#[test]
fn apply_to_empty_is_the_block() {
    assert_eq!(apply_shell_block(""), SHELL_BLOCK);
    assert_eq!(apply_shell_block("a"), format!("a\n{SHELL_BLOCK}"));
}

#[test]
fn removing_twice_is_removing_once() {
    let rc = format!("export A=1\n{SHELL_BEGIN}\nexport PATH=x\n{SHELL_END}\nalias ll='ls -l'");
    let once = remove_shell_block(&rc);
    assert_eq!(once, "export A=1\nalias ll='ls -l'\n");
    assert_eq!(remove_shell_block(&once), once);
    assert_eq!(remove_shell_block(""), "");
}
