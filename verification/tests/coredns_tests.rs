use laralux_core::coredns::{coredns_arch, coredns_url, corefile, parse_dropin_port, resolved_dropin, select_coredns_port, COREDNS_PORT};

#[test]
fn url_and_configs() {
    assert_eq!(
        coredns_url("1.14.4", "amd64"),
        "https://github.com/coredns/coredns/releases/download/v1.14.4/coredns_1.14.4_linux_amd64.tgz"
    );
    let cf = corefile(&["demo.dev".to_string()], COREDNS_PORT);
    assert!(cf.contains(&format!("demo.dev:{COREDNS_PORT} {{")));
    assert!(cf.contains("template IN A"));
    assert!(cf.contains("127.0.0.1"));
    let dp = resolved_dropin(&["demo.dev".to_string(), "test".to_string()], COREDNS_PORT);
    assert!(dp.contains(&format!("DNS=127.0.0.1:{COREDNS_PORT}")));
    assert!(dp.contains("Domains=~demo.dev ~test"));
}

#[test]
fn resolved_dropin_drops_unsafe_bases() {
    let dp = resolved_dropin(&["demo.dev".to_string(), "bad base".to_string()], COREDNS_PORT);
    assert!(dp.contains("~demo.dev"));
    assert!(!dp.contains("bad base"));
}

#[test]
fn coredns_port_avoids_mdns_and_needs_no_root() {
    assert_ne!(COREDNS_PORT, 5353);
    assert!(COREDNS_PORT > 1024);
}

#[test]
fn parse_dropin_port_reads_dns_line() {
    let body = "[Resolve]\nDNS=127.0.0.1:15354\nDomains=~member.dev ~online.dev\n";
    assert_eq!(parse_dropin_port(body), Some(15354));
}

#[test]
fn parse_dropin_port_none_when_absent_or_garbage() {
    assert_eq!(parse_dropin_port("[Resolve]\nDomains=~x\n"), None);
    assert_eq!(parse_dropin_port("DNS=127.0.0.1:notaport\n"), None);
    assert_eq!(parse_dropin_port(""), None);
}

#[test]
fn select_prefers_canonical_when_free() {
    let p = select_coredns_port(|_| true, Some(COREDNS_PORT + 5));
    assert_eq!(p, COREDNS_PORT);
}

#[test]
fn pick_coredns_port_prefers_default_when_free() {
    let p = select_coredns_port(|_| true, None);
    // Always within the scan window; equals the default when it is free.
    assert!((COREDNS_PORT..=COREDNS_PORT + 50).contains(&p));
    assert_eq!(p, COREDNS_PORT);
}

#[test]
fn select_reuses_preferred_when_canonical_busy() {
    let preferred = COREDNS_PORT + 7;
    let p = select_coredns_port(|port| port != COREDNS_PORT, Some(preferred));
    assert_eq!(p, preferred);
}

#[test]
fn select_scans_when_canonical_busy_and_no_preferred() {
    let p = select_coredns_port(|port| port != COREDNS_PORT, None);
    assert_eq!(p, COREDNS_PORT + 1);
}

#[test]
fn select_scans_when_preferred_also_busy() {
    let busy = COREDNS_PORT + 7;
    let p = select_coredns_port(|port| port != COREDNS_PORT && port != busy, Some(busy));
    assert_eq!(p, COREDNS_PORT + 1);
}

#[test]
fn select_falls_back_to_canonical_when_window_busy() {
    let p = select_coredns_port(|_| false, None);
    assert_eq!(p, COREDNS_PORT);
}

#[test]
fn dropin_reads_back_the_port_it_was_written_with() {
    let bases = vec!["demo.dev".to_string(), "bad base".to_string(), "test".to_string()];
    for port in [COREDNS_PORT, COREDNS_PORT + 7, 53, 0, 65535] {
        assert_eq!(parse_dropin_port(&resolved_dropin(&bases, port)), Some(port));
    }
    assert_eq!(parse_dropin_port(&resolved_dropin(&[], 15354)), Some(15354));
}

#[test]
fn coredns_arch_maps_machine_names() {
    assert_eq!(coredns_arch("x86_64"), Some("amd64"));
    assert_eq!(coredns_arch("aarch64"), Some("arm64"));
    assert_eq!(coredns_arch("riscv64"), None);
}

#[test]
fn select_takes_a_free_preferred_port_outside_the_window() {
    let preferred = COREDNS_PORT + 200;
    let p = select_coredns_port(|port| port == preferred, Some(preferred));
    assert_eq!(p, preferred);
}
