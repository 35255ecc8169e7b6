//! Local wildcard DNS through CoreDNS: the port it listens on, its Corefile,
//! and the systemd-resolved drop-in that routes the site domains to it.
use crate::text::{
    chars_of, decimal, decimal_string, is_ctrl, is_ctrl_char, is_ws, is_ws_char, join_with,
    lemma_join_with_push, lines, parse_uint, parse_uint_str, rfind_char, split_lines,
    starts_with, starts_with_str, string_of, trim, trim_str, trim_start, trim_end, lines_from, strip_cr,
    has_char, is_digit, lemma_lines_from_run, lemma_decimal_digits, lemma_last_unique,
};
use vstd::prelude::*;

verus! {

pub const COREDNS_VERSION: &'static str = "1.14.4";

/// Preferred local DNS port for CoreDNS. Deliberately NOT 5353 — that is the
/// well-known mDNS port, almost always bound by `avahi-daemon` — and above
/// 1024 so it needs no root.
pub const COREDNS_PORT: u16 = 15353;

/// How far above [`COREDNS_PORT`] a free port is looked for.
pub const COREDNS_PORT_SPAN: u16 = 50;

/// Why CoreDNS could not be installed.
#[derive(Debug)]
pub enum CorednsError {
    Arch(String),
    Download(String),
    Extract(String),
    Io(String),
}

/// Pure port selection driven by an `is_free` probe. Preference order:
/// 1. [`COREDNS_PORT`], 2. `preferred` if set and free, 3. the first free port
/// in `COREDNS_PORT+1..=COREDNS_PORT+50`. Falls back to [`COREDNS_PORT`] when
/// the whole window is busy (the caller surfaces the resulting bind error).
pub fn select_coredns_port(is_free: impl Fn(u16) -> bool, preferred: Option<u16>) -> (r: u16)
    requires
        forall|p: u16| call_requires(is_free, (p,)),
    ensures
        r != COREDNS_PORT ==> call_ensures(is_free, (COREDNS_PORT,), false) && call_ensures(is_free, (r,), true),
        r != COREDNS_PORT && (preferred matches Some(p) && p != COREDNS_PORT && p != r)
            ==> call_ensures(is_free, (preferred.unwrap(),), false),
        r != COREDNS_PORT && !(preferred matches Some(p) && p == r) ==> COREDNS_PORT < r <= COREDNS_PORT + 50
            && forall|q: u16| COREDNS_PORT < q < r ==> call_ensures(is_free, (q,), false),
        r == COREDNS_PORT ==> call_ensures(is_free, (COREDNS_PORT,), true) || ((forall|q: u16|
            COREDNS_PORT < q <= COREDNS_PORT + 50 ==> call_ensures(is_free, (q,), false)) && (preferred matches Some(p)
            && p != COREDNS_PORT ==> call_ensures(is_free, (preferred.unwrap(),), false))),
{
    if is_free(COREDNS_PORT) {
        return COREDNS_PORT;
    }
    match preferred {
        Some(p) => {
            if p != COREDNS_PORT && is_free(p) {
                return p;
            }
        },
        None => {},
    }
    let mut q: u16 = COREDNS_PORT + 1;
    while q <= COREDNS_PORT + 50
        invariant
            COREDNS_PORT + 1 <= q <= COREDNS_PORT + 51,
            forall|p: u16| call_requires(is_free, (p,)),
            call_ensures(is_free, (COREDNS_PORT,), false),
            preferred is Some && preferred.unwrap() != COREDNS_PORT ==> call_ensures(is_free, (preferred.unwrap(),), false),
            forall|x: u16| COREDNS_PORT < x < q ==> call_ensures(is_free, (x,), false),
        decreases COREDNS_PORT + 51 - q,
    {
        if is_free(q) {
            return q;
        }
        q = q + 1;
    }
    COREDNS_PORT
}

/// The text after the last `c` of `s` (all of `s` when it has none): what
/// `s.rsplit(c).next()` gives.
pub open spec fn after_last(s: Seq<char>, c: char) -> Seq<char> {
    match crate::text::find_last(s, c) {
        Some(i) => s.skip(i + 1),
        None => s,
    }
}

/// The first line that, trimmed, starts with `DNS=`: the rest of it.
pub open spec fn first_dns_value(ls: Seq<Seq<char>>) -> Option<Seq<char>>
    decreases ls.len(),
{
    if ls.len() == 0 {
        None
    } else if starts_with(trim(ls[0]), "DNS="@) {
        Some(trim(ls[0]).skip(4))
    } else {
        first_dns_value(ls.drop_first())
    }
}

/// The port of the first `DNS=IP:PORT` line: after its last `:`, trimmed, a
/// `u16`.
pub open spec fn spec_dropin_port(content: Seq<char>) -> Option<u16> {
    match first_dns_value(lines(content)) {
        Some(v) => value_port(v),
        None => None,
    }
}

/// The port in a `DNS=` value: after its last `:`, trimmed, a `u16`.
pub open spec fn value_port(v: Seq<char>) -> Option<u16> {
    match parse_uint(trim(after_last(v, ':')), 65535) {
        Some(n) => Some(n as u16),
        None => None,
    }
}

fn value_port_exec(value: &str) -> (r: Option<u16>)
    ensures
        r == value_port(value@),
{
    let rv = chars_of(value);
    let last = match rfind_char(&rv, ':') {
        Some(k) => {
            let piece = string_of(&rv, k + 1, rv.len());
            assert(piece@ == value@.skip(k + 1));
            piece
        },
        None => {
            let piece = string_of(&rv, 0, rv.len());
            assert(piece@ == value@);
            piece
        },
    };
    let lt = trim_str(last.as_str());
    match parse_uint_str(lt.as_str(), 65535) {
        Some(n) => Some(n as u16),
        None => None,
    }
}

/// The rest of `line`, trimmed, after a leading `DNS=`.
fn dns_value(line: &str) -> (r: Option<String>)
    ensures
        match r {
            Some(v) => starts_with(trim(line@), "DNS="@) && v@ == trim(line@).skip(4),
            None => !starts_with(trim(line@), "DNS="@),
        },
{
    proof {
        reveal_strlit("DNS=");
    }
    let t = trim_str(line);
    if starts_with_str(t.as_str(), "DNS=") {
        let v = chars_of(t.as_str());
        let rest = string_of(&v, 4, v.len());
        assert(rest@ == t@.skip(4));
        Some(rest)
    } else {
        None
    }
}

/// Extract the CoreDNS port from a systemd-resolved drop-in body (`DNS=IP:PORT`).
/// Returns `None` when the line is missing or the port is unparseable.
pub fn parse_dropin_port(content: &str) -> (r: Option<u16>)
    ensures
        r == spec_dropin_port(content@),
{
    let ls = split_lines(content);
    let ghost lv = ls@.map_values(|l: String| l@);
    let mut i: usize = 0;
    assert(lv.skip(0) == lv);
    while i < ls.len()
        invariant
            0 <= i <= ls@.len(),
            lv == ls@.map_values(|l: String| l@),
            lv == lines(content@),
            first_dns_value(lv.skip(i as int)) == first_dns_value(lv),
        decreases ls@.len() - i,
    {
        assert(lv.skip(i as int)[0] == ls@[i as int]@);
        assert(lv.skip(i as int).drop_first() == lv.skip(i + 1));
        match dns_value(ls[i].as_str()) {
            Some(v) => {
                return value_port_exec(v.as_str());
            },
            None => {},
        }
        i = i + 1;
    }
    assert(lv.skip(i as int).len() == 0);
    None
}

/// The tag a CoreDNS release uses for the machine architecture (as Rust
/// names it), if there is a build for it.
pub open spec fn spec_coredns_arch(machine: Seq<char>) -> Option<Seq<char>> {
    if machine == "x86_64"@ {
        Some("amd64"@)
    } else if machine == "aarch64"@ {
        Some("arm64"@)
    } else {
        None
    }
}

pub fn coredns_arch(machine: &str) -> (r: Option<&'static str>)
    ensures
        match r {
            Some(t) => spec_coredns_arch(machine@) == Some(t@),
            None => spec_coredns_arch(machine@) is None,
        },
{
    if crate::text::str_eq(machine, "x86_64") {
        Some("amd64")
    } else if crate::text::str_eq(machine, "aarch64") {
        Some("arm64")
    } else {
        None
    }
}

pub open spec fn spec_coredns_url(version: Seq<char>, arch: Seq<char>) -> Seq<char> {
    "https://github.com/coredns/coredns/releases/download/v"@ + version + "/coredns_"@ + version + "_linux_"@
        + arch + ".tgz"@
}

pub fn coredns_url(version: &str, arch: &str) -> (s: String)
    ensures
        s@ == spec_coredns_url(version@, arch@),
{
    let mut s = String::from_str("https://github.com/coredns/coredns/releases/download/v");
    s.append(version);
    s.append("/coredns_");
    s.append(version);
    s.append("_linux_");
    s.append(arch);
    s.append(".tgz");
    proof {
        reveal_strlit("https://github.com/coredns/coredns/releases/download/v");
    }
    s
}

pub const ZONE_BODY: &'static str = " {\n    bind 127.0.0.1\n    template IN A {\n        answer \"{{ .Name }} 60 IN A 127.0.0.1\"\n    }\n    template IN AAAA {\n        rcode NXDOMAIN\n    }\n}\n";

/// The zone of one wildcard base: any name under it answers 127.0.0.1.
pub open spec fn zone(base: Seq<char>, port: u16) -> Seq<char> {
    base + ":"@ + decimal(port as nat) + ZONE_BODY@
}

pub open spec fn zones(bases: Seq<Seq<char>>, port: u16) -> Seq<char>
    decreases bases.len(),
{
    if bases.len() == 0 {
        seq![]
    } else {
        zones(bases.drop_last(), port) + zone(bases.last(), port)
    }
}

/// The Corefile has one zone per base, in the bases' order: the zones
/// `<base>:<port> {...}` of the bases, concatenated, so the `i`-th zone
/// names the `i`-th base.
pub proof fn lemma_one_zone_per_base(bases: Seq<Seq<char>>, port: u16)
    ensures
        zones(bases, port) == bases.map_values(|b: Seq<char>| b + ":"@ + decimal(port as nat) + ZONE_BODY@).flatten(),
    decreases bases.len(),
{
    let m = bases.map_values(|b: Seq<char>| b + ":"@ + decimal(port as nat) + ZONE_BODY@);
    if bases.len() > 0 {
        lemma_one_zone_per_base(bases.drop_last(), port);
        let md = bases.drop_last().map_values(|b: Seq<char>| b + ":"@ + decimal(port as nat) + ZONE_BODY@);
        assert(m =~= md.push(bases.last() + ":"@ + decimal(port as nat) + ZONE_BODY@));
        md.lemma_flatten_push(bases.last() + ":"@ + decimal(port as nat) + ZONE_BODY@);
    } else {
        assert(m.len() == 0);
    }
}

/// CoreDNS Corefile: each wildcard base becomes a zone answering any name with 127.0.0.1.
pub fn corefile(bases: &[String], port: u16) -> (s: String)
    ensures
        s@ == zones(bases@.map_values(|b: String| b@), port),
        s@ == bases@.map_values(|b: String| b@ + ":"@ + decimal(port as nat) + ZONE_BODY@).flatten(),
{
    proof {
        let bv = bases@.map_values(|b: String| b@);
        lemma_one_zone_per_base(bv, port);
        assert(bv.map_values(|b: Seq<char>| b + ":"@ + decimal(port as nat) + ZONE_BODY@) =~= bases@.map_values(
            |b: String| b@ + ":"@ + decimal(port as nat) + ZONE_BODY@,
        ));
    }
    let ghost bv = bases@.map_values(|b: String| b@);
    let p = decimal_string(port as u64);
    let mut s = String::new();
    let mut i: usize = 0;
    while i < bases.len()
        invariant
            0 <= i <= bases@.len(),
            bv == bases@.map_values(|b: String| b@),
            p@ == decimal(port as nat),
            s@ == zones(bv.take(i as int), port),
        decreases bases@.len() - i,
    {
        s.append(bases[i].as_str());
        s.append(":");
        s.append(p.as_str());
        s.append(ZONE_BODY);
        proof {
            reveal_strlit(":");
            assert(bv.take(i + 1).drop_last() == bv.take(i as int));
            assert(bv.take(i + 1).last() == bases@[i as int]@);
        }
        i = i + 1;
    }
    assert(bv.take(i as int) == bv);
    s
}

/// A base that can stand in the drop-in: non-empty, no whitespace or
/// control character.
pub open spec fn safe_base(b: Seq<char>) -> bool {
    b.len() > 0 && forall|i: int| 0 <= i < b.len() ==> !is_ws(#[trigger] b[i]) && !is_ctrl(b[i])
}

/// `~<base>` for each safe base, in order.
pub open spec fn routing_domains(bases: Seq<Seq<char>>) -> Seq<Seq<char>>
    decreases bases.len(),
{
    if bases.len() == 0 {
        seq![]
    } else if safe_base(bases.last()) {
        routing_domains(bases.drop_last()).push("~"@ + bases.last())
    } else {
        routing_domains(bases.drop_last())
    }
}

pub open spec fn spec_resolved_dropin(bases: Seq<Seq<char>>, port: u16) -> Seq<char> {
    "[Resolve]\nDNS=127.0.0.1:"@ + decimal(port as nat) + "\nDomains="@ + join_with(routing_domains(bases), " "@) + "\n"@
}

fn is_safe_base(b: &str) -> (r: bool)
    ensures
        r == safe_base(b@),
{
    let v = chars_of(b);
    if v.len() == 0 {
        return false;
    }
    let mut i: usize = 0;
    while i < v.len()
        invariant
            0 <= i <= v@.len(),
            v@ == b@,
            forall|j: int| 0 <= j < i ==> !is_ws(#[trigger] v@[j]) && !is_ctrl(v@[j]),
        decreases v@.len() - i,
    {
        if is_ws_char(v[i]) || is_ctrl_char(v[i]) {
            return false;
        }
        i = i + 1;
    }
    true
}

/// systemd-resolved drop-in routing the wildcard bases to our CoreDNS.
pub fn resolved_dropin(bases: &[String], port: u16) -> (s: String)
    ensures
        s@ == spec_resolved_dropin(bases@.map_values(|b: String| b@), port),
{
    let ghost bv = bases@.map_values(|b: String| b@);
    let mut doms = String::new();
    let ghost mut ds: Seq<Seq<char>> = seq![];
    let mut i: usize = 0;
    while i < bases.len()
        invariant
            0 <= i <= bases@.len(),
            bv == bases@.map_values(|b: String| b@),
            ds == routing_domains(bv.take(i as int)),
            forall|k: int| 0 <= k < ds.len() ==> (#[trigger] ds[k]).len() > 0,
            doms@ == join_with(ds, " "@),
        decreases bases@.len() - i,
    {
        proof {
            reveal_strlit(" ");
            reveal_strlit("~");
            assert(bv.take(i + 1).drop_last() == bv.take(i as int));
            assert(bv.take(i + 1).last() == bases@[i as int]@);
        }
        if is_safe_base(bases[i].as_str()) {
            let ghost before = ds;
            proof {
                if ds.len() > 0 {
                    lemma_join_with_nonempty(ds);
                }
            }
            if !doms.as_str().is_empty() {
                doms.append(" ");
            }
            doms.append("~");
            doms.append(bases[i].as_str());
            proof {
                lemma_join_with_push(before, " "@, "~"@ + bases@[i as int]@);
                ds = before.push("~"@ + bases@[i as int]@);
                if before.len() == 0 {
                    assert(join_with(before, " "@) == Seq::<char>::empty());
                }
            }
        }
        i = i + 1;
    }
    assert(bv.take(i as int) == bv);
    let p = decimal_string(port as u64);
    let mut s = String::from_str("[Resolve]\nDNS=127.0.0.1:");
    s.append(p.as_str());
    s.append("\nDomains=");
    s.append(doms.as_str());
    s.append("\n");
    proof {
        reveal_strlit("[Resolve]\nDNS=127.0.0.1:");
    }
    s
}

/// Joined routing domains are non-empty once there is one (each starts with `~`).
proof fn lemma_join_with_nonempty(ds: Seq<Seq<char>>)
    requires
        ds.len() > 0,
        forall|i: int| 0 <= i < ds.len() ==> (#[trigger] ds[i]).len() > 0,
    ensures
        join_with(ds, " "@).len() > 0,
    decreases ds.len(),
{
    if ds.len() > 1 {
        assert(ds.last() == ds[ds.len() - 1]);
    } else {
        assert(ds[0].len() > 0);
    }
}

// ---------------------------------------------------------------------------
// The drop-in reads back the port it was written with
// ---------------------------------------------------------------------------

/// A piece that starts and ends with a non-blank character trims to itself.
proof fn lemma_trim_unblank(s: Seq<char>)
    requires
        s.len() > 0,
        !is_ws(s[0]),
        !is_ws(s.last()),
    ensures
        trim(s) == s,
{
    assert(trim_start(s) == s);
    assert(trim_end(s) == s);
}

/// The port recorded in a drop-in is the one [`parse_dropin_port`] reads
/// back from it, whatever the base domains: a restart can reuse it.
pub proof fn lemma_dropin_port_roundtrip(bases: Seq<Seq<char>>, port: u16)
    ensures
        spec_dropin_port(spec_resolved_dropin(bases, port)) == Some(port),
{
    reveal_strlit("[Resolve]\nDNS=127.0.0.1:");
    reveal_strlit("\nDomains=");
    reveal_strlit("DNS=");
    let lit: Seq<char> = "[Resolve]\nDNS=127.0.0.1:"@;
    assert(lit =~= seq![
        '\x5B', 'R', 'e', 's', 'o', 'l', 'v', 'e', '\x5D', '\n',
        'D', 'N', 'S', '=', '1', '2', '7', '.', '0', '.', '0', '.', '1', ':'
    ]);
    assert("DNS="@ =~= seq!['D', 'N', 'S', '=']);
    let head: Seq<char> = lit.take(9);
    let ip: Seq<char> = lit.skip(10);
    assert(lit =~= head + seq!['\n'] + ip);
    let dec = decimal(port as nat);
    lemma_decimal_digits(port as nat);
    let l2 = ip + dec;
    let rest = "\nDomains="@ + join_with(routing_domains(bases), " "@) + "\n"@;
    let c = spec_resolved_dropin(bases, port);
    assert(c =~= lit + dec + rest);
    assert(c =~= head + (seq!['\n'] + (l2 + rest)));
    assert(rest[0] == '\n');
    // The first two lines are the header and the DNS line.
    assert(!has_char(head, '\n'));
    assert(!has_char(l2, '\n')) by {
        if has_char(l2, '\n') {
            let i = choose|i: int| 0 <= i < l2.len() && l2[i] == '\n';
            if i >= ip.len() {
                assert(is_digit(dec[i - ip.len()]));
            }
        }
    }
    lemma_lines_from_run(head, seq!['\n'] + (l2 + rest), seq![]);
    assert(Seq::<char>::empty() + head == head);
    assert((seq!['\n'] + (l2 + rest))[0] == '\n');
    assert((seq!['\n'] + (l2 + rest)).drop_first() == l2 + rest);
    lemma_lines_from_run(l2, rest, seq![]);
    assert(Seq::<char>::empty() + l2 == l2);
    let ls = lines(c);
    assert(ls == seq![strip_cr(head)] + lines_from(l2 + rest, seq![]));
    assert(lines_from(rest, l2) == seq![strip_cr(l2)] + lines_from(rest.drop_first(), seq![]));
    assert(strip_cr(head) == head);
    assert(l2.last() == dec.last());
    assert(is_digit(dec[dec.len() - 1]));
    assert(strip_cr(l2) == l2);
    assert(ls[0] == head);
    assert(ls.drop_first()[0] == l2);
    // The header is no DNS line; the second line is.
    lemma_trim_unblank(head);
    assert(!starts_with(trim(ls[0]), "DNS="@)) by {
        assert(head[0] != 'D');
    }
    assert(l2[0] == 'D');
    lemma_trim_unblank(l2);
    assert(l2.take(4) =~= "DNS="@);
    let v = l2.skip(4);
    assert(first_dns_value(ls.drop_first()) == Some(v));
    assert(first_dns_value(ls) == Some(v));
    // The value's last colon ends the address.
    assert(v =~= seq!['1', '2', '7', '.', '0', '.', '0', '.', '1', ':'] + dec);
    assert forall|j: int| 9 < j < v.len() implies v[j] != ':' by {
        assert(v[j] == dec[j - 10]);
        assert(is_digit(dec[j - 10]));
    }
    lemma_last_unique(v, ':', 9);
    assert(after_last(v, ':') =~= dec);
    assert(is_digit(dec[0]));
    lemma_trim_unblank(dec);
    assert(!(dec.len() > 1 && dec[0] == '+'));
}

} // verus!
