//! Operations that need root: the commands that perform them, the batched
//! setup script and the reading of its per-step markers, and a recording fake.
use crate::service::arg_views;
use crate::text::{contains_seq, contains_str, join_with, lemma_join_with_push, push_char};
use std::sync::Arc;
use vstd::cell::invcell::InvCell;
use vstd::predicate::Predicate;
use vstd::prelude::*;

verus! {

/// Why a privileged operation failed.
#[derive(Debug)]
pub enum PrivError {
    Io(String),
    Command(String),
}

impl PrivError {
    /// The error as text.
    pub fn message(&self) -> (s: String)
        ensures
            s@ == match self {
                PrivError::Io(m) => "privileged io error: "@ + m@,
                PrivError::Command(m) => "privileged command failed: "@ + m@,
            },
    {
        match self {
            PrivError::Io(m) => crate::text::cat("privileged io error: ", m.as_str()),
            PrivError::Command(m) => crate::text::cat("privileged command failed: ", m.as_str()),
        }
    }
}

/// Inputs for the batched, setup-time privileged steps, so that authorization
/// is asked for a single time.
pub struct SetupPrivPlan {
    /// Distro systemd units to disable (best-effort; missing units are skipped).
    pub disable_units: Vec<String>,
    /// Resolved mkcert binary, or `None` when mkcert isn't installed.
    pub mkcert_bin: Option<String>,
    /// Resolved nginx binary, or `None` when nginx isn't installed.
    pub nginx_bin: Option<String>,
}

/// Per-step result of the batched setup. `None` means the step was skipped
/// because its input wasn't available.
pub struct SetupPrivOutcome {
    pub disabled_services: Result<(), String>,
    pub mkcert_ca: Option<Result<(), String>>,
    pub setcap_nginx: Option<Result<(), String>>,
}

/// Operations that require elevated privileges or external trust stores.
pub trait Privileged {
    fn write_etc_hosts(&self, new_content: &str) -> Result<(), PrivError>;

    fn install_mkcert_ca(&self, mkcert_bin: &str) -> Result<(), PrivError>;

    fn setcap_nginx(&self, nginx_bin: &str) -> Result<(), PrivError>;

    fn disable_system_services(&self, units: &[String]) -> Result<(), PrivError>;

    fn write_resolved_dropin(&self, contents: &str) -> Result<(), PrivError>;

    fn remove_resolved_dropin(&self) -> Result<(), PrivError>;

    fn create_symlink(&self, src: &str, dst: &str) -> Result<(), PrivError>;

    fn remove_symlink(&self, dst: &str) -> Result<(), PrivError>;

    /// Create every `(src, dst)` symlink under a single escalation prompt.
    fn create_symlinks(&self, pairs: &[(String, String)]) -> Result<(), PrivError>;

    /// Remove every given symlink under a single escalation prompt.
    fn remove_symlinks(&self, dsts: &[String]) -> Result<(), PrivError>;

    fn ensure_php_ini_link(&self, target: &str) -> Result<(), PrivError>;

    /// Run the setup-time privileged steps under a single escalation prompt.
    fn run_setup_privileged(&self, plan: &SetupPrivPlan) -> SetupPrivOutcome;
}

// ---------------------------------------------------------------------------
// Command builders
// ---------------------------------------------------------------------------

fn strings3(a: &str, b: &str, c: &str) -> (v: Vec<String>)
    ensures
        arg_views(v@) == seq![a@, b@, c@],
{
    let mut v: Vec<String> = Vec::new();
    v.push(a.to_string());
    v.push(b.to_string());
    v.push(c.to_string());
    assert(arg_views(v@) =~= seq![a@, b@, c@]);
    v
}

/// `cp <src> /etc/hosts`.
pub fn cp_argv(src: &str) -> (v: Vec<String>)
    ensures
        arg_views(v@) == seq!["cp"@, src@, "/etc/hosts"@],
{
    strings3("cp", src, "/etc/hosts")
}

/// `setcap cap_net_bind_service=+ep <bin>`.
pub fn setcap_argv(bin: &str) -> (v: Vec<String>)
    ensures
        arg_views(v@) == seq!["setcap"@, "cap_net_bind_service=+ep"@, bin@],
{
    strings3("setcap", "cap_net_bind_service=+ep", bin)
}

/// The body of a single-quoted shell word: each `'` becomes `'\''`.
pub open spec fn quote_body(s: Seq<char>) -> Seq<char>
    decreases s.len(),
{
    if s.len() == 0 {
        seq![]
    } else if s.last() == '\'' {
        quote_body(s.drop_last()) + seq!['\'', '\\', '\'', '\'']
    } else {
        quote_body(s.drop_last()).push(s.last())
    }
}

pub open spec fn spec_shell_quote(s: Seq<char>) -> Seq<char> {
    seq!['\''] + quote_body(s) + seq!['\'']
}

/// Single-quote a string for safe interpolation into an `sh -c` script.
pub fn shell_quote(s: &str) -> (q: String)
    ensures
        q@ == spec_shell_quote(s@),
{
    let v = crate::text::chars_of(s);
    let mut body = String::new();
    let mut i: usize = 0;
    while i < v.len()
        invariant
            0 <= i <= v@.len(),
            v@ == s@,
            body@ == quote_body(v@.take(i as int)),
        decreases v@.len() - i,
    {
        proof {
            assert(v@.take(i + 1).drop_last() == v@.take(i as int));
            assert(v@.take(i + 1).last() == v@[i as int]);
        }
        if v[i] == '\'' {
            push_char(&mut body, '\'');
            push_char(&mut body, '\\');
            push_char(&mut body, '\'');
            push_char(&mut body, '\'');
            assert(body@ =~= quote_body(v@.take(i as int)) + seq!['\'', '\\', '\'', '\'']);
        } else {
            push_char(&mut body, v[i]);
        }
        i = i + 1;
    }
    assert(v@.take(i as int) == v@);
    let mut q = String::new();
    push_char(&mut q, '\'');
    q.append(body.as_str());
    push_char(&mut q, '\'');
    assert(q@ =~= seq!['\''] + body@ + seq!['\'']);
    q
}

/// The units, each quoted, separated by spaces.
pub open spec fn quoted_list(units: Seq<Seq<char>>) -> Seq<char> {
    join_with(units.map_values(|u: Seq<char>| spec_shell_quote(u)), " "@)
}

fn quoted_list_exec(units: &[String]) -> (s: String)
    ensures
        s@ == quoted_list(arg_views(units@)),
{
    let ghost us = arg_views(units@);
    let ghost qs = us.map_values(|u: Seq<char>| spec_shell_quote(u));
    let mut s = String::new();
    let mut i: usize = 0;
    proof {
        reveal_strlit(" ");
    }
    while i < units.len()
        invariant
            0 <= i <= units@.len(),
            us == arg_views(units@),
            qs == us.map_values(|u: Seq<char>| spec_shell_quote(u)),
            s@ == join_with(qs.take(i as int), " "@),
        decreases units@.len() - i,
    {
        let q = shell_quote(units[i].as_str());
        proof {
            lemma_join_with_push(qs.take(i as int), " "@, q@);
            assert(qs.take(i + 1) == qs.take(i as int).push(q@));
        }
        if i > 0 {
            s.append(" ");
        }
        s.append(q.as_str());
        i = i + 1;
    }
    assert(qs.take(i as int) == qs);
    s
}

pub const DISABLE_HEAD: &'static str = "rc=0; for u in ";

pub const DISABLE_LOOP: &'static str = "; do systemctl cat \"$u\" >/dev/null 2>&1 || continue; systemctl disable --now \"$u\" || rc=1; done; ";

pub open spec fn spec_disable_script(units: Seq<Seq<char>>) -> Seq<char> {
    DISABLE_HEAD@ + quoted_list(units) + DISABLE_LOOP@ + "exit $rc"@
}

/// Shell that disables each distro unit independently, skipping any that
/// aren't installed; non-zero only when an installed unit fails to disable.
pub fn systemctl_disable_script(units: &[String]) -> (s: String)
    ensures
        s@ == spec_disable_script(arg_views(units@)),
{
    let list = quoted_list_exec(units);
    let mut s = String::from_str(DISABLE_HEAD);
    s.append(list.as_str());
    s.append(DISABLE_LOOP);
    s.append("exit $rc");
    s
}

/// `sh -c <disable script>`.
pub fn systemctl_disable_argv(units: &[String]) -> (v: Vec<String>)
    ensures
        arg_views(v@) == seq!["sh"@, "-c"@, spec_disable_script(arg_views(units@))],
{
    let script = systemctl_disable_script(units);
    strings3("sh", "-c", script.as_str())
}

pub const RESOLVED_DROPIN: &'static str = "/etc/systemd/resolved.conf.d/laralux.conf";

pub const RESOLVED_RELOAD: &'static str = "systemctl reload systemd-resolved || systemctl restart systemd-resolved || true";

pub open spec fn spec_write_resolved_script(contents: Seq<char>) -> Seq<char> {
    "mkdir -p /etc/systemd/resolved.conf.d && cat > "@ + RESOLVED_DROPIN@ + " <<'LARALUXEOF'\n"@ + contents
        + "\nLARALUXEOF\n"@ + RESOLVED_RELOAD@
}

/// `sh -c` writing the resolved drop-in through a here-document, then
/// reloading systemd-resolved.
pub fn write_resolved_argv(contents: &str) -> (v: Vec<String>)
    ensures
        arg_views(v@) == seq!["sh"@, "-c"@, spec_write_resolved_script(contents@)],
{
    let mut s = String::from_str("mkdir -p /etc/systemd/resolved.conf.d && cat > ");
    s.append(RESOLVED_DROPIN);
    s.append(" <<'LARALUXEOF'\n");
    s.append(contents);
    s.append("\nLARALUXEOF\n");
    s.append(RESOLVED_RELOAD);
    proof {
        reveal_strlit("mkdir -p /etc/systemd/resolved.conf.d && cat > ");
    }
    strings3("sh", "-c", s.as_str())
}

/// `sh -c` removing the resolved drop-in, then reloading systemd-resolved.
pub fn remove_resolved_argv() -> (v: Vec<String>)
    ensures
        arg_views(v@) == seq!["sh"@, "-c"@, "rm -f "@ + RESOLVED_DROPIN@ + "; "@ + RESOLVED_RELOAD@],
{
    let mut s = String::from_str("rm -f ");
    s.append(RESOLVED_DROPIN);
    s.append("; ");
    s.append(RESOLVED_RELOAD);
    proof {
        reveal_strlit("rm -f ");
    }
    strings3("sh", "-c", s.as_str())
}

/// `ln -sfn <src> <dst>`.
pub fn ln_symlink_argv(src: &str, dst: &str) -> (v: Vec<String>)
    ensures
        arg_views(v@) == seq!["ln"@, "-sfn"@, src@, dst@],
{
    let mut v = strings3("ln", "-sfn", src);
    let ghost before = v@;
    let d = dst.to_string();
    v.push(d);
    assert(v@ == before.push(d));
    assert(arg_views(v@) == arg_views(before).push(dst@));
    assert(arg_views(v@) =~= seq!["ln"@, "-sfn"@, src@, dst@]);
    v
}

/// One `ln -sfn '<src>' '<dst>'` command, both quoted.
pub open spec fn spec_ln_cmd(p: (Seq<char>, Seq<char>)) -> Seq<char> {
    "ln -sfn "@ + spec_shell_quote(p.0) + " "@ + spec_shell_quote(p.1)
}

/// One `rm -f '<dst>'` command, quoted.
pub open spec fn spec_rm_cmd(d: Seq<char>) -> Seq<char> {
    "rm -f "@ + spec_shell_quote(d)
}

/// The commands joined by ` && `, so the batch stops at the first failure.
pub open spec fn and_then_all(cmds: Seq<Seq<char>>) -> Seq<char> {
    join_with(cmds, " && "@)
}

/// The shell script that creates every `(src, dst)` symlink in one go.
pub fn ln_symlinks_script(pairs: &[(String, String)]) -> (s: String)
    ensures
        s@ == and_then_all(pairs@.map_values(|p: (String, String)| spec_ln_cmd((p.0@, p.1@)))),
{
    let ghost cmds = pairs@.map_values(|p: (String, String)| spec_ln_cmd((p.0@, p.1@)));
    let mut s = String::new();
    let mut i: usize = 0;
    while i < pairs.len()
        invariant
            0 <= i <= pairs@.len(),
            cmds == pairs@.map_values(|p: (String, String)| spec_ln_cmd((p.0@, p.1@))),
            s@ == and_then_all(cmds.take(i as int)),
        decreases pairs@.len() - i,
    {
        let ghost before = s@;
        if i > 0 {
            s.append(" && ");
        }
        s.append("ln -sfn ");
        s.append(shell_quote(pairs[i].0.as_str()).as_str());
        s.append(" ");
        s.append(shell_quote(pairs[i].1.as_str()).as_str());
        proof {
            assert(cmds.take(i + 1) == cmds.take(i as int).push(cmds[i as int]));
            lemma_join_with_push(cmds.take(i as int), " && "@, cmds[i as int]);
            if i == 0 {
                assert(before.len() == 0);
            }
            assert(s@ =~= and_then_all(cmds.take(i + 1)));
        }
        i = i + 1;
    }
    assert(cmds.take(i as int) == cmds);
    s
}

/// The shell script that removes every given symlink in one go.
pub fn rm_symlinks_script(dsts: &[String]) -> (s: String)
    ensures
        s@ == and_then_all(dsts@.map_values(|d: String| spec_rm_cmd(d@))),
{
    let ghost cmds = dsts@.map_values(|d: String| spec_rm_cmd(d@));
    let mut s = String::new();
    let mut i: usize = 0;
    while i < dsts.len()
        invariant
            0 <= i <= dsts@.len(),
            cmds == dsts@.map_values(|d: String| spec_rm_cmd(d@)),
            s@ == and_then_all(cmds.take(i as int)),
        decreases dsts@.len() - i,
    {
        let ghost before = s@;
        if i > 0 {
            s.append(" && ");
        }
        s.append("rm -f ");
        s.append(shell_quote(dsts[i].as_str()).as_str());
        proof {
            assert(cmds.take(i + 1) == cmds.take(i as int).push(cmds[i as int]));
            lemma_join_with_push(cmds.take(i as int), " && "@, cmds[i as int]);
            if i == 0 {
                assert(before.len() == 0);
            }
            assert(s@ =~= and_then_all(cmds.take(i + 1)));
        }
        i = i + 1;
    }
    assert(cmds.take(i as int) == cmds);
    s
}

/// `sh -c "mkdir -p /usr/local/etc/php && ln -sfn <target> /usr/local/etc/php/php.ini"`.
pub fn php_ini_link_argv(target: &str) -> (v: Vec<String>)
    ensures
        arg_views(v@) == seq![
            "sh"@,
            "-c"@,
            "mkdir -p /usr/local/etc/php && ln -sfn "@ + target@ + " /usr/local/etc/php/php.ini"@,
        ],
{
    let mut s = String::from_str("mkdir -p /usr/local/etc/php && ln -sfn ");
    s.append(target);
    s.append(" /usr/local/etc/php/php.ini");
    proof {
        reveal_strlit("mkdir -p /usr/local/etc/php && ln -sfn ");
    }
    strings3("sh", "-c", s.as_str())
}

/// `rm -f <dst>`.
pub fn rm_argv(dst: &str) -> (v: Vec<String>)
    ensures
        arg_views(v@) == seq!["rm"@, "-f"@, dst@],
{
    strings3("rm", "-f", dst)
}

/// Root installs the user's mkcert CA into the system trust store only:
/// `CAROOT=<caroot> TRUST_STORES=system <mkcert> -install`, both quoted.
pub fn mkcert_system_cmd(mkcert_bin: &str, caroot: &str) -> (s: String)
    ensures
        s@ == "CAROOT="@ + spec_shell_quote(caroot@) + " TRUST_STORES=system "@ + spec_shell_quote(mkcert_bin@)
            + " -install"@,
{
    let mut s = String::from_str("CAROOT=");
    s.append(shell_quote(caroot).as_str());
    s.append(" TRUST_STORES=system ");
    s.append(shell_quote(mkcert_bin).as_str());
    s.append(" -install");
    proof {
        reveal_strlit("CAROOT=");
    }
    s
}

/// `setcap cap_net_bind_service=+ep <nginx>`, quoted.
pub fn setcap_cmd(nginx_bin: &str) -> (s: String)
    ensures
        s@ == "setcap cap_net_bind_service=+ep "@ + spec_shell_quote(nginx_bin@),
{
    let mut s = String::from_str("setcap cap_net_bind_service=+ep ");
    s.append(shell_quote(nginx_bin).as_str());
    proof {
        reveal_strlit("setcap cap_net_bind_service=+ep ");
    }
    s
}

// ---------------------------------------------------------------------------
// The batched setup script
// ---------------------------------------------------------------------------

pub const M_DISABLE_OK: &'static str = "__LARALUX_DISABLE_OK__";

pub const M_DISABLE_FAIL: &'static str = "__LARALUX_DISABLE_FAIL__";

pub const M_MKCERT_OK: &'static str = "__LARALUX_MKCERT_OK__";

pub const M_MKCERT_FAIL: &'static str = "__LARALUX_MKCERT_FAIL__";

pub const M_SETCAP_OK: &'static str = "__LARALUX_SETCAP_OK__";

pub const M_SETCAP_FAIL: &'static str = "__LARALUX_SETCAP_FAIL__";

/// The line that runs `cmd` and reports it with the marker pair.
pub open spec fn step_line(cmd: Seq<char>, ok: Seq<char>, fail: Seq<char>) -> Seq<char> {
    "if "@ + cmd + "; then echo "@ + ok + "; else echo "@ + fail + "; fi\n"@
}

pub open spec fn spec_setup_script(units: Seq<Seq<char>>, mkcert_cmd: Option<Seq<char>>, setcap_cmd: Option<Seq<char>>) -> Seq<char> {
    DISABLE_HEAD@ + quoted_list(units) + DISABLE_LOOP@ + "[ $rc -eq 0 ] && echo "@ + M_DISABLE_OK@ + " || echo "@
        + M_DISABLE_FAIL@ + "\n"@ + (match mkcert_cmd {
        Some(c) => step_line(c, M_MKCERT_OK@, M_MKCERT_FAIL@),
        None => seq![],
    }) + (match setcap_cmd {
        Some(c) => step_line(c, M_SETCAP_OK@, M_SETCAP_FAIL@),
        None => seq![],
    }) + "exit 0\n"@
}

fn append_step(s: &mut String, cmd: &str, ok: &str, fail: &str)
    ensures
        final(s)@ == old(s)@ + step_line(cmd@, ok@, fail@),
{
    s.append("if ");
    s.append(cmd);
    s.append("; then echo ");
    s.append(ok);
    s.append("; else echo ");
    s.append(fail);
    s.append("; fi\n");
    proof {
        reveal_strlit("if ");
    }
}

/// The combined root script: each included step runs best-effort and prints
/// an OK/FAIL marker; it always ends with `exit 0`, so a non-zero status
/// means the escalation itself failed.
pub fn build_setup_script(units: &[String], mkcert_cmd: Option<&str>, setcap_cmd: Option<&str>) -> (s: String)
    ensures
        s@ == spec_setup_script(
            arg_views(units@),
            match mkcert_cmd {
                Some(c) => Some(c@),
                None => None,
            },
            match setcap_cmd {
                Some(c) => Some(c@),
                None => None,
            },
        ),
{
    let list = quoted_list_exec(units);
    let mut s = String::from_str(DISABLE_HEAD);
    s.append(list.as_str());
    s.append(DISABLE_LOOP);
    s.append("[ $rc -eq 0 ] && echo ");
    s.append(M_DISABLE_OK);
    s.append(" || echo ");
    s.append(M_DISABLE_FAIL);
    s.append("\n");
    let ghost head = s@;
    match mkcert_cmd {
        Some(c) => append_step(&mut s, c, M_MKCERT_OK, M_MKCERT_FAIL),
        None => {
            assert(s@ == head + Seq::<char>::empty());
        },
    }
    let ghost mid = s@;
    match setcap_cmd {
        Some(c) => append_step(&mut s, c, M_SETCAP_OK, M_SETCAP_FAIL),
        None => {
            assert(s@ == mid + Seq::<char>::empty());
        },
    }
    s.append("exit 0\n");
    s
}

/// How a step fared: its OK marker wins, then its FAIL marker, then the
/// escalation error, else "no result".
pub open spec fn spec_parse_marker(
    stdout: Seq<char>,
    ok: Seq<char>,
    fail: Seq<char>,
    esc_err: Option<Seq<char>>,
    label: Seq<char>,
) -> Result<(), Seq<char>> {
    if contains_seq(stdout, ok) {
        Ok(())
    } else if contains_seq(stdout, fail) {
        Err(label + " failed"@)
    } else {
        match esc_err {
            Some(e) => Err(e),
            None => Err(label + ": no result"@),
        }
    }
}

pub open spec fn unit_result_view(r: Result<(), String>) -> Result<(), Seq<char>> {
    match r {
        Ok(()) => Ok(()),
        Err(e) => Err(e@),
    }
}

/// Map an OK/FAIL marker pair (or a whole-escalation failure) to a step result.
pub fn parse_marker(stdout: &str, ok: &str, fail: &str, esc_err: Option<&str>, label: &str) -> (r: Result<(), String>)
    ensures
        unit_result_view(r) == spec_parse_marker(
            stdout@,
            ok@,
            fail@,
            match esc_err {
                Some(e) => Some(e@),
                None => None,
            },
            label@,
        ),
{
    if contains_str(stdout, ok) {
        Ok(())
    } else if contains_str(stdout, fail) {
        let mut m = label.to_string();
        m.append(" failed");
        Err(m)
    } else {
        match esc_err {
            Some(e) => Err(e.to_string()),
            None => {
                let mut m = label.to_string();
                m.append(": no result");
                Err(m)
            },
        }
    }
}

pub open spec fn opt_view(o: Option<String>) -> Option<Seq<char>> {
    match o {
        Some(s) => Some(s@),
        None => None,
    }
}

/// What the batched setup reports per step, from the script's output (or the
/// escalation error), the mkcert preparation error, and which inputs existed.
pub fn setup_outcome(
    stdout: &str,
    esc_err: Option<String>,
    mkcert_pre_err: Option<String>,
    has_mkcert: bool,
    has_nginx: bool,
) -> (o: SetupPrivOutcome)
    ensures
        unit_result_view(o.disabled_services) == spec_parse_marker(stdout@, M_DISABLE_OK@, M_DISABLE_FAIL@, opt_view(esc_err), "disable services"@),
        match mkcert_pre_err {
            Some(pre) => o.mkcert_ca matches Some(Err(e)) && e@ == pre@,
            None => if has_mkcert {
                o.mkcert_ca matches Some(r) && unit_result_view(r) == spec_parse_marker(
                    stdout@,
                    M_MKCERT_OK@,
                    M_MKCERT_FAIL@,
                    opt_view(esc_err),
                    "mkcert -install (system)"@,
                )
            } else {
                o.mkcert_ca is None
            },
        },
        has_nginx ==> (o.setcap_nginx matches Some(r) && unit_result_view(r) == spec_parse_marker(
            stdout@,
            M_SETCAP_OK@,
            M_SETCAP_FAIL@,
            opt_view(esc_err),
            "setcap nginx"@,
        )),
        !has_nginx ==> o.setcap_nginx is None,
{
    let esc: Option<&str> = match &esc_err {
        Some(e) => Some(e.as_str()),
        None => None,
    };
    let disabled_services = parse_marker(stdout, M_DISABLE_OK, M_DISABLE_FAIL, esc, "disable services");
    let mkcert_ca = match mkcert_pre_err {
        Some(pre) => Some(Err(pre)),
        None => if has_mkcert {
            Some(parse_marker(stdout, M_MKCERT_OK, M_MKCERT_FAIL, esc, "mkcert -install (system)"))
        } else {
            None
        },
    };
    let setcap_nginx = if has_nginx {
        Some(parse_marker(stdout, M_SETCAP_OK, M_SETCAP_FAIL, esc, "setcap nginx"))
    } else {
        None
    };
    SetupPrivOutcome { disabled_services, mkcert_ca, setcap_nginx }
}

// ---------------------------------------------------------------------------
// The escalators
// ---------------------------------------------------------------------------

/// Privileged operations escalated with `sudo` (terminal use).
pub struct SudoPrivileged;

impl SudoPrivileged {
    /// The command that installs a prepared hosts file.
    pub fn hosts_cp_command(src: &str) -> (r: (String, Vec<String>))
        ensures
            r.0@ == "sudo"@,
            arg_views(r.1@) == seq!["cp"@, src@, "/etc/hosts"@],
    {
        (String::from_str("sudo"), cp_argv(src))
    }

    /// The command that lets nginx bind ports below 1024.
    pub fn setcap_command(bin: &str) -> (r: (String, Vec<String>))
        ensures
            r.0@ == "sudo"@,
            arg_views(r.1@) == seq!["setcap"@, "cap_net_bind_service=+ep"@, bin@],
    {
        (String::from_str("sudo"), setcap_argv(bin))
    }
}

/// Privileged operations escalated with `pkexec` (graphical auth) — for GUI use.
pub struct PkexecPrivileged;

// ---------------------------------------------------------------------------
// Recording fake
// ---------------------------------------------------------------------------

/// Anything may be recorded.
pub struct AnyRecord;

impl<T> Predicate<T> for AnyRecord {
    open spec fn predicate(&self, v: T) -> bool {
        true
    }
}

/// Copies of the strings of `v`.
pub fn copy_strings(v: &Vec<String>) -> (r: Vec<String>)
    ensures
        arg_views(r@) == arg_views(v@),
{
    let mut r: Vec<String> = Vec::new();
    let mut i: usize = 0;
    while i < v.len()
        invariant
            0 <= i <= v@.len(),
            arg_views(r@) == arg_views(v@).take(i as int),
        decreases v@.len() - i,
    {
        r.push(v[i].clone());
        proof {
            assert(arg_views(v@).take(i + 1) == arg_views(v@).take(i as int).push(v@[i as int]@));
        }
        i = i + 1;
    }
    assert(arg_views(v@).take(i as int) == arg_views(v@));
    r
}

/// A shared, growing list of strings.
#[derive(Clone)]
pub struct StringLog {
    cell: Arc<InvCell<Vec<String>, AnyRecord>>,
}

impl StringLog {
    pub fn new() -> StringLog {
        StringLog { cell: Arc::new(InvCell::new(Vec::new(), Ghost(AnyRecord))) }
    }

    pub fn push(&self, s: String) {
        let mut v = self.cell.replace(Vec::new());
        v.push(s);
        self.cell.replace(v);
    }

    /// The strings recorded so far, in order.
    pub fn entries(&self) -> Vec<String> {
        let v = self.cell.replace(Vec::new());
        let copy = copy_strings(&v);
        self.cell.replace(v);
        copy
    }

    pub fn len(&self) -> usize {
        let v = self.cell.replace(Vec::new());
        let n = v.len();
        self.cell.replace(v);
        n
    }
}

/// A shared, growing list of string lists.
#[derive(Clone)]
pub struct ListLog {
    cell: Arc<InvCell<Vec<Vec<String>>, AnyRecord>>,
}

impl ListLog {
    pub fn new() -> ListLog {
        ListLog { cell: Arc::new(InvCell::new(Vec::new(), Ghost(AnyRecord))) }
    }

    pub fn push(&self, s: Vec<String>) {
        let mut v = self.cell.replace(Vec::new());
        v.push(s);
        self.cell.replace(v);
    }

    /// The lists recorded so far, in order.
    pub fn entries(&self) -> Vec<Vec<String>> {
        let v = self.cell.replace(Vec::new());
        let mut copy: Vec<Vec<String>> = Vec::new();
        let mut i: usize = 0;
        while i < v.len()
            invariant
                0 <= i <= v@.len(),
            decreases v@.len() - i,
        {
            copy.push(copy_strings(&v[i]));
            i = i + 1;
        }
        self.cell.replace(v);
        copy
    }

    pub fn len(&self) -> usize {
        let v = self.cell.replace(Vec::new());
        let n = v.len();
        self.cell.replace(v);
        n
    }
}

/// A shared, growing list of string pairs.
#[derive(Clone)]
pub struct PairLog {
    cell: Arc<InvCell<Vec<(String, String)>, AnyRecord>>,
}

impl PairLog {
    pub fn new() -> PairLog {
        PairLog { cell: Arc::new(InvCell::new(Vec::new(), Ghost(AnyRecord))) }
    }

    pub fn push(&self, a: String, b: String) {
        let mut v = self.cell.replace(Vec::new());
        v.push((a, b));
        self.cell.replace(v);
    }

    /// The pairs recorded so far, in order.
    pub fn entries(&self) -> Vec<(String, String)> {
        let v = self.cell.replace(Vec::new());
        let mut copy: Vec<(String, String)> = Vec::new();
        let mut i: usize = 0;
        while i < v.len()
            invariant
                0 <= i <= v@.len(),
            decreases v@.len() - i,
        {
            let (a, b) = &v[i];
            copy.push((a.clone(), b.clone()));
            i = i + 1;
        }
        self.cell.replace(v);
        copy
    }
}

/// A shared optional string.
#[derive(Clone)]
pub struct SlotLog {
    cell: Arc<InvCell<Option<String>, AnyRecord>>,
}

impl SlotLog {
    pub fn new() -> SlotLog {
        SlotLog { cell: Arc::new(InvCell::new(None, Ghost(AnyRecord))) }
    }

    pub fn set(&self, s: String) {
        self.cell.replace(Some(s));
    }

    pub fn get(&self) -> Option<String> {
        let v = self.cell.replace(None);
        let copy = match &v {
            Some(s) => Some(s.clone()),
            None => None,
        };
        self.cell.replace(v);
        copy
    }
}

/// A shared flag.
#[derive(Clone)]
pub struct FlagLog {
    cell: Arc<InvCell<bool, AnyRecord>>,
}

impl FlagLog {
    pub fn new() -> FlagLog {
        FlagLog { cell: Arc::new(InvCell::new(false, Ghost(AnyRecord))) }
    }

    pub fn set(&self) {
        self.cell.replace(true);
    }

    pub fn get(&self) -> bool {
        self.cell.get()
    }
}

/// Records every privileged request instead of performing it; every request
/// succeeds.
#[derive(Clone)]
pub struct FakePrivileged {
    hosts_writes: StringLog,
    mkcert_ca_path: SlotLog,
    setcap_done: FlagLog,
    disabled_services: ListLog,
    resolved_dropins: StringLog,
    resolved_removed: FlagLog,
    symlinks_created: PairLog,
    symlinks_removed: StringLog,
    php_ini_links: StringLog,
}

impl FakePrivileged {
    pub fn new() -> FakePrivileged {
        FakePrivileged {
            hosts_writes: StringLog::new(),
            mkcert_ca_path: SlotLog::new(),
            setcap_done: FlagLog::new(),
            disabled_services: ListLog::new(),
            resolved_dropins: StringLog::new(),
            resolved_removed: FlagLog::new(),
            symlinks_created: PairLog::new(),
            symlinks_removed: StringLog::new(),
            php_ini_links: StringLog::new(),
        }
    }

    /// Every hosts file content written, in order.
    pub fn hosts_writes(&self) -> StringLog {
        self.hosts_writes.clone()
    }

    /// Whether `install_mkcert_ca` was called at least once.
    pub fn installed_ca(&self) -> bool {
        self.mkcert_ca_path.get().is_some()
    }

    /// The path last passed to `install_mkcert_ca`, if called.
    pub fn mkcert_ca_path(&self) -> Option<String> {
        self.mkcert_ca_path.get()
    }

    /// Whether nginx was given its capability.
    pub fn setcap_done(&self) -> bool {
        self.setcap_done.get()
    }

    pub fn disabled_services(&self) -> ListLog {
        self.disabled_services.clone()
    }

    pub fn resolved_dropins(&self) -> StringLog {
        self.resolved_dropins.clone()
    }

    pub fn resolved_removed(&self) -> FlagLog {
        self.resolved_removed.clone()
    }

    pub fn symlinks_created(&self) -> PairLog {
        self.symlinks_created.clone()
    }

    pub fn symlinks_removed(&self) -> StringLog {
        self.symlinks_removed.clone()
    }

    pub fn php_ini_links(&self) -> StringLog {
        self.php_ini_links.clone()
    }
}

impl Privileged for FakePrivileged {
    fn write_etc_hosts(&self, new_content: &str) -> (r: Result<(), PrivError>)
        ensures
            r is Ok,
    {
        self.hosts_writes.push(new_content.to_string());
        Ok(())
    }

    fn install_mkcert_ca(&self, mkcert_bin: &str) -> (r: Result<(), PrivError>)
        ensures
            r is Ok,
    {
        self.mkcert_ca_path.set(mkcert_bin.to_string());
        Ok(())
    }

    fn setcap_nginx(&self, nginx_bin: &str) -> (r: Result<(), PrivError>)
        ensures
            r is Ok,
    {
        self.setcap_done.set();
        Ok(())
    }

    fn disable_system_services(&self, units: &[String]) -> (r: Result<(), PrivError>)
        ensures
            r is Ok,
    {
        let mut v: Vec<String> = Vec::new();
        let mut i: usize = 0;
        while i < units.len()
            invariant
                0 <= i <= units@.len(),
            decreases units@.len() - i,
        {
            v.push(units[i].clone());
            i = i + 1;
        }
        self.disabled_services.push(v);
        Ok(())
    }

    fn write_resolved_dropin(&self, contents: &str) -> (r: Result<(), PrivError>)
        ensures
            r is Ok,
    {
        self.resolved_dropins.push(contents.to_string());
        Ok(())
    }

    fn remove_resolved_dropin(&self) -> (r: Result<(), PrivError>)
        ensures
            r is Ok,
    {
        self.resolved_removed.set();
        Ok(())
    }

    fn create_symlink(&self, src: &str, dst: &str) -> (r: Result<(), PrivError>)
        ensures
            r is Ok,
    {
        self.symlinks_created.push(src.to_string(), dst.to_string());
        Ok(())
    }

    fn remove_symlink(&self, dst: &str) -> (r: Result<(), PrivError>)
        ensures
            r is Ok,
    {
        self.symlinks_removed.push(dst.to_string());
        Ok(())
    }

    fn create_symlinks(&self, pairs: &[(String, String)]) -> (r: Result<(), PrivError>)
        ensures
            r is Ok,
    {
        let mut i: usize = 0;
        while i < pairs.len()
            invariant
                0 <= i <= pairs@.len(),
            decreases pairs@.len() - i,
        {
            self.symlinks_created.push(pairs[i].0.clone(), pairs[i].1.clone());
            i = i + 1;
        }
        Ok(())
    }

    fn remove_symlinks(&self, dsts: &[String]) -> (r: Result<(), PrivError>)
        ensures
            r is Ok,
    {
        let mut i: usize = 0;
        while i < dsts.len()
            invariant
                0 <= i <= dsts@.len(),
            decreases dsts@.len() - i,
        {
            self.symlinks_removed.push(dsts[i].clone());
            i = i + 1;
        }
        Ok(())
    }

    fn ensure_php_ini_link(&self, target: &str) -> (r: Result<(), PrivError>)
        ensures
            r is Ok,
    {
        self.php_ini_links.push(target.to_string());
        Ok(())
    }

    fn run_setup_privileged(&self, plan: &SetupPrivPlan) -> (o: SetupPrivOutcome)
        ensures
            o.disabled_services is Ok,
            plan.mkcert_bin is Some <==> o.mkcert_ca matches Some(Ok(())),
            plan.mkcert_bin is None ==> o.mkcert_ca is None,
            plan.nginx_bin is Some <==> o.setcap_nginx matches Some(Ok(())),
            plan.nginx_bin is None ==> o.setcap_nginx is None,
    {
        self.disabled_services.push(copy_strings(&plan.disable_units));
        let mkcert_ca = match &plan.mkcert_bin {
            Some(bin) => {
                self.mkcert_ca_path.set(bin.clone());
                Some(Ok(()))
            },
            None => None,
        };
        let setcap_nginx = match &plan.nginx_bin {
            Some(_) => {
                self.setcap_done.set();
                Some(Ok(()))
            },
            None => None,
        };
        SetupPrivOutcome { disabled_services: Ok(()), mkcert_ca, setcap_nginx }
    }
}

} // verus!
