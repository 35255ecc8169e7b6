//! First-run setup: which stack components are missing, and the run that
//! installs them one by one, collecting every failure into a report.
use crate::progress::{ProgressEvent, ProgressSink};
use crate::privileged::StringLog;
use crate::site_registry::str_views;
use crate::text::{cat, chars_of, find_char, lines, parse_uint, parse_uint_str, split_lines, split_once, string_of, to_lower, to_lower_str, trim, trim_str, str_eq};
use vstd::prelude::*;

verus! {

/// A component of the stack.
#[derive(Clone, Copy, PartialEq, Eq, Debug, Structural)]
pub enum Component {
    Nginx,
    Php,
    Mariadb,
    Redis,
    Mkcert,
    Mailpit,
    Composer,
    Node,
}

/// Every component, in declaration order.
pub open spec fn all_components() -> Seq<Component> {
    seq![
        Component::Nginx,
        Component::Php,
        Component::Mariadb,
        Component::Redis,
        Component::Mkcert,
        Component::Mailpit,
        Component::Composer,
        Component::Node,
    ]
}

pub open spec fn comp_index(c: Component) -> int {
    match c {
        Component::Nginx => 0,
        Component::Php => 1,
        Component::Mariadb => 2,
        Component::Redis => 3,
        Component::Mkcert => 4,
        Component::Mailpit => 5,
        Component::Composer => 6,
        Component::Node => 7,
    }
}

pub open spec fn spec_label(c: Component) -> Seq<char> {
    match c {
        Component::Nginx => "nginx"@,
        Component::Php => "php-fpm"@,
        Component::Mariadb => "mariadb"@,
        Component::Redis => "redis"@,
        Component::Mkcert => "mkcert"@,
        Component::Mailpit => "mailpit"@,
        Component::Composer => "composer"@,
        Component::Node => "node"@,
    }
}

/// The binary whose presence means the component is installed.
pub open spec fn detect_binary_of(c: Component) -> Seq<char> {
    match c {
        Component::Nginx => "nginx"@,
        Component::Php => "php-fpm"@,
        Component::Mariadb => "mariadbd"@,
        Component::Redis => "redis-server"@,
        Component::Mkcert => "mkcert"@,
        Component::Mailpit => "mailpit"@,
        Component::Composer => "composer"@,
        Component::Node => "node"@,
    }
}

impl Component {
    /// Every component, in declaration order.
    pub fn all() -> (r: Vec<Component>)
        ensures
            r@ == all_components(),
    {
        let mut r: Vec<Component> = Vec::new();
        r.push(Component::Nginx);
        r.push(Component::Php);
        r.push(Component::Mariadb);
        r.push(Component::Redis);
        r.push(Component::Mkcert);
        r.push(Component::Mailpit);
        r.push(Component::Composer);
        r.push(Component::Node);
        assert(r@ =~= all_components());
        r
    }

    /// Position in declaration order.
    pub fn index(&self) -> (i: usize)
        ensures
            i == comp_index(*self),
    {
        match self {
            Component::Nginx => 0,
            Component::Php => 1,
            Component::Mariadb => 2,
            Component::Redis => 3,
            Component::Mkcert => 4,
            Component::Mailpit => 5,
            Component::Composer => 6,
            Component::Node => 7,
        }
    }

    /// The name shown for the component.
    pub fn label(&self) -> (s: &'static str)
        ensures
            s@ == spec_label(*self),
    {
        match self {
            Component::Nginx => "nginx",
            Component::Php => "php-fpm",
            Component::Mariadb => "mariadb",
            Component::Redis => "redis",
            Component::Mkcert => "mkcert",
            Component::Mailpit => "mailpit",
            Component::Composer => "composer",
            Component::Node => "node",
        }
    }
}

/// Whether a component is installed.
#[derive(Clone, Copy, Debug, PartialEq, Eq)]
pub struct ComponentStatus {
    pub component: Component,
    pub present: bool,
}

/// The binary that, if resolvable, means the component is installed.
pub fn detect_binary(component: Component) -> (s: &'static str)
    ensures
        s@ == detect_binary_of(component),
{
    match component {
        Component::Nginx => "nginx",
        Component::Php => "php-fpm",
        Component::Mariadb => "mariadbd",
        Component::Redis => "redis-server",
        Component::Mkcert => "mkcert",
        Component::Mailpit => "mailpit",
        Component::Composer => "composer",
        Component::Node => "node",
    }
}

/// `f` answered `present` for some argument spelling `name`.
pub open spec fn found_by<F: Fn(&str) -> bool>(f: F, name: Seq<char>, present: bool) -> bool {
    exists|b: &str| b@ == name && #[trigger] call_ensures(f, (b,), present)
}

/// The presence of every component, in declaration order, a component being
/// present when `resolves` finds its binary.
pub fn detect(resolves: impl Fn(&str) -> bool) -> (r: Vec<ComponentStatus>)
    requires
        forall|s: &str| call_requires(resolves, (s,)),
    ensures
        r@.len() == 8,
        forall|i: int| 0 <= i < 8 ==> (#[trigger] r@[i]).component == all_components()[i],
        forall|i: int| 0 <= i < 8 ==> found_by(resolves, detect_binary_of(all_components()[i]), (#[trigger] r@[i]).present),
{
    let all = Component::all();
    let mut r: Vec<ComponentStatus> = Vec::new();
    let mut i: usize = 0;
    while i < all.len()
        invariant
            0 <= i <= all@.len(),
            all@ == all_components(),
            r@.len() == i,
            forall|s: &str| call_requires(resolves, (s,)),
            forall|j: int| 0 <= j < i ==> (#[trigger] r@[j]).component == all_components()[j],
            forall|j: int| 0 <= j < i ==> found_by(resolves, detect_binary_of(all_components()[j]), (#[trigger] r@[j]).present),
        decreases all@.len() - i,
    {
        let c = all[i];
        let b = detect_binary(c);
        let present = resolves(b);
        r.push(ComponentStatus { component: c, present });
        assert(r@[i as int].present == present);
        assert(found_by(resolves, detect_binary_of(all_components()[i as int]), present));
        i = i + 1;
    }
    r
}

/// The apt packages that install a component: none, every component is
/// downloaded.
pub fn apt_packages_for(component: Component) -> (r: Vec<String>)
    ensures
        r@.len() == 0,
{
    Vec::new()
}

// ---------------------------------------------------------------------------
// Downloads
// ---------------------------------------------------------------------------

/// Why a setup step failed.
#[derive(Debug)]
pub enum SetupError {
    Io(String),
    Download(String),
}

impl SetupError {
    /// The error as text.
    pub fn message(&self) -> (s: String)
        ensures
            s@ == match self {
                SetupError::Io(m) => "setup io error: "@ + m@,
                SetupError::Download(m) => "download error: "@ + m@,
            },
    {
        match self {
            SetupError::Io(m) => cat("setup io error: ", m.as_str()),
            SetupError::Download(m) => cat("download error: ", m.as_str()),
        }
    }
}

/// Fetches a URL into a destination file.
pub trait Downloader {
    fn fetch(&self, url: &str, dest: &str) -> Result<(), SetupError>;

    /// Fetch while reporting byte progress to `sink`; by default no byte
    /// progress is reported.
    fn fetch_with_progress(&self, url: &str, dest: &str, sink: &dyn ProgressSink) -> Result<(), SetupError> {
        self.fetch(url, dest)
    }
}

/// The `content-length` value a header line carries, if it is one.
pub open spec fn header_length(line: Seq<char>) -> Option<nat> {
    match split_once(line, ':') {
        Some(kv) => if to_lower(trim(kv.0)) == "content-length"@ {
            parse_uint(trim(kv.1), u64::MAX as nat)
        } else {
            None
        },
        None => None,
    }
}

/// The last parsable `content-length` among `ls`, else 0.
pub open spec fn last_length(ls: Seq<Seq<char>>) -> nat
    decreases ls.len(),
{
    if ls.len() == 0 {
        0
    } else {
        match header_length(ls.last()) {
            Some(n) => n,
            None => last_length(ls.drop_last()),
        }
    }
}

fn line_length(line: &str) -> (r: Option<u64>)
    ensures
        r matches Some(n) ==> header_length(line@) == Some(n as nat),
        r is None ==> header_length(line@) is None,
{
    let v = chars_of(line);
    match find_char(&v, ':') {
        Some(i) => {
            let k = string_of(&v, 0, i);
            let val = string_of(&v, i + 1, v.len());
            assert(k@ == line@.take(i as int));
            assert(val@ == line@.skip(i + 1));
            let key = to_lower_str(trim_str(k.as_str()).as_str());
            if str_eq(key.as_str(), "content-length") {
                parse_uint_str(trim_str(val.as_str()).as_str(), u64::MAX)
            } else {
                None
            }
        },
        None => None,
    }
}

/// The last `content-length` header value (name compared without regard to
/// ASCII case) in a raw HTTP header blob, or 0 if there is none that parses.
pub fn parse_content_length(headers: &str) -> (n: u64)
    ensures
        n == last_length(lines(headers@)),
{
    let ls = split_lines(headers);
    let ghost lv = ls@.map_values(|l: String| l@);
    let mut total: u64 = 0;
    let mut i: usize = 0;
    while i < ls.len()
        invariant
            0 <= i <= ls@.len(),
            lv == ls@.map_values(|l: String| l@),
            lv == lines(headers@),
            total == last_length(lv.take(i as int)),
        decreases ls@.len() - i,
    {
        proof {
            assert(lv.take(i + 1).drop_last() == lv.take(i as int));
            assert(lv.take(i + 1).last() == ls@[i as int]@);
        }
        match line_length(ls[i].as_str()) {
            Some(n) => {
                total = n;
            },
            None => {},
        }
        i = i + 1;
    }
    assert(lv.take(i as int) == lv);
    total
}


/// A downloader that fetches nothing and records every URL it was asked for.
#[derive(Clone)]
pub struct FakeDownloader {
    requested: StringLog,
}

impl FakeDownloader {
    pub fn new() -> FakeDownloader {
        FakeDownloader { requested: StringLog::new() }
    }

    /// The shared record of requested URLs.
    pub fn requested(&self) -> StringLog {
        self.requested.clone()
    }
}

impl Downloader for FakeDownloader {
    fn fetch(&self, url: &str, dest: &str) -> (r: Result<(), SetupError>)
        ensures
            r is Ok,
    {
        self.requested.push(url.to_owned());
        Ok(())
    }
}

// ---------------------------------------------------------------------------
// The setup run
// ---------------------------------------------------------------------------

/// What a setup run did, and every failure met on the way.
#[derive(Clone, Debug)]
pub struct SetupReport {
    pub apt_packages: Vec<String>,
    pub mailpit_fetched: bool,
    pub composer_fetched: bool,
    pub nginx_fetched: bool,
    pub redis_fetched: bool,
    pub mkcert_fetched: bool,
    pub mkcert_ca: bool,
    pub certutil_fetched: bool,
    pub mkcert_nss: bool,
    pub nginx_setcap: bool,
    pub mariadb_fetched: bool,
    pub node_fetched: bool,
    pub php_version: Option<String>,
    pub errors: Vec<String>,
}

/// A setup report as plain values.
pub struct ReportView {
    pub apt_packages: Seq<Seq<char>>,
    pub mailpit_fetched: bool,
    pub composer_fetched: bool,
    pub nginx_fetched: bool,
    pub redis_fetched: bool,
    pub mkcert_fetched: bool,
    pub mkcert_ca: bool,
    pub certutil_fetched: bool,
    pub mkcert_nss: bool,
    pub nginx_setcap: bool,
    pub mariadb_fetched: bool,
    pub node_fetched: bool,
    pub php_version: Option<Seq<char>>,
    pub errors: Seq<Seq<char>>,
}

impl View for SetupReport {
    type V = ReportView;

    open spec fn view(&self) -> ReportView {
        ReportView {
            apt_packages: str_views(self.apt_packages@),
            mailpit_fetched: self.mailpit_fetched,
            composer_fetched: self.composer_fetched,
            nginx_fetched: self.nginx_fetched,
            redis_fetched: self.redis_fetched,
            mkcert_fetched: self.mkcert_fetched,
            mkcert_ca: self.mkcert_ca,
            certutil_fetched: self.certutil_fetched,
            mkcert_nss: self.mkcert_nss,
            nginx_setcap: self.nginx_setcap,
            mariadb_fetched: self.mariadb_fetched,
            node_fetched: self.node_fetched,
            php_version: match self.php_version {
                Some(v) => Some(v@),
                None => None,
            },
            errors: str_views(self.errors@),
        }
    }
}

/// Nothing done yet, nothing failed.
pub open spec fn empty_report() -> ReportView {
    ReportView {
        apt_packages: seq![],
        mailpit_fetched: false,
        composer_fetched: false,
        nginx_fetched: false,
        redis_fetched: false,
        mkcert_fetched: false,
        mkcert_ca: false,
        certutil_fetched: false,
        mkcert_nss: false,
        nginx_setcap: false,
        mariadb_fetched: false,
        node_fetched: false,
        php_version: None,
        errors: seq![],
    }
}

impl SetupReport {
    /// Record a failure.
    pub fn push_error(&mut self, m: String)
        ensures
            final(self)@ == with_error(old(self)@, m@),
    {
        let ghost before = str_views(self.errors@);
        self.errors.push(m);
        assert(str_views(self.errors@) =~= before.push(m@));
    }

    /// Record what came of installing a component.
    pub fn record_install(&mut self, c: Component, outcome: Result<String, String>, persist_error: Option<String>)
        ensures
            final(self)@ == install_after(old(self)@, c, outcome, persist_error),
    {
        match outcome {
            Ok(v) => {
                match c {
                    Component::Php => {
                        self.php_version = Some(v);
                        match persist_error {
                            Some(e) => self.push_error(cat("persist php version: ", e.as_str())),
                            None => {},
                        }
                    },
                    Component::Mailpit => self.mailpit_fetched = true,
                    Component::Composer => self.composer_fetched = true,
                    Component::Nginx => self.nginx_fetched = true,
                    Component::Redis => self.redis_fetched = true,
                    Component::Mkcert => self.mkcert_fetched = true,
                    Component::Mariadb => self.mariadb_fetched = true,
                    Component::Node => self.node_fetched = true,
                }
            },
            Err(e) => {
                let prefix = match c {
                    Component::Php => "install php (static): ",
                    Component::Composer => "install composer: ",
                    Component::Mkcert => "install mkcert: ",
                    Component::Nginx => "install nginx: ",
                    Component::Redis => "install redis: ",
                    Component::Mariadb => "install mariadb: ",
                    Component::Node => "install node: ",
                    Component::Mailpit => "install mailpit: ",
                };
                self.push_error(cat(prefix, e.as_str()));
            },
        }
    }

    /// Record what came of disabling the distro units.
    pub fn record_disable(&mut self, res: Result<(), String>)
        ensures
            final(self)@ == disable_after(old(self)@, res),
    {
        match res {
            Ok(_) => {},
            Err(e) => self.push_error(cat("disable system services: ", e.as_str())),
        }
    }

    /// Record what came of installing the mkcert CA (`None`: no mkcert).
    pub fn record_mkcert_ca(&mut self, res: Option<Result<(), String>>)
        ensures
            final(self)@ == mkcert_ca_after(old(self)@, res),
    {
        match res {
            None => self.push_error("mkcert -install: mkcert not found".to_owned()),
            Some(Ok(_)) => self.mkcert_ca = true,
            Some(Err(e)) => self.push_error(cat("mkcert -install: ", e.as_str())),
        }
    }

    /// Record what came of bundling certutil and registering the CA in the
    /// browser stores.
    pub fn record_certutil(&mut self, res: Result<Option<Result<(), String>>, String>)
        ensures
            final(self)@ == certutil_after(old(self)@, res),
    {
        match res {
            Err(e) => self.push_error(cat("install certutil: ", e.as_str())),
            Ok(nss) => {
                self.certutil_fetched = true;
                match nss {
                    None => {},
                    Some(Ok(_)) => self.mkcert_nss = true,
                    Some(Err(e)) => self.push_error(cat("mkcert NSS install: ", e.as_str())),
                }
            },
        }
    }

    /// Record what came of `setcap` on nginx (`None`: no nginx).
    pub fn record_setcap(&mut self, res: Option<Result<(), String>>)
        ensures
            final(self)@ == setcap_after(old(self)@, res),
    {
        match res {
            None => {},
            Some(Ok(_)) => self.nginx_setcap = true,
            Some(Err(e)) => self.push_error(cat("setcap nginx: ", e.as_str())),
        }
    }

    /// Record the warnings of reconciling the `current` links.
    pub fn push_apply_warnings(&mut self, ws: &Vec<String>)
        ensures
            final(self)@ == (ReportView { errors: old(self)@.errors + apply_messages(str_views(ws@)), ..old(self)@ }),
    {
        let ghost wv = str_views(ws@);
        let mut i: usize = 0;
        while i < ws.len()
            invariant
                0 <= i <= ws@.len(),
                wv == str_views(ws@),
                self@ == (ReportView { errors: old(self)@.errors + apply_messages(wv.take(i as int)), ..old(self)@ }),
            decreases ws@.len() - i,
        {
            let ghost before = self@.errors;
            self.push_error(cat("apply versions: ", ws[i].as_str()));
            proof {
                assert(apply_messages(wv.take(i + 1)) =~= apply_messages(wv.take(i as int)).push("apply versions: "@ + ws@[i as int]@));
                assert(self@.errors =~= old(self)@.errors + apply_messages(wv.take(i + 1)));
            }
            i = i + 1;
        }
        assert(wv.take(i as int) == wv);
    }

    pub fn new() -> (r: SetupReport)
        ensures
            r@ == empty_report(),
    {
        let r = SetupReport {
            apt_packages: Vec::new(),
            mailpit_fetched: false,
            composer_fetched: false,
            nginx_fetched: false,
            redis_fetched: false,
            mkcert_fetched: false,
            mkcert_ca: false,
            certutil_fetched: false,
            mkcert_nss: false,
            nginx_setcap: false,
            mariadb_fetched: false,
            node_fetched: false,
            php_version: None,
            errors: Vec::new(),
        };
        assert(r@.apt_packages =~= Seq::<Seq<char>>::empty());
        assert(r@.errors =~= Seq::<Seq<char>>::empty());
        r
    }
}

pub open spec fn with_error(r: ReportView, m: Seq<char>) -> ReportView {
    ReportView { errors: r.errors.push(m), ..r }
}

/// The report with the component's fetched flag set.
pub open spec fn with_fetched(r: ReportView, c: Component) -> ReportView {
    match c {
        Component::Mailpit => ReportView { mailpit_fetched: true, ..r },
        Component::Composer => ReportView { composer_fetched: true, ..r },
        Component::Nginx => ReportView { nginx_fetched: true, ..r },
        Component::Redis => ReportView { redis_fetched: true, ..r },
        Component::Mkcert => ReportView { mkcert_fetched: true, ..r },
        Component::Mariadb => ReportView { mariadb_fetched: true, ..r },
        Component::Node => ReportView { node_fetched: true, ..r },
        Component::Php => r,
    }
}

/// How a failed install of the component is reported.
pub open spec fn install_prefix(c: Component) -> Seq<char> {
    match c {
        Component::Php => "install php (static): "@,
        Component::Composer => "install composer: "@,
        Component::Mkcert => "install mkcert: "@,
        Component::Nginx => "install nginx: "@,
        Component::Redis => "install redis: "@,
        Component::Mariadb => "install mariadb: "@,
        Component::Node => "install node: "@,
        Component::Mailpit => "install mailpit: "@,
    }
}

/// The distro units that would hold the stack's ports: nginx, mariadb,
/// redis-server.
pub open spec fn stack_units() -> Seq<Seq<char>> {
    seq!["nginx"@, "mariadb"@, "redis-server"@]
}

/// The distro systemd units to disable so that the managed processes can
/// bind their ports.
pub fn stack_units_to_disable() -> (r: Vec<String>)
    ensures
        str_views(r@) == stack_units(),
{
    let mut r: Vec<String> = Vec::new();
    r.push("nginx".to_owned());
    r.push("mariadb".to_owned());
    r.push("redis-server".to_owned());
    assert(str_views(r@) =~= stack_units());
    r
}

/// The stages of a run: the installs of PHP, composer, mkcert, nginx, redis,
/// MariaDB and Node (0 to 6), disabling the distro units (7), the mailpit
/// install (8), the mkcert CA (9), certutil and the browser stores (10),
/// `setcap` on nginx (11), reconciling the `current` links (12), done (13).
pub open spec fn stage_component(i: int) -> Component {
    if i == 0 {
        Component::Php
    } else if i == 1 {
        Component::Composer
    } else if i == 2 {
        Component::Mkcert
    } else if i == 3 {
        Component::Nginx
    } else if i == 4 {
        Component::Redis
    } else if i == 5 {
        Component::Mariadb
    } else if i == 6 {
        Component::Node
    } else {
        Component::Mailpit
    }
}

pub open spec fn is_install_stage(i: int) -> bool {
    0 <= i <= 6 || i == 8
}

/// An install stage runs only for a missing component; the others always run.
pub open spec fn stage_applies(missing: Seq<bool>, i: int) -> bool {
    is_install_stage(i) ==> missing[comp_index(stage_component(i))]
}

/// The first stage from `i` on that runs (13 when none is left).
pub open spec fn next_stage(missing: Seq<bool>, i: int) -> int
    decreases 13 - i,
{
    if i >= 13 {
        13
    } else if stage_applies(missing, i) {
        i
    } else {
        next_stage(missing, i + 1)
    }
}

/// The stage [`next_stage`] finds runs, lies at or after `i`, and is found
/// again from itself.
pub proof fn lemma_next_stage(missing: Seq<bool>, i: int)
    requires
        0 <= i,
    ensures
        i <= next_stage(missing, i) <= 13 || (i > 13 && next_stage(missing, i) == 13),
        next_stage(missing, next_stage(missing, i)) == next_stage(missing, i),
        next_stage(missing, i) < 13 ==> stage_applies(missing, next_stage(missing, i)),
    decreases 13 - i,
{
    if i < 13 && !stage_applies(missing, i) {
        lemma_next_stage(missing, i + 1);
    }
}

/// A missing component of the given index is among the statuses.
pub open spec fn missing_flags(st: Seq<ComponentStatus>) -> Seq<bool> {
    Seq::new(8, |k: int| exists|j: int| 0 <= j < st.len() && comp_index(st[j].component) == k && !(#[trigger] st[j]).present)
}

/// How many statuses say "not present".
pub open spec fn count_missing(st: Seq<ComponentStatus>) -> nat
    decreases st.len(),
{
    if st.len() == 0 {
        0
    } else {
        count_missing(st.drop_last()) + if st.last().present { 0nat } else { 1nat }
    }
}

/// What a setup run asks its driver to do next.
#[derive(Debug)]
pub enum SetupAction {
    /// Report step `done` of `total` with the component's label, then install it.
    Install { component: Component, done: usize, total: usize },
    /// Disable these distro units.
    DisableServices(Vec<String>),
    /// Install the mkcert local CA with the resolved mkcert, if any.
    InstallMkcertCa,
    /// Bundle certutil and, when mkcert resolves, register the CA in the
    /// browser stores.
    InstallCertutil,
    /// `setcap` the resolved nginx, if any.
    SetcapNginx,
    /// Reconcile the `current` links from the configuration.
    ApplyVersions,
    /// Nothing is left.
    Finished,
}

/// What came of an action.
#[derive(Debug)]
pub enum SetupEvent {
    /// An install: the version installed or why it failed; for PHP also why
    /// recording its version failed, if it did.
    Installed { outcome: Result<String, String>, persist_error: Option<String> },
    ServicesDisabled(Result<(), String>),
    /// `None` when mkcert was not found.
    MkcertCa(Option<Result<(), String>>),
    /// The certutil install failed, or it succeeded and then the browser
    /// store registration ran (`Some`) or mkcert was not found (`None`).
    Certutil(Result<Option<Result<(), String>>, String>),
    /// `None` when nginx was not found.
    Setcap(Option<Result<(), String>>),
    /// The warnings of reconciling the `current` links.
    VersionsApplied(Vec<String>),
}

/// The event answers the action of this stage.
pub open spec fn event_fits(stage: int, ev: SetupEvent) -> bool {
    if is_install_stage(stage) {
        ev is Installed
    } else if stage == 7 {
        ev is ServicesDisabled
    } else if stage == 9 {
        ev is MkcertCa
    } else if stage == 10 {
        ev is Certutil
    } else if stage == 11 {
        ev is Setcap
    } else if stage == 12 {
        ev is VersionsApplied
    } else {
        false
    }
}

/// The warnings of reconciling, each marked as such.
pub open spec fn apply_messages(ws: Seq<Seq<char>>) -> Seq<Seq<char>> {
    ws.map_values(|w: Seq<char>| "apply versions: "@ + w)
}

pub open spec fn install_after(r: ReportView, c: Component, outcome: Result<String, String>, persist_error: Option<String>) -> ReportView {
    match outcome {
        Ok(v) => if c == Component::Php {
            let r1 = ReportView { php_version: Some(v@), ..r };
            match persist_error {
                Some(e) => with_error(r1, "persist php version: "@ + e@),
                None => r1,
            }
        } else {
            with_fetched(r, c)
        },
        Err(e) => with_error(r, install_prefix(c) + e@),
    }
}

pub open spec fn disable_after(r: ReportView, res: Result<(), String>) -> ReportView {
    match res {
        Ok(_) => r,
        Err(e) => with_error(r, "disable system services: "@ + e@),
    }
}

pub open spec fn mkcert_ca_after(r: ReportView, res: Option<Result<(), String>>) -> ReportView {
    match res {
        None => with_error(r, "mkcert -install: mkcert not found"@),
        Some(Ok(_)) => ReportView { mkcert_ca: true, ..r },
        Some(Err(e)) => with_error(r, "mkcert -install: "@ + e@),
    }
}

pub open spec fn certutil_after(r: ReportView, res: Result<Option<Result<(), String>>, String>) -> ReportView {
    match res {
        Err(e) => with_error(r, "install certutil: "@ + e@),
        Ok(nss) => {
            let r1 = ReportView { certutil_fetched: true, ..r };
            match nss {
                None => r1,
                Some(Ok(_)) => ReportView { mkcert_nss: true, ..r1 },
                Some(Err(e)) => with_error(r1, "mkcert NSS install: "@ + e@),
            }
        },
    }
}

pub open spec fn setcap_after(r: ReportView, res: Option<Result<(), String>>) -> ReportView {
    match res {
        None => r,
        Some(Ok(_)) => ReportView { nginx_setcap: true, ..r },
        Some(Err(e)) => with_error(r, "setcap nginx: "@ + e@),
    }
}

/// The report after the event of this stage.
pub open spec fn report_after(stage: int, r: ReportView, ev: SetupEvent) -> ReportView {
    match ev {
        SetupEvent::Installed { outcome, persist_error } => install_after(r, stage_component(stage), outcome, persist_error),
        SetupEvent::ServicesDisabled(res) => disable_after(r, res),
        SetupEvent::MkcertCa(res) => mkcert_ca_after(r, res),
        SetupEvent::Certutil(res) => certutil_after(r, res),
        SetupEvent::Setcap(res) => setcap_after(r, res),
        SetupEvent::VersionsApplied(ws) => ReportView { errors: r.errors + apply_messages(str_views(ws@)), ..r },
    }
}

fn stage_component_of(i: usize) -> (c: Component)
    ensures
        c == stage_component(i as int),
{
    if i == 0 {
        Component::Php
    } else if i == 1 {
        Component::Composer
    } else if i == 2 {
        Component::Mkcert
    } else if i == 3 {
        Component::Nginx
    } else if i == 4 {
        Component::Redis
    } else if i == 5 {
        Component::Mariadb
    } else if i == 6 {
        Component::Node
    } else {
        Component::Mailpit
    }
}

fn first_stage_from(missing: &Vec<bool>, from: usize) -> (r: usize)
    requires
        missing@.len() == 8,
        from <= 13,
    ensures
        r == next_stage(missing@, from as int),
        r <= 13,
{
    let mut i = from;
    while i < 13
        invariant
            from <= i <= 13,
            missing@.len() == 8,
            next_stage(missing@, from as int) == next_stage(missing@, i as int),
        decreases 13 - i,
    {
        let install = i <= 6 || i == 8;
        if !install {
            return i;
        }
        let c = stage_component_of(i);
        if missing[c.index()] {
            return i;
        }
        i = i + 1;
    }
    i
}

/// A setup run: installs each missing component in a fixed order, then the
/// steps that always run, collecting every failure into its report. The
/// driver performs the action that [`SetupRun::next_action`] names and hands
/// back what came of it with [`SetupRun::handle`].
pub struct SetupRun {
    missing: Vec<bool>,
    stage: usize,
    done: usize,
    total: usize,
    report: SetupReport,
}

impl SetupRun {
    /// Which components are missing, by [`Component::index`].
    pub closed spec fn missing_view(&self) -> Seq<bool> {
        self.missing@
    }

    /// The stage the run stands at.
    pub closed spec fn stage_view(&self) -> int {
        self.stage as int
    }

    /// The install steps reported so far.
    pub closed spec fn done_view(&self) -> int {
        self.done as int
    }

    /// The number of missing components.
    pub closed spec fn total_view(&self) -> int {
        self.total as int
    }

    /// The report so far.
    pub closed spec fn report_view(&self) -> ReportView {
        self.report@
    }

    /// The report so far.
    pub fn report(&self) -> (r: &SetupReport)
        ensures
            r@ == self.report_view(),
    {
        &self.report
    }

    /// The final report.
    pub fn into_report(self) -> (r: SetupReport)
        ensures
            r@ == self.report_view(),
    {
        self.report
    }

    pub closed spec fn wf(&self) -> bool {
        &&& self.missing@.len() == 8
        &&& self.stage <= 13
        &&& self.stage == next_stage(self.missing@, self.stage as int)
        &&& self.done <= self.stage
    }

    /// A run for these component statuses: nothing done yet, at the first
    /// stage that runs.
    pub fn new(statuses: &Vec<ComponentStatus>) -> (r: SetupRun)
        ensures
            r.wf(),
            r.missing_view() == missing_flags(statuses@),
            r.total_view() == count_missing(statuses@),
            r.done_view() == 0,
            r.stage_view() == next_stage(missing_flags(statuses@), 0),
            r.report_view() == empty_report(),
    {
        let mut missing: Vec<bool> = Vec::new();
        let mut k: usize = 0;
        while k < 8
            invariant
                0 <= k <= 8,
                missing@.len() == k,
                forall|m: int| 0 <= m < k ==> #[trigger] missing@[m] == missing_flags(statuses@)[m],
            decreases 8 - k,
        {
            let mut found = false;
            let mut j: usize = 0;
            while j < statuses.len()
                invariant
                    0 <= j <= statuses@.len(),
                    k < 8,
                    found == exists|x: int| 0 <= x < j && comp_index(statuses@[x].component) == k && !(#[trigger] statuses@[x]).present,
                decreases statuses@.len() - j,
            {
                if statuses[j].component.index() == k && !statuses[j].present {
                    found = true;
                }
                j = j + 1;
            }
            missing.push(found);
            k = k + 1;
        }
        assert(missing@ =~= missing_flags(statuses@));
        let mut total: usize = 0;
        let mut j: usize = 0;
        while j < statuses.len()
            invariant
                0 <= j <= statuses@.len(),
                total == count_missing(statuses@.take(j as int)),
                total <= j,
            decreases statuses@.len() - j,
        {
            assert(statuses@.take(j + 1).drop_last() == statuses@.take(j as int));
            if !statuses[j].present {
                total = total + 1;
            }
            j = j + 1;
        }
        assert(statuses@.take(j as int) == statuses@);
        let stage = first_stage_from(&missing, 0);
        proof {
            lemma_next_stage(missing@, 0);
        }
        SetupRun { missing, stage, done: 0, total, report: SetupReport::new() }
    }

    /// What the driver is to do next.
    pub fn next_action(&self) -> (a: SetupAction)
        requires
            self.wf(),
        ensures
            is_install_stage(self.stage_view()) ==> (a matches SetupAction::Install { component, done, total }
                && component == stage_component(self.stage_view()) && done == self.done_view()
                && total == self.total_view()),
            self.stage_view() == 7 ==> (a matches SetupAction::DisableServices(u) && str_views(u@) == stack_units()),
            self.stage_view() == 9 ==> a is InstallMkcertCa,
            self.stage_view() == 10 ==> a is InstallCertutil,
            self.stage_view() == 11 ==> a is SetcapNginx,
            self.stage_view() == 12 ==> a is ApplyVersions,
            self.stage_view() == 13 ==> a is Finished,
    {
        let st = self.stage;
        if st <= 6 || st == 8 {
            SetupAction::Install { component: stage_component_of(st), done: self.done, total: self.total }
        } else if st == 7 {
            SetupAction::DisableServices(stack_units_to_disable())
        } else if st == 9 {
            SetupAction::InstallMkcertCa
        } else if st == 10 {
            SetupAction::InstallCertutil
        } else if st == 11 {
            SetupAction::SetcapNginx
        } else if st == 12 {
            SetupAction::ApplyVersions
        } else {
            SetupAction::Finished
        }
    }

    /// Whether every stage has run.
    pub fn is_finished(&self) -> (b: bool)
        requires
            self.wf(),
        ensures
            b == (self.stage_view() == 13),
    {
        self.stage == 13
    }

    /// Take in what came of the current action: the report records it and
    /// the run moves to the next stage that runs.
    pub fn handle(&mut self, ev: SetupEvent)
        requires
            old(self).wf(),
            event_fits(old(self).stage_view(), ev),
        ensures
            final(self).wf(),
            final(self).report_view() == report_after(old(self).stage_view(), old(self).report_view(), ev),
            final(self).missing_view() == old(self).missing_view(),
            final(self).total_view() == old(self).total_view(),
            final(self).done_view() == old(self).done_view() + if is_install_stage(old(self).stage_view()) { 1int } else { 0int },
            final(self).stage_view() == next_stage(old(self).missing_view(), old(self).stage_view() + 1),
            final(self).stage_view() > old(self).stage_view(),
    {
        let st = self.stage;
        match ev {
            SetupEvent::Installed { outcome, persist_error } => {
                self.report.record_install(stage_component_of(st), outcome, persist_error);
                self.done = self.done + 1;
            },
            SetupEvent::ServicesDisabled(res) => self.report.record_disable(res),
            SetupEvent::MkcertCa(res) => self.report.record_mkcert_ca(res),
            SetupEvent::Certutil(res) => self.report.record_certutil(res),
            SetupEvent::Setcap(res) => self.report.record_setcap(res),
            SetupEvent::VersionsApplied(ws) => self.report.push_apply_warnings(&ws),
        }
        self.stage = first_stage_from(&self.missing, st + 1);
        proof {
            lemma_next_stage(self.missing@, st + 1);
        }
    }
}
} // verus!
