//! Supervision of per-site Procfile processes: start, stop, and a tick that
//! notices deaths and respawns with backoff until it gives up.
use crate::paths::LaragonPaths;
use crate::process::{Process, ProcessSpawner};
use crate::procfile::ProcEntry;
use crate::service::{arg_views, env_views, spawn_view, ServiceState, SpawnSpec, SpawnView};
use crate::text::{join_path, path_join, seq_lt, str_eq, str_lt};
use vstd::prelude::*;

verus! {

/// One process's status for the UI (declared command + live state).
#[derive(Debug, Clone)]
pub struct ProcStatus {
    pub site: String,
    pub name: String,
    pub command: String,
    pub state: ServiceState,
    pub pid: Option<u32>,
    /// Consecutive restart failures; 0 when healthy.
    pub failures: u32,
}

/// Consecutive deaths before a process is no longer resurrected.
pub const MAX_RESTARTS: u32 = 5;

/// Staying up this long (milliseconds) means the earlier deaths were a blip,
/// not a crash loop.
pub const STABLE_AFTER_MS: u64 = 30_000;

/// The latest instant (milliseconds) a tick may be given, so that every
/// retry time stays representable.
pub const MAX_TICK_MS: u64 = 0xFFFF_FFFF_FFFF_0000;

/// How long to wait (milliseconds) before retry number `failures` (1-indexed).
pub open spec fn backoff_ms(failures: u32) -> u64 {
    if failures == 1 {
        1000
    } else if failures == 2 {
        5000
    } else if failures == 3 {
        15000
    } else {
        30000
    }
}

fn backoff_for(failures: u32) -> (d: u64)
    ensures
        d == backoff_ms(failures),
{
    if failures == 1 {
        1000
    } else if failures == 2 {
        5000
    } else if failures == 3 {
        15000
    } else {
        30000
    }
}

/// Everything needed to resurrect a process, plus its backoff state.
pub struct Supervised {
    pub root: String,
    pub command: String,
    pub failures: u32,
    pub started_at: u64,
    pub next_attempt_at: Option<u64>,
    /// false once the user stopped it by hand, or once supervision gave up.
    pub supervised: bool,
}

/// What supervision keeps of a process: how to resurrect it, and its
/// backoff state.
pub struct SupView {
    pub root: Seq<char>,
    pub command: Seq<char>,
    pub failures: u32,
    pub started_at: u64,
    pub next_attempt_at: Option<u64>,
    pub supervised: bool,
}

pub open spec fn sup_view(s: Supervised) -> SupView {
    SupView {
        root: s.root@,
        command: s.command@,
        failures: s.failures,
        started_at: s.started_at,
        next_attempt_at: s.next_attempt_at,
        supervised: s.supervised,
    }
}

/// One tracked process (by site and process name).
struct ProcSlot {
    site: String,
    name: String,
    state: ServiceState,
    handle: Option<Box<dyn Process>>,
    sup: Option<Supervised>,
    /// How many times the spawner was asked for this process.
    spawns: Ghost<nat>,
}

/// What the supervision logic sees of a slot.
pub struct SlotView {
    pub state: ServiceState,
    pub running: bool,
    pub sup: Option<SupView>,
    /// How many times the spawner was asked for this process.
    pub spawns: nat,
}

/// A death was noticed: a supervised process counts one more failure and
/// either gets a retry time or, at the limit, is given up on.
pub open spec fn after_death(s: SupView, now: u64) -> SupView {
    if s.supervised {
        let f = (s.failures + 1) as u32;
        if f >= MAX_RESTARTS {
            SupView { failures: f, next_attempt_at: None, supervised: false, ..s }
        } else {
            SupView { failures: f, next_attempt_at: Some((now + backoff_ms(f)) as u64), supervised: true, ..s }
        }
    } else {
        s
    }
}

/// Up long enough: earlier deaths no longer count.
pub open spec fn after_alive(s: SupView, now: u64) -> SupView {
    if s.failures > 0 && now >= s.started_at && now - s.started_at >= STABLE_AFTER_MS {
        SupView { failures: 0, ..s }
    } else {
        s
    }
}

/// A respawn is due: supervised, no process, its retry time reached.
pub open spec fn due(v: SlotView, now: u64) -> bool {
    &&& v.sup matches Some(s)
    &&& s.supervised
    &&& !v.running
    &&& s.next_attempt_at matches Some(t)
    &&& now >= t
}

/// One supervision tick of a slot, given whether its process was found alive
/// and whether a due respawn succeeded.
pub open spec fn tick_slot(v: SlotView, now: u64, alive: bool, respawned: bool) -> SlotView {
    let v1 = if v.running {
        if alive {
            SlotView {
                state: ServiceState::Running,
                running: true,
                sup: match v.sup {
                    Some(s) => Some(after_alive(s, now)),
                    None => None,
                },
                spawns: v.spawns,
            }
        } else {
            SlotView {
                state: ServiceState::Crashed,
                running: false,
                sup: match v.sup {
                    Some(s) => Some(after_death(s, now)),
                    None => None,
                },
                spawns: v.spawns,
            }
        }
    } else {
        v
    };
    if due(v1, now) {
        let s = v1.sup.unwrap();
        if respawned {
            SlotView {
                state: ServiceState::Running,
                running: true,
                sup: Some(SupView { started_at: now, next_attempt_at: None, supervised: true, ..s }),
                spawns: v1.spawns + 1,
            }
        } else {
            SlotView { state: ServiceState::Crashed, running: false, sup: Some(after_death(s, now)), spawns: v1.spawns + 1 }
        }
    } else {
        v1
    }
}

/// A process stopped by hand: no handle, Stopped, and supervision (if any)
/// turned off with its failures cleared.
pub open spec fn stopped_view(sup: Option<SupView>, spawns: nat) -> SlotView {
    SlotView {
        state: ServiceState::Stopped,
        running: false,
        sup: match sup {
            Some(x) => Some(SupView { failures: 0, next_attempt_at: None, supervised: false, ..x }),
            None => None,
        },
        spawns,
    }
}

/// Slot `v` after the ticks `ticks`, each an instant with the liveness and
/// respawn outcome seen then.
pub open spec fn run_ticks(v: SlotView, ticks: Seq<(u64, bool, bool)>) -> SlotView
    decreases ticks.len(),
{
    if ticks.len() == 0 {
        v
    } else {
        run_ticks(tick_slot(v, ticks[0].0, ticks[0].1, ticks[0].2), ticks.drop_first())
    }
}

/// Slot `i` of `after` is slot `i` of `before` after one tick, for some
/// liveness and respawn outcome.
pub open spec fn ticked_one(before: Seq<SlotView>, after: Seq<SlotView>, now: u64, i: int) -> bool {
    exists|alive: bool, respawned: bool| after[i] == tick_slot(before[i], now, alive, respawned)
}

/// How many times the spawner was asked, over all the slots.
pub open spec fn total_spawns(v: Seq<SlotView>) -> nat
    decreases v.len(),
{
    if v.len() == 0 {
        0
    } else {
        total_spawns(v.drop_last()) + v.last().spawns
    }
}

proof fn lemma_total_spawns_update(v: Seq<SlotView>, i: int, x: SlotView)
    requires
        0 <= i < v.len(),
    ensures
        total_spawns(v.update(i, x)) + v[i].spawns == total_spawns(v) + x.spawns,
    decreases v.len(),
{
    let u = v.update(i, x);
    if i == v.len() - 1 {
        assert(u.drop_last() == v.drop_last());
    } else {
        lemma_total_spawns_update(v.drop_last(), i, x);
        assert(u.drop_last() == v.drop_last().update(i, x));
    }
}

/// Every slot went through one tick.
pub open spec fn ticked(before: Seq<SlotView>, after: Seq<SlotView>, now: u64) -> bool {
    &&& after.len() == before.len()
    &&& forall|i: int| 0 <= i < before.len() ==> #[trigger] ticked_one(before, after, now, i)
}

/// Supervision never counts past the limit, and only an unexhausted
/// process is supervised.
pub open spec fn sup_ok(s: SupView) -> bool {
    &&& s.failures <= MAX_RESTARTS
    &&& s.supervised ==> s.failures < MAX_RESTARTS
}

pub open spec fn slot_ok(v: SlotView) -> bool {
    v.sup matches Some(s) ==> sup_ok(s)
}

/// Supervises per-site Procfile processes, with the same process primitives
/// as the service orchestrator.
pub struct SiteProcs {
    paths: LaragonPaths,
    spawner: Box<dyn ProcessSpawner>,
    /// The `PATH` the processes run with.
    path_env: String,
    slots: Vec<ProcSlot>,
    /// Every spec handed to the spawner, in order, with the error it
    /// answered (`None` when it spawned).
    spawned: Ghost<Seq<(SpawnView, Option<Seq<char>>)>>,
    /// The process id of the last handle stopped, and whether it counts as
    /// stopped.
    stopped: Ghost<Option<(u32, bool)>>,
    /// What the last liveness check made by a start answered.
    alive_seen: Ghost<Option<bool>>,
    /// Of the last tick, per process in key order: whether it was found
    /// alive, and whether a due respawn succeeded.
    tick_seen: Ghost<Seq<(bool, bool)>>,
}

/// The spec a site process is spawned with:
/// `sh -c "exec <command> >> <log dir>/proc-<site>-<name>.log 2>&1"`, in the
/// site's folder, with the managed `PATH`.
pub open spec fn proc_spawn(
    log_dir: Seq<char>,
    path_env: Seq<char>,
    site: Seq<char>,
    root: Seq<char>,
    name: Seq<char>,
    command: Seq<char>,
) -> SpawnView {
    let log = path_join(log_dir, "proc-"@ + site + "-"@ + name + ".log"@);
    SpawnView {
        program: "sh"@,
        args: seq!["-c"@, "exec "@ + command + " >> "@ + log + " 2>&1"@],
        env: seq![("PATH"@, path_env)],
        cwd: Some(root),
    }
}

/// The `PATH` for site processes: the managed tool directories, then
/// `/usr/local/bin`, then the inherited `PATH`.
pub open spec fn spec_path_env(dirs: Seq<Seq<char>>, inherited: Seq<char>) -> Seq<char>
    decreases dirs.len(),
{
    if dirs.len() == 0 {
        "/usr/local/bin:"@ + inherited
    } else {
        dirs[0] + ":"@ + spec_path_env(dirs.drop_first(), inherited)
    }
}

/// PATH that prepends the managed tool bins + /usr/local/bin so `php`,
/// `node`, `composer`, etc. resolve to the managed versions.
pub fn proc_path_env(dirs: &[String], inherited: &str) -> (p: String)
    ensures
        p@ == spec_path_env(dirs@.map_values(|d: String| d@), inherited@),
{
    let ghost dv = dirs@.map_values(|d: String| d@);
    let mut p = String::new();
    let mut i: usize = 0;
    assert(dv.skip(0) == dv);
    assert(p@ + spec_path_env(dv, inherited@) =~= spec_path_env(dv, inherited@));
    while i < dirs.len()
        invariant
            0 <= i <= dirs@.len(),
            dv == dirs@.map_values(|d: String| d@),
            p@ + spec_path_env(dv.skip(i as int), inherited@) == spec_path_env(dv, inherited@),
        decreases dirs@.len() - i,
    {
        proof {
            reveal_strlit(":");
            assert(dv.skip(i as int)[0] == dirs@[i as int]@);
            assert(dv.skip(i as int).drop_first() == dv.skip(i + 1));
        }
        let ghost before = p@;
        p.append(dirs[i].as_str());
        p.append(":");
        assert(p@ + spec_path_env(dv.skip(i + 1), inherited@) =~= before + spec_path_env(dv.skip(i as int), inherited@));
        i = i + 1;
    }
    let ghost before = p@;
    p.append("/usr/local/bin:");
    p.append(inherited);
    proof {
        reveal_strlit("/usr/local/bin:");
        assert(dv.skip(i as int).len() == 0);
        assert(p@ =~= before + spec_path_env(dv.skip(i as int), inherited@));
    }
    p
}

spec fn slot_view(s: ProcSlot) -> SlotView {
    SlotView {
        state: s.state,
        running: s.handle is Some,
        sup: match s.sup {
            Some(x) => Some(sup_view(x)),
            None => None,
        },
        spawns: s.spawns@,
    }
}

/// Slots are unique by key and keep the supervision bounds.
spec fn slots_wf(s: Seq<ProcSlot>) -> bool {
    &&& forall|i: int, j: int|
        0 <= i < j < s.len() ==> !(#[trigger] s[i].site@ == #[trigger] s[j].site@ && s[i].name@ == s[j].name@)
    &&& forall|i: int| 0 <= i < s.len() ==> slot_ok(slot_view(#[trigger] s[i]))
}

/// Replacing a slot by one of the same key that keeps the bounds keeps the
/// slots well-formed.
proof fn lemma_update_wf(s: Seq<ProcSlot>, i: int, x: ProcSlot)
    requires
        slots_wf(s),
        0 <= i < s.len(),
        x.site@ == s[i].site@,
        x.name@ == s[i].name@,
        slot_ok(slot_view(x)),
    ensures
        slots_wf(s.update(i, x)),
{
    let t = s.update(i, x);
    assert forall|a: int, b: int| 0 <= a < b < t.len() implies !(#[trigger] t[a].site@ == #[trigger] t[b].site@ && t[a].name@ == t[b].name@) by {
        assert(!(s[a].site@ == s[b].site@ && s[a].name@ == s[b].name@));
    }
    assert forall|a: int| 0 <= a < t.len() implies slot_ok(slot_view(#[trigger] t[a])) by {
        if a != i {
            assert(t[a] == s[a]);
        }
    }
}

/// Count a death (see [`after_death`]).
pub fn record_death(x: &mut Supervised, now: u64)
    requires
        sup_ok(sup_view(*old(x))),
        now <= MAX_TICK_MS,
    ensures
        sup_view(*final(x)) == after_death(sup_view(*old(x)), now),
        sup_ok(sup_view(*final(x))),
        final(x).root == old(x).root,
        final(x).command == old(x).command,
{
    if x.supervised {
        x.failures = x.failures + 1;
        if x.failures >= MAX_RESTARTS {
            x.supervised = false;
            x.next_attempt_at = None;
        } else {
            x.next_attempt_at = Some(now + backoff_for(x.failures));
        }
    }
}

/// Forget earlier deaths of a process up long enough (see [`after_alive`]).
pub fn record_alive(x: &mut Supervised, now: u64)
    requires
        sup_ok(sup_view(*old(x))),
    ensures
        sup_view(*final(x)) == after_alive(sup_view(*old(x)), now),
        sup_ok(sup_view(*final(x))),
        final(x).root == old(x).root,
        final(x).command == old(x).command,
{
    if x.failures > 0 && now >= x.started_at && now - x.started_at >= STABLE_AFTER_MS {
        x.failures = 0;
    }
}

// ---------------------------------------------------------------------------
// Sorting by key
// ---------------------------------------------------------------------------

/// `a` sorts before `b`: by site, then by name.
pub open spec fn triple_lt(a: (Seq<char>, Seq<char>, ServiceState), b: (Seq<char>, Seq<char>, ServiceState)) -> bool {
    seq_lt(a.0, b.0) || (a.0 == b.0 && seq_lt(a.1, b.1))
}

fn triple_lt_exec(s1: &str, n1: &str, s2: &str, n2: &str) -> (r: bool)
    ensures
        forall|x: ServiceState, y: ServiceState| r == triple_lt((s1@, n1@, x), (s2@, n2@, y)),
{
    str_lt(s1, s2) || (str_eq(s1, s2) && str_lt(n1, n2))
}

/// Where `x` goes in sorted `s`: before the first element above it (after
/// its equals, so sorting is stable).
pub open spec fn insert_pos(s: Seq<(Seq<char>, Seq<char>, ServiceState)>, x: (Seq<char>, Seq<char>, ServiceState)) -> int
    decreases s.len(),
{
    if s.len() == 0 {
        0
    } else if triple_lt(x, s[0]) {
        0
    } else {
        1 + insert_pos(s.drop_first(), x)
    }
}

/// Insertion sort by key (stable).
pub open spec fn sort_triples(s: Seq<(Seq<char>, Seq<char>, ServiceState)>) -> Seq<(Seq<char>, Seq<char>, ServiceState)>
    decreases s.len(),
{
    if s.len() == 0 {
        s
    } else {
        let sorted = sort_triples(s.drop_last());
        sorted.insert(insert_pos(sorted, s.last()), s.last())
    }
}

pub open spec fn triple_views(v: Seq<(String, String, ServiceState)>) -> Seq<(Seq<char>, Seq<char>, ServiceState)> {
    v.map_values(|t: (String, String, ServiceState)| (t.0@, t.1@, t.2))
}

proof fn lemma_insert_pos_bounds(s: Seq<(Seq<char>, Seq<char>, ServiceState)>, x: (Seq<char>, Seq<char>, ServiceState))
    ensures
        0 <= insert_pos(s, x) <= s.len(),
    decreases s.len(),
{
    if s.len() > 0 {
        lemma_insert_pos_bounds(s.drop_first(), x);
    }
}

impl SiteProcs {
    /// Slots are unique by key and keep the supervision bounds.
    pub closed spec fn wf(&self) -> bool {
        slots_wf(self.slots@)
    }

    /// The tracked processes, by key.
    pub closed spec fn keys(&self) -> Seq<(Seq<char>, Seq<char>)> {
        self.slots@.map_values(|s: ProcSlot| (s.site@, s.name@))
    }

    /// What supervision sees of each tracked process, in key order.
    pub closed spec fn views(&self) -> Seq<SlotView> {
        self.slots@.map_values(|s: ProcSlot| slot_view(s))
    }

    /// Every spec handed to the spawner, in order, with the error it
    /// answered (`None` when it spawned).
    pub closed spec fn spawn_log(&self) -> Seq<(SpawnView, Option<Seq<char>>)> {
        self.spawned@
    }

    /// The process id of the last handle stopped, and whether it counts as
    /// stopped.
    pub closed spec fn last_stopped(&self) -> Option<(u32, bool)> {
        self.stopped@
    }

    /// Of the last tick, per process in key order: whether it was found
    /// alive, and whether a due respawn succeeded (the spawner answered Ok).
    pub closed spec fn last_tick(&self) -> Seq<(bool, bool)> {
        self.tick_seen@
    }

    /// What the last liveness check made by a start answered, if one was
    /// made.
    pub closed spec fn last_liveness(&self) -> Option<bool> {
        self.alive_seen@
    }

    /// The folder process logs go to.
    pub closed spec fn log_dir(&self) -> Seq<char> {
        self.paths.spec_log()
    }

    /// The `PATH` processes run with.
    pub closed spec fn proc_path(&self) -> Seq<char> {
        self.path_env@
    }

    /// The process id of the handle held for `(site, name)`, if any.
    pub closed spec fn pid_held(&self, site: Seq<char>, name: Seq<char>) -> Option<u32> {
        match self.find_key(site, name) {
            Some(i) => match self.slots@[i].handle {
                Some(h) => Some(h.process_id()),
                None => None,
            },
            None => None,
        }
    }

    /// The spec a due retry of slot `j` is spawned with.
    pub open spec fn respawn_spec(&self, j: int) -> SpawnView {
        proc_spawn(
            self.log_dir(),
            self.proc_path(),
            self.keys()[j].0,
            self.views()[j].sup.unwrap().root,
            self.keys()[j].1,
            self.views()[j].sup.unwrap().command,
        )
    }

    pub open spec fn find_key(&self, site: Seq<char>, name: Seq<char>) -> Option<int> {
        if exists|i: int| 0 <= i < self.keys().len() && self.keys()[i] == (site, name) {
            Some(choose|i: int| 0 <= i < self.keys().len() && self.keys()[i] == (site, name))
        } else {
            None
        }
    }

    pub fn new(paths: LaragonPaths, spawner: Box<dyn ProcessSpawner>) -> (s: SiteProcs)
        ensures
            s.wf(),
            s.keys().len() == 0,
            s.spawn_log().len() == 0,
            s.last_stopped() is None,
            s.log_dir() == paths.spec_log(),
            s.proc_path().len() == 0,
    {
        SiteProcs { paths, spawner, path_env: String::new(), slots: Vec::new(), spawned: Ghost(Seq::empty()), stopped: Ghost(None), alive_seen: Ghost(None), tick_seen: Ghost(Seq::empty()) }
    }

    /// Set the `PATH` site processes run with (see [`proc_path_env`]).
    pub fn set_path_env(&mut self, path: String)
        requires
            old(self).wf(),
        ensures
            final(self).wf(),
            final(self).keys() == old(self).keys(),
            final(self).views() == old(self).views(),
            final(self).proc_path() == path@,
            final(self).log_dir() == old(self).log_dir(),
            final(self).spawn_log() == old(self).spawn_log(),
            final(self).last_stopped() == old(self).last_stopped(),
    {
        self.path_env = path;
    }

    /// `sh -c "exec <command> >> <log/proc-<site>-<name>.log> 2>&1"` in the
    /// site's folder, with the managed `PATH`.
    fn spawn_spec(&self, root: &str, site: &str, name: &str, command: &str) -> (s: SpawnSpec)
        ensures
            spawn_view(s) == proc_spawn(self.log_dir(), self.proc_path(), site@, root@, name@, command@),
    {
        let mut file = String::from_str("proc-");
        file.append(site);
        file.append("-");
        file.append(name);
        file.append(".log");
        let log_dir = self.paths.log();
        let log = join_path(log_dir.as_str(), file.as_str());
        let mut shell = String::from_str("exec ");
        shell.append(command);
        shell.append(" >> ");
        shell.append(log.as_str());
        shell.append(" 2>&1");
        let s = SpawnSpec::new("sh").arg("-c").arg(shell.as_str()).cwd(root.to_string()).env("PATH", self.path_env.as_str());
        proof {
            reveal_strlit("sh");
            reveal_strlit("-c");
            reveal_strlit("PATH");
            reveal_strlit("proc-");
            reveal_strlit("-");
            reveal_strlit(".log");
            reveal_strlit("exec ");
            reveal_strlit(" >> ");
            reveal_strlit(" 2>&1");
            assert(arg_views(s.args@) =~= seq!["-c"@, shell@]);
            assert(env_views(s.env@) =~= seq![("PATH"@, self.path_env@)]);
        }
        s
    }

    /// The slot of `(site, name)`.
    fn find(&self, site: &str, name: &str) -> (r: Option<usize>)
        ensures
            match r {
                Some(i) => i < self.slots@.len() && self.keys()[i as int] == (site@, name@),
                None => forall|i: int| 0 <= i < self.keys().len() ==> self.keys()[i] != (site@, name@),
            },
    {
        let mut i: usize = 0;
        while i < self.slots.len()
            invariant
                0 <= i <= self.slots@.len(),
                forall|j: int| 0 <= j < i ==> self.keys()[j] != (site@, name@),
            decreases self.slots@.len() - i,
        {
            if str_eq(self.slots[i].site.as_str(), site) && str_eq(self.slots[i].name.as_str(), name) {
                return Some(i);
            }
            i = i + 1;
        }
        None
    }

    pub open spec fn slot_of(&self, site: Seq<char>, name: Seq<char>) -> Option<SlotView> {
        match self.find_key(site, name) {
            Some(i) => Some(self.views()[i]),
            None => None,
        }
    }

    /// Everything but the slot of `(site, name)` is as in `old`; that slot
    /// exists afterwards (appended when it was new).
    pub open spec fn others_kept(&self, old: &SiteProcs, site: Seq<char>, name: Seq<char>) -> bool {
        &&& self.find_key(site, name) is Some
        &&& old.find_key(site, name) is Some ==> self.keys() == old.keys()
        &&& old.find_key(site, name) is None ==> self.keys() == old.keys().push((site, name))
        &&& forall|j: int|
            0 <= j < old.keys().len() && old.keys()[j] != (site, name) ==> #[trigger] self.views()[j] == old.views()[j]
    }

    /// Give `(site, name)` a slot (a fresh, stopped one when it had none);
    /// its index.
    fn slot_index(&mut self, site: &str, name: &str) -> (i: usize)
        requires
            old(self).wf(),
        ensures
            final(self).wf(),
            i < final(self).slots@.len(),
            final(self).keys()[i as int] == (site@, name@),
            final(self).find_key(site@, name@) == Some(i as int),
            old(self).find_key(site@, name@) is Some ==> final(self).keys() == old(self).keys() && final(self).views()
                == old(self).views() && final(self).slots@ == old(self).slots@,
            old(self).find_key(site@, name@) is None ==> final(self).keys() == old(self).keys().push((site@, name@))
                && final(self).views() == old(self).views().push(
                SlotView { state: ServiceState::Stopped, running: false, sup: None, spawns: 0 },
            ),
            final(self).paths == old(self).paths,
            final(self).path_env == old(self).path_env,
            final(self).spawned == old(self).spawned,
            final(self).stopped == old(self).stopped,
            final(self).alive_seen == old(self).alive_seen,
    {
        match self.find(site, name) {
            Some(i) => {
                proof {
                    self.lemma_find_key(i as int);
                }
                i
            },
            None => {
                let slot = ProcSlot {
                    site: site.to_string(),
                    name: name.to_string(),
                    state: ServiceState::Stopped,
                    handle: None,
                    sup: None,
                    spawns: Ghost(0),
                };
                self.slots.push(slot);
                let i = self.slots.len() - 1;
                proof {
                    assert forall|a: int, b: int|
                        0 <= a < b < self.slots@.len() implies !(#[trigger] self.slots@[a].site@ == #[trigger] self.slots@[b].site@
                            && self.slots@[a].name@ == self.slots@[b].name@) by {
                        if b == i {
                            assert(old(self).keys()[a] == (self.slots@[a].site@, self.slots@[a].name@));
                        } else {
                            assert(self.slots@[a] == old(self).slots@[a]);
                            assert(self.slots@[b] == old(self).slots@[b]);
                        }
                    }
                    assert forall|a: int| 0 <= a < self.slots@.len() implies slot_ok(slot_view(#[trigger] self.slots@[a])) by {
                        if a < i {
                            assert(self.slots@[a] == old(self).slots@[a]);
                        }
                    }
                    assert(self.keys() =~= old(self).keys().push((site@, name@)));
                    assert(self.views() =~= old(self).views().push(SlotView { state: ServiceState::Stopped, running: false, sup: None, spawns: 0 }));
                    self.lemma_find_key(i as int);
                }
                i
            },
        }
    }

    /// With unique keys, the key at `i` is found at `i`.
    proof fn lemma_find_key(&self, i: int)
        requires
            self.wf(),
            0 <= i < self.slots@.len(),
        ensures
            self.find_key(self.keys()[i].0, self.keys()[i].1) == Some(i),
    {
        let k = self.keys()[i];
        assert(0 <= i < self.keys().len() && self.keys()[i] == (k.0, k.1));
        let j = choose|j: int| 0 <= j < self.keys().len() && self.keys()[j] == (k.0, k.1);
        if j != i {
            if j < i {
                assert(!(self.slots@[j].site@ == self.slots@[i].site@ && self.slots@[j].name@ == self.slots@[i].name@));
            } else {
                assert(!(self.slots@[i].site@ == self.slots@[j].site@ && self.slots@[i].name@ == self.slots@[j].name@));
            }
        }
    }
    /// Put `slot` back at `i`, where the slot taken out of `s0` stood.
    fn put_slot(&mut self, i: usize, slot: ProcSlot, Ghost(s0): Ghost<Seq<ProcSlot>>)
        requires
            i < s0.len(),
            slots_wf(s0),
            old(self).slots@ == s0.remove(i as int),
            slot.site@ == s0[i as int].site@,
            slot.name@ == s0[i as int].name@,
            slot_ok(slot_view(slot)),
        ensures
            final(self).slots@ == s0.update(i as int, slot),
            final(self).wf(),
            final(self).paths == old(self).paths,
            final(self).path_env == old(self).path_env,
            final(self).spawned == old(self).spawned,
            final(self).stopped == old(self).stopped,
            final(self).alive_seen == old(self).alive_seen,
    {
        let ghost sf = slot;
        self.slots.insert(i, slot);
        assert(self.slots@ =~= s0.update(i as int, sf));
        proof {
            lemma_update_wf(s0, i as int, sf);
        }
    }

    /// How many times the spawner was asked for `(site, name)`.
    pub open spec fn spawns_of(&self, site: Seq<char>, name: Seq<char>) -> nat {
        match self.slot_of(site, name) {
            Some(v) => v.spawns,
            None => 0,
        }
    }

    /// What supervision keeps of `(site, name)`.
    pub open spec fn sup_of(&self, site: Seq<char>, name: Seq<char>) -> Option<SupView> {
        match self.slot_of(site, name) {
            Some(v) => v.sup,
            None => None,
        }
    }

    /// `(site, name)` holds a process handle.
    pub open spec fn is_running(&self, site: Seq<char>, name: Seq<char>) -> bool {
        self.slot_of(site, name) matches Some(v) && v.running
    }

    /// Start one process (as of `now`, in milliseconds). Idempotent: while a
    /// live handle exists nothing is spawned and nothing changes. Otherwise
    /// the spawner is asked once, with [`proc_spawn`]; on success the process
    /// runs under fresh supervision (failures cleared, root and command
    /// kept for retries), on failure it is marked Crashed, its handle (a
    /// dead one, if any) and its supervision are left as they were, and the
    /// spawner's error is returned.
    pub fn start(&mut self, site: &str, root: &str, name: &str, command: &str, now: u64) -> (r: Result<(), String>)
        requires
            old(self).wf(),
        ensures
            final(self).wf(),
            final(self).others_kept(old(self), site@, name@),
            final(self).log_dir() == old(self).log_dir(),
            final(self).proc_path() == old(self).proc_path(),
            final(self).last_stopped() == old(self).last_stopped(),
            // nothing spawned: a live handle was kept and nothing changed
            final(self).spawn_log() == old(self).spawn_log() ==> r is Ok && old(self).is_running(site@, name@)
                && final(self).slot_of(site@, name@) == old(self).slot_of(site@, name@),
            // no handle: the spawner is asked
            !old(self).is_running(site@, name@) ==> final(self).spawn_log().len() == old(self).spawn_log().len() + 1,
            // a handle: its liveness decides
            old(self).is_running(site@, name@) ==> final(self).last_liveness() is Some,
            old(self).is_running(site@, name@) && final(self).last_liveness() == Some(true) ==> final(self).spawn_log()
                == old(self).spawn_log(),
            old(self).is_running(site@, name@) && final(self).last_liveness() == Some(false) ==> final(self).spawn_log().len()
                == old(self).spawn_log().len() + 1,
            // at most one spawn, with the process's spec
            final(self).spawn_log() == old(self).spawn_log() || {
                &&& final(self).spawn_log().drop_last() == old(self).spawn_log()
                &&& final(self).spawn_log().len() == old(self).spawn_log().len() + 1
                &&& final(self).spawn_log().last().0 == proc_spawn(old(self).log_dir(), old(self).proc_path(), site@, root@, name@, command@)
                &&& match r {
                    Ok(_) => {
                        &&& final(self).spawn_log().last().1 is None
                        &&& final(self).slot_of(site@, name@) == Some(SlotView {
                            state: ServiceState::Running,
                            running: true,
                            sup: Some(SupView {
                                root: root@,
                                command: command@,
                                failures: 0,
                                started_at: now,
                                next_attempt_at: None,
                                supervised: true,
                            }),
                            spawns: old(self).spawns_of(site@, name@) + 1,
                        })
                    },
                    Err(e) => {
                        &&& final(self).spawn_log().last().1 == Some(e@)
                        &&& final(self).slot_of(site@, name@) == Some(SlotView {
                            state: ServiceState::Crashed,
                            running: old(self).is_running(site@, name@),
                            sup: old(self).sup_of(site@, name@),
                            spawns: old(self).spawns_of(site@, name@) + 1,
                        })
                    },
                }
            },
    {
        let i = self.slot_index(site, name);
        let ghost s0 = self.slots@;
        let ghost mid = *self;
        let mut slot = self.slots.remove(i);
        let ghost v0 = slot_view(slot);
        let mut keep = false;
        match slot.handle.take() {
            Some(mut h) => {
                let a = h.is_alive();
                proof {
                    self.alive_seen@ = Some(a);
                }
                if a {
                    keep = true;
                }
                slot.handle = Some(h);
            },
            None => {},
        }
        assert(slot_view(slot) == v0);
        if keep {
            let ghost sf = slot;
            self.put_slot(i, slot, Ghost(s0));
            proof {
                assert(self.keys() =~= mid.keys());
                assert(self.views() =~= mid.views());
                self.lemma_kept_after_index(old(self), &mid, i as int, site@, name@);
                if old(self).find_key(site@, name@) is None {
                    assert(mid.views()[i as int].running == false);
                }
            }
            return Ok(());
        }
        let spec = self.spawn_spec(root, site, name, command);
        let ghost sv = spawn_view(spec);
        let spawned = self.spawner.spawn(&spec);
        proof {
            slot.spawns@ = slot.spawns@ + 1;
        }
        let result = match spawned {
            Ok(h) => {
                slot.handle = Some(h);
                slot.state = ServiceState::Running;
                slot.sup = Some(Supervised {
                    root: root.to_string(),
                    command: command.to_string(),
                    failures: 0,
                    started_at: now,
                    next_attempt_at: None,
                    supervised: true,
                });
                proof {
                    self.spawned@ = self.spawned@.push((sv, None));
                }
                Ok(())
            },
            Err(e) => {
                slot.state = ServiceState::Crashed;
                proof {
                    self.spawned@ = self.spawned@.push((sv, Some(e@)));
                }
                Err(e)
            },
        };
        let ghost sf = slot;
        self.put_slot(i, slot, Ghost(s0));
        proof {
            assert(self.keys() =~= mid.keys());
            assert(self.views() =~= mid.views().update(i as int, slot_view(sf)));
            self.lemma_kept_after_index(old(self), &mid, i as int, site@, name@);
            if old(self).find_key(site@, name@) is None {
                assert(mid.views()[i as int] == SlotView { state: ServiceState::Stopped, running: false, sup: None, spawns: 0 });
            }
            assert(mid.views()[i as int] == v0);
            assert(self.spawn_log().drop_last() =~= old(self).spawn_log());
            assert(old(self).spawns_of(site@, name@) == v0.spawns);
            assert(old(self).sup_of(site@, name@) == v0.sup);
            assert(self.slot_of(site@, name@) == Some(slot_view(sf)));
            assert(self.spawn_log().last().0 == proc_spawn(old(self).log_dir(), old(self).proc_path(), site@, root@, name@, command@));
            if result is Ok {
                assert(sf.sup.unwrap().root@ == root@);
                assert(sf.sup.unwrap().command@ == command@);
                assert(self.spawn_log().last().1 is None);
            } else {
                assert(slot_view(sf).sup == v0.sup);
                assert(self.spawn_log().last().1 == Some(result->Err_0@));
            }
        }
        result
    }

    /// The slot found at `i` for `(site, name)` in `mid` (which holds the old
    /// slots plus possibly a new one) is the only one `self` changed.
    proof fn lemma_kept_after_index(&self, old: &SiteProcs, mid: &SiteProcs, i: int, site: Seq<char>, name: Seq<char>)
        requires
            old.wf(),
            self.wf(),
            0 <= i < mid.keys().len(),
            mid.keys()[i] == (site, name),
            mid.find_key(site, name) == Some(i),
            self.keys() == mid.keys(),
            self.views().len() == mid.views().len(),
            forall|j: int| 0 <= j < mid.views().len() && j != i ==> self.views()[j] == mid.views()[j],
            old.find_key(site, name) is Some ==> mid.keys() == old.keys() && mid.views() == old.views(),
            old.find_key(site, name) is None ==> mid.keys() == old.keys().push((site, name)) && mid.views().len() == old.views().len() + 1
                && forall|j: int| 0 <= j < old.views().len() ==> mid.views()[j] == old.views()[j],
        ensures
            self.others_kept(old, site, name),
            self.find_key(site, name) == Some(i),
            self.slot_of(site, name) == Some(self.views()[i]),
            old.slot_of(site, name) is Some ==> old.slot_of(site, name) == Some(mid.views()[i]),
    {
        assert(self.find_key(site, name) == Some(i));
        assert forall|j: int| 0 <= j < old.keys().len() && old.keys()[j] != (site, name) implies #[trigger] self.views()[j] == old.views()[j] by {
            if old.find_key(site, name) is Some {
                if j == i {
                    assert(old.keys()[j] == mid.keys()[j]);
                }
            } else {
                assert(mid.views()[j] == old.views()[j]);
                assert(j < old.keys().len());
                assert(i == old.keys().len()) by {
                    assert(mid.keys().len() == old.keys().len() + 1);
                    if i < old.keys().len() {
                        assert(mid.keys()[i] == old.keys()[i]);
                    }
                }
            }
        }
    }
    /// Stop one process by hand: its handle is stopped and dropped, it is
    /// marked Stopped, and supervision is turned off (so no tick ever
    /// resurrects it) with its failures cleared. Nothing is spawned.
    pub fn stop(&mut self, site: &str, name: &str)
        requires
            old(self).wf(),
        ensures
            final(self).wf(),
            final(self).others_kept(old(self), site@, name@),
            final(self).slot_of(site@, name@) == Some(stopped_view(old(self).sup_of(site@, name@), old(self).spawns_of(site@, name@))),
            final(self).spawn_log() == old(self).spawn_log(),
            final(self).log_dir() == old(self).log_dir(),
            final(self).proc_path() == old(self).proc_path(),
            old(self).is_running(site@, name@) ==> final(self).last_stopped() == Some((old(self).pid_held(site@, name@).unwrap(), true)),
            !old(self).is_running(site@, name@) ==> final(self).last_stopped() == old(self).last_stopped(),
    {
        let i = self.slot_index(site, name);
        let ghost s0 = self.slots@;
        let ghost mid = *self;
        let mut slot = self.slots.remove(i);
        let ghost v0 = slot_view(slot);
        let ghost h0 = slot.handle;
        match slot.handle.take() {
            Some(mut h) => {
                let _ = h.stop();
                proof {
                    self.stopped@ = Some((h.process_id(), h.stopped()));
                }
            },
            None => {},
        }
        match slot.sup.take() {
            Some(mut x) => {
                x.supervised = false;
                x.next_attempt_at = None;
                x.failures = 0;
                slot.sup = Some(x);
            },
            None => {},
        }
        slot.state = ServiceState::Stopped;
        let ghost sf = slot;
        self.put_slot(i, slot, Ghost(s0));
        proof {
            assert(self.keys() =~= mid.keys());
            assert(self.views() =~= mid.views().update(i as int, slot_view(sf)));
            self.lemma_kept_after_index(old(self), &mid, i as int, site@, name@);
            if old(self).find_key(site@, name@) is None {
                assert(mid.views()[i as int] == SlotView { state: ServiceState::Stopped, running: false, sup: None, spawns: 0 });
            } else {
                assert(old(self).find_key(site@, name@) == Some(i as int));
                assert(old(self).slots@[i as int] == s0[i as int]);
            }
            assert(mid.views()[i as int] == v0);
        }
    }

    /// Start every process the site's Procfile declares (its entries, read
    /// by the caller).
    pub fn start_site(&mut self, site: &str, root: &str, entries: &[ProcEntry], now: u64)
        requires
            old(self).wf(),
        ensures
            final(self).wf(),
            forall|j: int| 0 <= j < entries@.len() ==> final(self).find_key(site@, #[trigger] entries@[j].name@) is Some,
            forall|j: int|
                0 <= j < old(self).keys().len() && old(self).keys()[j].0 != site@ ==> #[trigger] final(self).views()[j]
                    == old(self).views()[j] && final(self).keys()[j] == old(self).keys()[j],
    {
        let mut i: usize = 0;
        while i < entries.len()
            invariant
                0 <= i <= entries@.len(),
                self.wf(),
                self.keys().len() >= old(self).keys().len(),
                forall|j: int| 0 <= j < i ==> self.find_key(site@, #[trigger] entries@[j].name@) is Some,
                forall|j: int|
                    0 <= j < old(self).keys().len() && old(self).keys()[j].0 != site@ ==> #[trigger] self.views()[j]
                        == old(self).views()[j] && self.keys()[j] == old(self).keys()[j],
            decreases entries@.len() - i,
        {
            let ghost before = *self;
            let _ = self.start(site, root, entries[i].name.as_str(), entries[i].command.as_str(), now);
            proof {
                assert forall|j: int| 0 <= j < i + 1 implies self.find_key(site@, #[trigger] entries@[j].name@) is Some by {
                    if j < i {
                        let k = before.find_key(site@, entries@[j].name@).unwrap();
                        assert(0 <= k < before.keys().len() && before.keys()[k] == (site@, entries@[j].name@));
                        assert(self.keys()[k] == before.keys()[k]);
                    }
                }
                assert forall|j: int|
                    0 <= j < old(self).keys().len() && old(self).keys()[j].0 != site@ implies #[trigger] self.views()[j]
                        == old(self).views()[j] && self.keys()[j] == old(self).keys()[j] by {
                    assert(before.views()[j] == old(self).views()[j]);
                    assert(before.keys()[j] == old(self).keys()[j]);
                    assert(before.keys()[j] != (site@, entries@[i as int].name@));
                    assert(j < before.keys().len());
                    assert(self.keys()[j] == before.keys()[j]);
                    assert(self.views()[j] == before.views()[j]);
                }
            }
            i = i + 1;
        }
    }

    /// Stop every running process of `site`.
    pub fn stop_site(&mut self, site: &str)
        requires
            old(self).wf(),
        ensures
            final(self).wf(),
            final(self).keys() == old(self).keys(),
            forall|j: int|
                0 <= j < old(self).keys().len() ==> if old(self).keys()[j].0 == site@ && old(self).views()[j].running {
                    #[trigger] final(self).views()[j].state == ServiceState::Stopped && !final(self).views()[j].running
                } else {
                    final(self).views()[j] == old(self).views()[j]
                },
    {
        self.stop_matching(Some(site));
    }

    /// Stop every running process.
    pub fn stop_all(&mut self)
        requires
            old(self).wf(),
        ensures
            final(self).wf(),
            final(self).keys() == old(self).keys(),
            forall|j: int|
                0 <= j < old(self).keys().len() ==> if old(self).views()[j].running {
                    #[trigger] final(self).views()[j].state == ServiceState::Stopped && !final(self).views()[j].running
                } else {
                    final(self).views()[j] == old(self).views()[j]
                },
    {
        self.stop_matching(None);
    }

    /// Stop every running process (of `site`, when given).
    fn stop_matching(&mut self, site: Option<&str>)
        requires
            old(self).wf(),
        ensures
            final(self).wf(),
            final(self).keys() == old(self).keys(),
            forall|j: int|
                0 <= j < old(self).keys().len() ==> if (site matches Some(s) ==> old(self).keys()[j].0 == s@) && old(self).views()[j].running {
                    #[trigger] final(self).views()[j].state == ServiceState::Stopped && !final(self).views()[j].running
                } else {
                    final(self).views()[j] == old(self).views()[j]
                },
    {
        let mut i: usize = 0;
        while i < self.slots.len()
            invariant
                0 <= i <= self.slots@.len(),
                self.wf(),
                self.keys() == old(self).keys(),
                forall|j: int|
                    i <= j < old(self).keys().len() ==> #[trigger] self.views()[j] == old(self).views()[j],
                forall|j: int|
                    0 <= j < i ==> if (site matches Some(s) ==> old(self).keys()[j].0 == s@) && old(self).views()[j].running {
                        #[trigger] self.views()[j].state == ServiceState::Stopped && !self.views()[j].running
                    } else {
                        self.views()[j] == old(self).views()[j]
                    },
            decreases self.slots@.len() - i,
        {
            let matches_site = match site {
                Some(s) => str_eq(self.slots[i].site.as_str(), s),
                None => true,
            };
            if matches_site && self.slots[i].handle.is_some() {
                let s_site = self.slots[i].site.clone();
                let s_name = self.slots[i].name.clone();
                let ghost before = *self;
                proof {
                    before.lemma_find_key(i as int);
                }
                self.stop(s_site.as_str(), s_name.as_str());
                proof {
                    assert(before.find_key(s_site@, s_name@) == Some(i as int));
                    assert(self.keys() == before.keys());
                    assert forall|j: int| 0 <= j < self.keys().len() && j != i implies #[trigger] self.views()[j] == before.views()[j] by {
                        assert(before.keys()[j] != (s_site@, s_name@)) by {
                            if before.keys()[j] == (s_site@, s_name@) {
                                before.lemma_find_key(j);
                            }
                        }
                    }
                    self.lemma_find_key(i as int);
                }
            }
            i = i + 1;
        }
    }
    /// One supervision tick of slot `i`.
    fn tick_one(&mut self, i: usize, now: u64) -> (w: (Ghost<bool>, Ghost<bool>))
        requires
            old(self).wf(),
            i < old(self).slots@.len(),
            now <= MAX_TICK_MS,
        ensures
            final(self).wf(),
            final(self).keys() == old(self).keys(),
            final(self).views().len() == old(self).views().len(),
            forall|j: int| 0 <= j < old(self).views().len() && j != i ==> #[trigger] final(self).views()[j] == old(self).views()[j],
            final(self).views()[i as int] == tick_slot(old(self).views()[i as int], now, w.0@, w.1@),
            final(self).log_dir() == old(self).log_dir(),
            final(self).proc_path() == old(self).proc_path(),
            final(self).last_stopped() == old(self).last_stopped(),
            final(self).views()[i as int].spawns == old(self).views()[i as int].spawns ==> final(self).spawn_log() == old(self).spawn_log(),
            final(self).views()[i as int].spawns != old(self).views()[i as int].spawns ==> {
                &&& final(self).spawn_log().len() == old(self).spawn_log().len() + 1
                &&& final(self).spawn_log().drop_last() == old(self).spawn_log()
                &&& final(self).spawn_log().last().0 == old(self).respawn_spec(i as int)
                &&& (final(self).spawn_log().last().1 is None <==> w.1@)
                &&& (final(self).spawn_log().last().1 is None <==> final(self).views()[i as int].running)
            },
    {
        let ghost s0 = self.slots@;
        let mut slot = self.slots.remove(i);
        let ghost v0 = slot_view(slot);
        assert(slot_ok(v0));
        let ghost mut alive_g = false;
        let ghost mut resp_g = false;
        // notice a death, or a process up long enough
        match slot.handle.take() {
            Some(mut h) => {
                if h.is_alive() {
                    proof {
                        alive_g = true;
                    }
                    slot.handle = Some(h);
                    slot.state = ServiceState::Running;
                    match slot.sup.take() {
                        Some(mut x) => {
                            record_alive(&mut x, now);
                            slot.sup = Some(x);
                        },
                        None => {},
                    }
                } else {
                    slot.state = ServiceState::Crashed;
                    match slot.sup.take() {
                        Some(mut x) => {
                            record_death(&mut x, now);
                            slot.sup = Some(x);
                        },
                        None => {},
                    }
                }
            },
            None => {},
        }
        let ghost v1 = slot_view(slot);
        assert(v1 == tick_slot(v0, now, alive_g, resp_g) || due(v1, now));
        // respawn when due
        let is_due = match &slot.sup {
            Some(x) => x.supervised && slot.handle.is_none() && match x.next_attempt_at {
                Some(t) => now >= t,
                None => false,
            },
            None => false,
        };
        assert(is_due == due(v1, now));
        if is_due {
            let (root, command) = match &slot.sup {
                Some(x) => (x.root.clone(), x.command.clone()),
                None => (String::new(), String::new()),
            };
            let spec = self.spawn_spec(root.as_str(), slot.site.as_str(), slot.name.as_str(), command.as_str());
            let ghost sv = spawn_view(spec);
            let spawned = self.spawner.spawn(&spec);
            proof {
                slot.spawns@ = slot.spawns@ + 1;
            }
            match spawned {
                Ok(h) => {
                    proof {
                        resp_g = true;
                        self.spawned@ = self.spawned@.push((sv, None));
                    }
                    slot.handle = Some(h);
                    slot.state = ServiceState::Running;
                    match slot.sup.take() {
                        Some(mut x) => {
                            x.started_at = now;
                            x.next_attempt_at = None;
                            slot.sup = Some(x);
                        },
                        None => {},
                    }
                },
                Err(e) => {
                    proof {
                        self.spawned@ = self.spawned@.push((sv, Some(e@)));
                    }
                    slot.state = ServiceState::Crashed;
                    match slot.sup.take() {
                        Some(mut x) => {
                            record_death(&mut x, now);
                            slot.sup = Some(x);
                        },
                        None => {},
                    }
                },
            }
        }
        let ghost sf = slot;
        assert(slot_view(sf) == tick_slot(v0, now, alive_g, resp_g));
        self.put_slot(i, slot, Ghost(s0));
        proof {
            assert(self.keys() =~= old(self).keys());
            assert(self.views() =~= old(self).views().update(i as int, slot_view(sf)));
            if slot_view(sf).spawns != v0.spawns {
                assert(self.spawn_log().drop_last() =~= old(self).spawn_log());
            }
        }
        (Ghost(alive_g), Ghost(resp_g))
    }

    /// The supervision tick at `now` (milliseconds): a dead process is marked
    /// Crashed and, while supervised, counts a failure and gets a retry time
    /// by the backoff table (giving up at [`MAX_RESTARTS`]); a process up
    /// [`STABLE_AFTER_MS`] has its failures cleared; a due retry respawns,
    /// regardless of how the process exited.
    pub fn tick_at(&mut self, now: u64)
        requires
            old(self).wf(),
            now <= MAX_TICK_MS,
        ensures
            final(self).wf(),
            final(self).keys() == old(self).keys(),
            final(self).views().len() == old(self).views().len(),
            ticked(old(self).views(), final(self).views(), now),
            final(self).last_tick().len() == old(self).views().len(),
            forall|j: int|
                0 <= j < old(self).views().len() ==> #[trigger] final(self).views()[j] == tick_slot(
                    old(self).views()[j],
                    now,
                    final(self).last_tick()[j].0,
                    final(self).last_tick()[j].1,
                ),
            final(self).log_dir() == old(self).log_dir(),
            final(self).proc_path() == old(self).proc_path(),
            final(self).last_stopped() == old(self).last_stopped(),
            // the spawner was asked only for due retries, each with the
            // process's own spec
            final(self).spawn_log().len() >= old(self).spawn_log().len(),
            final(self).spawn_log().take(old(self).spawn_log().len() as int) == old(self).spawn_log(),
            final(self).spawn_log().len() + total_spawns(old(self).views()) == old(self).spawn_log().len() + total_spawns(final(self).views()),
            forall|k: int|
                old(self).spawn_log().len() <= k < final(self).spawn_log().len() ==> exists|j: int|
                    0 <= j < old(self).keys().len() && final(self).views()[j].spawns > old(self).views()[j].spawns
                        && #[trigger] final(self).spawn_log()[k].0 == old(self).respawn_spec(j)
                        && (final(self).spawn_log()[k].1 is None <==> final(self).views()[j].running),
    {
        let ghost mut alives: Seq<bool> = Seq::empty();
        let ghost mut resps: Seq<bool> = Seq::empty();
        let mut i: usize = 0;
        while i < self.slots.len()
            invariant
                0 <= i <= self.slots@.len(),
                now <= MAX_TICK_MS,
                self.wf(),
                self.keys() == old(self).keys(),
                self.views().len() == old(self).views().len(),
                alives.len() == i,
                resps.len() == i,
                forall|j: int| i <= j < old(self).views().len() ==> #[trigger] self.views()[j] == old(self).views()[j],
                forall|j: int| 0 <= j < i ==> #[trigger] self.views()[j] == tick_slot(old(self).views()[j], now, alives[j], resps[j]),
                self.log_dir() == old(self).log_dir(),
                self.proc_path() == old(self).proc_path(),
                self.last_stopped() == old(self).last_stopped(),
                self.spawn_log().len() >= old(self).spawn_log().len(),
                self.spawn_log().take(old(self).spawn_log().len() as int) == old(self).spawn_log(),
                self.spawn_log().len() + total_spawns(old(self).views()) == old(self).spawn_log().len() + total_spawns(self.views()),
                forall|k: int|
                    old(self).spawn_log().len() <= k < self.spawn_log().len() ==> exists|j: int|
                        0 <= j < i && self.views()[j].spawns > old(self).views()[j].spawns
                            && #[trigger] self.spawn_log()[k].0 == old(self).respawn_spec(j)
                            && (self.spawn_log()[k].1 is None <==> self.views()[j].running),
            decreases self.slots@.len() - i,
        {
            let ghost before = self.views();
            let ghost before_self = *self;
            let (Ghost(a), Ghost(r)) = self.tick_one(i, now);
            proof {
                assert forall|j: int| 0 <= j < i implies #[trigger] self.views()[j] == tick_slot(old(self).views()[j], now, alives[j], resps[j]) by {
                    assert(self.views()[j] == before[j]);
                }
                assert(before[i as int] == old(self).views()[i as int]);
                alives = alives.push(a);
                resps = resps.push(r);
                assert forall|j: int| i + 1 <= j < old(self).views().len() implies #[trigger] self.views()[j] == old(self).views()[j] by {
                    assert(self.views()[j] == before[j]);
                }
                assert(before_self.respawn_spec(i as int) == old(self).respawn_spec(i as int));
                assert(self.views() =~= before.update(i as int, self.views()[i as int]));
                lemma_total_spawns_update(before, i as int, self.views()[i as int]);
                assert(self.spawn_log().take(old(self).spawn_log().len() as int) =~= old(self).spawn_log()) by {
                    if self.spawn_log() != before_self.spawn_log() {
                        assert forall|k: int| 0 <= k < old(self).spawn_log().len() implies self.spawn_log()[k] == before_self.spawn_log()[k] by {
                            assert(self.spawn_log().drop_last()[k] == self.spawn_log()[k]);
                            assert(before_self.spawn_log().take(old(self).spawn_log().len() as int)[k] == before_self.spawn_log()[k]);
                        }
                    }
                }
                assert forall|k: int|
                    old(self).spawn_log().len() <= k < self.spawn_log().len() implies exists|j: int|
                        0 <= j < i + 1 && self.views()[j].spawns > old(self).views()[j].spawns
                            && #[trigger] self.spawn_log()[k].0 == old(self).respawn_spec(j)
                            && (self.spawn_log()[k].1 is None <==> self.views()[j].running) by {
                    if k < before_self.spawn_log().len() {
                        let j = choose|j: int|
                            0 <= j < i && before_self.views()[j].spawns > old(self).views()[j].spawns
                                && #[trigger] before_self.spawn_log()[k].0 == old(self).respawn_spec(j)
                                && (before_self.spawn_log()[k].1 is None <==> before_self.views()[j].running);
                        assert(self.views()[j] == before[j]);
                        if self.spawn_log() != before_self.spawn_log() {
                            assert(self.spawn_log().drop_last()[k] == self.spawn_log()[k]);
                        }
                        assert(self.spawn_log()[k].0 == old(self).respawn_spec(j));
                    } else {
                        assert(self.spawn_log()[k].0 == old(self).respawn_spec(i as int));
                        assert(self.views()[i as int].spawns > old(self).views()[i as int].spawns);
                    }
                }
            }
            i = i + 1;
        }
        assert forall|k: int|
            old(self).spawn_log().len() <= k < self.spawn_log().len() implies exists|j: int|
                0 <= j < old(self).keys().len() && self.views()[j].spawns > old(self).views()[j].spawns
                    && #[trigger] self.spawn_log()[k].0 == old(self).respawn_spec(j)
                    && (self.spawn_log()[k].1 is None <==> self.views()[j].running) by {
            let j = choose|j: int|
                0 <= j < i && self.views()[j].spawns > old(self).views()[j].spawns
                    && #[trigger] self.spawn_log()[k].0 == old(self).respawn_spec(j)
                    && (self.spawn_log()[k].1 is None <==> self.views()[j].running);
            assert(0 <= j < old(self).keys().len());
        }
        assert forall|j: int| 0 <= j < old(self).views().len() implies #[trigger] ticked_one(old(self).views(), self.views(), now, j) by {
            assert(self.views()[j] == tick_slot(old(self).views()[j], now, alives[j], resps[j]));
        }
        let ghost pre = *self;
        proof {
            self.tick_seen@ = Seq::new(alives.len(), |j: int| (alives[j], resps[j]));
            assert(self.views() == pre.views());
            assert(self.spawn_log() == pre.spawn_log());
            assert(self.keys() == pre.keys());
        }
    }

    /// Consecutive failures of a process; 0 when healthy or never started.
    pub fn failures_of(&self, site: &str, name: &str) -> (f: u32)
        requires
            self.wf(),
        ensures
            f == match self.slot_of(site@, name@) {
                Some(v) => match v.sup {
                    Some(x) => x.failures,
                    None => 0,
                },
                None => 0,
            },
            f <= MAX_RESTARTS,
    {
        match self.find(site, name) {
            Some(i) => {
                proof {
                    self.lemma_find_key(i as int);
                }
                match &self.slots[i].sup {
                    Some(x) => x.failures,
                    None => 0,
                }
            },
            None => {
                proof {
                    if self.find_key(site@, name@) is Some {
                        let k = self.find_key(site@, name@).unwrap();
                        assert(self.keys()[k] == (site@, name@));
                    }
                }
                0
            },
        }
    }

    /// The state of a process; Stopped when never seen.
    pub fn state_of(&self, site: &str, name: &str) -> (st: ServiceState)
        requires
            self.wf(),
        ensures
            st == match self.slot_of(site@, name@) {
                Some(v) => v.state,
                None => ServiceState::Stopped,
            },
    {
        match self.find(site, name) {
            Some(i) => {
                proof {
                    self.lemma_find_key(i as int);
                }
                self.slots[i].state
            },
            None => {
                proof {
                    if self.find_key(site@, name@) is Some {
                        let k = self.find_key(site@, name@).unwrap();
                        assert(self.keys()[k] == (site@, name@));
                    }
                }
                ServiceState::Stopped
            },
        }
    }

    /// The pid of a running process.
    pub fn pid_of(&self, site: &str, name: &str) -> (p: Option<u32>)
        requires
            self.wf(),
        ensures
            p is Some <==> self.is_running(site@, name@),
            p == self.pid_held(site@, name@),
    {
        match self.find(site, name) {
            Some(i) => {
                proof {
                    self.lemma_find_key(i as int);
                }
                match &self.slots[i].handle {
                    Some(h) => Some(h.pid()),
                    None => None,
                }
            },
            None => {
                proof {
                    if self.find_key(site@, name@) is Some {
                        let k = self.find_key(site@, name@).unwrap();
                        assert(self.keys()[k] == (site@, name@));
                    }
                }
                None
            },
        }
    }
    /// `(site, name, state)` of every tracked process, sorted by site then
    /// name — for cheap change detection.
    pub fn state_pairs(&self) -> (v: Vec<(String, String, ServiceState)>)
        requires
            self.wf(),
        ensures
            triple_views(v@) == sort_triples(self.triples()),
    {
        let mut out: Vec<(String, String, ServiceState)> = Vec::new();
        let mut i: usize = 0;
        while i < self.slots.len()
            invariant
                0 <= i <= self.slots@.len(),
                triple_views(out@) == sort_triples(self.triples().take(i as int)),
            decreases self.slots@.len() - i,
        {
            let site = self.slots[i].site.clone();
            let name = self.slots[i].name.clone();
            let st = self.slots[i].state;
            let ghost x = (site@, name@, st);
            let ghost sorted = triple_views(out@);
            // the first position whose key is above the new one
            let mut p: usize = 0;
            let mut done = false;
            assert(sorted.skip(0) == sorted);
            while !done && p < out.len()
                invariant
                    0 <= p <= out@.len(),
                    sorted == triple_views(out@),
                    x == (site@, name@, st),
                    !done ==> insert_pos(sorted, x) == p + insert_pos(sorted.skip(p as int), x),
                    done ==> insert_pos(sorted, x) == p,
                decreases out@.len() - p, (if done { 0int } else { 1int }),
            {
                assert(sorted.skip(p as int)[0] == sorted[p as int]);
                assert(sorted.skip(p as int).drop_first() == sorted.skip(p + 1));
                assert(sorted[p as int] == (out@[p as int].0@, out@[p as int].1@, out@[p as int].2));
                let lt = triple_lt_exec(site.as_str(), name.as_str(), out[p].0.as_str(), out[p].1.as_str());
                assert(lt == triple_lt((site@, name@, st), (out@[p as int].0@, out@[p as int].1@, out@[p as int].2)));
                if lt {
                    done = true;
                } else {
                    p = p + 1;
                }
            }
            proof {
                if !done {
                    assert(sorted.skip(p as int).len() == 0);
                }
                assert(self.triples().take(i + 1).drop_last() == self.triples().take(i as int));
                assert(self.triples().take(i + 1).last() == x);
            }
            out.insert(p, (site, name, st));
            assert(triple_views(out@) =~= sorted.insert(p as int, x));
            i = i + 1;
        }
        assert(self.triples().take(i as int) == self.triples());
        out
    }

    /// `(site, name, state)` of each tracked process, in key order.
    pub closed spec fn triples(&self) -> Seq<(Seq<char>, Seq<char>, ServiceState)> {
        self.slots@.map_values(|s: ProcSlot| (s.site@, s.name@, s.state))
    }
}

// ---------------------------------------------------------------------------
// Laws of supervision
// ---------------------------------------------------------------------------

/// A process stopped by hand (or given up on) stays as it is: no tick ever
/// resurrects or changes it.
pub proof fn lemma_unsupervised_stays_down(v: SlotView, now: u64, alive: bool, respawned: bool)
    requires
        !v.running,
        v.sup matches Some(s) ==> !s.supervised,
    ensures
        tick_slot(v, now, alive, respawned) == v,
{
}

/// Over any run of ticks, a process stopped by hand (or given up on) is
/// never resurrected: it keeps its state, its failures, and no spawn is
/// asked for it.
pub proof fn lemma_down_stays_down(v: SlotView, ticks: Seq<(u64, bool, bool)>)
    requires
        !v.running,
        v.sup matches Some(s) ==> !s.supervised,
    ensures
        run_ticks(v, ticks) == v,
    decreases ticks.len(),
{
    if ticks.len() > 0 {
        lemma_unsupervised_stays_down(v, ticks[0].0, ticks[0].1, ticks[0].2);
        lemma_down_stays_down(v, ticks.drop_first());
    }
}

/// A deliberate stop is never undone by supervision: whatever ticks follow
/// [`SiteProcs::stop`], the process stays Stopped with no failures, and the
/// spawner is never asked for it.
pub proof fn lemma_manual_stop_never_respawned(sup: Option<SupView>, spawns: nat, ticks: Seq<(u64, bool, bool)>)
    ensures
        run_ticks(stopped_view(sup, spawns), ticks) == stopped_view(sup, spawns),
        run_ticks(stopped_view(sup, spawns), ticks).state == ServiceState::Stopped,
        run_ticks(stopped_view(sup, spawns), ticks).spawns == spawns,
        run_ticks(stopped_view(sup, spawns), ticks).sup matches Some(s) ==> s.failures == 0,
{
    lemma_down_stays_down(stopped_view(sup, spawns), ticks);
}

/// Across a [`SiteProcs::tick_at`], a process that is down and no longer
/// supervised (stopped by hand, or given up on after [`MAX_RESTARTS`]
/// failures) stays exactly as it was: its state and failures are kept and
/// the spawner is not asked for it.
pub proof fn lemma_tick_at_leaves_down_process(before: &SiteProcs, after: &SiteProcs, now: u64, site: Seq<char>, name: Seq<char>)
    requires
        before.wf(),
        after.keys() == before.keys(),
        ticked(before.views(), after.views(), now),
        before.slot_of(site, name) matches Some(v) && !v.running && (v.sup matches Some(s) ==> !s.supervised
            || s.failures == MAX_RESTARTS),
    ensures
        after.slot_of(site, name) == before.slot_of(site, name),
{
    let i = before.find_key(site, name).unwrap();
    assert(after.find_key(site, name) == before.find_key(site, name));
    assert(0 <= i < before.views().len());
    let v = before.views()[i];
    assert(slot_ok(slot_view(before.slots@[i]))) by {
        assert(v == slot_view(before.slots@[i]));
    }
    assert(ticked_one(before.views(), after.views(), now, i));
    let (alive, respawned) = choose|alive: bool, respawned: bool| after.views()[i] == tick_slot(before.views()[i], now, alive, respawned);
    lemma_unsupervised_stays_down(v, now, alive, respawned);
}

/// Over any run of ticks, failures never pass [`MAX_RESTARTS`].
pub proof fn lemma_ticks_keep_bounds(v: SlotView, ticks: Seq<(u64, bool, bool)>)
    requires
        slot_ok(v),
    ensures
        slot_ok(run_ticks(v, ticks)),
        run_ticks(v, ticks).sup matches Some(s) ==> s.failures <= MAX_RESTARTS,
    decreases ticks.len(),
{
    if ticks.len() > 0 {
        lemma_tick_keeps_bounds(v, ticks[0].0, ticks[0].1, ticks[0].2);
        lemma_ticks_keep_bounds(tick_slot(v, ticks[0].0, ticks[0].1, ticks[0].2), ticks.drop_first());
    }
}

/// Giving up: the tick that brings failures to [`MAX_RESTARTS`] leaves the
/// process Crashed with no handle, and no later tick changes it or asks the
/// spawner for it again.
pub proof fn lemma_gives_up(v: SlotView, now: u64, alive: bool, respawned: bool, ticks: Seq<(u64, bool, bool)>)
    requires
        slot_ok(v),
        v.sup matches Some(s) && s.failures < MAX_RESTARTS,
        tick_slot(v, now, alive, respawned).sup matches Some(s) && s.failures == MAX_RESTARTS,
    ensures
        tick_slot(v, now, alive, respawned).state == ServiceState::Crashed,
        !tick_slot(v, now, alive, respawned).running,
        run_ticks(tick_slot(v, now, alive, respawned), ticks) == tick_slot(v, now, alive, respawned),
{
    let v1 = tick_slot(v, now, alive, respawned);
    lemma_tick_keeps_bounds(v, now, alive, respawned);
    lemma_down_stays_down(v1, ticks);
}

/// A tick keeps the supervision bounds: failures never pass
/// [`MAX_RESTARTS`], and a process that reached it is no longer supervised
/// (so it is given up on for good).
pub proof fn lemma_tick_keeps_bounds(v: SlotView, now: u64, alive: bool, respawned: bool)
    requires
        slot_ok(v),
    ensures
        slot_ok(tick_slot(v, now, alive, respawned)),
{
}

/// A supervised death is retried after the backoff for its failure count:
/// 1s, 5s, 15s, then 30s.
pub proof fn lemma_death_schedules_retry(v: SlotView, now: u64, respawned: bool)
    requires
        slot_ok(v),
        v.running,
        v.sup matches Some(s) && s.supervised && s.failures + 1 < MAX_RESTARTS,
        now <= MAX_TICK_MS,
    ensures
        tick_slot(v, now, false, respawned).sup == Some(SupView {
            failures: (v.sup.unwrap().failures + 1) as u32,
            next_attempt_at: Some((now + backoff_ms((v.sup.unwrap().failures + 1) as u32)) as u64),
            supervised: true,
            ..v.sup.unwrap()
        }),
        tick_slot(v, now, false, respawned).state == ServiceState::Crashed,
{
}

} // verus!
