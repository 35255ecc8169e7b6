//! The service orchestrator: starts, stops, reloads and watches managed
//! services, in dependency order.

use crate::layout::{best_installed, resolve_installed_version};
use crate::paths::LaragonPaths;
use crate::process::{Process, ProcessSpawner};
use crate::service::{kind_index, kind_label, spawn_view, Service, ServiceError, ServiceKind, ServiceState, SpawnView, KIND_COUNT};
use vstd::prelude::*;

verus! {

/// A point-in-time view of one service.
#[derive(Clone, Copy, Debug, PartialEq, Eq, Structural)]
pub struct ServiceStatus {
    pub kind: ServiceKind,
    pub state: ServiceState,
}

/// A request made of a [`StackHost`], with what it answered.
pub enum HostCall {
    /// Reap the orphans under a folder.
    Reap(Seq<char>),
    /// Whether a path is a folder: the answer.
    IsDir(Seq<char>, bool),
    /// The installed versions of a tool: the answer.
    InstalledVersions(Seq<char>, Seq<Seq<char>>),
    /// Point a tool's `current` at a version: the outcome (its error text).
    SetCurrent(Seq<char>, Seq<char>, Result<(), Seq<char>>),
}

/// An outcome as plain values.
pub open spec fn outcome_view(r: Result<(), String>) -> Result<(), Seq<char>> {
    match r {
        Ok(()) => Ok(()),
        Err(e) => Err(e@),
    }
}

/// The machine-side work around a version switch or a fresh start, performed
/// by the hosting application.
pub trait StackHost {
    /// Kill every process running an executable under `dir` whose pid is not
    /// in `keep`; the pids killed.
    fn reap(&self, dir: &str, keep: &[u32]) -> Vec<u32>;

    /// Whether `path` is an existing directory.
    fn is_dir(&self, path: &str) -> bool;

    /// The installed version directories of `tool`, in version order.
    fn installed_versions(&self, tool: &str) -> Vec<String>;

    /// Point `bin/<tool>/current` at `version`.
    fn set_current(&self, tool: &str, version: &str) -> Result<(), String>;
}

// ---------------------------------------------------------------------------
// Dependency order
// ---------------------------------------------------------------------------

/// Some remaining service (by index into `kinds`) is of kind `d`.
pub open spec fn remaining_has(kinds: Seq<ServiceKind>, rem: Seq<int>, d: ServiceKind) -> bool {
    exists|r: int| 0 <= r < rem.len() && kinds[rem[r]] == d
}

/// Service `s` can be placed: each dependency is placed already or is not
/// among the remaining services (a dependency on an unmanaged kind is
/// ignored).
pub open spec fn deps_met(
    kinds: Seq<ServiceKind>,
    deps: Seq<Seq<ServiceKind>>,
    rem: Seq<int>,
    ordered: Seq<ServiceKind>,
    s: int,
) -> bool {
    forall|j: int|
        0 <= j < deps[s].len() ==> ordered.contains(#[trigger] deps[s][j]) || !remaining_has(kinds, rem, deps[s][j])
}

/// The first position at or after `from` in `rem` whose service can be placed.
pub open spec fn first_met(
    kinds: Seq<ServiceKind>,
    deps: Seq<Seq<ServiceKind>>,
    rem: Seq<int>,
    ordered: Seq<ServiceKind>,
    from: int,
) -> Option<int>
    decreases rem.len() - from,
{
    if from < 0 || from >= rem.len() {
        None
    } else if deps_met(kinds, deps, rem, ordered, rem[from]) {
        Some(from)
    } else {
        first_met(kinds, deps, rem, ordered, from + 1)
    }
}

/// The position in `rem` placed next: the first placeable one, or the first
/// remaining one when a dependency cycle blocks them all.
pub open spec fn next_pick(
    kinds: Seq<ServiceKind>,
    deps: Seq<Seq<ServiceKind>>,
    rem: Seq<int>,
    ordered: Seq<ServiceKind>,
) -> int {
    match first_met(kinds, deps, rem, ordered, 0) {
        Some(i) => if 0 <= i < rem.len() {
            i
        } else {
            0
        },
        None => 0,
    }
}

/// The service indices in start order, continuing from `rem` still to place.
pub open spec fn order_from(
    kinds: Seq<ServiceKind>,
    deps: Seq<Seq<ServiceKind>>,
    rem: Seq<int>,
    placed: Seq<int>,
) -> Seq<int>
    decreases rem.len(),
{
    if rem.len() == 0 {
        placed
    } else {
        let ordered = kinds_of(kinds, placed);
        let p = next_pick(kinds, deps, rem, ordered);
        order_from(kinds, deps, rem.remove(p), placed.push(rem[p]))
    }
}

/// Indices `0..n`.
pub open spec fn all_indices(n: nat) -> Seq<int> {
    Seq::new(n, |i: int| i)
}

/// The service indices in start order.
pub open spec fn start_order_indices(kinds: Seq<ServiceKind>, deps: Seq<Seq<ServiceKind>>) -> Seq<int> {
    order_from(kinds, deps, all_indices(kinds.len()), seq![])
}

/// Topological order of the services' kinds honoring their dependencies,
/// registration order among independent ones.
pub open spec fn spec_start_order(kinds: Seq<ServiceKind>, deps: Seq<Seq<ServiceKind>>) -> Seq<ServiceKind> {
    kinds_of(kinds, start_order_indices(kinds, deps))
}

pub open spec fn usize_ints(v: Seq<usize>) -> Seq<int> {
    v.map_values(|i: usize| i as int)
}

pub open spec fn kinds_of(kinds: Seq<ServiceKind>, idx: Seq<int>) -> Seq<ServiceKind> {
    idx.map_values(|i: int| kinds[i])
}

fn kinds_contains(v: &Vec<ServiceKind>, k: ServiceKind) -> (b: bool)
    ensures
        b == v@.contains(k),
{
    let mut i: usize = 0;
    while i < v.len()
        invariant
            0 <= i <= v@.len(),
            forall|j: int| 0 <= j < i ==> v@[j] != k,
        decreases v@.len() - i,
    {
        if v[i] == k {
            return true;
        }
        i = i + 1;
    }
    false
}

/// Whether some remaining service is of kind `d`.
fn remaining_has_exec(kinds: &Vec<ServiceKind>, rem: &Vec<usize>, d: ServiceKind) -> (b: bool)
    requires
        forall|r: int| 0 <= r < rem@.len() ==> rem@[r] < kinds@.len(),
    ensures
        b == remaining_has(kinds@, usize_ints(rem@), d),
{
    let mut r: usize = 0;
    while r < rem.len()
        invariant
            0 <= r <= rem@.len(),
            forall|x: int| 0 <= x < rem@.len() ==> rem@[x] < kinds@.len(),
            forall|x: int| 0 <= x < r ==> kinds@[rem@[x] as int] != d,
        decreases rem@.len() - r,
    {
        if kinds[rem[r]] == d {
            assert(usize_ints(rem@)[r as int] == rem@[r as int]);
            return true;
        }
        r = r + 1;
    }
    proof {
        if remaining_has(kinds@, usize_ints(rem@), d) {
            let x = choose|x: int| 0 <= x < usize_ints(rem@).len() && kinds@[usize_ints(rem@)[x]] == d;
            assert(usize_ints(rem@)[x] == rem@[x]);
        }
    }
    false
}

/// Whether service `s` can be placed now.
fn deps_met_exec(
    kinds: &Vec<ServiceKind>,
    deps: &Vec<Vec<ServiceKind>>,
    rem: &Vec<usize>,
    ordered: &Vec<ServiceKind>,
    s: usize,
) -> (b: bool)
    requires
        s < deps@.len(),
        forall|r: int| 0 <= r < rem@.len() ==> rem@[r] < kinds@.len(),
    ensures
        b == deps_met(kinds@, deps@.map_values(|d: Vec<ServiceKind>| d@), usize_ints(rem@), ordered@, s as int),
{
    let ghost dv = deps@.map_values(|d: Vec<ServiceKind>| d@);
    let ds = &deps[s];
    assert(dv[s as int] == ds@);
    let mut j: usize = 0;
    while j < ds.len()
        invariant
            0 <= j <= ds@.len(),
            dv == deps@.map_values(|d: Vec<ServiceKind>| d@),
            s < deps@.len(),
            dv[s as int] == ds@,
            forall|r: int| 0 <= r < rem@.len() ==> rem@[r] < kinds@.len(),
            forall|x: int|
                0 <= x < j ==> ordered@.contains(#[trigger] dv[s as int][x]) || !remaining_has(kinds@, usize_ints(rem@), dv[s as int][x]),
        decreases ds@.len() - j,
    {
        let d = ds[j];
        if !kinds_contains(ordered, d) && remaining_has_exec(kinds, rem, d) {
            return false;
        }
        j = j + 1;
    }
    true
}

/// Topological order of services `kinds` (with dependencies `deps`).
pub fn start_order_of(kinds: &Vec<ServiceKind>, deps: &Vec<Vec<ServiceKind>>) -> (r: Vec<ServiceKind>)
    requires
        deps@.len() == kinds@.len(),
    ensures
        r@ == spec_start_order(kinds@, deps@.map_values(|d: Vec<ServiceKind>| d@)),
{
    let ghost dv = deps@.map_values(|d: Vec<ServiceKind>| d@);
    let mut rem: Vec<usize> = Vec::new();
    let mut i: usize = 0;
    while i < kinds.len()
        invariant
            0 <= i <= kinds@.len(),
            rem@.len() == i,
            forall|x: int| 0 <= x < i ==> rem@[x] == x,
        decreases kinds@.len() - i,
    {
        rem.push(i);
        i = i + 1;
    }
    assert(usize_ints(rem@) == all_indices(kinds@.len()));
    let mut ordered: Vec<ServiceKind> = Vec::new();
    let ghost mut placed: Seq<int> = seq![];
    while rem.len() > 0
        invariant
            deps@.len() == kinds@.len(),
            dv == deps@.map_values(|d: Vec<ServiceKind>| d@),
            forall|r: int| 0 <= r < rem@.len() ==> rem@[r] < kinds@.len(),
            ordered@ == kinds_of(kinds@, placed),
            order_from(kinds@, dv, usize_ints(rem@), placed) == start_order_indices(kinds@, dv),
        decreases rem@.len(),
    {
        let ghost remv = usize_ints(rem@);
        // the first placeable service, else the first one (cycle)
        let mut pick: usize = 0;
        let mut found = false;
        let mut p: usize = 0;
        while !found && p < rem.len()
            invariant
                0 <= p <= rem@.len(),
                pick < rem@.len() || !found,
                !found ==> pick == 0,
                remv == usize_ints(rem@),
                deps@.len() == kinds@.len(),
                dv == deps@.map_values(|d: Vec<ServiceKind>| d@),
                forall|r: int| 0 <= r < rem@.len() ==> rem@[r] < kinds@.len(),
                !found ==> first_met(kinds@, dv, remv, ordered@, 0) == first_met(kinds@, dv, remv, ordered@, p as int),
                found ==> first_met(kinds@, dv, remv, ordered@, 0) == Some(pick as int),
            decreases rem@.len() - p,
        {
            assert(remv[p as int] == rem@[p as int]);
            if deps_met_exec(kinds, deps, &rem, &ordered, rem[p]) {
                pick = p;
                found = true;
            }
            p = p + 1;
        }
        if !found {
            assert(first_met(kinds@, dv, remv, ordered@, p as int) is None);
        }
        assert(pick as int == next_pick(kinds@, dv, remv, ordered@));
        let s = rem.remove(pick);
        ordered.push(kinds[s]);
        proof {
            assert(usize_ints(rem@) == remv.remove(pick as int));
            assert(remv[pick as int] == s);
            let np = placed.push(s as int);
            assert(kinds_of(kinds@, np) == kinds_of(kinds@, placed).push(kinds@[s as int]));
            placed = np;
        }
    }
    assert(usize_ints(rem@).len() == 0);
    assert(order_from(kinds@, dv, usize_ints(rem@), placed) == placed);
    ordered
}


// ---------------------------------------------------------------------------
// The orchestrator
// ---------------------------------------------------------------------------

/// Owns the registered services, their process handles and their states.
pub struct Orchestrator {
    paths: LaragonPaths,
    /// The registered services (every slot holds one).
    services: Vec<Option<Box<dyn Service>>>,
    /// The kind each service reported when it was registered.
    kinds: Vec<ServiceKind>,
    /// The dependencies each service reported when it was registered.
    deps: Vec<Vec<ServiceKind>>,
    spawner: Box<dyn ProcessSpawner>,
    /// One slot per kind (see [`kind_index`]).
    handles: Vec<Option<Box<dyn Process>>>,
    /// One slot per kind (see [`kind_index`]).
    states: Vec<ServiceState>,
    /// Of the handle stopped last: its process id and whether it counts
    /// as stopped.
    stopped: Ghost<Option<(u32, bool)>>,
    /// Every spec handed to the spawner, in order, with the error it
    /// answered (`None` when it spawned).
    spawned: Ghost<Seq<(SpawnView, Option<Seq<char>>)>>,
    /// What the last liveness check of a held handle answered.
    alive_seen: Ghost<Option<bool>>,
    /// Every request made of a stack host, in order, with its answer.
    host_calls: Ghost<Seq<HostCall>>,
    /// The outcomes of the preparation steps (initialisation when needed,
    /// then configuration) of the last start that ran them, in order.
    prep: Ghost<Seq<Result<(), ServiceError>>>,
    /// The spec the service's `command` gave in the last start that asked.
    commanded: Ghost<Option<SpawnView>>,
}

pub open spec fn dep_views(deps: Seq<Vec<ServiceKind>>) -> Seq<Seq<ServiceKind>> {
    deps.map_values(|d: Vec<ServiceKind>| d@)
}

/// The service kind and its deps as reported by each service.
fn describe(services: Vec<Box<dyn Service>>) -> (r: (Vec<Option<Box<dyn Service>>>, Vec<ServiceKind>, Vec<Vec<ServiceKind>>))
    ensures
        r.0@.len() == services@.len(),
        r.1@.len() == services@.len(),
        r.2@.len() == services@.len(),
        forall|i: int| 0 <= i < r.0@.len() ==> #[trigger] r.0@[i] is Some,
{
    let mut kinds: Vec<ServiceKind> = Vec::new();
    let mut deps: Vec<Vec<ServiceKind>> = Vec::new();
    let mut slots: Vec<Option<Box<dyn Service>>> = Vec::new();
    let mut i: usize = 0;
    while i < services.len()
        invariant
            0 <= i <= services@.len(),
            kinds@.len() == i,
            deps@.len() == i,
        decreases services@.len() - i,
    {
        kinds.push(services[i].kind());
        deps.push(services[i].deps());
        i = i + 1;
    }
    let mut rest = services;
    let ghost n = rest@.len();
    while rest.len() > 0
        invariant
            slots@.len() + rest@.len() == n,
            forall|j: int| 0 <= j < slots@.len() ==> #[trigger] slots@[j] is Some,
        decreases rest@.len(),
    {
        let first = wrap_first(&mut rest);
        slots.push(first);
    }
    (slots, kinds, deps)
}

/// Take the first service of `v`, wrapped.
fn wrap_first(v: &mut Vec<Box<dyn Service>>) -> (r: Option<Box<dyn Service>>)
    requires
        old(v)@.len() > 0,
    ensures
        r is Some,
        final(v)@.len() == old(v)@.len() - 1,
{
    let s = v.remove(0);
    Some(s)
}

/// The version a requested one resolves to: the exact folder when it
/// exists, else the best installed match, else the requested text as is.
pub open spec fn resolved_version(version: Seq<char>, exact: bool, installed: Seq<Seq<char>>) -> Seq<char> {
    if exact {
        version
    } else {
        match best_installed(installed, version) {
            Some(v) => v,
            None => version,
        }
    }
}

/// The requests of repointing `tool` at `version`: whether its exact
/// folder exists, which versions are installed, then setting `current` to
/// the version that resolves to.
pub open spec fn repoint_record(paths: LaragonPaths, tool: Seq<char>, version: Seq<char>, calls: Seq<HostCall>) -> bool {
    &&& calls.len() == 3
    &&& match (calls[0], calls[1], calls[2]) {
        (HostCall::IsDir(d, exact), HostCall::InstalledVersions(t, inst), HostCall::SetCurrent(t2, v2, _)) => {
            &&& d == paths.spec_version_dir(tool, version)
            &&& t == tool
            &&& t2 == tool
            &&& v2 == resolved_version(version, exact, inst)
        },
        _ => false,
    }
}

/// What setting `current` gave, in a repointing's requests.
pub open spec fn repoint_outcome(calls: Seq<HostCall>) -> Result<(), Seq<char>> {
    match calls[2] {
        HostCall::SetCurrent(_, _, o) => o,
        _ => Ok(()),
    }
}

/// Point `tool`'s `current` at the installed version `version` resolves to
/// (see [`resolve_installed_version`]), through `host`. Also gives the
/// requests made, with the answers.
fn repoint(paths: &LaragonPaths, tool: &str, version: &str, host: &dyn StackHost) -> (r: (Result<(), String>, Ghost<Seq<HostCall>>))
    ensures
        repoint_record(*paths, tool@, version@, r.1@),
        outcome_view(r.0) == repoint_outcome(r.1@),
{
    let exact_dir = paths.version_dir(tool, version);
    let exact = host.is_dir(exact_dir.as_str());
    let installed = host.installed_versions(tool);
    let full = match resolve_installed_version(version, exact, installed.as_slice()) {
        Some(v) => v,
        None => version.to_string(),
    };
    let res = host.set_current(tool, full.as_str());
    let ghost calls = seq![
        HostCall::IsDir(exact_dir@, exact),
        HostCall::InstalledVersions(tool@, installed@.map_values(|s: String| s@)),
        HostCall::SetCurrent(tool@, full@, outcome_view(res)),
    ];
    (res, Ghost(calls))
}

impl Orchestrator {
    /// The per-kind tables have a slot for each kind, and each registered
    /// service has its reported kind and deps.
    pub closed spec fn wf(&self) -> bool {
        &&& self.handles@.len() == KIND_COUNT
        &&& self.states@.len() == KIND_COUNT
        &&& self.kinds@.len() == self.services@.len()
        &&& self.deps@.len() == self.services@.len()
        &&& forall|i: int| 0 <= i < self.services@.len() ==> #[trigger] self.services@[i] is Some
    }

    pub closed spec fn state_view(&self, k: ServiceKind) -> ServiceState {
        self.states@[kind_index(k)]
    }

    /// Whether a process handle is held for `k`.
    pub closed spec fn has_handle(&self, k: ServiceKind) -> bool {
        self.handles@[kind_index(k)] is Some
    }

    /// The kinds of the registered services, in registration order.
    pub closed spec fn kind_list(&self) -> Seq<ServiceKind> {
        self.kinds@
    }

    /// The dependencies of the registered services, in registration order.
    pub closed spec fn dep_list(&self) -> Seq<Seq<ServiceKind>> {
        dep_views(self.deps@)
    }

    /// The process id of the handle held for `k`.
    pub closed spec fn held_pid(&self, k: ServiceKind) -> u32 {
        self.handles@[kind_index(k)].unwrap().process_id()
    }

    /// Of the handle stopped last, if any was: its process id and whether
    /// it counts as stopped (see [`Process::stopped`]).
    pub closed spec fn last_stopped(&self) -> Option<(u32, bool)> {
        self.stopped@
    }

    /// Every spec handed to the spawner, in order, with the error it
    /// answered (`None` when it spawned).
    pub closed spec fn spawn_log(&self) -> Seq<(SpawnView, Option<Seq<char>>)> {
        self.spawned@
    }

    /// Every request made of a stack host, in order, with its answer.
    pub closed spec fn host_log(&self) -> Seq<HostCall> {
        self.host_calls@
    }

    /// The outcomes of the preparation steps (initialisation when needed,
    /// then configuration) that the last start ran, in order.
    pub closed spec fn prep_log(&self) -> Seq<Result<(), ServiceError>> {
        self.prep@
    }

    /// The spec the service's `command` gave in the last start that asked
    /// for one.
    pub closed spec fn last_command(&self) -> Option<SpawnView> {
        self.commanded@
    }

    /// A spawn hands over exactly the spec the service's `command` gave.
    pub open spec fn spawned_as_commanded(&self, old: &Orchestrator) -> bool {
        self.spawned_once(old) ==> self.last_command() == Some(self.spawn_log().last().0)
    }

    /// A preparation step failed: its error ends the start and nothing is
    /// spawned; a spawn follows only steps that all succeeded.
    pub open spec fn prep_respected(&self, old: &Orchestrator, r: Result<(), ServiceError>) -> bool {
        &&& forall|i: int| 0 <= i < self.prep_log().len() && #[trigger] self.prep_log()[i] is Err ==> r == self.prep_log()[i]
            && self.spawn_log() == old.spawn_log()
        &&& self.spawned_once(old) ==> self.prep_log().len() >= 1 && forall|i: int|
            0 <= i < self.prep_log().len() ==> #[trigger] self.prep_log()[i] is Ok
    }

    /// The folders the orchestrator works in.
    pub closed spec fn stack_paths(&self) -> LaragonPaths {
        self.paths
    }

    /// What the last liveness check of a held handle answered, if one was
    /// made.
    pub closed spec fn last_liveness(&self) -> Option<bool> {
        self.alive_seen@
    }

    /// The spawner was asked once more since `old`; its answer is the last
    /// entry.
    pub open spec fn spawned_once(&self, old: &Orchestrator) -> bool {
        &&& self.spawn_log().len() == old.spawn_log().len() + 1
        &&& self.spawn_log().drop_last() == old.spawn_log()
    }

    pub open spec fn registered(&self, k: ServiceKind) -> bool {
        self.kind_list().contains(k)
    }

    /// Everything but the state and handle of `k` is as in `old`.
    pub open spec fn others_same(&self, old: &Orchestrator, k: ServiceKind) -> bool {
        &&& self.kind_list() == old.kind_list()
        &&& self.dep_list() == old.dep_list()
        &&& forall|k2: ServiceKind|
            k2 != k ==> #[trigger] self.state_view(k2) == old.state_view(k2) && self.has_handle(k2) == old.has_handle(k2)
    }

    pub fn new(paths: LaragonPaths, services: Vec<Box<dyn Service>>, spawner: Box<dyn ProcessSpawner>) -> (o: Orchestrator)
        ensures
            o.wf(),
            o.kind_list().len() == services@.len(),
            forall|k: ServiceKind| #[trigger] o.state_view(k) == ServiceState::Stopped && !o.has_handle(k),
    {
        let (services, kinds, deps) = describe(services);
        let mut handles: Vec<Option<Box<dyn Process>>> = Vec::new();
        let mut states: Vec<ServiceState> = Vec::new();
        let mut i: usize = 0;
        while i < KIND_COUNT
            invariant
                0 <= i <= KIND_COUNT,
                handles@.len() == i,
                states@.len() == i,
                forall|j: int| 0 <= j < i ==> handles@[j] is None && states@[j] == ServiceState::Stopped,
            decreases KIND_COUNT - i,
        {
            handles.push(None);
            states.push(ServiceState::Stopped);
            i = i + 1;
        }
        let o = Orchestrator {
            paths,
            services,
            kinds,
            deps,
            spawner,
            handles,
            states,
            stopped: Ghost(None),
            spawned: Ghost(Seq::empty()),
            alive_seen: Ghost(None),
            host_calls: Ghost(Seq::empty()),
            prep: Ghost(Seq::empty()),
            commanded: Ghost(None),
        };
        assert forall|k: ServiceKind| #[trigger] o.state_view(k) == ServiceState::Stopped && !o.has_handle(k) by {
            assert(0 <= kind_index(k) < 8);
        }
        o
    }

    /// The registered service of `kind` (the first one).
    fn find(&self, kind: ServiceKind) -> (r: Option<usize>)
        requires
            self.wf(),
        ensures
            match r {
                Some(i) => i < self.kinds@.len() && self.kinds@[i as int] == kind,
                None => !self.registered(kind),
            },
    {
        let mut i: usize = 0;
        while i < self.kinds.len()
            invariant
                0 <= i <= self.kinds@.len(),
                forall|j: int| 0 <= j < i ==> self.kinds@[j] != kind,
            decreases self.kinds@.len() - i,
        {
            if self.kinds[i] == kind {
                return Some(i);
            }
            i = i + 1;
        }
        None
    }

    pub fn state(&self, kind: ServiceKind) -> (s: ServiceState)
        requires
            self.wf(),
        ensures
            s == self.state_view(kind),
    {
        self.states[kind.index()]
    }

    /// Keep `h` as the handle stopped last.
    fn record_stopped(&mut self, Ghost(h): Ghost<(u32, bool)>)
        requires
            old(self).wf(),
        ensures
            final(self).wf(),
            final(self).others_same(old(self), ServiceKind::Nginx),
            forall|k: ServiceKind| #[trigger] final(self).state_view(k) == old(self).state_view(k),
            forall|k: ServiceKind| #[trigger] final(self).has_handle(k) == old(self).has_handle(k),
            final(self).services@ == old(self).services@,
            final(self).last_stopped() == Some(h),
            final(self).spawn_log() == old(self).spawn_log(),
            final(self).host_log() == old(self).host_log(),
            final(self).stack_paths() == old(self).stack_paths(),
    {
        proof {
            self.stopped@ = Some(h);
        }
    }

    fn set_state(&mut self, kind: ServiceKind, s: ServiceState)
        requires
            old(self).wf(),
        ensures
            final(self).wf(),
            final(self).others_same(old(self), kind),
            final(self).state_view(kind) == s,
            final(self).has_handle(kind) == old(self).has_handle(kind),
            final(self).services@ == old(self).services@,
            final(self).last_stopped() == old(self).last_stopped(),
            final(self).spawn_log() == old(self).spawn_log(),
            final(self).last_liveness() == old(self).last_liveness(),
            final(self).host_log() == old(self).host_log(),
            final(self).stack_paths() == old(self).stack_paths(),
            final(self).prep_log() == old(self).prep_log(),
            final(self).last_command() == old(self).last_command(),
    {
        let i = kind.index();
        self.states.set(i, s);
        assert forall|k2: ServiceKind| k2 != kind implies #[trigger] self.state_view(k2) == old(self).state_view(k2) && self.has_handle(k2) == old(self).has_handle(k2) by {
            assert(kind_index(k2) != kind_index(kind));
        }
    }

    /// Whether the held handle of `kind` reports its process alive (false
    /// when none is held).
    fn handle_alive(&mut self, kind: ServiceKind) -> (b: bool)
        requires
            old(self).wf(),
        ensures
            final(self).wf(),
            final(self).others_same(old(self), kind),
            final(self).state_view(kind) == old(self).state_view(kind),
            final(self).has_handle(kind) == old(self).has_handle(kind),
            final(self).services@ == old(self).services@,
            final(self).spawn_log() == old(self).spawn_log(),
            b ==> old(self).has_handle(kind),
            old(self).has_handle(kind) ==> final(self).last_liveness() == Some(b),
            !old(self).has_handle(kind) ==> final(self).last_liveness() == old(self).last_liveness(),
            final(self).host_log() == old(self).host_log(),
            final(self).stack_paths() == old(self).stack_paths(),
            final(self).prep_log() == old(self).prep_log(),
            final(self).last_command() == old(self).last_command(),
    {
        let i = kind.index();
        let slot = self.handles.remove(i);
        let (alive, back) = match slot {
            Some(mut h) => {
                let a = h.is_alive();
                proof {
                    self.alive_seen@ = Some(a);
                }
                (a, Some(h))
            },
            None => (false, None),
        };
        self.handles.insert(i, back);
        assert forall|k2: ServiceKind| k2 != kind implies #[trigger] self.state_view(k2) == old(self).state_view(k2) && self.has_handle(k2) == old(self).has_handle(k2) by {
            assert(kind_index(k2) != kind_index(kind));
        }
        alive
    }

    /// Start `kind`. A service already running with a live process is left
    /// alone; otherwise its initialisation (when it needs one) and
    /// configuration run, its process is spawned, and its state ends Running,
    /// or Stopped when any step fails.
    pub fn start(&mut self, kind: ServiceKind) -> (r: Result<(), ServiceError>)
        requires
            old(self).wf(),
        ensures
            final(self).wf(),
            final(self).others_same(old(self), kind),
            r is Ok ==> final(self).state_view(kind) == ServiceState::Running,
            r is Ok ==> final(self).has_handle(kind),
            r is Err && old(self).registered(kind) ==> final(self).state_view(kind) == ServiceState::Stopped,
            !old(self).registered(kind) && !(old(self).state_view(kind) == ServiceState::Running && old(self).has_handle(kind))
                ==> (r matches Err(ServiceError::Config(m)) && m@ == "no such service: "@ + kind_label(kind)),
            r is Err && !old(self).registered(kind) ==> final(self).state_view(kind) == old(self).state_view(kind),
            // the spawner is asked at most once; when it is not, either a
            // running service was left alone or a step before the spawn failed
            final(self).spawn_log() == old(self).spawn_log() || final(self).spawned_once(old(self)),
            final(self).spawn_log() == old(self).spawn_log() && r is Ok ==> old(self).state_view(kind) == ServiceState::Running
                && old(self).has_handle(kind) && final(self).has_handle(kind),
            !old(self).registered(kind) ==> final(self).spawn_log() == old(self).spawn_log(),
            // a spawn that failed is the error returned; a new handle is kept
            // only when the spawn succeeded
            final(self).spawned_once(old(self)) ==> (r is Ok <==> final(self).spawn_log().last().1 is None),
            final(self).spawned_once(old(self)) && r is Err ==> (r matches Err(ServiceError::Io(m)) && Some(m@)
                == final(self).spawn_log().last().1),
            r is Err ==> final(self).has_handle(kind) == old(self).has_handle(kind),
            // a running service whose process answers alive is left alone
            old(self).state_view(kind) == ServiceState::Running && old(self).has_handle(kind) ==> final(self).last_liveness() is Some,
            old(self).state_view(kind) == ServiceState::Running && old(self).has_handle(kind) && final(self).last_liveness() == Some(true)
                ==> r is Ok && final(self).spawn_log() == old(self).spawn_log() && final(self).state_view(kind) == ServiceState::Running
                && final(self).has_handle(kind),
            final(self).host_log() == old(self).host_log(),
            final(self).stack_paths() == old(self).stack_paths(),
            // initialisation and configuration come first; a failure ends
            // the start with that error
            final(self).prep_respected(old(self), r),
            final(self).spawned_as_commanded(old(self)),
    {
        proof {
            self.prep@ = seq![];
            self.commanded@ = None;
        }
        if self.state(kind) == ServiceState::Running {
            if self.handle_alive(kind) {
                return Ok(());
            }
        }
        let idx = match self.find(kind) {
            Some(i) => i,
            None => {
                let mut m = String::from_str("no such service: ");
                m.append(kind.label());
                proof {
                    reveal_strlit("no such service: ");
                }
                return Err(ServiceError::Config(m));
            },
        };
        let needs_init = match &self.services[idx] {
            Some(svc) => svc.needs_init(&self.paths),
            None => false,
        };
        self.set_state(kind, ServiceState::Starting);
        match self.do_start(kind, idx, needs_init) {
            Ok(()) => {
                self.set_state(kind, ServiceState::Running);
                Ok(())
            },
            Err(e) => {
                self.set_state(kind, ServiceState::Stopped);
                Err(e)
            },
        }
    }

    /// Initialise (when asked), configure and spawn service `idx`, keeping its
    /// handle under `kind`.
    fn do_start(&mut self, kind: ServiceKind, idx: usize, needs_init: bool) -> (r: Result<(), ServiceError>)
        requires
            old(self).wf(),
            idx < old(self).services@.len(),
        ensures
            final(self).wf(),
            final(self).others_same(old(self), kind),
            final(self).services@ == old(self).services@,
            final(self).state_view(kind) == old(self).state_view(kind),
            r is Ok ==> final(self).has_handle(kind),
            r is Err ==> final(self).has_handle(kind) == old(self).has_handle(kind),
            final(self).spawn_log() == old(self).spawn_log() || final(self).spawned_once(old(self)),
            r is Ok ==> final(self).spawned_once(old(self)),
            final(self).last_liveness() == old(self).last_liveness(),
            final(self).spawned_once(old(self)) ==> (r is Ok <==> final(self).spawn_log().last().1 is None),
            final(self).spawned_once(old(self)) && r is Err ==> (r matches Err(ServiceError::Io(m)) && Some(m@)
                == final(self).spawn_log().last().1),
            final(self).host_log() == old(self).host_log(),
            final(self).stack_paths() == old(self).stack_paths(),
            final(self).prep_respected(old(self), r),
            final(self).spawned_as_commanded(old(self)),
    {
        proof {
            self.prep@ = seq![];
        }
        let svc = match &self.services[idx] {
            Some(svc) => svc,
            None => {
                return Err(ServiceError::Config(String::from_str("unregistered service")));
            },
        };
        if needs_init {
            let res = svc.init(&self.paths);
            proof {
                self.prep@ = self.prep@.push(res);
            }
            match res {
                Ok(()) => {},
                Err(e) => {
                    return Err(e);
                },
            }
        }
        let res = svc.write_config(&self.paths);
        proof {
            self.prep@ = self.prep@.push(res);
        }
        match res {
            Ok(()) => {},
            Err(e) => {
                return Err(e);
            },
        }
        let spec = svc.command(&self.paths);
        let ghost sv = spawn_view(spec);
        proof {
            self.commanded@ = Some(sv);
        }
        let spawned = self.spawner.spawn(&spec);
        let slot = match spawned {
            Ok(h) => {
                proof {
                    self.spawned@ = self.spawned@.push((sv, None));
                }
                Some(h)
            },
            Err(m) => {
                proof {
                    self.spawned@ = self.spawned@.push((sv, Some(m@)));
                    assert(self.spawn_log().drop_last() =~= old(self).spawn_log());
                }
                return Err(ServiceError::Io(m));
            },
        };
        assert(self.spawn_log().drop_last() =~= old(self).spawn_log());
        let i = kind.index();
        let _ = self.handles.remove(i);
        self.handles.insert(i, slot);
        assert forall|k2: ServiceKind| k2 != kind implies #[trigger] self.state_view(k2) == old(self).state_view(k2) && self.has_handle(k2) == old(self).has_handle(k2) by {
            assert(kind_index(k2) != kind_index(kind));
        }
        Ok(())
    }

    /// Stop `kind`: its handle is dropped after the process is stopped; the
    /// state ends Stopped, or Stopping when stopping the process failed.
    pub fn stop(&mut self, kind: ServiceKind) -> (r: Result<(), ServiceError>)
        requires
            old(self).wf(),
        ensures
            final(self).wf(),
            final(self).others_same(old(self), kind),
            !final(self).has_handle(kind),
            r is Ok ==> final(self).state_view(kind) == ServiceState::Stopped,
            r is Err ==> final(self).state_view(kind) == ServiceState::Stopping && old(self).has_handle(kind),
            !old(self).has_handle(kind) ==> r is Ok,
            old(self).has_handle(kind) ==> final(self).last_stopped() == Some((old(self).held_pid(kind), true)),
            r matches Err(ServiceError::Io(_)) || r is Ok,
            final(self).spawn_log() == old(self).spawn_log(),
            final(self).host_log() == old(self).host_log(),
            final(self).stack_paths() == old(self).stack_paths(),
    {
        let i = kind.index();
        let slot = self.handles.remove(i);
        self.handles.insert(i, None);
        assert forall|k2: ServiceKind| k2 != kind implies #[trigger] self.state_view(k2) == old(self).state_view(k2) && self.has_handle(k2) == old(self).has_handle(k2) by {
            assert(kind_index(k2) != kind_index(kind));
        }
        match slot {
            Some(mut h) => {
                self.set_state(kind, ServiceState::Stopping);
                let res = h.stop();
                self.record_stopped(Ghost((h.process_id(), h.stopped())));
                match res {
                    Ok(()) => {},
                    Err(msg) => {
                        return Err(ServiceError::Io(msg));
                    },
                }
            },
            None => {},
        }
        self.set_state(kind, ServiceState::Stopped);
        Ok(())
    }

    /// Reload a running service's config in place (SIGHUP) — used after writing
    /// new vhosts so nginx picks them up without a stop/start. No-op if the
    /// service isn't running.
    pub fn reload(&mut self, kind: ServiceKind) -> (r: Result<(), ServiceError>)
        requires
            old(self).wf(),
        ensures
            final(self).wf(),
            final(self).others_same(old(self), kind),
            final(self).state_view(kind) == old(self).state_view(kind),
            final(self).has_handle(kind) == old(self).has_handle(kind),
            !(old(self).state_view(kind) == ServiceState::Running && old(self).has_handle(kind)) ==> r is Ok,
            r matches Err(ServiceError::Config(m)) ==> exists|e: Seq<char>| m@ == "reload "@ + kind_label(kind) + ": "@ + e,
            r is Err ==> r matches Err(ServiceError::Config(_)),
    {
        if self.state(kind) != ServiceState::Running {
            return Ok(());
        }
        let i = kind.index();
        let slot = self.handles.remove(i);
        let (res, back) = match slot {
            Some(mut h) => {
                let res = if h.is_alive() {
                    match h.reload() {
                        Ok(()) => Ok(()),
                        Err(msg) => {
                            let mut m = String::from_str("reload ");
                            m.append(kind.label());
                            m.append(": ");
                            m.append(msg.as_str());
                            proof {
                                reveal_strlit("reload ");
                                reveal_strlit(": ");
                                assert(m@ == "reload "@ + kind_label(kind) + ": "@ + msg@);
                            }
                            Err(ServiceError::Config(m))
                        },
                    }
                } else {
                    Ok(())
                };
                (res, Some(h))
            },
            None => (Ok(()), None),
        };
        self.handles.insert(i, back);
        assert forall|k2: ServiceKind| k2 != kind implies #[trigger] self.state_view(k2) == old(self).state_view(k2) && self.has_handle(k2) == old(self).has_handle(k2) by {
            assert(kind_index(k2) != kind_index(kind));
        }
        res
    }

    /// Mark any service whose process has died as `Crashed`, dropping its
    /// handle.
    pub fn refresh(&mut self)
        requires
            old(self).wf(),
        ensures
            final(self).wf(),
            final(self).kind_list() == old(self).kind_list(),
            final(self).dep_list() == old(self).dep_list(),
            forall|k: ServiceKind|
                (#[trigger] final(self).state_view(k) == old(self).state_view(k) && final(self).has_handle(k) == old(self).has_handle(k))
                || (old(self).has_handle(k) && !final(self).has_handle(k) && final(self).state_view(k) == ServiceState::Crashed),
    {
        let mut i: usize = 0;
        while i < KIND_COUNT
            invariant
                0 <= i <= KIND_COUNT,
                self.wf(),
                self.kinds@ == old(self).kinds@,
                self.deps@ == old(self).deps@,
                self.services@ == old(self).services@,
                forall|j: int|
                    0 <= j < KIND_COUNT ==> (self.states@[j] == old(self).states@[j] && (self.handles@[j] is Some) == (old(self).handles@[j] is Some))
                    || (j < i && old(self).handles@[j] is Some && self.handles@[j] is None && self.states@[j] == ServiceState::Crashed),
            decreases KIND_COUNT - i,
        {
            let slot = self.handles.remove(i);
            let back = match slot {
                Some(mut h) => {
                    if h.is_alive() {
                        Some(h)
                    } else {
                        self.states.set(i, ServiceState::Crashed);
                        None
                    }
                },
                None => None,
            };
            self.handles.insert(i, back);
            i = i + 1;
        }
        assert forall|k: ServiceKind|
            (#[trigger] self.state_view(k) == old(self).state_view(k) && self.has_handle(k) == old(self).has_handle(k))
            || (old(self).has_handle(k) && !self.has_handle(k) && self.state_view(k) == ServiceState::Crashed) by {
            assert(0 <= kind_index(k) < 8);
        }
    }

    /// Topological order of registered services honoring their dependencies.
    /// Deterministic: respects registration order among independent services.
    pub fn start_order(&self) -> (r: Vec<ServiceKind>)
        requires
            self.wf(),
        ensures
            r@ == spec_start_order(self.kind_list(), self.dep_list()),
    {
        start_order_of(&self.kinds, &self.deps)
    }

    /// Pids of every held handle — the set a reap must not kill.
    fn tracked_pids(&self) -> (r: Vec<u32>)
        requires
            self.wf(),
        ensures
            r@.len() == held_count(self.handles@),
    {
        let mut pids: Vec<u32> = Vec::new();
        let mut i: usize = 0;
        while i < self.handles.len()
            invariant
                0 <= i <= self.handles@.len(),
                pids@.len() == held_count(self.handles@.take(i as int)),
            decreases self.handles@.len() - i,
        {
            assert(self.handles@.take(i + 1).drop_last() == self.handles@.take(i as int));
            assert(self.handles@.take(i + 1).last() == self.handles@[i as int]);
            match &self.handles[i] {
                Some(h) => pids.push(h.pid()),
                None => {},
            }
            i = i + 1;
        }
        assert(self.handles@.take(i as int) == self.handles@);
        pids
    }

    /// Kill any *managed* process (executable under `bin/`) that this
    /// orchestrator does not track — an orphan left by a prior session that
    /// would hold a port or lock. Live services are kept. Returns the pids
    /// `host` reaped.
    pub fn reap_orphans(&mut self, host: &dyn StackHost) -> (reaped: Vec<u32>)
        requires
            old(self).wf(),
        ensures
            *final(self) == *old(self),
    {
        let keep = self.tracked_pids();
        let dir = self.paths.bin();
        host.reap(dir.as_str(), keep.as_slice())
    }

    /// Start every registered service in dependency order (after reaping
    /// orphans), stopping at the first failure.
    pub fn start_all(&mut self, host: &dyn StackHost) -> (r: Result<(), ServiceError>)
        requires
            old(self).wf(),
        ensures
            final(self).wf(),
            final(self).kind_list() == old(self).kind_list(),
            final(self).dep_list() == old(self).dep_list(),
            r is Ok ==> forall|k: ServiceKind|
                #[trigger] old(self).registered(k) ==> final(self).state_view(k) == ServiceState::Running,
            r is Err ==> exists|i: int|
                0 <= i < spec_start_order(old(self).kind_list(), old(self).dep_list()).len()
                && final(self).state_view(#[trigger] spec_start_order(old(self).kind_list(), old(self).dep_list())[i]) == ServiceState::Stopped
                && forall|j: int| 0 <= j < i && spec_start_order(old(self).kind_list(), old(self).dep_list())[j]
                    != spec_start_order(old(self).kind_list(), old(self).dep_list())[i]
                    ==> final(self).state_view(spec_start_order(old(self).kind_list(), old(self).dep_list())[j]) == ServiceState::Running,
    {
        let _ = self.reap_orphans(host);
        let order = self.start_order();
        proof {
            lemma_start_order_kinds(self.kind_list(), self.dep_list());
        }
        let mut i: usize = 0;
        while i < order.len()
            invariant
                0 <= i <= order@.len(),
                self.wf(),
                self.kind_list() == old(self).kind_list(),
                self.dep_list() == old(self).dep_list(),
                forall|k: ServiceKind| old(self).registered(k) <==> #[trigger] order@.contains(k),
                order@ == spec_start_order(old(self).kind_list(), old(self).dep_list()),
                forall|j: int| 0 <= j < i ==> self.state_view(#[trigger] order@[j]) == ServiceState::Running,
            decreases order@.len() - i,
        {
            let k = order[i];
            match self.start(k) {
                Ok(()) => {},
                Err(e) => {
                    proof {
                        assert(order@[i as int] == k);
                        assert(order@.contains(k));
                        assert(self.kind_list().contains(k));
                        assert(self.state_view(order@[i as int]) == ServiceState::Stopped);
                        assert forall|j: int| 0 <= j < i && order@[j] != order@[i as int]
                            implies self.state_view(order@[j]) == ServiceState::Running by {
                            assert(self.state_view(order@[j]) == ServiceState::Running);
                        }
                    }
                    return Err(e);
                },
            }
            assert forall|j: int| 0 <= j < i + 1 implies self.state_view(#[trigger] order@[j]) == ServiceState::Running by {
                if order@[j] != k {
                    assert(self.state_view(order@[j]) == ServiceState::Running);
                }
            }
            i = i + 1;
        }
        assert forall|k: ServiceKind| #[trigger] old(self).registered(k) implies self.state_view(k) == ServiceState::Running by {
            assert(order@.contains(k));
            let j = choose|j: int| 0 <= j < order@.len() && order@[j] == k;
            assert(self.state_view(order@[j]) == ServiceState::Running);
        }
        Ok(())
    }

    /// Stop every registered service, dependents first (reverse start order).
    pub fn stop_all(&mut self)
        requires
            old(self).wf(),
        ensures
            final(self).wf(),
            final(self).kind_list() == old(self).kind_list(),
            final(self).dep_list() == old(self).dep_list(),
            forall|k: ServiceKind|
                #[trigger] old(self).registered(k) ==> !final(self).has_handle(k) && (final(self).state_view(k) == ServiceState::Stopped
                    || final(self).state_view(k) == ServiceState::Stopping),
    {
        let order = self.start_order();
        proof {
            lemma_start_order_kinds(self.kind_list(), self.dep_list());
        }
        let mut i: usize = order.len();
        while i > 0
            invariant
                0 <= i <= order@.len(),
                self.wf(),
                self.kind_list() == old(self).kind_list(),
                self.dep_list() == old(self).dep_list(),
                forall|k: ServiceKind| old(self).registered(k) ==> #[trigger] order@.contains(k),
                forall|j: int|
                    i <= j < order@.len() ==> !self.has_handle(#[trigger] order@[j]) && (self.state_view(order@[j]) == ServiceState::Stopped
                        || self.state_view(order@[j]) == ServiceState::Stopping),
            decreases i,
        {
            let k = order[i - 1];
            let _ = self.stop(k);
            assert forall|j: int| i - 1 <= j < order@.len() implies !self.has_handle(#[trigger] order@[j]) && (self.state_view(order@[j]) == ServiceState::Stopped
                || self.state_view(order@[j]) == ServiceState::Stopping) by {
                if order@[j] != k {
                    assert(i <= j);
                }
            }
            i = i - 1;
        }
        assert forall|k: ServiceKind| #[trigger] old(self).registered(k) implies !self.has_handle(k) && (self.state_view(k) == ServiceState::Stopped
            || self.state_view(k) == ServiceState::Stopping) by {
            assert(order@.contains(k));
            let j = choose|j: int| 0 <= j < order@.len() && order@[j] == k;
            assert(!self.has_handle(order@[j]));
        }
    }

    /// Snapshot of every registered service in dependency-start order.
    pub fn snapshot(&self) -> (r: Vec<ServiceStatus>)
        requires
            self.wf(),
        ensures
            r@.len() == spec_start_order(self.kind_list(), self.dep_list()).len(),
            forall|i: int| 0 <= i < r@.len() ==> (#[trigger] r@[i]).kind == spec_start_order(self.kind_list(), self.dep_list())[i]
                && r@[i].state == self.state_view(r@[i].kind),
    {
        let order = self.start_order();
        let mut out: Vec<ServiceStatus> = Vec::new();
        let mut i: usize = 0;
        while i < order.len()
            invariant
                0 <= i <= order@.len(),
                self.wf(),
                out@.len() == i,
                forall|j: int| 0 <= j < i ==> (#[trigger] out@[j]).kind == order@[j] && out@[j].state == self.state_view(out@[j].kind),
            decreases order@.len() - i,
        {
            let k = order[i];
            out.push(ServiceStatus { kind: k, state: self.state(k) });
            i = i + 1;
        }
        out
    }

    /// Swap the active php-fpm version: stop php-fpm if running, reap orphan
    /// php processes, point `bin/php/current` at the installed version that
    /// `version` resolves to (or `version` itself), and restart php-fpm iff it
    /// had been running. Returns whether it had been running.
    pub fn replace_php_version(&mut self, version: &str, host: &dyn StackHost) -> (r: Result<bool, ServiceError>)
        requires
            old(self).wf(),
        ensures
            final(self).wf(),
            final(self).others_same(old(self), ServiceKind::PhpFpm),
            r matches Ok(b) ==> b == (old(self).state_view(ServiceKind::PhpFpm) == ServiceState::Running),
            r matches Ok(true) ==> final(self).state_view(ServiceKind::PhpFpm) == ServiceState::Running,
            r matches Ok(true) ==> final(self).spawned_once(old(self)) && final(self).spawn_log().last().1 is None,
            r matches Ok(false) ==> final(self).spawn_log() == old(self).spawn_log(),
            r matches Ok(false) ==> final(self).state_view(ServiceKind::PhpFpm) == old(self).state_view(ServiceKind::PhpFpm)
                && final(self).has_handle(ServiceKind::PhpFpm) == old(self).has_handle(ServiceKind::PhpFpm),
            // the host is asked to reap the php folder, then the link is
            // repointed at the resolved version
            final(self).host_log().len() == old(self).host_log().len() + 4,
            final(self).host_log().take(old(self).host_log().len() as int) == old(self).host_log(),
            final(self).host_log()[old(self).host_log().len() as int] == HostCall::Reap(old(self).stack_paths().spec_tool_dir("php"@)),
            repoint_record(old(self).stack_paths(), "php"@, version@, final(self).host_log().skip(old(self).host_log().len() as int + 1)),
            repoint_outcome(final(self).host_log().skip(old(self).host_log().len() as int + 1)) matches Err(m) ==> (r matches Err(
                ServiceError::Config(msg),
            ) && msg@ == "set php current: "@ + m),
            repoint_outcome(final(self).host_log().skip(old(self).host_log().len() as int + 1)) is Ok && old(self).state_view(ServiceKind::PhpFpm)
                != ServiceState::Running ==> r == Ok::<bool, ServiceError>(false),
    {
        let ghost h0 = self.host_calls@;
        let was_running = self.state(ServiceKind::PhpFpm) == ServiceState::Running;
        if was_running {
            let _ = self.stop(ServiceKind::PhpFpm);
        }
        let keep = self.tracked_pids();
        let bin = self.paths.tool_dir("php");
        let _ = host.reap(bin.as_str(), keep.as_slice());
        let ghost pre = *self;
        proof {
            self.host_calls@ = self.host_calls@.push(HostCall::Reap(bin@));
        }
        let (res, Ghost(calls)) = repoint(&self.paths, "php", version, host);
        proof {
            self.host_calls@ = self.host_calls@ + calls;
            assert(self.host_calls@.take(h0.len() as int) =~= h0);
            assert(self.host_calls@.skip(h0.len() as int + 1) =~= calls);
            assert forall|k2: ServiceKind| #[trigger] self.state_view(k2) == pre.state_view(k2) && self.has_handle(k2) == pre.has_handle(k2) by {}
        }
        match res {
            Ok(()) => {},
            Err(msg) => {
                let mut m = String::from_str("set php current: ");
                m.append(msg.as_str());
                proof {
                    reveal_strlit("set php current: ");
                }
                return Err(ServiceError::Config(m));
            },
        }
        if was_running {
            match self.start(ServiceKind::PhpFpm) {
                Ok(()) => {},
                Err(e) => {
                    return Err(e);
                },
            }
        }
        Ok(was_running)
    }

    /// Swap the active version of the service `kind`, whose tool is `tool`:
    /// stop it if running, point `bin/<tool>/current` at the installed
    /// version that `version` resolves to (or `version` itself), and restart
    /// it iff it had been running. Returns whether it had been running.
    pub fn replace_version(&mut self, kind: ServiceKind, tool: &str, version: &str, host: &dyn StackHost) -> (r: Result<bool, ServiceError>)
        requires
            old(self).wf(),
        ensures
            final(self).wf(),
            final(self).others_same(old(self), kind),
            r matches Ok(b) ==> b == (old(self).state_view(kind) == ServiceState::Running),
            r matches Ok(true) ==> final(self).state_view(kind) == ServiceState::Running,
            r matches Ok(true) ==> final(self).spawned_once(old(self)) && final(self).spawn_log().last().1 is None,
            r matches Ok(false) ==> final(self).spawn_log() == old(self).spawn_log(),
            r matches Ok(false) ==> final(self).state_view(kind) == old(self).state_view(kind) && final(self).has_handle(kind)
                == old(self).has_handle(kind),
            // the link is repointed at the resolved version
            final(self).host_log().len() == old(self).host_log().len() + 3,
            final(self).host_log().take(old(self).host_log().len() as int) == old(self).host_log(),
            repoint_record(old(self).stack_paths(), tool@, version@, final(self).host_log().skip(old(self).host_log().len() as int)),
            repoint_outcome(final(self).host_log().skip(old(self).host_log().len() as int)) matches Err(m) ==> (r matches Err(
                ServiceError::Config(msg),
            ) && msg@ == "set "@ + tool@ + " current: "@ + m),
            repoint_outcome(final(self).host_log().skip(old(self).host_log().len() as int)) is Ok && old(self).state_view(kind)
                != ServiceState::Running ==> r == Ok::<bool, ServiceError>(false),
    {
        let ghost h0 = self.host_calls@;
        let was_running = self.state(kind) == ServiceState::Running;
        if was_running {
            let _ = self.stop(kind);
        }
        let (res, Ghost(calls)) = repoint(&self.paths, tool, version, host);
        let ghost pre = *self;
        proof {
            self.host_calls@ = self.host_calls@ + calls;
            assert(self.host_calls@.take(h0.len() as int) =~= h0);
            assert(self.host_calls@.skip(h0.len() as int) =~= calls);
            assert forall|k2: ServiceKind| #[trigger] self.state_view(k2) == pre.state_view(k2) && self.has_handle(k2) == pre.has_handle(k2) by {}
        }
        match res {
            Ok(()) => {},
            Err(msg) => {
                let mut m = String::from_str("set ");
                m.append(tool);
                m.append(" current: ");
                m.append(msg.as_str());
                proof {
                    reveal_strlit("set ");
                    reveal_strlit(" current: ");
                    assert(m@ =~= "set "@ + tool@ + " current: "@ + msg@);
                }
                return Err(ServiceError::Config(m));
            },
        }
        if was_running {
            match self.start(kind) {
                Ok(()) => {},
                Err(e) => {
                    return Err(e);
                },
            }
        }
        Ok(was_running)
    }

    /// Replace the CoreDNS service: stop and unregister any existing one,
    /// then register and start `coredns` when given (none when the site list
    /// has no base domains).
    pub fn set_coredns(&mut self, coredns: Option<Box<dyn Service>>) -> (r: Result<(), ServiceError>)
        requires
            old(self).wf(),
        ensures
            final(self).wf(),
            coredns is None ==> r is Ok && !final(self).registered(ServiceKind::Coredns),
            forall|k: ServiceKind| k != ServiceKind::Coredns ==> #[trigger] final(self).state_view(k) == old(self).state_view(k)
                && final(self).has_handle(k) == old(self).has_handle(k),
            coredns is Some && r is Ok ==> final(self).state_view(ServiceKind::Coredns) == ServiceState::Running,
            // with no service, a running CoreDNS is stopped: Stopped, or
            // Stopping when its process refused to stop
            coredns is None && old(self).state_view(ServiceKind::Coredns) == ServiceState::Running ==> !final(self).has_handle(
                ServiceKind::Coredns,
            ) && (final(self).state_view(ServiceKind::Coredns) == ServiceState::Stopped || final(self).state_view(ServiceKind::Coredns)
                == ServiceState::Stopping),
            coredns is None && old(self).state_view(ServiceKind::Coredns) == ServiceState::Running && !old(self).has_handle(
                ServiceKind::Coredns,
            ) ==> final(self).state_view(ServiceKind::Coredns) == ServiceState::Stopped,
            coredns is None && old(self).state_view(ServiceKind::Coredns) == ServiceState::Running && old(self).has_handle(
                ServiceKind::Coredns,
            ) ==> final(self).last_stopped() == Some((old(self).held_pid(ServiceKind::Coredns), true)),
            coredns is None && old(self).state_view(ServiceKind::Coredns) != ServiceState::Running ==> final(self).state_view(
                ServiceKind::Coredns,
            ) == old(self).state_view(ServiceKind::Coredns),
            coredns is None ==> final(self).spawn_log() == old(self).spawn_log(),
    {
        if self.state(ServiceKind::Coredns) == ServiceState::Running {
            let _ = self.stop(ServiceKind::Coredns);
        }
        // unregister every CoreDNS service
        let ghost mid = *self;
        let ghost st0 = self.states@;
        let ghost h0 = self.handles@;
        let mut i: usize = self.services.len();
        while i > 0
            invariant
                0 <= i <= self.services@.len(),
                self.wf(),
                self.states@ == st0,
                self.handles@ == h0,
                self.stopped == mid.stopped,
                self.spawned == mid.spawned,
                forall|j: int| i <= j < self.kinds@.len() ==> self.kinds@[j] != ServiceKind::Coredns,
            decreases i,
        {
            if self.kinds[i - 1] == ServiceKind::Coredns {
                let ghost before = self.services@;
                let _ = self.services.remove(i - 1);
                let _ = self.kinds.remove(i - 1);
                let _ = self.deps.remove(i - 1);
                assert forall|j: int| 0 <= j < self.services@.len() implies #[trigger] self.services@[j] is Some by {
                    if j >= i - 1 {
                        assert(self.services@[j] == before[j + 1]);
                    } else {
                        assert(self.services@[j] == before[j]);
                    }
                }
            }
            i = i - 1;
        }
        assert forall|k: ServiceKind| k != ServiceKind::Coredns implies #[trigger] self.state_view(k) == old(self).state_view(k)
            && self.has_handle(k) == old(self).has_handle(k) by {
            assert(mid.state_view(k) == old(self).state_view(k));
            assert(mid.has_handle(k) == old(self).has_handle(k));
        }
        let described = match &coredns {
            None => None,
            Some(svc) => Some((svc.kind(), svc.deps())),
        };
        match described {
            None => Ok(()),
            Some((k, d)) => {
                let ghost s1 = *self;
                self.services.push(coredns);
                self.kinds.push(k);
                self.deps.push(d);
                let ghost s2 = *self;
                let r = self.start(ServiceKind::Coredns);
                assert forall|k2: ServiceKind| k2 != ServiceKind::Coredns implies #[trigger] self.state_view(k2) == old(self).state_view(k2)
                    && self.has_handle(k2) == old(self).has_handle(k2) by {
                    assert(s2.state_view(k2) == s1.state_view(k2));
                    assert(s2.has_handle(k2) == s1.has_handle(k2));
                    assert(s1.state_view(k2) == old(self).state_view(k2));
                }
                r
            },
        }
    }
}

// ---------------------------------------------------------------------------
// Laws of the start order
// ---------------------------------------------------------------------------

pub open spec fn in_range(idx: Seq<int>, n: int) -> bool {
    forall|i: int| 0 <= i < idx.len() ==> 0 <= #[trigger] idx[i] < n
}

proof fn lemma_next_pick_in_range(kinds: Seq<ServiceKind>, deps: Seq<Seq<ServiceKind>>, rem: Seq<int>, ordered: Seq<ServiceKind>)
    requires
        rem.len() > 0,
    ensures
        0 <= next_pick(kinds, deps, rem, ordered) < rem.len(),
{
}

/// Every placed or remaining service keeps its kind through the ordering.
proof fn lemma_order_multiset(kinds: Seq<ServiceKind>, deps: Seq<Seq<ServiceKind>>, rem: Seq<int>, placed: Seq<int>)
    requires
        in_range(rem, kinds.len() as int),
        in_range(placed, kinds.len() as int),
    ensures
        kinds_of(kinds, order_from(kinds, deps, rem, placed)).to_multiset() == kinds_of(kinds, placed).to_multiset().add(
            kinds_of(kinds, rem).to_multiset(),
        ),
    decreases rem.len(),
{
    broadcast use vstd::seq_lib::group_to_multiset_ensures;
    if rem.len() == 0 {
        assert(kinds_of(kinds, rem) =~= Seq::<ServiceKind>::empty());
        assert(kinds_of(kinds, rem).to_multiset() =~= vstd::multiset::Multiset::<ServiceKind>::empty());
        assert(kinds_of(kinds, placed).to_multiset().add(vstd::multiset::Multiset::<ServiceKind>::empty()) =~= kinds_of(kinds, placed).to_multiset());
    } else {
        let ordered = kinds_of(kinds, placed);
        let p = next_pick(kinds, deps, rem, ordered);
        lemma_next_pick_in_range(kinds, deps, rem, ordered);
        let x = rem[p];
        let rem2 = rem.remove(p);
        let placed2 = placed.push(x);
        assert(in_range(rem2, kinds.len() as int)) by {
            assert forall|i: int| 0 <= i < rem2.len() implies 0 <= #[trigger] rem2[i] < kinds.len() by {
                if i < p {
                    assert(rem2[i] == rem[i]);
                } else {
                    assert(rem2[i] == rem[i + 1]);
                }
            }
        }
        lemma_order_multiset(kinds, deps, rem2, placed2);
        assert(kinds_of(kinds, placed2) =~= kinds_of(kinds, placed).push(kinds[x]));
        assert(kinds_of(kinds, rem2) =~= kinds_of(kinds, rem).remove(p));
        assert(kinds_of(kinds, rem)[p] == kinds[x]);
        let a = kinds_of(kinds, placed).to_multiset();
        let b = kinds_of(kinds, rem).to_multiset();
        assert(b.count(kinds[x]) > 0) by {
            assert(kinds_of(kinds, rem).contains(kinds[x]));
        }
        assert(a.insert(kinds[x]).add(b.remove(kinds[x])) =~= a.add(b));
    }
}

/// The start order lists exactly the registered services' kinds, each as
/// often as it is registered.
pub proof fn lemma_start_order_is_permutation(kinds: Seq<ServiceKind>, deps: Seq<Seq<ServiceKind>>)
    ensures
        spec_start_order(kinds, deps).to_multiset() == kinds.to_multiset(),
{
    broadcast use vstd::seq_lib::group_to_multiset_ensures;
    let all = all_indices(kinds.len());
    lemma_order_multiset(kinds, deps, all, seq![]);
    assert(kinds_of(kinds, all) =~= kinds);
    assert(kinds_of(kinds, Seq::<int>::empty()) =~= Seq::<ServiceKind>::empty());
    assert(Seq::<ServiceKind>::empty().to_multiset() =~= vstd::multiset::Multiset::<ServiceKind>::empty());
    assert(vstd::multiset::Multiset::<ServiceKind>::empty().add(kinds.to_multiset()) =~= kinds.to_multiset());
}

/// Every registered kind occurs in the start order.
pub proof fn lemma_start_order_kinds(kinds: Seq<ServiceKind>, deps: Seq<Seq<ServiceKind>>)
    ensures
        forall|k: ServiceKind| kinds.contains(k) <==> #[trigger] spec_start_order(kinds, deps).contains(k),
{
    broadcast use vstd::seq_lib::group_to_multiset_ensures;
    lemma_start_order_is_permutation(kinds, deps);
    assert forall|k: ServiceKind| kinds.contains(k) <==> #[trigger] spec_start_order(kinds, deps).contains(k) by {
        if kinds.contains(k) {
            assert(kinds.to_multiset().count(k) > 0);
            assert(spec_start_order(kinds, deps).to_multiset().count(k) > 0);
        }
        if spec_start_order(kinds, deps).contains(k) {
            assert(spec_start_order(kinds, deps).to_multiset().count(k) > 0);
            assert(kinds.to_multiset().count(k) > 0);
        }
    }
}

/// How many slots hold a process handle.
pub open spec fn held_count(hs: Seq<Option<Box<dyn Process>>>) -> nat
    decreases hs.len(),
{
    if hs.len() == 0 {
        0
    } else {
        held_count(hs.drop_last()) + if hs.last() is Some { 1nat } else { 0nat }
    }
}

/// A rank per kind that every registered dependency undercuts: the
/// dependency graph among the registered services has no cycle.
pub open spec fn ranked(kinds: Seq<ServiceKind>, deps: Seq<Seq<ServiceKind>>, rank: spec_fn(ServiceKind) -> nat) -> bool {
    forall|s: int, j: int|
        0 <= s < kinds.len() && 0 <= j < deps[s].len() && kinds.contains(#[trigger] deps[s][j]) ==> rank(deps[s][j]) < rank(
            kinds[s],
        )
}

/// Each placed service comes after every registered service it depends on.
pub open spec fn deps_before(kinds: Seq<ServiceKind>, deps: Seq<Seq<ServiceKind>>, placed: Seq<int>) -> bool {
    forall|q: int, j: int|
        0 <= q < placed.len() && 0 <= j < deps[placed[q]].len() && kinds.contains(#[trigger] deps[placed[q]][j])
            ==> exists|p: int| 0 <= p < q && kinds[#[trigger] placed[p]] == deps[placed[q]][j]
}

/// A remaining service of lowest rank.
proof fn lemma_min_rank(kinds: Seq<ServiceKind>, rem: Seq<int>, rank: spec_fn(ServiceKind) -> nat) -> (m: int)
    requires
        rem.len() > 0,
    ensures
        0 <= m < rem.len(),
        forall|r: int| 0 <= r < rem.len() ==> rank(kinds[rem[m]]) <= rank(kinds[#[trigger] rem[r]]),
    decreases rem.len(),
{
    if rem.len() == 1 {
        0
    } else {
        let m0 = lemma_min_rank(kinds, rem.drop_last(), rank);
        assert forall|r: int| 0 <= r < rem.len() - 1 implies rank(kinds[rem[m0]]) <= rank(kinds[#[trigger] rem[r]]) by {
            assert(rem.drop_last()[r] == rem[r]);
        }
        if rank(kinds[rem.last()]) < rank(kinds[rem[m0]]) {
            (rem.len() - 1) as int
        } else {
            m0
        }
    }
}

/// `first_met` finds a placeable service when there is one at or after `from`.
proof fn lemma_first_met_some(
    kinds: Seq<ServiceKind>,
    deps: Seq<Seq<ServiceKind>>,
    rem: Seq<int>,
    ordered: Seq<ServiceKind>,
    from: int,
    w: int,
)
    requires
        0 <= from <= w < rem.len(),
        deps_met(kinds, deps, rem, ordered, rem[w]),
    ensures
        first_met(kinds, deps, rem, ordered, from) matches Some(i) && from <= i < rem.len() && deps_met(kinds, deps, rem, ordered, rem[i]),
    decreases rem.len() - from,
{
    if !deps_met(kinds, deps, rem, ordered, rem[from]) {
        lemma_first_met_some(kinds, deps, rem, ordered, from + 1, w);
    }
}

/// Without a cycle, some remaining service can always be placed.
proof fn lemma_met_exists(
    kinds: Seq<ServiceKind>,
    deps: Seq<Seq<ServiceKind>>,
    rem: Seq<int>,
    ordered: Seq<ServiceKind>,
    rank: spec_fn(ServiceKind) -> nat,
)
    requires
        rem.len() > 0,
        deps.len() == kinds.len(),
        in_range(rem, kinds.len() as int),
        ranked(kinds, deps, rank),
    ensures
        first_met(kinds, deps, rem, ordered, 0) matches Some(i) && 0 <= i < rem.len() && deps_met(kinds, deps, rem, ordered, rem[i]),
{
    let m = lemma_min_rank(kinds, rem, rank);
    let s = rem[m];
    assert(0 <= s < kinds.len());
    assert forall|j: int| 0 <= j < deps[s].len() implies ordered.contains(#[trigger] deps[s][j]) || !remaining_has(kinds, rem, deps[s][j]) by {
        let d = deps[s][j];
        if remaining_has(kinds, rem, d) {
            let r = choose|r: int| 0 <= r < rem.len() && kinds[rem[r]] == d;
            assert(0 <= rem[r] < kinds.len());
            assert(kinds.contains(d));
            assert(rank(d) < rank(kinds[s]));
            assert(rank(kinds[rem[m]]) <= rank(kinds[rem[r]]));
        }
    }
    lemma_first_met_some(kinds, deps, rem, ordered, 0, m);
}

/// Placing the next service keeps every service placed after its
/// registered dependencies, as long as nothing is lost on the way.
proof fn lemma_order_deps(
    kinds: Seq<ServiceKind>,
    deps: Seq<Seq<ServiceKind>>,
    rem: Seq<int>,
    placed: Seq<int>,
    rank: spec_fn(ServiceKind) -> nat,
)
    requires
        deps.len() == kinds.len(),
        ranked(kinds, deps, rank),
        in_range(rem, kinds.len() as int),
        in_range(placed, kinds.len() as int),
        forall|t: int| 0 <= t < kinds.len() ==> placed.contains(t) || rem.contains(t),
        deps_before(kinds, deps, placed),
    ensures
        deps_before(kinds, deps, order_from(kinds, deps, rem, placed)),
    decreases rem.len(),
{
    if rem.len() > 0 {
        let ordered = kinds_of(kinds, placed);
        lemma_met_exists(kinds, deps, rem, ordered, rank);
        let p = next_pick(kinds, deps, rem, ordered);
        assert(deps_met(kinds, deps, rem, ordered, rem[p]));
        let x = rem[p];
        let rem2 = rem.remove(p);
        let placed2 = placed.push(x);
        assert(in_range(rem2, kinds.len() as int)) by {
            assert forall|i: int| 0 <= i < rem2.len() implies 0 <= #[trigger] rem2[i] < kinds.len() by {
                if i < p {
                    assert(rem2[i] == rem[i]);
                } else {
                    assert(rem2[i] == rem[i + 1]);
                }
            }
        }
        assert(in_range(placed2, kinds.len() as int)) by {
            assert forall|i: int| 0 <= i < placed2.len() implies 0 <= #[trigger] placed2[i] < kinds.len() by {
                if i < placed.len() {
                    assert(placed2[i] == placed[i]);
                }
            }
        }
        assert forall|t: int| 0 <= t < kinds.len() implies placed2.contains(t) || rem2.contains(t) by {
            if placed.contains(t) {
                let a = choose|a: int| 0 <= a < placed.len() && placed[a] == t;
                assert(placed2[a] == t);
            } else {
                let r = choose|r: int| 0 <= r < rem.len() && rem[r] == t;
                if r == p {
                    assert(placed2[placed.len() as int] == t);
                } else if r < p {
                    assert(rem2[r] == t);
                } else {
                    assert(rem2[r - 1] == t);
                }
            }
        }
        assert forall|q: int, j: int|
            0 <= q < placed2.len() && 0 <= j < deps[placed2[q]].len() && kinds.contains(#[trigger] deps[placed2[q]][j])
                implies exists|a: int| 0 <= a < q && kinds[#[trigger] placed2[a]] == deps[placed2[q]][j] by {
            if q < placed.len() {
                assert(placed2[q] == placed[q]);
                let a = choose|a: int| 0 <= a < q && kinds[#[trigger] placed[a]] == deps[placed[q]][j];
                assert(placed2[a] == placed[a]);
            } else {
                assert(placed2[q] == x);
                let d = deps[x][j];
                if ordered.contains(d) {
                    let a = choose|a: int| 0 <= a < ordered.len() && ordered[a] == d;
                    assert(ordered[a] == kinds[placed[a]]);
                    assert(placed2[a] == placed[a]);
                } else {
                    assert(!remaining_has(kinds, rem, d));
                    let t = choose|t: int| 0 <= t < kinds.len() && kinds[t] == d;
                    if rem.contains(t) {
                        let r = choose|r: int| 0 <= r < rem.len() && rem[r] == t;
                        assert(kinds[rem[r]] == d);
                    }
                    assert(placed.contains(t));
                    let a = choose|a: int| 0 <= a < placed.len() && placed[a] == t;
                    assert(placed2[a] == placed[a]);
                }
            }
        }
        lemma_order_deps(kinds, deps, rem2, placed2, rank);
    }
}

/// Dependencies start first: when the registered services' dependencies form
/// no cycle (some rank undercuts along every dependency), every service in
/// the start order comes after each registered service it depends on.
pub proof fn lemma_start_order_respects_deps(kinds: Seq<ServiceKind>, deps: Seq<Seq<ServiceKind>>, rank: spec_fn(ServiceKind) -> nat)
    requires
        deps.len() == kinds.len(),
        ranked(kinds, deps, rank),
    ensures
        deps_before(kinds, deps, start_order_indices(kinds, deps)),
{
    let all = all_indices(kinds.len());
    assert(in_range(all, kinds.len() as int));
    assert(in_range(Seq::<int>::empty(), kinds.len() as int));
    assert forall|t: int| 0 <= t < kinds.len() implies Seq::<int>::empty().contains(t) || all.contains(t) by {
        assert(all[t] == t);
    }
    lemma_order_deps(kinds, deps, all, seq![], rank);
}

} // verus!
