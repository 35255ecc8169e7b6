//! Running service processes: the handle and spawner interfaces the
//! orchestrator drives, and recording fakes of both.
use crate::service::{arg_views, SpawnSpec};
use std::sync::Arc;
use vstd::cell::invcell::InvCell;
use vstd::predicate::Predicate;
use vstd::prelude::*;

verus! {

/// A running process handle. Errors carry the operating system's message.
pub trait Process {
    /// The process id this handle stands for.
    spec fn process_id(&self) -> u32;

    /// Whether a stop was asked of this handle.
    spec fn stopped(&self) -> bool;

    fn is_alive(&mut self) -> (b: bool)
        ensures
            final(self).process_id() == old(self).process_id(),
            final(self).stopped() == old(self).stopped();

    /// Ask the process to end; the handle then counts as stopped.
    fn stop(&mut self) -> (r: Result<(), String>)
        ensures
            final(self).process_id() == old(self).process_id(),
            final(self).stopped();

    /// Ask the process to reload its configuration in place (SIGHUP). For nginx
    /// this re-reads vhosts WITHOUT closing the listening sockets, so applying a
    /// new site never rebinds :80/:443.
    fn reload(&mut self) -> Result<(), String>;

    fn pid(&self) -> (p: u32)
        ensures
            p == self.process_id();
}

/// Spawns processes from a `SpawnSpec`. Hidden behind a trait so the
/// orchestrator can be tested without launching real binaries.
pub trait ProcessSpawner {
    fn spawn(&self, spec: &SpawnSpec) -> Result<Box<dyn Process>, String>;
}

/// Any list of specs may be recorded.
pub struct AnyLog;

impl Predicate<Vec<SpawnSpec>> for AnyLog {
    open spec fn predicate(&self, v: Vec<SpawnSpec>) -> bool {
        true
    }
}

/// The shared record of every spec a [`FakeSpawner`] spawned, in order.
#[derive(Clone)]
pub struct SpawnLog {
    cell: Arc<InvCell<Vec<SpawnSpec>, AnyLog>>,
}

/// Copies of the specs in `v`.
fn copy_specs(v: &Vec<SpawnSpec>) -> (r: Vec<SpawnSpec>)
    ensures
        r@.len() == v@.len(),
        forall|i: int| 0 <= i < v@.len() ==> (#[trigger] r@[i]).program@ == v@[i].program@
            && arg_views(r@[i].args@) == arg_views(v@[i].args@),
{
    let mut r: Vec<SpawnSpec> = Vec::new();
    let mut i: usize = 0;
    while i < v.len()
        invariant
            0 <= i <= v@.len(),
            r@.len() == i,
            forall|j: int| 0 <= j < i ==> (#[trigger] r@[j]).program@ == v@[j].program@
                && arg_views(r@[j].args@) == arg_views(v@[j].args@),
        decreases v@.len() - i,
    {
        r.push(v[i].duplicate());
        i = i + 1;
    }
    r
}

impl SpawnLog {
    /// The specs recorded so far.
    pub fn entries(&self) -> Vec<SpawnSpec> {
        let v = self.cell.replace(Vec::new());
        let copy = copy_specs(&v);
        self.cell.replace(v);
        copy
    }

    /// How many specs were recorded.
    pub fn len(&self) -> usize {
        let v = self.cell.replace(Vec::new());
        let n = v.len();
        self.cell.replace(v);
        n
    }

    pub fn is_empty(&self) -> bool {
        self.len() == 0
    }
}

/// A spawner that records every spec and hands out live fake processes.
#[derive(Clone)]
pub struct FakeSpawner {
    log: SpawnLog,
}

impl FakeSpawner {
    pub fn new() -> (s: FakeSpawner) {
        let cell = InvCell::new(Vec::new(), Ghost(AnyLog));
        FakeSpawner { log: SpawnLog { cell: Arc::new(cell) } }
    }

    /// Shared record of every spec that was spawned, in order.
    pub fn log(&self) -> SpawnLog {
        self.log.clone()
    }
}

/// A process that is alive until stopped.
pub struct FakeProcess {
    alive: bool,
    pid: u32,
}

impl FakeProcess {
    pub fn new(pid: u32) -> (p: FakeProcess)
        ensures
            p.is_running(),
            p.pid_view() == pid,
    {
        FakeProcess { alive: true, pid }
    }

    pub closed spec fn is_running(&self) -> bool {
        self.alive
    }

    pub closed spec fn pid_view(&self) -> u32 {
        self.pid
    }
}

impl Process for FakeProcess {
    closed spec fn process_id(&self) -> u32 {
        self.pid
    }

    closed spec fn stopped(&self) -> bool {
        !self.alive
    }

    fn is_alive(&mut self) -> (b: bool) {
        self.alive
    }

    fn stop(&mut self) -> (r: Result<(), String>)
        ensures
            r is Ok,
            !final(self).is_running(),
            final(self).pid_view() == old(self).pid_view(),
    {
        self.alive = false;
        Ok(())
    }

    fn reload(&mut self) -> Result<(), String> {
        Ok(())
    }

    fn pid(&self) -> u32 {
        self.pid
    }
}

impl ProcessSpawner for FakeSpawner {
    fn spawn(&self, spec: &SpawnSpec) -> (r: Result<Box<dyn Process>, String>)
        ensures
            r is Ok,
    {
        let mut log = self.log.cell.replace(Vec::new());
        log.push(spec.duplicate());
        let n = log.len();
        self.log.cell.replace(log);
        let pid: u32 = if n <= 0xFFFF_FFFF - 1000 {
            (1000 + n) as u32
        } else {
            0xFFFF_FFFF
        };
        Ok(Box::new(FakeProcess { alive: true, pid }))
    }
}

} // verus!
