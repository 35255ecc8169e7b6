//! Progress reporting: a sink that a user interface implements to follow
//! downloads and setup steps.
use vstd::prelude::*;

verus! {

/// One progress report.
#[derive(Debug, Clone)]
pub enum ProgressEvent {
    /// A coarse phase change.
    Phase { label: String },
    /// Step progress: `done` of `total`, current item `label`.
    Step { done: usize, total: usize, label: String },
    /// Byte progress of the current file; `total == 0` means unknown.
    Bytes { current: u64, total: u64 },
}

/// Where progress reports go.
pub trait ProgressSink {
    fn emit(&self, ev: ProgressEvent);
}

/// A sink that drops every report.
pub struct NullProgress;

impl ProgressSink for NullProgress {
    fn emit(&self, ev: ProgressEvent) {
    }
}

} // verus!
