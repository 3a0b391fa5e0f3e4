//! Commands, events and job snapshots exchanged between a front end and the
//! download manager.
use vstd::prelude::*;

use crate::book::EpubVersion;
use crate::model::{Selection, Stage};

verus! {

/// Identifies a job.
pub type JobId = u64;

/// A command from the front end.
#[derive(Debug)]
pub enum Command {
    /// Queue a new job.
    CreateJob { url: String, selection: Selection, version: EpubVersion },
    /// Start a queued job.
    StartJob { job_id: JobId },
    /// Ask a job to stop.
    CancelJob { job_id: JobId },
    /// Ask every job to stop.
    CancelAll,
    /// Forget a job that has ended.
    RemoveJob { job_id: JobId },
    /// Report every job.
    GetSnapshot,
}

/// What a command gives back.
#[derive(Debug)]
pub enum CommandOutcome {
    /// Nothing in particular.
    Nothing,
    /// The id of the job just created.
    Created(JobId),
    /// The state of every job.
    Snapshot(Vec<JobSnapshot>),
}

/// A lifecycle event sent to the front end.
#[derive(Debug)]
pub enum Event {
    JobCreated { job_id: JobId, url: String },
    JobCompleted { job_id: JobId, path: String },
    JobFailed { job_id: JobId, message: String },
    JobCancelled { job_id: JobId },
}

/// Where a job stands.
#[derive(Debug, Clone, Copy, PartialEq, Eq, Structural)]
pub enum JobStatus {
    Queued,
    Running,
    Completed,
    Failed,
    Cancelled,
}

/// Whether a job in this status has ended.
pub open spec fn is_finished(s: JobStatus) -> bool {
    s == JobStatus::Completed || s == JobStatus::Failed || s == JobStatus::Cancelled
}

/// What the front end can read of one job.
#[derive(Debug)]
pub struct JobSnapshot {
    pub job_id: JobId,
    pub url: String,
    pub status: JobStatus,
    pub stage: Stage,
    /// Overall progress, 0 to 100.
    pub percent: u32,
    pub chapters_done: usize,
    pub chapters_total: usize,
    pub images_done: usize,
    pub images_total: usize,
    pub result_path: Option<String>,
    pub error: Option<String>,
}

/// Receives the manager's events (a terminal printer, a GUI bridge, ...).
pub trait EventSink {
    fn emit(&self, event: Event);
}

} // verus!
