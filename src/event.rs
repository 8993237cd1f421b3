//! The progress events that tasks of both kinds report to their observer.
use vstd::prelude::*;

verus! {

/// One progress report of a task. Events are built once and never changed.
pub struct ProgressEvent {
    /// The id of the task the event belongs to.
    pub id: String,
    /// Percent done, from 0 to 100, where known.
    pub progress: Option<u32>,
    /// A human readable status line.
    pub status: String,
    /// Whether the task is paused, where the event says so.
    pub is_paused: Option<bool>,
    /// Set on the last event of a task that ended without error.
    pub finished: Option<bool>,
    /// The error that ended the task, if one did.
    pub error: Option<String>,
}

impl ProgressEvent {
    /// A plain progress report.
    pub fn progress(id: &String, percent: u32, status: &str) -> (r: ProgressEvent)
        ensures
            r.id@ == id@,
            r.progress == Some(percent),
            r.status@ == status@,
            r.is_paused is None,
            r.finished is None,
            r.error is None,
    {
        ProgressEvent {
            id: id.clone(),
            progress: Some(percent),
            status: String::from_str(status),
            is_paused: None,
            finished: None,
            error: None,
        }
    }

    /// A status line without a percent.
    pub fn status(id: &String, status: &str) -> (r: ProgressEvent)
        ensures
            r.id@ == id@,
            r.progress is None,
            r.status@ == status@,
            r.is_paused is None,
            r.finished is None,
            r.error is None,
    {
        ProgressEvent {
            id: id.clone(),
            progress: None,
            status: String::from_str(status),
            is_paused: None,
            finished: None,
            error: None,
        }
    }

    /// A report that the task is paused (`paused` true) or running again.
    pub fn pause_state(id: &String, percent: Option<u32>, paused: bool, status: &str) -> (r:
        ProgressEvent)
        ensures
            r.id@ == id@,
            r.progress == percent,
            r.status@ == status@,
            r.is_paused == Some(paused),
            r.finished is None,
            r.error is None,
    {
        ProgressEvent {
            id: id.clone(),
            progress: percent,
            status: String::from_str(status),
            is_paused: Some(paused),
            finished: None,
            error: None,
        }
    }

    /// The last event of a task that ended: `finished` is set.
    pub fn finished(id: &String, percent: Option<u32>, status: &str) -> (r: ProgressEvent)
        ensures
            r.id@ == id@,
            r.progress == percent,
            r.status@ == status@,
            r.is_paused is None,
            r.finished == Some(true),
            r.error is None,
    {
        ProgressEvent {
            id: id.clone(),
            progress: percent,
            status: String::from_str(status),
            is_paused: None,
            finished: Some(true),
            error: None,
        }
    }

    /// The last event of a task that failed with `error`.
    pub fn failed(id: &String, percent: Option<u32>, status: String, error: &str) -> (r:
        ProgressEvent)
        ensures
            r.id@ == id@,
            r.progress == percent,
            r.status@ == status@,
            r.is_paused is None,
            r.finished is None,
            r.error matches Some(e) && e@ == error@,
    {
        ProgressEvent {
            id: id.clone(),
            progress: percent,
            status,
            is_paused: None,
            finished: None,
            error: Some(String::from_str(error)),
        }
    }
}

} // verus!
