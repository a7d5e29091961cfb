//! Where a political group handle's writes go: its own stream, held to the
//! write limits and to the last event it saw, or, while the committee
//! corrects the paper documents, the committee's stream, as a paper
//! correction and without limits.

use vstd::prelude::*;

use crate::csb_data::CsbAction;
use crate::error::AppError;
use crate::limits::{check_limits, limit_outcome, LoggedEvent, RateLimits};
use crate::pg_data::PgEvent;
use crate::stream::StreamId;

verus! {

/// The stream a handle's writes are persisted on.
#[derive(Clone, Copy, Debug, PartialEq, Eq, Structural)]
pub enum WriteTarget {
    /// The political group's own stream.
    Own,
    /// The committee stream receiving the paper corrections.
    PaperCorrections { csb_stream: StreamId },
}

/// What a write persists, decided before anything is written.
pub enum WritePlan {
    /// Append to the own stream, refused if another request appended since
    /// the handle last saw it at `expected`.
    AppendOwn { expected: usize, event: PgEvent },
    /// Append to the committee stream.
    ForwardToCsb { stream: StreamId, action: CsbAction },
}

/// The write handle's routing: the target, and the limits of its own stream
/// (none while correcting, so what was handed in on paper is never cut off).
pub struct WriteRoute {
    pub target: WriteTarget,
    pub limits: Option<RateLimits>,
    /// The last event the handle saw on its own stream.
    pub seen_event_id: usize,
}

/// Whether an event is a file download, the kind the download limit counts.
pub open spec fn is_download(e: PgEvent) -> bool {
    e is DownloadFile
}

impl WriteRoute {
    /// A handle writing to its own stream, last seen at `seen_event_id`.
    pub fn own(limits: RateLimits, seen_event_id: usize) -> (r: Self)
        ensures
            r.target == WriteTarget::Own,
            r.limits == Some(limits),
            r.seen_event_id == seen_event_id,
    {
        WriteRoute { target: WriteTarget::Own, limits: Some(limits), seen_event_id }
    }

    /// A handle whose writes are paper corrections on the committee stream
    /// `csb_stream`; they are not limited.
    pub fn paper_corrections(csb_stream: StreamId) -> (r: Self)
        ensures
            r.target == (WriteTarget::PaperCorrections { csb_stream }),
            r.limits is None,
            r.seen_event_id == 0,
    {
        WriteRoute { target: WriteTarget::PaperCorrections { csb_stream }, limits: None, seen_event_id: 0 }
    }

    /// The committee stream receiving paper corrections, in that mode.
    pub fn paper_corrections_stream_id(&self) -> (r: Option<StreamId>)
        ensures
            r == match self.target {
                WriteTarget::Own => None,
                WriteTarget::PaperCorrections { csb_stream } => Some(csb_stream),
            },
    {
        match self.target {
            WriteTarget::Own => None,
            WriteTarget::PaperCorrections { csb_stream } => Some(csb_stream),
        }
    }

    /// Decide a write of `event` at time `now`, with `log` the own stream's
    /// log as the limits read it. On the own stream the limits are checked
    /// first and the write is held to the last event seen; a paper
    /// correction is wrapped for the committee stream.
    pub fn plan(&self, log: &Vec<LoggedEvent>, now: i64, event: PgEvent) -> (r: Result<WritePlan, AppError>)
        ensures
            match self.target {
                WriteTarget::Own => match limit_outcome(self.limits, log@, now as int, is_download(event)) {
                    Err(e) => r == Err::<WritePlan, AppError>(e),
                    Ok(_) => r matches Ok(WritePlan::AppendOwn { expected, event: planned }) && expected
                        == self.seen_event_id && planned == event,
                },
                WriteTarget::PaperCorrections { csb_stream } => r matches Ok(
                    WritePlan::ForwardToCsb { stream, action: CsbAction::PaperCorrectedUpdate(wrapped) },
                ) && stream == csb_stream && *wrapped == event,
            },
    {
        match self.target {
            WriteTarget::Own => {
                let download = match &event {
                    PgEvent::DownloadFile { .. } => true,
                    _ => false,
                };
                match check_limits(&self.limits, log, now, download) {
                    Err(e) => Err(e),
                    Ok(()) => Ok(WritePlan::AppendOwn { expected: self.seen_event_id, event }),
                }
            },
            WriteTarget::PaperCorrections { csb_stream } => Ok(
                WritePlan::ForwardToCsb { stream: csb_stream, action: CsbAction::PaperCorrectedUpdate(Box::new(event)) },
            ),
        }
    }
}

} // verus!
