//! Write limits on a political group's own stream, counted from its event log.

use vstd::prelude::*;

use crate::error::AppError;
use crate::event::now_micros;

verus! {

/// At most `max` events within a sliding window of `window` microseconds;
/// a `max` of zero disables the limit.
#[derive(Clone, Copy, Debug, PartialEq, Eq)]
pub struct RateLimit {
    pub max: usize,
    /// Length of the window, in microseconds.
    pub window: i64,
}

impl RateLimit {
    /// Whether `count` events reach the limit.
    pub open spec fn reached(self, count: nat) -> bool {
        self.max > 0 && count >= self.max
    }

    /// Whether `count` events reach the limit.
    pub fn is_reached(&self, count: usize) -> (r: bool)
        ensures
            r == self.reached(count as nat),
    {
        self.max > 0 && count >= self.max
    }

    /// The instant the window reaching back from `now` starts at; events at
    /// or before it fall outside the window.
    pub fn window_start(&self, now: i64) -> (r: i128)
        ensures
            r == now - self.window,
    {
        now as i128 - self.window as i128
    }
}

/// The limits enforced on a stream's writes.
#[derive(Clone, Copy, Debug, PartialEq, Eq)]
pub struct RateLimits {
    /// File downloads within the window.
    pub downloads: RateLimit,
    /// Events of any kind within the window.
    pub events: RateLimit,
    /// Events in the stream's whole log; zero disables the cap.
    pub events_total: usize,
}

/// What the limits read of one logged event.
#[derive(Clone, Copy, Debug, PartialEq, Eq)]
pub struct LoggedEvent {
    /// Creation time, microseconds since the Unix epoch.
    pub created_at: i64,
    /// Whether the event is a file download.
    pub is_download: bool,
}

/// Whether a logged event counts: after `start`, and a download where only
/// downloads count.
pub open spec fn counts(e: LoggedEvent, start: int, downloads_only: bool) -> bool {
    e.created_at > start && (!downloads_only || e.is_download)
}

/// How many events of `log` count.
pub open spec fn count_after(log: Seq<LoggedEvent>, start: int, downloads_only: bool) -> nat
    decreases log.len(),
{
    if log.len() == 0 {
        0
    } else {
        count_after(log.drop_last(), start, downloads_only) + if counts(log.last(), start, downloads_only) {
            1nat
        } else {
            0nat
        }
    }
}

/// The outcome of the limit check on a stream whose log is `log`, at time
/// `now`, for a write that is a download or not. Without limits every write
/// passes; otherwise the total cap is checked first, then the event window,
/// then, for a download, the download window.
pub open spec fn limit_outcome(limits: Option<RateLimits>, log: Seq<LoggedEvent>, now: int, is_download: bool) -> Result<(), AppError> {
    match limits {
        None => Ok(()),
        Some(l) => if l.events_total > 0 && log.len() >= l.events_total {
            Err(AppError::EventLimitReached { max: l.events_total })
        } else if l.events.reached(count_after(log, now - l.events.window, false)) {
            Err(AppError::TooManyEvents { max: l.events.max, window: l.events.window })
        } else if is_download && l.downloads.reached(count_after(log, now - l.downloads.window, true)) {
            Err(AppError::TooManyDownloads { max: l.downloads.max, window: l.downloads.window })
        } else {
            Ok(())
        },
    }
}

proof fn lemma_count_after_bound(log: Seq<LoggedEvent>, start: int, downloads_only: bool)
    ensures
        count_after(log, start, downloads_only) <= log.len(),
    decreases log.len(),
{
    if log.len() > 0 {
        lemma_count_after_bound(log.drop_last(), start, downloads_only);
    }
}

/// How many events of `log` fall after `start` (only downloads, if asked).
fn count_in_window(log: &Vec<LoggedEvent>, start: i128, downloads_only: bool) -> (n: usize)
    ensures
        n == count_after(log@, start as int, downloads_only),
{
    let mut n: usize = 0;
    let mut i: usize = 0;
    while i < log.len()
        invariant
            i <= log@.len(),
            n == count_after(log@.take(i as int), start as int, downloads_only),
        decreases log@.len() - i,
    {
        let e = log[i];
        proof {
            assert(log@.take(i + 1).drop_last() =~= log@.take(i as int));
            lemma_count_after_bound(log@.take(i as int), start as int, downloads_only);
        }
        if e.created_at as i128 > start && (!downloads_only || e.is_download) {
            n = n + 1;
        }
        i = i + 1;
    }
    assert(log@.take(log@.len() as int) =~= log@);
    n
}

/// Refuse a write when one of the limits is reached, counted from the
/// stream's own log at time `now`. Every logged event counts, session events
/// included; downloads are held to their own limit as well.
pub fn check_limits(limits: &Option<RateLimits>, log: &Vec<LoggedEvent>, now: i64, is_download: bool) -> (r: Result<(), AppError>)
    ensures
        r == limit_outcome(*limits, log@, now as int, is_download),
{
    let l = match limits {
        None => return Ok(()),
        Some(l) => *l,
    };
    if l.events_total > 0 && log.len() >= l.events_total {
        return Err(AppError::EventLimitReached { max: l.events_total });
    }
    let in_window = count_in_window(log, l.events.window_start(now), false);
    if l.events.is_reached(in_window) {
        return Err(AppError::TooManyEvents { max: l.events.max, window: l.events.window });
    }
    if is_download {
        let downloads = count_in_window(log, l.downloads.window_start(now), true);
        if l.downloads.is_reached(downloads) {
            return Err(AppError::TooManyDownloads { max: l.downloads.max, window: l.downloads.window });
        }
    }
    Ok(())
}

/// [`check_limits`] at the current time.
pub fn check_limits_now(limits: &Option<RateLimits>, log: &Vec<LoggedEvent>, is_download: bool) -> (r: Result<(), AppError>)
    ensures
        exists|now: i64| r == limit_outcome(*limits, log@, now as int, is_download),
{
    let now = now_micros();
    check_limits(limits, log, now, is_download)
}

/// The limits a download would be held to, checked before the documents
/// are generated.
pub fn check_download_limit(limits: &Option<RateLimits>, log: &Vec<LoggedEvent>) -> (r: Result<(), AppError>)
    ensures
        exists|now: i64| r == limit_outcome(*limits, log@, now as int, true),
{
    check_limits_now(limits, log, true)
}

/// The download limit only blocks downloads: any other write is never
/// refused for it.
pub proof fn lemma_download_limit_blocks_only_downloads(limits: Option<RateLimits>, log: Seq<LoggedEvent>, now: int)
    ensures
        !(limit_outcome(limits, log, now, false) matches Err(AppError::TooManyDownloads { .. })),
{
}

/// The window counts only recent events: an event at or before the start of
/// the window, wherever it stands in the log, does not count.
pub proof fn lemma_old_events_do_not_count(
    before: Seq<LoggedEvent>,
    e: LoggedEvent,
    after: Seq<LoggedEvent>,
    start: int,
    downloads_only: bool,
)
    requires
        e.created_at <= start,
    ensures
        count_after(before.push(e) + after, start, downloads_only) == count_after(before + after, start, downloads_only),
    decreases after.len(),
{
    if after.len() == 0 {
        assert(before.push(e) + after =~= before.push(e));
        assert(before + after =~= before);
        assert(before.push(e).drop_last() =~= before);
    } else {
        lemma_old_events_do_not_count(before, e, after.drop_last(), start, downloads_only);
        assert((before.push(e) + after).drop_last() =~= before.push(e) + after.drop_last());
        assert((before + after).drop_last() =~= before + after.drop_last());
    }
}

/// Only downloads count against the download limit: logging an event that
/// is not a download never makes a download refused with `TooManyDownloads`
/// where it was not refused so before.
pub proof fn lemma_only_downloads_count_as_downloads(
    limits: Option<RateLimits>,
    log: Seq<LoggedEvent>,
    e: LoggedEvent,
    now: int,
)
    requires
        !e.is_download,
    ensures
        limit_outcome(limits, log.push(e), now, true) matches Err(AppError::TooManyDownloads { .. })
            ==> limit_outcome(limits, log, now, true) matches Err(AppError::TooManyDownloads { .. }),
{
    assert(log.push(e).drop_last() =~= log);
    assert(log.push(e).last() == e);
}

/// A log without downloads never has a download refused for the download
/// limit, whatever its other events.
pub proof fn lemma_no_downloads_no_download_refusal(limits: Option<RateLimits>, log: Seq<LoggedEvent>, now: int)
    requires
        forall|i: int| 0 <= i < log.len() ==> !(#[trigger] log[i]).is_download,
    ensures
        !(limit_outcome(limits, log, now, true) matches Err(AppError::TooManyDownloads { .. })),
{
    match limits {
        None => {},
        Some(l) => {
            lemma_no_downloads_counted(log, now - l.downloads.window);
        },
    }
}

proof fn lemma_no_downloads_counted(log: Seq<LoggedEvent>, start: int)
    requires
        forall|i: int| 0 <= i < log.len() ==> !(#[trigger] log[i]).is_download,
    ensures
        count_after(log, start, true) == 0,
    decreases log.len(),
{
    if log.len() > 0 {
        let rest = log.drop_last();
        assert forall|i: int| 0 <= i < rest.len() implies !(#[trigger] rest[i]).is_download by {
            assert(rest[i] == log[i]);
        }
        lemma_no_downloads_counted(rest, start);
        assert(!log[log.len() - 1].is_download);
    }
}

/// Logging one more event never lifts a refusal: a download refused before
/// is refused after, whatever was logged.
pub proof fn lemma_more_events_never_lift_a_refusal(
    limits: Option<RateLimits>,
    log: Seq<LoggedEvent>,
    e: LoggedEvent,
    now: int,
    is_download: bool,
)
    ensures
        limit_outcome(limits, log, now, is_download) is Err ==> limit_outcome(limits, log.push(e), now, is_download) is Err,
{
    assert(log.push(e).drop_last() =~= log);
}

} // verus!
