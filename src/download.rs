//! The decisions of the resumable download engine: where a transfer resumes,
//! what a response means, and what happens at each chunk, pause and cancel.
//! The caller performs the network and file work and reports back.
use vstd::prelude::*;
use crate::decimal::{decimal, decimal_of};
use crate::event::ProgressEvent;
use crate::registry::{has_version_prefix, resolve_key};

verus! {

/// The offset a transfer resumes from: the size of the staging file, or 0
/// where there is none.
pub open spec fn resume_offset_of(staging_exists: bool, staging_len: u64) -> u64 {
    if staging_exists {
        staging_len
    } else {
        0
    }
}

/// The offset a transfer resumes from.
pub fn resume_offset(staging_exists: bool, staging_len: u64) -> (r: u64)
    ensures
        r == resume_offset_of(staging_exists, staging_len),
{
    if staging_exists {
        staging_len
    } else {
        0
    }
}

/// The `Range` header value that asks for the bytes from `offset` on.
pub open spec fn range_header_of(offset: nat) -> Seq<char> {
    seq!['b', 'y', 't', 'e', 's', '='] + decimal_of(offset) + seq!['-']
}

/// The `Range` header of the request: none for a fresh transfer, else one
/// that asks for the bytes from `offset` on.
pub fn range_header(offset: u64) -> (r: Option<String>)
    ensures
        offset == 0 ==> r is None,
        offset > 0 ==> (r matches Some(h) && h@ == range_header_of(offset as nat)),
{
    if offset == 0 {
        None
    } else {
        proof {
            reveal_strlit("bytes=");
            reveal_strlit("-");
        }
        let mut h = String::from_str("bytes=");
        let digits = decimal(offset);
        h.append(digits.as_str());
        h.append("-");
        assert(h@ =~= range_header_of(offset as nat));
        Some(h)
    }
}

/// HTTP status 206, Partial Content.
pub const PARTIAL_CONTENT: u16 = 206;

/// HTTP status 416, Range Not Satisfiable.
pub const RANGE_NOT_SATISFIABLE: u16 = 416;

/// What to do with the response to a download request.
#[derive(PartialEq, Eq, Structural, Debug, Clone, Copy)]
pub enum ResponsePlan {
    /// Append the body to the staging file; the whole resource has `total`
    /// bytes.
    Stream { total: u64 },
    /// Nothing is left to fetch: finalize the staging file as it is.
    Finalize,
    /// The request failed with this status.
    Fail { status: u16 },
}

/// Whether `status` is a success status (2xx).
pub open spec fn is_success(status: u16) -> bool {
    200 <= status <= 299
}

/// The plan for a response with `status` and, where the server sent one, a
/// content length, to a request that resumed at `offset`.
pub open spec fn plan_of(offset: u64, status: u16, content_length: Option<u64>) -> ResponsePlan {
    if status == PARTIAL_CONTENT || (offset == 0 && is_success(status)) {
        let remaining: int = match content_length {
            Some(n) => n as int,
            None => 0,
        };
        let total = remaining + offset;
        ResponsePlan::Stream { total: if total > u64::MAX { u64::MAX } else { total as u64 } }
    } else if status == RANGE_NOT_SATISFIABLE {
        ResponsePlan::Finalize
    } else {
        ResponsePlan::Fail { status }
    }
}

/// Decides what a response means. A partial response (206) streams, and so
/// does a successful one to a request that asked for the whole resource
/// (offset 0); the total size is the remaining length plus the offset
/// (saturating at the largest `u64`). A 416 means the staging file already
/// holds everything. Any other status fails, a 2xx other than 206 to a range
/// request included, since its body would start over from byte 0.
pub fn plan_response(offset: u64, status: u16, content_length: Option<u64>) -> (r: ResponsePlan)
    ensures
        r == plan_of(offset, status, content_length),
{
    if status == PARTIAL_CONTENT || (offset == 0 && 200 <= status && status <= 299) {
        let remaining: u64 = match content_length {
            Some(n) => n,
            None => 0,
        };
        ResponsePlan::Stream { total: remaining.saturating_add(offset) }
    } else if status == RANGE_NOT_SATISFIABLE {
        ResponsePlan::Finalize
    } else {
        ResponsePlan::Fail { status }
    }
}

/// Percent of `total` that `done` bytes are, rounded down and capped at 100;
/// 0 where the total is unknown.
pub open spec fn percent_of(done: int, total: int) -> int {
    if total <= 0 {
        0
    } else if done * 100 / total > 100 {
        100
    } else {
        done * 100 / total
    }
}

/// Percent of `total` that `done` bytes are.
pub fn percent(done: u64, total: u64) -> (r: u32)
    ensures
        r as int == percent_of(done as int, total as int),
        r <= 100,
{
    if total == 0 {
        0
    } else {
        let p: u128 = (done as u128) * 100 / (total as u128);
        if p > 100 {
            100
        } else {
            p as u32
        }
    }
}

/// A transfer's place in its life.
#[derive(PartialEq, Eq, Structural, Debug, Clone, Copy)]
pub enum Phase {
    Streaming,
    Paused,
    Finalizing,
    Done,
    Cancelled,
    Failed,
}

/// The phase a transfer enters when it looks at its signals: a cancel wins
/// over a pause.
pub open spec fn phase_after_signals(cancelled: bool, paused: bool) -> Phase {
    if cancelled {
        Phase::Cancelled
    } else if paused {
        Phase::Paused
    } else {
        Phase::Streaming
    }
}

/// Whether a transfer that ended in `phase` deletes its staging file: only a
/// cancelled one does; a failed one keeps it for a later resume.
pub open spec fn discards_staging_in(phase: Phase) -> bool {
    phase == Phase::Cancelled
}

/// What the engine does after looking at the task's signals.
pub enum SignalStep {
    /// Go on reading.
    Proceed,
    /// Report this event, sleep one poll interval, and look again.
    Wait(ProgressEvent),
    /// Delete the staging file and stop: the task was cancelled.
    Abort,
}

/// `after` is `before` once a chunk of `len` bytes is appended, and `event`
/// is what it reports: the new percent under the transfer's status text.
pub open spec fn chunk_recorded(before: Transfer, len: u64, after: Transfer, event: ProgressEvent) -> bool {
    &&& after.id == before.id
    &&& after.status == before.status
    &&& after.downloaded == before.downloaded + len
    &&& after.total == before.total
    &&& after.phase == Phase::Streaming
    &&& event.id@ == before.id@
    &&& event.progress == Some(after.percent_done() as u32)
    &&& event.status@ == before.status@
    &&& event.is_paused is None
    &&& event.finished is None
    &&& event.error is None
}

/// The status text of a paused download.
pub open spec fn paused_status() -> Seq<char> {
    "Paused"@
}

/// One transfer of a resource into its staging file.
pub struct Transfer {
    /// The id of the task.
    pub id: String,
    /// The status text of each progress event.
    pub status: String,
    /// Bytes in the staging file.
    pub downloaded: u64,
    /// Size of the whole resource; 0 where unknown.
    pub total: u64,
    pub phase: Phase,
}

impl Transfer {
    /// A transfer that streams on from `offset` towards `total` bytes.
    pub fn start(id: &String, status: &str, offset: u64, total: u64) -> (r: Transfer)
        ensures
            r.id@ == id@,
            r.status@ == status@,
            r.downloaded == offset,
            r.total == total,
            r.phase == Phase::Streaming,
    {
        Transfer {
            id: id.clone(),
            status: String::from_str(status),
            downloaded: offset,
            total,
            phase: Phase::Streaming,
        }
    }

    /// Percent done of this transfer.
    pub open spec fn percent_done(&self) -> int {
        percent_of(self.downloaded as int, self.total as int)
    }

    /// Whether the transfer is still reading or waiting in a pause.
    pub open spec fn is_active(&self) -> bool {
        self.phase == Phase::Streaming || self.phase == Phase::Paused
    }

    /// Looks at the task's signals before a chunk is written, and again after
    /// each poll interval of a pause. A cancel wins over a pause, so that it
    /// is seen while paused too.
    pub fn check_signals(&mut self, cancelled: bool, paused: bool) -> (r: SignalStep)
        requires
            old(self).is_active(),
        ensures
            final(self).id == old(self).id,
            final(self).status == old(self).status,
            final(self).downloaded == old(self).downloaded,
            final(self).total == old(self).total,
            final(self).phase == phase_after_signals(cancelled, paused),
            cancelled ==> r is Abort,
            !cancelled && paused ==> (r matches SignalStep::Wait(e)
                && e.id@ == old(self).id@ && e.progress == Some(old(self).percent_done() as u32)
                && e.status@ == paused_status() && e.is_paused == Some(true) && e.finished is None
                && e.error is None),
            !cancelled && !paused ==> r is Proceed,
    {
        if cancelled {
            self.phase = Phase::Cancelled;
            SignalStep::Abort
        } else if paused {
            self.phase = Phase::Paused;
            let p = percent(self.downloaded, self.total);
            proof {
                reveal_strlit("Paused");
            }
            SignalStep::Wait(ProgressEvent::pause_state(&self.id, Some(p), true, "Paused"))
        } else {
            self.phase = Phase::Streaming;
            SignalStep::Proceed
        }
    }

    /// Records a chunk of `len` bytes appended to the staging file and
    /// returns the progress event to report.
    pub fn on_chunk(&mut self, len: u64) -> (r: ProgressEvent)
        requires
            old(self).phase == Phase::Streaming,
            old(self).downloaded + len <= u64::MAX,
        ensures
            chunk_recorded(*old(self), len, *final(self), r),
    {
        self.downloaded = self.downloaded + len;
        let p = percent(self.downloaded, self.total);
        ProgressEvent::progress(&self.id, p, self.status.as_str())
    }

    /// The stream is exhausted: the staging file is to be renamed to its
    /// final name.
    pub fn end_of_stream(&mut self)
        requires
            old(self).phase == Phase::Streaming,
        ensures
            final(self).phase == Phase::Finalizing,
            final(self).downloaded == old(self).downloaded,
            final(self).total == old(self).total,
            final(self).id == old(self).id,
            final(self).status == old(self).status,
    {
        self.phase = Phase::Finalizing;
    }

    /// The rename that finalizes the staging file succeeded (`renamed`) or
    /// failed.
    pub fn committed(&mut self, renamed: bool)
        requires
            old(self).phase == Phase::Finalizing,
        ensures
            final(self).phase == if renamed {
                Phase::Done
            } else {
                Phase::Failed
            },
            final(self).downloaded == old(self).downloaded,
            final(self).total == old(self).total,
            final(self).id == old(self).id,
            final(self).status == old(self).status,
    {
        self.phase = if renamed {
            Phase::Done
        } else {
            Phase::Failed
        };
    }

    /// A network or file error ended the transfer. The staging file stays on
    /// disk for a later resume.
    pub fn fail(&mut self)
        requires
            old(self).is_active() || old(self).phase == Phase::Finalizing,
        ensures
            final(self).phase == Phase::Failed,
            final(self).downloaded == old(self).downloaded,
            final(self).total == old(self).total,
            final(self).id == old(self).id,
            final(self).status == old(self).status,
    {
        self.phase = Phase::Failed;
    }

    /// Whether the staging file is to be deleted now that the transfer has
    /// ended: only after a cancel.
    pub fn discards_staging(&self) -> (r: bool)
        ensures
            r == discards_staging_in(self.phase),
    {
        self.phase == Phase::Cancelled
    }
}

/// The sum of the chunk lengths in `chunks`.
pub open spec fn chunks_total(chunks: Seq<u64>) -> int
    decreases chunks.len(),
{
    if chunks.len() == 0 {
        0
    } else {
        chunks[0] + chunks_total(chunks.drop_first())
    }
}

/// The percents that a transfer at `done` of `total` bytes reports for the
/// chunks `chunks`, one after each chunk.
pub open spec fn reported_percents(done: int, total: int, chunks: Seq<u64>) -> Seq<int>
    decreases chunks.len(),
{
    if chunks.len() == 0 {
        Seq::empty()
    } else {
        seq![percent_of(done + chunks[0], total)] + reported_percents(
            done + chunks[0],
            total,
            chunks.drop_first(),
        )
    }
}

proof fn lemma_percent_ordered(a: int, b: int, total: int)
    requires
        0 <= a <= b,
    ensures
        percent_of(a, total) <= percent_of(b, total) <= 100,
{
    if total > 0 {
        vstd::arithmetic::div_mod::lemma_div_is_ordered(a * 100, b * 100, total);
    }
}

proof fn lemma_reported_at_least(done: int, total: int, chunks: Seq<u64>)
    requires
        0 <= done,
    ensures
        reported_percents(done, total, chunks).len() == chunks.len(),
        forall|i: int|
            0 <= i < chunks.len() ==> percent_of(done, total) <= #[trigger] reported_percents(
                done,
                total,
                chunks,
            )[i] <= 100,
    decreases chunks.len(),
{
    if chunks.len() > 0 {
        let next = done + chunks[0];
        lemma_reported_at_least(next, total, chunks.drop_first());
        lemma_percent_ordered(done, next, total);
        let rest = reported_percents(next, total, chunks.drop_first());
        assert forall|i: int| 0 < i < chunks.len() implies percent_of(done, total)
            <= #[trigger] reported_percents(done, total, chunks)[i] <= 100 by {
            assert(reported_percents(done, total, chunks)[i] == rest[i - 1]);
        }
    }
}

proof fn lemma_reported_ordered(done: int, total: int, chunks: Seq<u64>)
    requires
        0 <= done,
    ensures
        forall|i: int, j: int|
            0 <= i <= j < chunks.len() ==> #[trigger] reported_percents(done, total, chunks)[i]
                <= #[trigger] reported_percents(done, total, chunks)[j] <= 100,
    decreases chunks.len(),
{
    lemma_reported_at_least(done, total, chunks);
    if chunks.len() > 0 {
        let next = done + chunks[0];
        lemma_reported_ordered(next, total, chunks.drop_first());
        lemma_reported_at_least(next, total, chunks.drop_first());
        let all = reported_percents(done, total, chunks);
        let rest = reported_percents(next, total, chunks.drop_first());
        assert forall|i: int, j: int| 0 <= i <= j < chunks.len() implies #[trigger] all[i]
            <= #[trigger] all[j] <= 100 by {
            if i == 0 {
                if j > 0 {
                    assert(all[j] == rest[j - 1]);
                }
            } else {
                assert(all[i] == rest[i - 1]);
                assert(all[j] == rest[j - 1]);
            }
        }
    }
}

proof fn lemma_reported_reaches_hundred(done: int, total: int, chunks: Seq<u64>)
    requires
        0 <= done,
        chunks.len() > 0,
        done + chunks_total(chunks) == total,
        total > 0,
    ensures
        reported_percents(done, total, chunks).last() == 100,
    decreases chunks.len(),
{
    if chunks.len() == 1 {
        assert(chunks.drop_first().len() == 0);
        assert(chunks_total(chunks.drop_first()) == 0);
        assert(reported_percents(done + chunks[0], total, chunks.drop_first()) =~= Seq::empty());
        assert(reported_percents(done, total, chunks) =~= seq![percent_of(total, total)]);
        assert(total * 100 / total == 100) by (nonlinear_arith)
            requires
                total > 0,
        ;
    } else {
        let next = done + chunks[0];
        lemma_reported_reaches_hundred(next, total, chunks.drop_first());
        let all = reported_percents(done, total, chunks);
        let rest = reported_percents(next, total, chunks.drop_first());
        lemma_reported_at_least(next, total, chunks.drop_first());
        assert(all.last() == rest.last());
    }
}

/// A run of chunks as `Transfer::on_chunk` records them: `steps[i + 1]` is
/// `steps[i]` after the chunk `chunks[i]`, which reported `events[i]`.
pub open spec fn chunk_run(steps: Seq<Transfer>, chunks: Seq<u64>, events: Seq<ProgressEvent>) -> bool {
    &&& steps.len() == chunks.len() + 1
    &&& events.len() == chunks.len()
    &&& forall|i: int| 0 <= i < chunks.len() ==> #[trigger] run_step(steps, chunks, events, i)
}

/// Step `i` of a run: `steps[i + 1]` is `steps[i]` after chunk `chunks[i]`.
pub open spec fn run_step(steps: Seq<Transfer>, chunks: Seq<u64>, events: Seq<ProgressEvent>, i: int) -> bool {
    chunk_recorded(steps[i], chunks[i], steps[i + 1], events[i])
}

/// The percent an event reports; -1 where it reports none.
pub open spec fn progress_value(e: ProgressEvent) -> int {
    match e.progress {
        Some(p) => p as int,
        None => -1,
    }
}

proof fn lemma_chunk_run(steps: Seq<Transfer>, chunks: Seq<u64>, events: Seq<ProgressEvent>)
    requires
        chunk_run(steps, chunks, events),
    ensures
        steps.last().downloaded == steps[0].downloaded + chunks_total(chunks),
        steps.last().total == steps[0].total,
        forall|i: int|
            0 <= i < chunks.len() ==> progress_value(#[trigger] events[i]) == reported_percents(
                steps[0].downloaded as int,
                steps[0].total as int,
                chunks,
            )[i],
    decreases chunks.len(),
{
    if chunks.len() > 0 {
        let rs = steps.drop_first();
        let rc = chunks.drop_first();
        let re = events.drop_first();
        assert(run_step(steps, chunks, events, 0));
        assert forall|i: int| 0 <= i < rc.len() implies #[trigger] run_step(rs, rc, re, i) by {
            assert(run_step(steps, chunks, events, i + 1));
            assert(rs[i] == steps[i + 1] && rs[i + 1] == steps[i + 2]);
        }
        lemma_chunk_run(rs, rc, re);
        let d0 = steps[0].downloaded as int;
        let t0 = steps[0].total as int;
        lemma_reported_at_least(d0 + chunks[0], t0, rc);
        let all = reported_percents(d0, t0, chunks);
        let rest = reported_percents(d0 + chunks[0], t0, rc);
        assert(percent_of(steps[1].downloaded as int, steps[1].total as int) <= 100) by {
            lemma_percent_ordered(0, steps[1].downloaded as int, steps[1].total as int);
        }
        assert forall|i: int| 0 <= i < chunks.len() implies progress_value(#[trigger] events[i])
            == all[i] by {
            if i > 0 {
                assert(events[i] == re[i - 1]);
                assert(all[i] == rest[i - 1]);
            }
        }
    }
}

/// Progress never goes backwards: over one uninterrupted run of chunks each
/// event reports the percent of the bytes received so far, none below the
/// percent the run started at, each at most the next, none above 100; and
/// a run that brings the staging file to the full size reports 100 last.
pub proof fn progress_never_decreases(steps: Seq<Transfer>, chunks: Seq<u64>, events: Seq<ProgressEvent>)
    requires
        chunk_run(steps, chunks, events),
    ensures
        forall|i: int|
            0 <= i < chunks.len() ==> progress_value(#[trigger] events[i]) == percent_of(
                steps[i + 1].downloaded as int,
                steps[i + 1].total as int,
            ),
        forall|i: int|
            0 <= i < chunks.len() ==> steps[0].percent_done() <= progress_value(#[trigger] events[i]),
        forall|i: int, j: int|
            0 <= i <= j < chunks.len() ==> 0 <= progress_value(#[trigger] events[i])
                <= progress_value(#[trigger] events[j]) <= 100,
        chunks.len() > 0 && steps.last().downloaded == steps[0].total && steps[0].total > 0
            ==> progress_value(events.last()) == 100,
{
    lemma_chunk_run(steps, chunks, events);
    let d0 = steps[0].downloaded as int;
    let t0 = steps[0].total as int;
    lemma_reported_at_least(d0, t0, chunks);
    lemma_reported_ordered(d0, t0, chunks);
    assert forall|i: int|
        0 <= i < chunks.len() implies progress_value(#[trigger] events[i]) == percent_of(
        steps[i + 1].downloaded as int,
        steps[i + 1].total as int,
    ) by {
        assert(run_step(steps, chunks, events, i));
        lemma_percent_ordered(0, steps[i + 1].downloaded as int, steps[i + 1].total as int);
    }
    assert forall|i: int, j: int|
        0 <= i <= j < chunks.len() implies 0 <= progress_value(#[trigger] events[i])
        <= progress_value(#[trigger] events[j]) <= 100 by {
        lemma_percent_ordered(0, d0, t0);
        assert(reported_percents(d0, t0, chunks)[i] == progress_value(events[i]));
        assert(reported_percents(d0, t0, chunks)[j] == progress_value(events[j]));
    }
    if chunks.len() > 0 && steps.last().downloaded == steps[0].total && steps[0].total > 0 {
        lemma_reported_reaches_hundred(d0, t0, chunks);
        assert(progress_value(events[chunks.len() - 1]) == reported_percents(d0, t0, chunks)[
            chunks.len() - 1
        ]);
    }
}

/// Resuming from a staging file of `n` bytes of a resource of `t` bytes
/// starts at offset `n`, so the request asks for the bytes from `n` on (see
/// `range_header`), and a partial response with the `t - n` remaining bytes
/// gives a total of `t`. A transfer started from that response that records
/// those `t - n` bytes, in any chunks, ends holding exactly `t` bytes and
/// reports 100 percent last. A range that cannot be satisfied finalizes the
/// staging file as it is.
pub proof fn resume_completes_exactly(
    n: u64,
    t: u64,
    steps: Seq<Transfer>,
    chunks: Seq<u64>,
    events: Seq<ProgressEvent>,
)
    requires
        0 < n <= t,
        steps.len() > 0,
        steps[0].downloaded == resume_offset_of(true, n),
        plan_of(n, PARTIAL_CONTENT, Some((t - n) as u64)) == (ResponsePlan::Stream {
            total: steps[0].total,
        }),
        chunk_run(steps, chunks, events),
        chunks_total(chunks) == t - n,
    ensures
        resume_offset_of(true, n) == n,
        plan_of(n, PARTIAL_CONTENT, Some((t - n) as u64)) == (ResponsePlan::Stream { total: t }),
        steps.last().downloaded == t,
        chunks.len() > 0 ==> progress_value(events.last()) == 100,
        plan_of(n, RANGE_NOT_SATISFIABLE, None) == ResponsePlan::Finalize,
{
    lemma_chunk_run(steps, chunks, events);
    progress_never_decreases(steps, chunks, events);
}

/// A paused download reports the percent it stood at, and once resumed
/// without a cancel it streams again: every percent it reports afterwards
/// is at least the one it was paused at, and a run that brings it to the
/// full size reports 100 last.
pub proof fn pause_then_resume_continues(
    paused: Transfer,
    steps: Seq<Transfer>,
    chunks: Seq<u64>,
    events: Seq<ProgressEvent>,
)
    requires
        chunk_run(steps, chunks, events),
        steps[0].downloaded == paused.downloaded,
        steps[0].total == paused.total,
    ensures
        phase_after_signals(false, true) == Phase::Paused,
        phase_after_signals(false, false) == Phase::Streaming,
        forall|i: int|
            0 <= i < chunks.len() ==> paused.percent_done() <= progress_value(#[trigger] events[i]),
        chunks.len() > 0 && steps.last().downloaded == paused.total && paused.total > 0
            ==> progress_value(events.last()) == 100,
{
    progress_never_decreases(steps, chunks, events);
}

/// A cancel seen while a download is paused ends it as cancelled, which
/// deletes the staging file; once the worker unregisters its id (a release
/// id, in its `v` form), lookups of that id no longer find a task.
pub proof fn cancel_while_paused_discards<H>(tasks: Map<Seq<char>, H>, id: Seq<char>)
    ensures
        phase_after_signals(true, true) == Phase::Cancelled,
        discards_staging_in(phase_after_signals(true, true)),
        !tasks.remove(id).contains_key(id),
        has_version_prefix(id) ==> resolve_key(tasks.remove(id), id) is None,
{
}

} // verus!
