//! The transfer engine as far as it decides: how much progress to report for
//! a transfer, and which transfer of a paste comes next.
//!
//! Copying bytes is the caller's work. During one transfer the caller feeds
//! the byte counts it hears of into a [`ProgressTracker`] and passes the
//! increments on to whatever shows progress. Between transfers it asks the
//! [`PasteSession`] for the next request and tells it how the last one ended.

use crate::error::ErrorKind;
use crate::paste::{RequestView, TransferRequest};
use crate::path::{base_name, base_name_of};
use vstd::prelude::*;

verus! {

/// How far the reporting of one transfer has come.
pub struct ProgressView {
    /// The size of the source in bytes, computed before the transfer.
    pub total: nat,
    /// The sum of the increments reported so far.
    pub reported: nat,
}

/// The sum of increments after the caller heard that `copied` bytes were
/// copied: the count heard, but never less than what was reported before and
/// never more than the total.
pub open spec fn level_after(progress: ProgressView, copied: nat) -> nat {
    if copied <= progress.reported {
        progress.reported
    } else if copied >= progress.total {
        progress.total
    } else {
        copied
    }
}

/// The state of the reporting after the caller heard that `copied` bytes
/// were copied.
pub open spec fn advanced(progress: ProgressView, copied: nat) -> ProgressView {
    ProgressView { total: progress.total, reported: level_after(progress, copied) }
}

/// The state of the reporting after a run of byte counts was heard.
pub open spec fn after_reports(progress: ProgressView, reports: Seq<u64>) -> ProgressView
    decreases reports.len(),
{
    if reports.len() == 0 {
        progress
    } else {
        advanced(after_reports(progress, reports.drop_last()), reports.last() as nat)
    }
}

/// What a transfer tells whoever shows its progress.
#[derive(Clone, Copy, Debug, PartialEq, Eq, Structural)]
pub enum ProgressEvent {
    /// So many more bytes are copied.
    Advanced(u64),
    /// The transfer is complete.
    Done,
}

/// The events for a run of byte counts: one increment per count heard.
pub open spec fn advances_of(progress: ProgressView, reports: Seq<u64>) -> Seq<ProgressEvent>
    decreases reports.len(),
{
    if reports.len() == 0 {
        Seq::<ProgressEvent>::empty()
    } else {
        let before = after_reports(progress, reports.drop_last());
        advances_of(progress, reports.drop_last()).push(
            ProgressEvent::Advanced(
                (level_after(before, reports.last() as nat) - before.reported) as u64,
            ),
        )
    }
}

/// The events of a transfer of `total` bytes that completes after the given
/// byte counts were heard: an increment per count, an increment for whatever
/// is then still missing from the total, and the closing event.
pub open spec fn events_of(total: u64, reports: Seq<u64>) -> Seq<ProgressEvent> {
    let start = ProgressView { total: total as nat, reported: 0 };
    let rest = total - after_reports(start, reports).reported;
    advances_of(start, reports).push(ProgressEvent::Advanced(rest as u64)).push(
        ProgressEvent::Done,
    )
}

/// The number of bytes that a run of events reports in all.
pub open spec fn bytes_of(events: Seq<ProgressEvent>) -> nat
    decreases events.len(),
{
    if events.len() == 0 {
        0
    } else {
        bytes_of(events.drop_last()) + match events.last() {
            ProgressEvent::Advanced(bytes) => bytes as nat,
            ProgressEvent::Done => 0,
        }
    }
}

/// Hearing byte counts never takes the reported sum back, nor beyond the
/// total, and the increments reported for them add up to the change of the
/// sum.
pub proof fn lemma_advances_add_up(progress: ProgressView, reports: Seq<u64>)
    requires
        progress.reported <= progress.total,
    ensures
        after_reports(progress, reports).total == progress.total,
        progress.reported <= after_reports(progress, reports).reported <= progress.total,
        advances_of(progress, reports).len() == reports.len(),
        forall|i: int|
            0 <= i < reports.len() ==> (#[trigger] advances_of(progress, reports)[i]) is Advanced,
        bytes_of(advances_of(progress, reports)) == after_reports(progress, reports).reported
            - progress.reported,
    decreases reports.len(),
{
    if reports.len() > 0 {
        let shorter = reports.drop_last();
        lemma_advances_add_up(progress, shorter);
        assert(advances_of(progress, reports).drop_last() =~= advances_of(progress, shorter));
    }
}

/// The increments reported for a transfer that completes add up to exactly
/// the size of the source, whatever byte counts were heard on the way; and
/// the closing event comes once, after all the increments.
pub proof fn lemma_events_sum_to_total(total: u64, reports: Seq<u64>)
    ensures
        bytes_of(events_of(total, reports)) == total,
        events_of(total, reports).len() == reports.len() + 2,
        events_of(total, reports).last() == ProgressEvent::Done,
        forall|i: int|
            0 <= i < reports.len() + 1 ==> (#[trigger] events_of(total, reports)[i]) is Advanced,
{
    let start = ProgressView { total: total as nat, reported: 0 };
    let heard = advances_of(start, reports);
    let rest = total - after_reports(start, reports).reported;
    let closing = heard.push(ProgressEvent::Advanced(rest as u64));
    let events = events_of(total, reports);
    lemma_advances_add_up(start, reports);
    assert(closing.drop_last() =~= heard);
    assert(bytes_of(closing) == bytes_of(heard) + rest);
    assert(events.drop_last() =~= closing);
}

/// Keeps the progress reported for one transfer in step with the byte counts
/// heard, so that the increments never take anything back and add up to the
/// size of the source when the transfer completes.
pub struct ProgressTracker {
    total: u64,
    reported: u64,
}

impl View for ProgressTracker {
    type V = ProgressView;

    closed spec fn view(&self) -> ProgressView {
        ProgressView { total: self.total as nat, reported: self.reported as nat }
    }
}

impl ProgressTracker {
    #[verifier::type_invariant]
    spec fn within_total(self) -> bool {
        self.reported <= self.total
    }

    /// A tracker for a transfer of `total` bytes of which nothing is reported
    /// yet.
    pub fn new(total: u64) -> (tracker: ProgressTracker)
        ensures
            tracker@ == (ProgressView { total: total as nat, reported: 0 }),
    {
        ProgressTracker { total, reported: 0 }
    }

    /// The size of the source.
    pub fn total(&self) -> (total: u64)
        ensures
            total == self@.total,
    {
        self.total
    }

    /// The sum of the increments reported so far. It never exceeds the total.
    pub fn reported(&self) -> (reported: u64)
        ensures
            reported == self@.reported,
            reported <= self@.total,
    {
        proof {
            use_type_invariant(self);
        }
        self.reported
    }

    /// Takes note that `copied_bytes` bytes are copied and returns the
    /// increment to report for it.
    pub fn advance(&mut self, copied_bytes: u64) -> (increment: u64)
        ensures
            final(self)@ == advanced(old(self)@, copied_bytes as nat),
            increment == final(self)@.reported - old(self)@.reported,
    {
        proof {
            use_type_invariant(&*self);
        }
        let level: u64 = if copied_bytes <= self.reported {
            self.reported
        } else if copied_bytes >= self.total {
            self.total
        } else {
            copied_bytes
        };
        let increment: u64 = level - self.reported;
        self.reported = level;
        increment
    }

    /// Takes note that the transfer is complete and returns the increment
    /// that brings the reported sum to the total.
    pub fn finish(&mut self) -> (increment: u64)
        ensures
            final(self)@ == (ProgressView {
                total: old(self)@.total,
                reported: old(self)@.total,
            }),
            increment == old(self)@.total - old(self)@.reported,
    {
        proof {
            use_type_invariant(&*self);
        }
        let increment: u64 = self.total - self.reported;
        self.reported = self.total;
        increment
    }
}

/// The events of a transfer of `total` bytes that completes after the given
/// byte counts were heard.
pub fn progress_events(total: u64, reports: &Vec<u64>) -> (events: Vec<ProgressEvent>)
    ensures
        events@ == events_of(total, reports@),
{
    let ghost start = ProgressView { total: total as nat, reported: 0 };
    let mut tracker = ProgressTracker::new(total);
    let mut events: Vec<ProgressEvent> = Vec::new();
    let mut at: usize = 0;
    while at < reports.len()
        invariant
            at <= reports.len(),
            tracker@ == after_reports(start, reports@.take(at as int)),
            events@ == advances_of(start, reports@.take(at as int)),
        decreases reports.len() - at,
    {
        proof {
            assert(reports@.take(at + 1).drop_last() =~= reports@.take(at as int));
        }
        let increment = tracker.advance(reports[at]);
        events.push(ProgressEvent::Advanced(increment));
        at = at + 1;
    }
    proof {
        assert(reports@.take(at as int) =~= reports@);
        lemma_advances_add_up(start, reports@);
    }
    let rest = tracker.finish();
    events.push(ProgressEvent::Advanced(rest));
    events.push(ProgressEvent::Done);
    events
}

/// The wording that goes before the source's name in a progress label.
pub open spec fn label_lead() -> Seq<char> {
    "Copying "@
}

/// The label under which the progress of a transfer is shown: what is being
/// copied, by its base name.
pub fn progress_label(request: &TransferRequest) -> (label: String)
    ensures
        label@ == label_lead() + base_name_of(request@.source),
{
    let mut label: String = "Copying ".to_owned();
    let name = base_name(request.source.as_str());
    label.append(name.as_str());
    label
}

/// How a transfer that the caller performed ended.
#[derive(Clone, Copy, Debug, PartialEq, Eq, Structural)]
pub enum TransferOutcome {
    /// The source was copied in full.
    Completed,
    /// Reading or writing failed.
    Failed,
}

/// How far a paste has come.
pub struct SessionView {
    /// The transfers of this paste, in order.
    pub requests: Seq<RequestView>,
    /// How many of them completed. They are the first so many.
    pub completed: nat,
    /// Whether a transfer failed.
    pub aborted: bool,
}

impl SessionView {
    /// The session before its first transfer.
    pub open spec fn fresh(requests: Seq<RequestView>) -> SessionView {
        SessionView { requests, completed: 0, aborted: false }
    }

    /// Whether a transfer is to be performed next: none failed, and not all
    /// completed.
    pub open spec fn is_pending(self) -> bool {
        !self.aborted && self.completed < self.requests.len()
    }

    /// The session after the caller performed the pending transfer and it
    /// ended with `outcome`. A session without a pending transfer stays as it
    /// is.
    pub open spec fn step(self, outcome: TransferOutcome) -> SessionView {
        if !self.is_pending() {
            self
        } else {
            match outcome {
                TransferOutcome::Completed => SessionView {
                    requests: self.requests,
                    completed: self.completed + 1,
                    aborted: false,
                },
                TransferOutcome::Failed => SessionView {
                    requests: self.requests,
                    completed: self.completed,
                    aborted: true,
                },
            }
        }
    }

    /// The session after a run of outcomes.
    pub open spec fn after(self, outcomes: Seq<TransferOutcome>) -> SessionView
        decreases outcomes.len(),
    {
        if outcomes.len() == 0 {
            self
        } else {
            self.after(outcomes.drop_last()).step(outcomes.last())
        }
    }

    /// How the paste ended, if it has: with the number of transfers made, or
    /// with the error of the transfer that failed.
    pub open spec fn result(self) -> Option<Result<nat, ErrorKind>> {
        if self.aborted {
            Some(Err(ErrorKind::TransferIoError))
        } else if self.completed >= self.requests.len() {
            Some(Ok(self.completed))
        } else {
            None
        }
    }
}

/// Once a transfer failed the paste is over: no transfer is pending any
/// more, whatever is recorded afterwards changes nothing, and the paste ends
/// with a transfer error.
pub proof fn lemma_failure_ends_paste(session: SessionView, outcomes: Seq<TransferOutcome>)
    requires
        session.is_pending(),
    ensures
        !session.step(TransferOutcome::Failed).is_pending(),
        session.step(TransferOutcome::Failed).after(outcomes) == session.step(
            TransferOutcome::Failed,
        ),
        session.step(TransferOutcome::Failed).completed == session.completed,
        session.step(TransferOutcome::Failed).result() == Some(
            Err::<nat, ErrorKind>(ErrorKind::TransferIoError),
        ),
    decreases outcomes.len(),
{
    if outcomes.len() > 0 {
        lemma_failure_ends_paste(session, outcomes.drop_last());
    }
}

/// While every transfer completes, the paste takes the requests one by one
/// in their order, and when the last one completed it ends with their number.
pub proof fn lemma_completions_count(requests: Seq<RequestView>, outcomes: Seq<TransferOutcome>)
    requires
        outcomes.len() <= requests.len(),
        forall|i: int| 0 <= i < outcomes.len() ==> outcomes[i] == TransferOutcome::Completed,
    ensures
        SessionView::fresh(requests).after(outcomes) == (SessionView {
            requests,
            completed: outcomes.len(),
            aborted: false,
        }),
        outcomes.len() == requests.len() ==> SessionView::fresh(requests).after(
            outcomes,
        ).result() == Some(Ok::<nat, ErrorKind>(requests.len())),
    decreases outcomes.len(),
{
    if outcomes.len() > 0 {
        lemma_completions_count(requests, outcomes.drop_last());
    }
}

/// The transfers of one paste and how far they have come. Transfers are made
/// one at a time in staged order; the first failure ends the paste.
pub struct PasteSession {
    requests: Vec<TransferRequest>,
    completed: usize,
    aborted: bool,
}

impl View for PasteSession {
    type V = SessionView;

    closed spec fn view(&self) -> SessionView {
        SessionView {
            requests: self.requests.deep_view(),
            completed: self.completed as nat,
            aborted: self.aborted,
        }
    }
}

impl PasteSession {
    #[verifier::type_invariant]
    spec fn within_requests(self) -> bool {
        self.completed <= self.requests.len() && (self.aborted ==> self.completed
            < self.requests.len())
    }

    /// A session for the given transfers, none of them made yet.
    pub fn new(requests: Vec<TransferRequest>) -> (session: PasteSession)
        ensures
            session@ == SessionView::fresh(requests.deep_view()),
    {
        PasteSession { requests, completed: 0, aborted: false }
    }

    /// The transfer to perform next, or `None` when the paste is over.
    pub fn pending(&self) -> (next: Option<&TransferRequest>)
        ensures
            match next {
                Some(request) => self@.is_pending() && request@ == self@.requests[self@.completed
                    as int],
                None => !self@.is_pending(),
            },
    {
        proof {
            use_type_invariant(self);
        }
        if !self.aborted && self.completed < self.requests.len() {
            Some(&self.requests[self.completed])
        } else {
            None
        }
    }

    /// Takes note of how the pending transfer ended.
    pub fn record(&mut self, outcome: TransferOutcome)
        ensures
            final(self)@ == old(self)@.step(outcome),
    {
        proof {
            use_type_invariant(&*self);
        }
        if !self.aborted && self.completed < self.requests.len() {
            match outcome {
                TransferOutcome::Completed => {
                    self.completed = self.completed + 1;
                },
                TransferOutcome::Failed => {
                    self.aborted = true;
                },
            }
        }
    }

    /// The number of transfers made so far.
    pub fn transferred(&self) -> (count: usize)
        ensures
            count == self@.completed,
            count <= self@.requests.len(),
    {
        proof {
            use_type_invariant(self);
        }
        self.completed
    }

    /// How the paste ended: `None` while a transfer is pending, the number
    /// of transfers made when all completed, and
    /// [`ErrorKind::TransferIoError`] when one failed.
    pub fn result(&self) -> (result: Option<Result<usize, ErrorKind>>)
        ensures
            match result {
                None => self@.result() is None,
                Some(Ok(count)) => self@.result() == Some(Ok::<nat, ErrorKind>(count as nat)),
                Some(Err(kind)) => self@.result() == Some(Err::<nat, ErrorKind>(kind)),
            },
    {
        proof {
            use_type_invariant(self);
        }
        if self.aborted {
            Some(Err(ErrorKind::TransferIoError))
        } else if self.completed >= self.requests.len() {
            Some(Ok(self.completed))
        } else {
            None
        }
    }
}

} // verus!
