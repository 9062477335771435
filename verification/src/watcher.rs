//! The change watcher of a stream session, as a state machine.
//!
//! The host subscribes to the notifications of the file system and performs
//! what the machine asks for; the machine decides. A tick is what one
//! notification of a modification sets off: try the tracker's lock, read what
//! is new, publish it where there is any.

use vstd::prelude::*;
use crate::lines::texts_of;
use crate::tracker::{
    content_after, lemma_no_bytes_no_lines, lines_after, offset_after, FileTracker, ReadPlan,
};

verus! {

/// Where the watcher stands.
#[derive(Clone, Copy, Debug, PartialEq, Eq, Structural)]
pub enum WatcherState {
    /// No stream has been started.
    Idle,
    /// Subscribed, waiting for a notification.
    Watching,
    /// In the middle of a tick.
    Processing,
    /// Torn down by the host.
    Stopped,
}

/// The kinds of change that a notification can report.
#[derive(Clone, Copy, Debug, PartialEq, Eq, Structural)]
pub enum ChangeKind {
    Any,
    Access,
    Create,
    Modify,
    Remove,
    Other,
}

/// What the host tells the watcher.
#[derive(Clone, Copy, Debug, PartialEq, Eq, Structural)]
pub enum WatchEvent {
    /// The stream is started; the log file exists.
    Start,
    /// The subscription to the notifications could not be set up.
    SubscribeFailed,
    /// A notification for the watched path has come in.
    Notified(ChangeKind),
    /// The tracker's lock was held by someone else.
    LockBusy,
    /// The tracker's lock has been taken.
    LockTaken,
    /// The reader has returned this many lines.
    ReadDone(usize),
    /// The reader could not open or read the file.
    ReadFailed,
    /// The host tears the session down.
    TearDown,
}

/// What the watcher asks the host to do next.
#[derive(Clone, Copy, Debug, PartialEq, Eq, Structural)]
pub enum WatchAction {
    /// Nothing to do.
    Nothing,
    /// Subscribe to the notifications for the log file.
    Subscribe,
    /// Try to take the tracker's lock, without waiting for it.
    TryLock,
    /// Run the incremental reader and move the tracker.
    Read,
    /// Hand the lines read to the publisher.
    Publish,
    /// Tell the operator that a tick was skipped for want of the lock.
    ReportSkipped,
    /// Tell the operator that the read or the subscription failed.
    ReportFailure,
}

/// The state in which the watcher is after `event`.
pub open spec fn next_state(state: WatcherState, event: WatchEvent) -> WatcherState {
    match (state, event) {
        (WatcherState::Stopped, _) => WatcherState::Stopped,
        (_, WatchEvent::TearDown) => WatcherState::Stopped,
        (WatcherState::Idle, WatchEvent::Start) => WatcherState::Watching,
        (WatcherState::Watching, WatchEvent::SubscribeFailed) => WatcherState::Idle,
        (WatcherState::Watching, WatchEvent::Notified(ChangeKind::Modify)) => WatcherState::Processing,
        (WatcherState::Processing, WatchEvent::LockBusy) => WatcherState::Watching,
        (WatcherState::Processing, WatchEvent::ReadDone(_)) => WatcherState::Watching,
        (WatcherState::Processing, WatchEvent::ReadFailed) => WatcherState::Watching,
        _ => state,
    }
}

/// What the watcher asks for on `event`.
pub open spec fn next_action(state: WatcherState, event: WatchEvent) -> WatchAction {
    match (state, event) {
        (WatcherState::Stopped, _) => WatchAction::Nothing,
        (_, WatchEvent::TearDown) => WatchAction::Nothing,
        (_, WatchEvent::Start) => WatchAction::Subscribe,
        (WatcherState::Watching, WatchEvent::SubscribeFailed) => WatchAction::ReportFailure,
        (WatcherState::Watching, WatchEvent::Notified(ChangeKind::Modify)) => WatchAction::TryLock,
        (WatcherState::Processing, WatchEvent::LockBusy) => WatchAction::ReportSkipped,
        (WatcherState::Processing, WatchEvent::LockTaken) => WatchAction::Read,
        (WatcherState::Processing, WatchEvent::ReadDone(n)) => if n > 0 {
            WatchAction::Publish
        } else {
            WatchAction::Nothing
        },
        (WatcherState::Processing, WatchEvent::ReadFailed) => WatchAction::ReportFailure,
        _ => WatchAction::Nothing,
    }
}

/// One step of the watcher: the next state and what the host is to do.
pub fn step(state: WatcherState, event: WatchEvent) -> (out: (WatcherState, WatchAction))
    ensures
        out.0 == next_state(state, event),
        out.1 == next_action(state, event),
{
    match state {
        WatcherState::Stopped => (WatcherState::Stopped, WatchAction::Nothing),
        WatcherState::Idle => match event {
            WatchEvent::TearDown => (WatcherState::Stopped, WatchAction::Nothing),
            WatchEvent::Start => (WatcherState::Watching, WatchAction::Subscribe),
            _ => (state, WatchAction::Nothing),
        },
        WatcherState::Watching => match event {
            WatchEvent::TearDown => (WatcherState::Stopped, WatchAction::Nothing),
            WatchEvent::Start => (state, WatchAction::Subscribe),
            WatchEvent::SubscribeFailed => (WatcherState::Idle, WatchAction::ReportFailure),
            WatchEvent::Notified(ChangeKind::Modify) => (
                WatcherState::Processing,
                WatchAction::TryLock,
            ),
            _ => (state, WatchAction::Nothing),
        },
        WatcherState::Processing => match event {
            WatchEvent::TearDown => (WatcherState::Stopped, WatchAction::Nothing),
            WatchEvent::Start => (state, WatchAction::Subscribe),
            WatchEvent::LockBusy => (WatcherState::Watching, WatchAction::ReportSkipped),
            WatchEvent::LockTaken => (state, WatchAction::Read),
            WatchEvent::ReadDone(n) => if n > 0 {
                (WatcherState::Watching, WatchAction::Publish)
            } else {
                (WatcherState::Watching, WatchAction::Nothing)
            },
            WatchEvent::ReadFailed => (WatcherState::Watching, WatchAction::ReportFailure),
            _ => (state, WatchAction::Nothing),
        },
    }
}

/// The watcher never ends by itself: only the host's teardown leads to
/// `Stopped`, and nothing leads out of it. A subscription that fails ends the
/// session without a retry: the watcher is idle again, and the failure is
/// reported.
pub proof fn lemma_only_teardown_stops(state: WatcherState, event: WatchEvent)
    ensures
        state != WatcherState::Stopped && event != WatchEvent::TearDown ==> next_state(state, event)
            != WatcherState::Stopped,
        next_state(state, WatchEvent::TearDown) == WatcherState::Stopped,
        next_state(WatcherState::Stopped, event) == WatcherState::Stopped,
        next_action(WatcherState::Stopped, event) == WatchAction::Nothing,
        next_state(WatcherState::Watching, WatchEvent::SubscribeFailed) == WatcherState::Idle,
        next_action(WatcherState::Watching, WatchEvent::SubscribeFailed)
            == WatchAction::ReportFailure,
{
}

/// Every tick comes back to `Watching`: a busy lock drops the event, a failed
/// read is reported and a finished one published where it brought lines, and
/// none of them ends the watcher.
pub proof fn lemma_tick_returns_to_watching(lines: usize)
    ensures
        next_state(WatcherState::Watching, WatchEvent::Notified(ChangeKind::Modify))
            == WatcherState::Processing,
        next_state(WatcherState::Processing, WatchEvent::LockBusy) == WatcherState::Watching,
        next_state(WatcherState::Processing, WatchEvent::LockTaken) == WatcherState::Processing,
        next_state(WatcherState::Processing, WatchEvent::ReadFailed) == WatcherState::Watching,
        next_state(WatcherState::Processing, WatchEvent::ReadDone(lines)) == WatcherState::Watching,
        next_action(WatcherState::Processing, WatchEvent::ReadDone(lines)) == WatchAction::Publish
            <==> lines > 0,
{
}

/// A notification of the `notify` crate, carried through as it comes.
#[verifier::external_type_specification]
#[verifier::external_body]
pub struct ExNotifyEvent(notify::Event);

/// The kind of change that a notification of the `notify` crate reports:
/// the variant of its field `kind`, without the detail inside it.
pub uninterp spec fn event_kind(event: notify::Event) -> ChangeKind;

/// Reads the field `kind` of a notification of the `notify` crate and names
/// its variant, dropping the detail inside it.
#[verifier::external_body]
fn kind_of(event: &notify::Event) -> (kind: ChangeKind)
    ensures
        kind == event_kind(*event),
{
    match event.kind {
        notify::EventKind::Any => ChangeKind::Any,
        notify::EventKind::Access(_) => ChangeKind::Access,
        notify::EventKind::Create(_) => ChangeKind::Create,
        notify::EventKind::Modify(_) => ChangeKind::Modify,
        notify::EventKind::Remove(_) => ChangeKind::Remove,
        notify::EventKind::Other => ChangeKind::Other,
    }
}

/// The step of the watcher on a notification as the `notify` crate delivers
/// it: the step on a notification of the kind that it reports.
pub fn on_notification(state: WatcherState, event: &notify::Event) -> (out: (
    WatcherState,
    WatchAction,
))
    ensures
        out.0 == next_state(state, WatchEvent::Notified(event_kind(*event))),
        out.1 == next_action(state, WatchEvent::Notified(event_kind(*event))),
{
    step(state, WatchEvent::Notified(kind_of(event)))
}

/// Starts a stream on the log file at `log_path`, which exists and holds
/// `file_size` bytes: the tracker takes what the file holds as read, so that
/// the stream delivers only what is written from now on, and the watcher is
/// told of the start.
pub fn start_log_stream(
    state: WatcherState,
    tracker: &mut FileTracker,
    log_path: String,
    file_size: u64,
) -> (out: (WatcherState, WatchAction))
    ensures
        final(tracker).path() == log_path@,
        final(tracker).offset() == file_size as nat,
        out.0 == next_state(state, WatchEvent::Start),
        out.1 == next_action(state, WatchEvent::Start),
{
    tracker.track(log_path, file_size);
    step(state, WatchEvent::Start)
}

/// A stream that is started after a snapshot delivers nothing that the
/// snapshot could show, and leaves out nothing that is written after its
/// start. `seen` is what the file held at the snapshot, `between` what was
/// written before the stream started, `written` what was written after: the
/// first read of the stream returns the lines of `written`, and those alone.
pub proof fn lemma_stream_is_independent_of_snapshot(
    seen: Seq<u8>,
    between: Seq<u8>,
    written: Seq<u8>,
)
    ensures
        lines_after(seen + between + written, (seen + between).len()) == crate::lines::text_lines(
            written,
        ),
        offset_after(seen + between + written, (seen + between).len()) == seen.len()
            + between.len() + written.len(),
{
    crate::tracker::lemma_read_returns_what_was_written(seen + between, written);
}

/// Whether `s` holds whole lines only: it is empty or ends with a line feed.
pub open spec fn whole_lines(s: Seq<u8>) -> bool {
    s.len() == 0 || s.last() == crate::lines::LF
}

/// The offset of a stream after `k` ticks. The stream started on a file that
/// held `start`; before the tick `i` the bytes `writes[i]` were added to the
/// file, and `ran[i]` says whether the tick read the file or was skipped for
/// want of the lock.
pub open spec fn stream_offset(start: Seq<u8>, writes: Seq<Seq<u8>>, ran: Seq<bool>, k: nat) -> nat
    decreases k,
{
    if k == 0 || k > writes.len() || k > ran.len() {
        start.len()
    } else if ran[k - 1] {
        offset_after(
            content_after(start, writes, k),
            stream_offset(start, writes, ran, (k - 1) as nat),
        )
    } else {
        stream_offset(start, writes, ran, (k - 1) as nat)
    }
}

/// The lines that a stream has delivered after `k` ticks: the batches of the
/// ticks that read the file, one after the other.
pub open spec fn stream_delivered(
    start: Seq<u8>,
    writes: Seq<Seq<u8>>,
    ran: Seq<bool>,
    k: nat,
) -> Seq<Seq<char>>
    decreases k,
{
    if k == 0 || k > writes.len() || k > ran.len() {
        Seq::empty()
    } else if ran[k - 1] {
        stream_delivered(start, writes, ran, (k - 1) as nat) + lines_after(
            content_after(start, writes, k),
            stream_offset(start, writes, ran, (k - 1) as nat),
        )
    } else {
        stream_delivered(start, writes, ran, (k - 1) as nat)
    }
}

/// What was added to a file in whole lines is whole lines.
proof fn lemma_added_is_whole_lines(start: Seq<u8>, writes: Seq<Seq<u8>>, k: nat)
    requires
        k <= writes.len(),
        forall|i: int| 0 <= i < k ==> whole_lines(#[trigger] writes[i]),
    ensures
        content_after(start, writes, k).len() >= start.len(),
        whole_lines(content_after(start, writes, k).skip(start.len() as int)),
    decreases k,
{
    if k > 0 {
        let before = content_after(start, writes, (k - 1) as nat);
        let now = content_after(start, writes, k);
        lemma_added_is_whole_lines(start, writes, (k - 1) as nat);
        assert(now == before + writes[k - 1]);
        assert(whole_lines(writes[k - 1]));
        assert(now.skip(start.len() as int) =~= before.skip(start.len() as int) + writes[k - 1]);
    } else {
        assert(start.skip(start.len() as int) =~= Seq::<u8>::empty());
    }
}

/// Over any run of ticks after its start, a stream delivers the lines of
/// what was added to the file up to its offset, once each and in the order of
/// the file, and nothing of what the file held at the start, whatever ticks
/// were skipped in between; the file is only added to, in whole lines. After
/// a tick that read the file nothing is left out: the batches, one after the
/// other, are the lines of all that was added since the start.
pub proof fn lemma_stream_delivers_what_was_added(
    start: Seq<u8>,
    writes: Seq<Seq<u8>>,
    ran: Seq<bool>,
    k: nat,
)
    requires
        writes.len() == ran.len(),
        k <= writes.len(),
        forall|i: int| 0 <= i < k ==> whole_lines(#[trigger] writes[i]),
    ensures
        start.len() <= stream_offset(start, writes, ran, k) <= content_after(start, writes, k).len(),
        whole_lines(
            content_after(start, writes, k).subrange(
                start.len() as int,
                stream_offset(start, writes, ran, k) as int,
            ),
        ),
        stream_delivered(start, writes, ran, k) == crate::lines::text_lines(
            content_after(start, writes, k).subrange(
                start.len() as int,
                stream_offset(start, writes, ran, k) as int,
            ),
        ),
        k > 0 && ran[k - 1] ==> stream_offset(start, writes, ran, k) == content_after(
            start,
            writes,
            k,
        ).len() && stream_delivered(start, writes, ran, k) == crate::lines::text_lines(
            content_after(start, writes, k).skip(start.len() as int),
        ),
    decreases k,
{
    let s0 = start.len() as int;
    if k == 0 {
        lemma_no_bytes_no_lines();
        assert(start.subrange(s0, s0) =~= Seq::<u8>::empty());
    } else {
        let prev = (k - 1) as nat;
        lemma_stream_delivers_what_was_added(start, writes, ran, prev);
        lemma_added_is_whole_lines(start, writes, k);
        let before = content_after(start, writes, prev);
        let now = content_after(start, writes, k);
        let off = stream_offset(start, writes, ran, prev) as int;
        assert(now == before + writes[k - 1]);
        assert(now.subrange(s0, off) =~= before.subrange(s0, off));
        if ran[k - 1] {
            let read = now.subrange(s0, off);
            let rest = now.skip(off);
            assert(read + rest =~= now.skip(s0));
            assert(now.subrange(s0, now.len() as int) =~= now.skip(s0));
            crate::lines::lemma_lines_of_appended(read, rest);
            assert(lines_after(now, off as nat) == crate::lines::text_lines(rest));
        }
    }
}

/// Stops the stream. Stopping is advisory: the watcher stays as it is, and
/// only a teardown by the host ends it.
pub fn stop_log_stream(state: WatcherState) -> (out: WatcherState)
    ensures
        out == state,
{
    state
}

/// Whether a notification of this kind, in this state, sets off a tick.
pub open spec fn is_tick(state: WatcherState, kind: ChangeKind) -> bool {
    state == WatcherState::Watching && kind == ChangeKind::Modify
}

/// One whole tick on a notification of `kind`, for a log file whose bytes are
/// `content` (nothing where it cannot be opened), with `lock_free` saying
/// whether the tracker's lock could be taken. Returns the watcher's next state
/// and the lines to publish, if any. The tick is made of the steps of the
/// watcher and the two halves of the tracker's read, in the order in which a
/// host runs them around its own work on the file.
pub fn run_tick(
    state: WatcherState,
    kind: ChangeKind,
    tracker: &mut FileTracker,
    lock_free: bool,
    content: Option<&[u8]>,
) -> (out: (WatcherState, Option<Vec<String>>))
    ensures
        out.0 == (if is_tick(state, kind) {
            WatcherState::Watching
        } else {
            next_state(state, WatchEvent::Notified(kind))
        }),
        final(tracker).path() == old(tracker).path(),
        !(is_tick(state, kind) && lock_free && content is Some) ==> {
            &&& out.1 is None
            &&& final(tracker).offset() == old(tracker).offset()
        },
        is_tick(state, kind) && lock_free && content is Some ==> {
            &&& final(tracker).offset() == offset_after(content.unwrap()@, old(tracker).offset())
            &&& out.1 is Some <==> lines_after(content.unwrap()@, old(tracker).offset()).len() > 0
            &&& out.1 is Some ==> texts_of(out.1.unwrap()@) == lines_after(
                content.unwrap()@,
                old(tracker).offset(),
            )
        },
{
    let (state, action) = step(state, WatchEvent::Notified(kind));
    if action != WatchAction::TryLock {
        return (state, None);
    }
    if !lock_free {
        let (state, _) = step(state, WatchEvent::LockBusy);
        return (state, None);
    }
    let (state, _) = step(state, WatchEvent::LockTaken);
    match content {
        None => {
            let (state, _) = step(state, WatchEvent::ReadFailed);
            (state, None)
        },
        Some(bytes) => {
            let size: u64 = bytes.len() as u64;
            let lines = match tracker.begin_read(size) {
                ReadPlan::UpToDate => {
                    proof {
                        lemma_no_bytes_no_lines();
                        assert(bytes@.skip(bytes@.len() as int) =~= Seq::<u8>::empty());
                    }
                    let none: Vec<String> = Vec::new();
                    assert(texts_of(none@) =~= Seq::<Seq<char>>::empty());
                    none
                },
                ReadPlan::ReadFrom(start) => {
                    let tail = vstd::slice::slice_subrange(bytes, start as usize, bytes.len());
                    tracker.finish_read(size, tail)
                },
            };
            let (state, action) = step(state, WatchEvent::ReadDone(lines.len()));
            proof {
                assert(texts_of(lines@).len() == lines@.len());
            }
            if action == WatchAction::Publish {
                (state, Some(lines))
            } else {
                (state, None)
            }
        },
    }
}

} // verus!
