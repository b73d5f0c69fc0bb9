//! The background worker's decisions.
//!
//! The worker processes the media items the database marks unprocessed, then
//! imports new files found in the media folder one at a time, then waits for
//! a message. Commands can stop or pause it between items. The application
//! runs the loop: it asks `action_for` what to do, does it, and reports what
//! happened to `next_state`.

use vstd::prelude::*;
use crate::text::{concat, concat3, decimal, decimal_string, str_eq};

verus! {

/// Commands sent to the worker.
#[derive(Debug, Clone, Copy)]
pub enum WorkerMsg {
    Wake,
    Stop,
    Pause,
    Resume,
}

/// Where the worker stands.
#[derive(Debug, Clone, Copy)]
pub enum WorkerState {
    /// Paused: waits for `Resume` (or `Stop`).
    Paused,
    /// About to look up the unprocessed items.
    Loading,
    /// Before item `next` of `total` unprocessed ones: checks for commands first.
    AtItem { next: usize, total: usize },
    /// Processing item `next` of `total`.
    Working { next: usize, total: usize },
    /// About to look for a new file: checks for commands first.
    Scanning,
    /// Looking for one new file in the media folder (and processing it).
    ScanBusy,
    /// Nothing to do: waits for a message.
    Idle,
    /// Done for good.
    Stopped,
}

/// What the application does next for the worker.
#[derive(Debug, Clone, Copy)]
pub enum WorkerAction {
    /// Show how many items remain and block until a message arrives.
    WaitWhilePaused,
    /// Query the unprocessed items.
    QueryUnprocessed,
    /// Look for a waiting command without blocking.
    PollCommands,
    /// Process item `index` of the `total` unprocessed ones.
    ProcessItem { index: usize, total: usize },
    /// Import one new file from the media folder, if there is one, and process it.
    ScanForNewFile,
    /// Clear the status and block until a message arrives.
    WaitForMessage,
    /// Leave the worker loop.
    Exit,
}

/// What the application reports back.
#[derive(Debug, Clone, Copy)]
pub enum WorkerEvent {
    /// A blocking receive got this message.
    Received(WorkerMsg),
    /// A blocking receive found the channel closed.
    Disconnected,
    /// A non-blocking poll: a message, or nothing (empty or closed).
    Polled(Option<WorkerMsg>),
    /// The number of unprocessed items found.
    Unprocessed(usize),
    /// Looking up unprocessed items failed.
    QueryFailed,
    /// The current item has been processed.
    ItemDone,
    /// A new file was imported and processed.
    NewFileImported,
    /// No new file was found.
    NoNewFile,
}

/// What a state has the application do.
pub open spec fn spec_action(s: WorkerState) -> WorkerAction {
    match s {
        WorkerState::Paused => WorkerAction::WaitWhilePaused,
        WorkerState::Loading => WorkerAction::QueryUnprocessed,
        WorkerState::AtItem { .. } => WorkerAction::PollCommands,
        WorkerState::Working { next, total } => WorkerAction::ProcessItem { index: next, total },
        WorkerState::Scanning => WorkerAction::PollCommands,
        WorkerState::ScanBusy => WorkerAction::ScanForNewFile,
        WorkerState::Idle => WorkerAction::WaitForMessage,
        WorkerState::Stopped => WorkerAction::Exit,
    }
}

/// A polled command: `(stop, pause)`. Other messages are consumed and ignored.
pub open spec fn spec_commands(polled: Option<WorkerMsg>) -> (bool, bool) {
    match polled {
        Some(WorkerMsg::Stop) => (true, false),
        Some(WorkerMsg::Pause) => (false, true),
        _ => (false, false),
    }
}

/// The state after an event. An event the state does not wait for leaves it as it is.
pub open spec fn spec_next(s: WorkerState, e: WorkerEvent) -> WorkerState {
    match (s, e) {
        (WorkerState::Paused, WorkerEvent::Received(WorkerMsg::Resume)) => WorkerState::Loading,
        (WorkerState::Paused, WorkerEvent::Received(WorkerMsg::Stop)) => WorkerState::Stopped,
        (WorkerState::Paused, WorkerEvent::Received(_)) => WorkerState::Paused,
        (WorkerState::Paused, WorkerEvent::Disconnected) => WorkerState::Stopped,
        (WorkerState::Loading, WorkerEvent::Unprocessed(n)) => if n > 0 {
            WorkerState::AtItem { next: 0, total: n }
        } else {
            WorkerState::Scanning
        },
        (WorkerState::Loading, WorkerEvent::QueryFailed) => WorkerState::Stopped,
        (WorkerState::AtItem { next, total }, WorkerEvent::Polled(m)) => if spec_commands(m).0 {
            WorkerState::Stopped
        } else if spec_commands(m).1 {
            WorkerState::Paused
        } else {
            WorkerState::Working { next, total }
        },
        (WorkerState::Working { next, total }, WorkerEvent::ItemDone) => if next + 1 < total {
            WorkerState::AtItem { next: (next + 1) as usize, total }
        } else {
            WorkerState::Loading
        },
        (WorkerState::Scanning, WorkerEvent::Polled(m)) => if spec_commands(m).0 {
            WorkerState::Stopped
        } else if spec_commands(m).1 {
            WorkerState::Paused
        } else {
            WorkerState::ScanBusy
        },
        (WorkerState::ScanBusy, WorkerEvent::NewFileImported) => WorkerState::Scanning,
        (WorkerState::ScanBusy, WorkerEvent::NoNewFile) => WorkerState::Idle,
        (WorkerState::Idle, WorkerEvent::Received(WorkerMsg::Stop)) => WorkerState::Stopped,
        (WorkerState::Idle, WorkerEvent::Received(WorkerMsg::Pause)) => WorkerState::Paused,
        (WorkerState::Idle, WorkerEvent::Received(_)) => WorkerState::Loading,
        (WorkerState::Idle, WorkerEvent::Disconnected) => WorkerState::Stopped,
        _ => s,
    }
}

/// A state the worker can be in: an item index is below the item count.
pub open spec fn valid_state(s: WorkerState) -> bool {
    match s {
        WorkerState::AtItem { next, total } => next < total,
        WorkerState::Working { next, total } => next < total,
        _ => true,
    }
}

/// Check a polled message for Stop/Pause: returns `(should_stop, should_pause)`.
pub fn check_commands(polled: Option<WorkerMsg>) -> (res: (bool, bool))
    ensures
        res == spec_commands(polled),
        res.0 == (polled == Some(WorkerMsg::Stop)),
        res.1 == (polled == Some(WorkerMsg::Pause)),
{
    match polled {
        Some(WorkerMsg::Stop) => (true, false),
        Some(WorkerMsg::Pause) => (false, true),
        _ => (false, false),
    }
}

/// The state a worker starts in: it first looks up unprocessed items.
pub fn start_state() -> (res: WorkerState)
    ensures
        res == WorkerState::Loading,
{
    WorkerState::Loading
}

/// What the application must do in state `s`.
pub fn action_for(s: &WorkerState) -> (res: WorkerAction)
    ensures
        res == spec_action(*s),
{
    match *s {
        WorkerState::Paused => WorkerAction::WaitWhilePaused,
        WorkerState::Loading => WorkerAction::QueryUnprocessed,
        WorkerState::AtItem { .. } => WorkerAction::PollCommands,
        WorkerState::Working { next, total } => WorkerAction::ProcessItem { index: next, total },
        WorkerState::Scanning => WorkerAction::PollCommands,
        WorkerState::ScanBusy => WorkerAction::ScanForNewFile,
        WorkerState::Idle => WorkerAction::WaitForMessage,
        WorkerState::Stopped => WorkerAction::Exit,
    }
}

/// The worker's next state after event `e` in state `s`.
pub fn next_state(s: &WorkerState, e: &WorkerEvent) -> (res: WorkerState)
    requires
        valid_state(*s),
    ensures
        res == spec_next(*s, *e),
        valid_state(res),
{
    match (*s, *e) {
        (WorkerState::Paused, WorkerEvent::Received(m)) => match m {
            WorkerMsg::Resume => WorkerState::Loading,
            WorkerMsg::Stop => WorkerState::Stopped,
            _ => WorkerState::Paused,
        },
        (WorkerState::Paused, WorkerEvent::Disconnected) => WorkerState::Stopped,
        (WorkerState::Loading, WorkerEvent::Unprocessed(n)) => if n > 0 {
            WorkerState::AtItem { next: 0, total: n }
        } else {
            WorkerState::Scanning
        },
        (WorkerState::Loading, WorkerEvent::QueryFailed) => WorkerState::Stopped,
        (WorkerState::AtItem { next, total }, WorkerEvent::Polled(m)) => {
            let (stop, pause) = check_commands(m);
            if stop {
                WorkerState::Stopped
            } else if pause {
                WorkerState::Paused
            } else {
                WorkerState::Working { next, total }
            }
        },
        (WorkerState::Working { next, total }, WorkerEvent::ItemDone) => if next + 1 < total {
            WorkerState::AtItem { next: next + 1, total }
        } else {
            WorkerState::Loading
        },
        (WorkerState::Scanning, WorkerEvent::Polled(m)) => {
            let (stop, pause) = check_commands(m);
            if stop {
                WorkerState::Stopped
            } else if pause {
                WorkerState::Paused
            } else {
                WorkerState::ScanBusy
            }
        },
        (WorkerState::ScanBusy, WorkerEvent::NewFileImported) => WorkerState::Scanning,
        (WorkerState::ScanBusy, WorkerEvent::NoNewFile) => WorkerState::Idle,
        (WorkerState::Idle, WorkerEvent::Received(m)) => match m {
            WorkerMsg::Stop => WorkerState::Stopped,
            WorkerMsg::Pause => WorkerState::Paused,
            _ => WorkerState::Loading,
        },
        (WorkerState::Idle, WorkerEvent::Disconnected) => WorkerState::Stopped,
        _ => *s,
    }
}

/// Once stopped, the worker stays stopped whatever happens.
pub proof fn law_stopped_is_final(e: WorkerEvent)
    ensures
        spec_next(WorkerState::Stopped, e) == WorkerState::Stopped,
        spec_action(WorkerState::Stopped) == WorkerAction::Exit,
{
}

/// A `Stop` command is obeyed wherever the worker looks for commands: while
/// paused, while idle, before each item and before each new file.
pub proof fn law_stop_is_obeyed(next: usize, total: usize)
    ensures
        spec_next(WorkerState::Paused, WorkerEvent::Received(WorkerMsg::Stop)) == WorkerState::Stopped,
        spec_next(WorkerState::Idle, WorkerEvent::Received(WorkerMsg::Stop)) == WorkerState::Stopped,
        spec_next(WorkerState::AtItem { next, total }, WorkerEvent::Polled(Some(WorkerMsg::Stop)))
            == WorkerState::Stopped,
        spec_next(WorkerState::Scanning, WorkerEvent::Polled(Some(WorkerMsg::Stop))) == WorkerState::Stopped,
{
}

/// A paused worker does no work: from `Paused` it only stays paused, stops,
/// or, on `Resume` alone, goes back to looking up its items.
pub proof fn law_pause_holds(e: WorkerEvent)
    ensures
        spec_next(WorkerState::Paused, e) == WorkerState::Paused || spec_next(WorkerState::Paused, e)
            == WorkerState::Stopped || (spec_next(WorkerState::Paused, e) == WorkerState::Loading && e
            == WorkerEvent::Received(WorkerMsg::Resume)),
{
}

/// A `Pause` command found before an item or a new file pauses the worker
/// before it does that work.
pub proof fn law_pause_is_obeyed(next: usize, total: usize)
    ensures
        spec_next(WorkerState::AtItem { next, total }, WorkerEvent::Polled(Some(WorkerMsg::Pause)))
            == WorkerState::Paused,
        spec_next(WorkerState::Scanning, WorkerEvent::Polled(Some(WorkerMsg::Pause))) == WorkerState::Paused,
        spec_next(WorkerState::Idle, WorkerEvent::Received(WorkerMsg::Pause)) == WorkerState::Paused,
{
}

/// Items are processed in order, one after another: the item after `next`
/// is `next + 1`, and after the last one the worker looks again for
/// unprocessed items (a deep refresh may have added some).
pub proof fn law_items_in_order(next: usize, total: usize, m: Option<WorkerMsg>)
    requires
        next < total,
        !spec_commands(m).0,
        !spec_commands(m).1,
    ensures
        spec_next(WorkerState::AtItem { next, total }, WorkerEvent::Polled(m)) == (WorkerState::Working {
            next,
            total,
        }),
        spec_action(WorkerState::Working { next, total }) == (WorkerAction::ProcessItem { index: next, total }),
        next + 1 < total ==> spec_next(WorkerState::Working { next, total }, WorkerEvent::ItemDone) == (
        WorkerState::AtItem { next: (next + 1) as usize, total }),
        next + 1 == total ==> spec_next(WorkerState::Working { next, total }, WorkerEvent::ItemDone)
            == WorkerState::Loading,
{
}

/// A `Wake` or `Resume` arriving while items are being processed is
/// consumed without effect; a `Wake` while idle starts a new round.
pub proof fn law_wake(next: usize, total: usize)
    ensures
        spec_next(WorkerState::AtItem { next, total }, WorkerEvent::Polled(Some(WorkerMsg::Wake))) == (
        WorkerState::Working { next, total }),
        spec_next(WorkerState::AtItem { next, total }, WorkerEvent::Polled(Some(WorkerMsg::Resume))) == (
        WorkerState::Working { next, total }),
        spec_next(WorkerState::Idle, WorkerEvent::Received(WorkerMsg::Wake)) == WorkerState::Loading,
{
}

/// Looking for commands before the next new file: `Stop` stops, `Pause`
/// pauses, and any other message (or none) is consumed and the scan goes on.
pub proof fn law_scan_goes_on(m: Option<WorkerMsg>)
    ensures
        m == Some(WorkerMsg::Stop) ==> spec_next(WorkerState::Scanning, WorkerEvent::Polled(m)) == WorkerState::Stopped,
        m == Some(WorkerMsg::Pause) ==> spec_next(WorkerState::Scanning, WorkerEvent::Polled(m)) == WorkerState::Paused,
        m != Some(WorkerMsg::Stop) && m != Some(WorkerMsg::Pause) ==> spec_next(
            WorkerState::Scanning,
            WorkerEvent::Polled(m),
        ) == WorkerState::ScanBusy,
        spec_action(WorkerState::ScanBusy) == WorkerAction::ScanForNewFile,
        spec_next(WorkerState::ScanBusy, WorkerEvent::NewFileImported) == WorkerState::Scanning,
        spec_next(WorkerState::ScanBusy, WorkerEvent::NoNewFile) == WorkerState::Idle,
{
}

/// Looking for commands before an item: `Stop` stops, `Pause` pauses, and
/// any other message (or none) is consumed and the item is processed.
pub proof fn law_item_goes_on(next: usize, total: usize, m: Option<WorkerMsg>)
    ensures
        spec_action(WorkerState::AtItem { next, total }) == WorkerAction::PollCommands,
        m == Some(WorkerMsg::Stop) ==> spec_next(WorkerState::AtItem { next, total }, WorkerEvent::Polled(m))
            == WorkerState::Stopped,
        m == Some(WorkerMsg::Pause) ==> spec_next(WorkerState::AtItem { next, total }, WorkerEvent::Polled(m))
            == WorkerState::Paused,
        m != Some(WorkerMsg::Stop) && m != Some(WorkerMsg::Pause) ==> spec_next(
            WorkerState::AtItem { next, total },
            WorkerEvent::Polled(m),
        ) == (WorkerState::Working { next, total }),
{
}

/// Waiting while paused: only `Resume` resumes (the worker looks up its items
/// again), `Stop` or a closed channel ends it, `Wake` and `Pause` change
/// nothing. Waiting while idle: `Stop` or a closed channel ends it, `Pause`
/// pauses, `Wake` and `Resume` start a new round.
pub proof fn law_waiting(m: WorkerMsg)
    ensures
        spec_action(WorkerState::Paused) == WorkerAction::WaitWhilePaused,
        spec_action(WorkerState::Idle) == WorkerAction::WaitForMessage,
        spec_next(WorkerState::Paused, WorkerEvent::Received(m)) == match m {
            WorkerMsg::Resume => WorkerState::Loading,
            WorkerMsg::Stop => WorkerState::Stopped,
            WorkerMsg::Wake => WorkerState::Paused,
            WorkerMsg::Pause => WorkerState::Paused,
        },
        spec_next(WorkerState::Paused, WorkerEvent::Disconnected) == WorkerState::Stopped,
        spec_next(WorkerState::Idle, WorkerEvent::Received(m)) == match m {
            WorkerMsg::Stop => WorkerState::Stopped,
            WorkerMsg::Pause => WorkerState::Paused,
            WorkerMsg::Wake => WorkerState::Loading,
            WorkerMsg::Resume => WorkerState::Loading,
        },
        spec_next(WorkerState::Idle, WorkerEvent::Disconnected) == WorkerState::Stopped,
{
}

/// Looking up the unprocessed items: with some, the first is next (its
/// commands checked first); with none, the worker scans the media folder;
/// a failed lookup ends the worker.
pub proof fn law_lookup(n: usize)
    ensures
        spec_action(WorkerState::Loading) == WorkerAction::QueryUnprocessed,
        n > 0 ==> spec_next(WorkerState::Loading, WorkerEvent::Unprocessed(n)) == (WorkerState::AtItem {
            next: 0,
            total: n,
        }),
        n == 0 ==> spec_next(WorkerState::Loading, WorkerEvent::Unprocessed(n)) == WorkerState::Scanning,
        spec_next(WorkerState::Loading, WorkerEvent::QueryFailed) == WorkerState::Stopped,
        spec_action(WorkerState::Scanning) == WorkerAction::PollCommands,
{
}

/// An event a state does not wait for changes nothing: each state moves
/// only on the outcome of its own action.
pub proof fn law_other_events_change_nothing(s: WorkerState, e: WorkerEvent)
    ensures
        (s is Working && !(e is ItemDone)) ==> spec_next(s, e) == s,
        (s is ScanBusy && !(e is NewFileImported) && !(e is NoNewFile)) ==> spec_next(s, e) == s,
        (s is Loading && !(e is Unprocessed) && !(e is QueryFailed)) ==> spec_next(s, e) == s,
        ((s is AtItem || s is Scanning) && !(e is Polled)) ==> spec_next(s, e) == s,
        ((s is Paused || s is Idle) && !(e is Received) && !(e is Disconnected)) ==> spec_next(s, e) == s,
{
}

// ---------------------------------------------------------------------------
// A queued Stop
// ---------------------------------------------------------------------------

/// How many messages stand before the first `Stop` in a queue (the queue's
/// length if there is none).
pub open spec fn first_stop(q: Seq<WorkerMsg>) -> nat
    decreases q.len(),
{
    if q.len() == 0 {
        0
    } else if q[0] == WorkerMsg::Stop {
        0
    } else {
        1 + first_stop(q.drop_first())
    }
}

/// The worker took the first message of `q`; `q2` is the rest, followed by
/// whatever was sent meanwhile.
pub open spec fn took_first(q: Seq<WorkerMsg>, q2: Seq<WorkerMsg>) -> bool {
    q.len() > 0 && q2.len() >= q.len() - 1 && q2.take(q.len() - 1) == q.drop_first()
}

/// The worker took no message; `q2` is `q` followed by whatever was sent
/// meanwhile.
pub open spec fn took_none(q: Seq<WorkerMsg>, q2: Seq<WorkerMsg>) -> bool {
    q2.len() >= q.len() && q2.take(q.len() as int) == q
}

/// One step of the worker loop as the application runs it: in state `s`
/// with the messages `q` waiting, it performs `spec_action(s)`, which yields
/// `e`, and goes to `s2` with `q2` waiting. Looking for a command, or waiting
/// for one, takes the first waiting message; processing an item reports it
/// done; the other actions report one of their outcomes.
pub open spec fn worker_step(
    s: WorkerState,
    q: Seq<WorkerMsg>,
    e: WorkerEvent,
    s2: WorkerState,
    q2: Seq<WorkerMsg>,
) -> bool {
    &&& s2 == spec_next(s, e)
    &&& match spec_action(s) {
        WorkerAction::PollCommands => if q.len() > 0 {
            e == WorkerEvent::Polled(Some(q[0])) && took_first(q, q2)
        } else {
            e == WorkerEvent::Polled(None) && took_none(q, q2)
        },
        WorkerAction::WaitWhilePaused | WorkerAction::WaitForMessage => if q.len() > 0 {
            e == WorkerEvent::Received(q[0]) && took_first(q, q2)
        } else {
            (e is Received || e is Disconnected) && took_none(q, q2)
        },
        WorkerAction::QueryUnprocessed => (e is Unprocessed || e is QueryFailed) && took_none(q, q2),
        WorkerAction::ProcessItem { .. } => e == WorkerEvent::ItemDone && took_none(q, q2),
        WorkerAction::ScanForNewFile => (e == WorkerEvent::NewFileImported || e == WorkerEvent::NoNewFile)
            && took_none(q, q2),
        WorkerAction::Exit => took_none(q, q2),
    }
}

/// A run of the worker loop: `events.len()` steps through `states`, with
/// `queues[i]` waiting in `states[i]`.
pub open spec fn worker_run(states: Seq<WorkerState>, queues: Seq<Seq<WorkerMsg>>, events: Seq<WorkerEvent>) -> bool {
    &&& states.len() == events.len() + 1
    &&& queues.len() == events.len() + 1
    &&& forall|i: int|
        0 <= i < events.len() ==> #[trigger] worker_step(states[i], queues[i], events[i], states[i + 1], queues[i + 1])
}

/// Whether the step from `s` with outcome `e` processes a media item: an
/// unprocessed one, or a new file just imported.
pub open spec fn processes_item(s: WorkerState, e: WorkerEvent) -> bool {
    spec_action(s) is ProcessItem || (spec_action(s) is ScanForNewFile && e == WorkerEvent::NewFileImported)
}

/// How many media items the first `n` steps of a run process.
pub open spec fn items_processed(states: Seq<WorkerState>, events: Seq<WorkerEvent>, n: int) -> nat
    decreases n,
{
    if n <= 0 {
        0
    } else {
        items_processed(states, events, n - 1) + if processes_item(states[n - 1], events[n - 1]) {
            1nat
        } else {
            0nat
        }
    }
}

/// Whether the worker is in the middle of processing an item.
pub open spec fn item_in_progress(s: WorkerState) -> nat {
    if s is Working || s is ScanBusy { 1 } else { 0 }
}

proof fn lemma_first_stop_prefix(q: Seq<WorkerMsg>, q2: Seq<WorkerMsg>, m: int)
    requires
        first_stop(q) < q.len(),
        first_stop(q) < m <= q.len(),
        m <= q2.len(),
        q2.take(m) == q.take(m),
    ensures
        first_stop(q2) == first_stop(q),
    decreases q.len(),
{
    assert(q2[0] == q.take(m)[0]);
    if q[0] != WorkerMsg::Stop {
        assert(q2.drop_first().take(m - 1) =~= q.drop_first().take(m - 1)) by {
            assert forall|i: int| 0 <= i < m - 1 implies #[trigger] q2.drop_first().take(m - 1)[i] == q.drop_first().take(m - 1)[i] by {
                assert(q2.take(m)[i + 1] == q.take(m)[i + 1]);
                assert(q2.take(m)[i + 1] == q2[i + 1]);
                assert(q.take(m)[i + 1] == q[i + 1]);
            }
        }
        lemma_first_stop_prefix(q.drop_first(), q2.drop_first(), m - 1);
    }
}

/// One step keeps the bound: while the `Stop` still waits, the items
/// processed so far plus the messages before it (plus an item in progress)
/// never grow; once the worker takes it, the worker is stopped.
proof fn lemma_stop_step(s: WorkerState, q: Seq<WorkerMsg>, e: WorkerEvent, s2: WorkerState, q2: Seq<WorkerMsg>)
    requires
        worker_step(s, q, e, s2, q2),
        s != WorkerState::Stopped,
        first_stop(q) < q.len(),
    ensures
        s2 == WorkerState::Stopped || first_stop(q2) < q2.len(),
        s2 != WorkerState::Stopped ==> (if processes_item(s, e) { 1nat } else { 0nat }) + first_stop(q2)
            + item_in_progress(s2) <= first_stop(q) + item_in_progress(s),
        s2 == WorkerState::Stopped ==> (if processes_item(s, e) { 1nat } else { 0nat }) <= first_stop(q)
            + item_in_progress(s),
{
    let a = spec_action(s);
    if a is PollCommands || a is WaitWhilePaused || a is WaitForMessage {
        assert(took_first(q, q2));
        if q[0] != WorkerMsg::Stop {
            assert(first_stop(q) == 1 + first_stop(q.drop_first()));
            assert(q.drop_first().take(q.len() - 1) =~= q.drop_first());
            lemma_first_stop_prefix(q.drop_first(), q2, q.len() - 1);
        }
    } else {
        assert(took_none(q, q2));
        assert(q.take(q.len() as int) =~= q);
        lemma_first_stop_prefix(q, q2, q.len() as int);
    }
}

proof fn lemma_stop_run(states: Seq<WorkerState>, queues: Seq<Seq<WorkerMsg>>, events: Seq<WorkerEvent>, n: int)
    requires
        worker_run(states, queues, events),
        0 <= n <= events.len(),
        first_stop(queues[0]) < queues[0].len(),
    ensures
        states[n] == WorkerState::Stopped || first_stop(queues[n]) < queues[n].len(),
        states[n] != WorkerState::Stopped ==> items_processed(states, events, n) + first_stop(queues[n])
            + item_in_progress(states[n]) <= first_stop(queues[0]) + item_in_progress(states[0]),
        items_processed(states, events, n) <= first_stop(queues[0]) + item_in_progress(states[0]),
    decreases n,
{
    if n > 0 {
        lemma_stop_run(states, queues, events, n - 1);
        let i = n - 1;
        assert(worker_step(states[i], queues[i], events[i], states[i + 1], queues[i + 1]));
        if states[i] == WorkerState::Stopped {
            assert(states[n] == WorkerState::Stopped);
            assert(!processes_item(states[i], events[i]));
        } else {
            lemma_stop_step(states[i], queues[i], events[i], states[n], queues[n]);
        }
    }
}

/// A `Stop` waiting behind `k` other messages: until the worker takes it,
/// it is still waiting, and once it is taken the worker is stopped (and then
/// only exits, never waiting for a message again). Meanwhile the worker
/// processes at most `k` media items, one more if it was already busy with
/// one: each further item needs a look for commands, which takes a message.
pub proof fn law_queued_stop_bounds_work(
    states: Seq<WorkerState>,
    queues: Seq<Seq<WorkerMsg>>,
    events: Seq<WorkerEvent>,
)
    requires
        worker_run(states, queues, events),
        first_stop(queues[0]) < queues[0].len(),
    ensures
        forall|i: int| 0 <= i <= events.len() ==> #[trigger] states[i] == WorkerState::Stopped
            || first_stop(queues[i]) < queues[i].len(),
        items_processed(states, events, events.len() as int) <= first_stop(queues[0])
            + item_in_progress(states[0]),
        spec_action(WorkerState::Stopped) == WorkerAction::Exit,
{
    assert forall|i: int| 0 <= i <= events.len() implies #[trigger] states[i] == WorkerState::Stopped
        || first_stop(queues[i]) < queues[i].len() by {
        lemma_stop_run(states, queues, events, i);
    }
    lemma_stop_run(states, queues, events, events.len() as int);
}

// ---------------------------------------------------------------------------
// Per-item decisions
// ---------------------------------------------------------------------------

/// Whether a media type gets a static thumbnail: everything but audio.
pub open spec fn spec_wants_thumbnail(media_type: Seq<char>) -> bool {
    media_type != "audio"@
}

/// Whether a media type gets an animated preview: videos and GIFs.
pub open spec fn spec_wants_animated_preview(media_type: Seq<char>) -> bool {
    media_type == "video"@ || media_type == "gif"@
}

pub fn wants_thumbnail(media_type: &str) -> (res: bool)
    ensures
        res == spec_wants_thumbnail(media_type@),
        res == (media_type@ != "audio"@),
{
    !str_eq(media_type, "audio")
}

pub fn wants_animated_preview(media_type: &str) -> (res: bool)
    ensures
        res == spec_wants_animated_preview(media_type@),
        res == (media_type@ == "video"@ || media_type@ == "gif"@),
{
    str_eq(media_type, "video") || str_eq(media_type, "gif")
}

/// Whether processing generates a thumbnail: wanted, not there yet, and not
/// already tried and failed.
pub fn needs_thumbnail(media_type: &str, thumbnail_exists: bool, failed_exists: bool) -> (res: bool)
    ensures
        res == (spec_wants_thumbnail(media_type@) && !thumbnail_exists && !failed_exists),
        res == (media_type@ != "audio"@ && !thumbnail_exists && !failed_exists),
{
    wants_thumbnail(media_type) && !thumbnail_exists && !failed_exists
}

/// Whether processing generates an animated preview: wanted, not there yet,
/// and not already tried and failed.
pub fn needs_animated_preview(media_type: &str, preview_exists: bool, failed_exists: bool) -> (res: bool)
    ensures
        res == (spec_wants_animated_preview(media_type@) && !preview_exists && !failed_exists),
        res == ((media_type@ == "video"@ || media_type@ == "gif"@) && !preview_exists && !failed_exists),
{
    wants_animated_preview(media_type) && !preview_exists && !failed_exists
}

/// Whether a processed item must be processed again because a preview it
/// should have is missing. Audio has none; a missing media file is left alone.
pub fn needs_reprocessing(media_type: &str, file_exists: bool, thumbnail_exists: bool, preview_exists: bool) -> (res:
    bool)
    ensures
        res == (spec_wants_thumbnail(media_type@) && file_exists && (!thumbnail_exists || (
        spec_wants_animated_preview(media_type@) && !preview_exists))),
        res == (media_type@ != "audio"@ && file_exists && (!thumbnail_exists || ((media_type@ == "video"@
            || media_type@ == "gif"@) && !preview_exists))),
{
    if !wants_thumbnail(media_type) {
        return false;
    }
    if !file_exists {
        return false;
    }
    !thumbnail_exists || (wants_animated_preview(media_type) && !preview_exists)
}

/// Every media type but audio gets a static thumbnail; videos and GIFs, and
/// only they, also get an animated preview. So audio gets neither, and is
/// never reprocessed for a missing one.
pub proof fn law_preview_kinds(media_type: Seq<char>)
    ensures
        spec_wants_thumbnail(media_type) <==> media_type != "audio"@,
        spec_wants_animated_preview(media_type) <==> (media_type == "video"@ || media_type == "gif"@),
        spec_wants_thumbnail("image"@) && spec_wants_thumbnail("video"@) && spec_wants_thumbnail("gif"@),
        spec_wants_animated_preview(media_type) ==> spec_wants_thumbnail(media_type),
        !spec_wants_thumbnail("audio"@),
        !spec_wants_animated_preview("audio"@),
{
    reveal_strlit("audio");
    reveal_strlit("video");
    reveal_strlit("gif");
    reveal_strlit("image");
    assert(("audio"@)[0] != ("video"@)[0]);
    assert(("audio"@).len() != ("gif"@).len());
    assert(("audio"@)[0] != ("image"@)[0]);
}

/// Audio never gets a thumbnail or an animated preview, and is never
/// reprocessed for a missing one.
pub proof fn law_audio_has_no_previews()
    ensures
        !spec_wants_thumbnail("audio"@),
        !spec_wants_animated_preview("audio"@),
{
    law_preview_kinds("audio"@);
}

// ---------------------------------------------------------------------------
// Status lines
// ---------------------------------------------------------------------------

/// `label i/total` for the item at `index` (counted from 1 on screen).
pub fn progress_status(label: &str, index: u64, total: u64) -> (res: String)
    requires
        index < u64::MAX,
    ensures
        res@ == label@ + " "@ + decimal((index + 1) as nat) + "/"@ + decimal(total as nat),
{
    let done = decimal_string(index + 1);
    let all = decimal_string(total);
    let head = concat3(label, " ", done.as_str());
    concat3(head.as_str(), "/", all.as_str())
}

/// The status while paused.
pub fn paused_status(remaining: u64) -> (res: String)
    ensures
        res@ == "Processing paused ("@ + decimal(remaining as nat) + " remaining)"@,
{
    let n = decimal_string(remaining);
    concat3("Processing paused (", n.as_str(), " remaining)")
}

} // verus!
