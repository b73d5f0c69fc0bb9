use media_vault::worker::{
    action_for, check_commands, needs_animated_preview, needs_reprocessing, needs_thumbnail, next_state,
    paused_status, progress_status, start_state, wants_animated_preview, wants_thumbnail, WorkerAction,
    WorkerEvent, WorkerMsg, WorkerState,
};

fn step(s: WorkerState, e: WorkerEvent) -> WorkerState {
    next_state(&s, &e)
}

#[test]
fn commands_are_stop_or_pause() {
    assert_eq!(check_commands(Some(WorkerMsg::Stop)), (true, false));
    assert_eq!(check_commands(Some(WorkerMsg::Pause)), (false, true));
    assert_eq!(check_commands(Some(WorkerMsg::Wake)), (false, false));
    assert_eq!(check_commands(None), (false, false));
}

#[test]
fn items_are_processed_in_order_then_the_folder_is_scanned() {
    let s = start_state();
    assert!(matches!(action_for(&s), WorkerAction::QueryUnprocessed));
    let s = step(s, WorkerEvent::Unprocessed(2));
    assert!(matches!(s, WorkerState::AtItem { next: 0, total: 2 }));
    assert!(matches!(action_for(&s), WorkerAction::PollCommands));
    let s = step(s, WorkerEvent::Polled(None));
    assert!(matches!(action_for(&s), WorkerAction::ProcessItem { index: 0, total: 2 }));
    let s = step(s, WorkerEvent::ItemDone);
    let s = step(s, WorkerEvent::Polled(Some(WorkerMsg::Wake)));
    assert!(matches!(action_for(&s), WorkerAction::ProcessItem { index: 1, total: 2 }));
    let s = step(s, WorkerEvent::ItemDone);
    assert!(matches!(s, WorkerState::Loading));
    let s = step(s, WorkerEvent::Unprocessed(0));
    assert!(matches!(s, WorkerState::Scanning));
    let s = step(s, WorkerEvent::Polled(None));
    assert!(matches!(action_for(&s), WorkerAction::ScanForNewFile));
    let s = step(s, WorkerEvent::NewFileImported);
    assert!(matches!(s, WorkerState::Scanning));
    let s = step(step(s, WorkerEvent::Polled(None)), WorkerEvent::NoNewFile);
    assert!(matches!(action_for(&s), WorkerAction::WaitForMessage));
    let s = step(s, WorkerEvent::Received(WorkerMsg::Wake));
    assert!(matches!(s, WorkerState::Loading));
}

#[test]
fn stop_is_obeyed_between_items() {
    let s = step(start_state(), WorkerEvent::Unprocessed(3));
    let s = step(s, WorkerEvent::Polled(Some(WorkerMsg::Stop)));
    assert!(matches!(s, WorkerState::Stopped));
    assert!(matches!(action_for(&s), WorkerAction::Exit));
    let s = step(s, WorkerEvent::Received(WorkerMsg::Resume));
    assert!(matches!(s, WorkerState::Stopped));
}

#[test]
fn pause_holds_until_resume() {
    let s = step(start_state(), WorkerEvent::Unprocessed(3));
    let s = step(s, WorkerEvent::Polled(Some(WorkerMsg::Pause)));
    assert!(matches!(s, WorkerState::Paused));
    assert!(matches!(action_for(&s), WorkerAction::WaitWhilePaused));
    let s = step(s, WorkerEvent::Received(WorkerMsg::Wake));
    assert!(matches!(s, WorkerState::Paused));
    let s = step(s, WorkerEvent::Received(WorkerMsg::Pause));
    assert!(matches!(s, WorkerState::Paused));
    let s = step(s, WorkerEvent::Received(WorkerMsg::Resume));
    assert!(matches!(s, WorkerState::Loading));
}

#[test]
fn closed_channel_or_failed_query_ends_the_worker() {
    assert!(matches!(step(WorkerState::Idle, WorkerEvent::Disconnected), WorkerState::Stopped));
    assert!(matches!(step(WorkerState::Paused, WorkerEvent::Disconnected), WorkerState::Stopped));
    assert!(matches!(step(WorkerState::Loading, WorkerEvent::QueryFailed), WorkerState::Stopped));
    assert!(matches!(step(WorkerState::Idle, WorkerEvent::Received(WorkerMsg::Pause)), WorkerState::Paused));
}

#[test]
fn which_previews_a_type_gets() {
    assert!(wants_thumbnail("image"));
    assert!(!wants_thumbnail("audio"));
    assert!(wants_animated_preview("video"));
    assert!(wants_animated_preview("gif"));
    assert!(!wants_animated_preview("image"));
    assert!(needs_thumbnail("video", false, false));
    assert!(!needs_thumbnail("video", false, true));
    assert!(!needs_animated_preview("gif", true, false));
    assert!(needs_animated_preview("gif", false, false));
}

#[test]
fn stale_items_are_reprocessed() {
    assert!(needs_reprocessing("image", true, false, false));
    assert!(!needs_reprocessing("image", true, true, false));
    assert!(needs_reprocessing("video", true, true, false));
    assert!(!needs_reprocessing("video", false, false, false));
    assert!(!needs_reprocessing("audio", true, false, false));
}

#[test]
fn status_lines() {
    assert_eq!(progress_status("Processing media", 0, 12), "Processing media 1/12");
    assert_eq!(progress_status("Importing", 9, 10), "Importing 10/10");
    assert_eq!(paused_status(7), "Processing paused (7 remaining)");
}

/// Runs the worker's decisions against a message queue and ten unprocessed
/// items; returns how many items were processed before it stopped.
fn run_with_queue(mut queue: std::collections::VecDeque<WorkerMsg>) -> (usize, bool) {
    let mut s = start_state();
    let mut processed = 0;
    for _ in 0..200 {
        let e = match action_for(&s) {
            WorkerAction::Exit => return (processed, true),
            WorkerAction::QueryUnprocessed => WorkerEvent::Unprocessed(10),
            WorkerAction::PollCommands => WorkerEvent::Polled(queue.pop_front()),
            WorkerAction::ProcessItem { .. } => {
                processed += 1;
                WorkerEvent::ItemDone
            }
            WorkerAction::ScanForNewFile => WorkerEvent::NoNewFile,
            WorkerAction::WaitWhilePaused | WorkerAction::WaitForMessage => match queue.pop_front() {
                Some(m) => WorkerEvent::Received(m),
                None => WorkerEvent::Disconnected,
            },
        };
        s = next_state(&s, &e);
    }
    (processed, false)
}

#[test]
fn a_queued_stop_bounds_the_work_done() {
    let q: std::collections::VecDeque<WorkerMsg> =
        vec![WorkerMsg::Wake, WorkerMsg::Resume, WorkerMsg::Stop, WorkerMsg::Wake].into();
    assert_eq!(run_with_queue(q), (2, true));
    let q: std::collections::VecDeque<WorkerMsg> = vec![WorkerMsg::Stop].into();
    assert_eq!(run_with_queue(q), (0, true));
    let q: std::collections::VecDeque<WorkerMsg> =
        vec![WorkerMsg::Pause, WorkerMsg::Wake, WorkerMsg::Stop, WorkerMsg::Resume].into();
    assert_eq!(run_with_queue(q), (0, true));
}
