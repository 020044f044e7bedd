use watchlock::debounce::{FileEventDebouncer, WatchEvent, WatchEventKind};
use watchlock::scheduler::{
    diagnostic_message, Diagnostic, RestartScheduler, RunPhase, SchedulerAction, SchedulerEvent,
};
use watchlock::watched::WatchedPathsRegistry;

fn ev(paths: Vec<&str>, t: u64) -> WatchEvent {
    WatchEvent {
        paths: paths.into_iter().map(|s| s.to_string()).collect(),
        kind: WatchEventKind::Modify,
        timestamp: t,
    }
}

/// A burst of events, each strictly within the quiescence window of
/// the previous, yields exactly one batch holding the union of all
/// touched paths.
#[test]
fn debounce_coalesces_burst() {
    let mut d = FileEventDebouncer::new(200);
    d.on_event(&ev(vec!["/w/file_to_watch.js"], 0));
    d.on_event(&ev(vec!["/w/another_file.js"], 100));
    d.on_event(&ev(vec!["/w/file_to_watch.js"], 199));
    // the window has not elapsed yet: nothing is emitted
    assert!(d.poll(398).is_none());
    // the timer fires once, with the union of paths
    let batch = d.poll(399).expect("one batch after quiescence");
    let mut paths = batch.paths.clone();
    paths.sort();
    paths.dedup();
    assert_eq!(paths, vec!["/w/another_file.js".to_string(), "/w/file_to_watch.js".to_string()]);
    // and only once
    assert!(d.poll(500).is_none());
}

/// A lone event emits a batch only after its own full window.
#[test]
fn debounce_single_event() {
    let mut d = FileEventDebouncer::new(200);
    d.on_event(&ev(vec!["/w/mod6.bundle.js"], 1000));
    assert!(d.poll(1199).is_none());
    let batch = d.poll(1200).unwrap();
    assert_eq!(batch.paths, vec!["/w/mod6.bundle.js".to_string()]);
}

fn diag_texts(diags: &[Diagnostic]) -> Vec<&'static str> {
    diags.iter().map(|d| diagnostic_message(*d)).collect()
}

/// The watch-and-restart scenario: the first run starts and finishes
/// without any restart notice; a change then reports "Restarting",
/// cancels nothing (the run had finished), and the new run starts and
/// finishes in order.
#[test]
fn watch_restart_flow() {
    let mut s = RestartScheduler::new();
    let mut w = WatchedPathsRegistry::new();
    w.replace(vec!["/w/file_to_watch.js".to_string()]);
    assert_eq!(w.current(), &vec!["/w/file_to_watch.js".to_string()]);

    // first batch: spawn, no "Restarting" for the very first run
    let (a, d) = s.on_event(&SchedulerEvent::Batch);
    assert_eq!(a, vec![SchedulerAction::SpawnRun]);
    assert!(d.is_empty());
    let (a, d) = s.on_event(&SchedulerEvent::RunStarted);
    assert!(a.is_empty());
    assert_eq!(diag_texts(&d), vec!["Process started"]);
    let (a, d) = s.on_event(&SchedulerEvent::RunSucceeded);
    assert!(a.is_empty());
    assert_eq!(diag_texts(&d), vec!["Process finished"]);

    // the file changes: restart notice, new run spawned
    let (a, d) = s.on_event(&SchedulerEvent::Batch);
    assert_eq!(a, vec![SchedulerAction::SpawnRun]);
    assert_eq!(diag_texts(&d), vec!["Restarting"]);
    let (_, d) = s.on_event(&SchedulerEvent::RunStarted);
    assert_eq!(diag_texts(&d), vec!["Process started"]);
    let (_, d) = s.on_event(&SchedulerEvent::RunSucceeded);
    assert_eq!(diag_texts(&d), vec!["Process finished"]);
}

/// A change arriving while the run is still executing cancels it
/// cooperatively; the respawn happens only once the cancellation is
/// acknowledged, and a second change during teardown coalesces instead
/// of double-firing the cancel.
#[test]
fn restart_during_running_cancels_once() {
    let mut s = RestartScheduler::new();
    s.on_event(&SchedulerEvent::Batch);
    s.on_event(&SchedulerEvent::RunStarted);
    // long-running program; a change arrives
    let (a, d) = s.on_event(&SchedulerEvent::Batch);
    assert_eq!(a, vec![SchedulerAction::RequestCancel]);
    assert_eq!(diag_texts(&d), vec!["Restarting"]);
    assert_eq!(s.current_phase(), Some(RunPhase::Cancelling));
    // another change during teardown: coalesced, no second cancel
    let (a, d) = s.on_event(&SchedulerEvent::Batch);
    assert!(a.is_empty());
    assert!(d.is_empty());
    // teardown acknowledged: exactly now the next run is spawned
    let (a, d) = s.on_event(&SchedulerEvent::CancelAcked);
    assert_eq!(a, vec![SchedulerAction::SpawnRun]);
    assert!(d.is_empty());
    assert_eq!(s.current_phase(), Some(RunPhase::Starting));
    // at no point were two handles live: all previous handles are done
    for i in 0..s.runs.len() - 1 {
        assert_eq!(s.runs[i], RunPhase::Done);
    }
}

/// A run that fails (a syntax error in the watched file) does not kill
/// the supervisor: the loop reports the finish and waits for the next
/// change.
#[test]
fn failed_run_keeps_watching() {
    let mut s = RestartScheduler::new();
    s.on_event(&SchedulerEvent::Batch);
    s.on_event(&SchedulerEvent::RunStarted);
    let (a, d) = s.on_event(&SchedulerEvent::RunFailed);
    assert!(a.is_empty());
    assert_eq!(diag_texts(&d), vec!["Process finished"]);
    // next change restarts as usual
    let (a, d) = s.on_event(&SchedulerEvent::Batch);
    assert_eq!(a, vec![SchedulerAction::SpawnRun]);
    assert_eq!(diag_texts(&d), vec!["Restarting"]);
}

/// The watch set is replaced wholesale, never patched: the registry
/// hands back the previous set so new watches can be registered before
/// the old ones are removed.
#[test]
fn watched_paths_replaced_atomically() {
    let mut w = WatchedPathsRegistry::new();
    let old = w.replace(vec!["/a.js".to_string(), "/b.js".to_string()]);
    assert!(old.is_empty());
    let old = w.replace(vec!["/a.js".to_string(), "/c.js".to_string()]);
    assert_eq!(old, vec!["/a.js".to_string(), "/b.js".to_string()]);
    assert_eq!(w.current(), &vec!["/a.js".to_string(), "/c.js".to_string()]);
}
