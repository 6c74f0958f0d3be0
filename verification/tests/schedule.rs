//! When snapshots are taken.

use std::time::Instant;

use recovery::state::{initial_cwd, Notice, Outcome, PreserveError, State, Step};
use recovery::{Config, NativePath, Snapshot};
use ropey::Rope;

const SECOND: u64 = 1_000_000_000;

fn path(text: &str) -> NativePath {
    NativePath::from_text(text)
}

fn snapshot(text: &str) -> Snapshot {
    Snapshot {
        path: None,
        cwd: path("/work"),
        text: Rope::from_str(text),
        encoding: "UTF-8".into(),
        has_bom: false,
        line_ending: "lf".into(),
        selections: vec![(0, 0)],
        primary: 0,
    }
}

fn config() -> Config {
    Config {
        enable: true,
        directories: vec![path("/work")],
        ..Config::default_in(&path("/state"))
    }
}

fn new_state() -> State {
    State::new(Some(path("/work")), None)
}

#[test]
fn maximum_interval_and_character_threshold() {
    let epoch = Instant::now();
    let mut state = new_state();
    let mut config = config();
    let mut now = 100 * SECOND;
    state.attempted = true;
    state.record(snapshot("a"), config.clone(), 1, &epoch, now);
    let deadline = state.deadline.unwrap();
    assert_eq!(
        deadline - state.first_pending.unwrap() as u128,
        4 * SECOND as u128
    );
    now += SECOND;
    state.record(snapshot("b"), config.clone(), 198, &epoch, now);
    assert_eq!(state.deadline, Some(deadline));
    assert_eq!(state.changed_chars, 199);
    now += SECOND;
    state.record(snapshot("c"), config.clone(), 1, &epoch, now);
    assert!(state.deadline.unwrap() <= now as u128);
    let immediate = state.deadline;
    now += SECOND;
    state.record(snapshot("d"), config.clone(), 1, &epoch, now);
    assert_eq!(state.deadline, immediate);

    state.clear_pending();
    state.record(snapshot("e"), config.clone(), 1, &epoch, now);
    let started = state.first_pending.unwrap();
    config.update_time = 1;
    now += SECOND / 2;
    state.record(snapshot("f"), config, 1, &epoch, now);
    assert_eq!(state.deadline, Some((started + SECOND) as u128));
}

#[test]
fn disabled_does_not_retain_snapshots_or_create_timers() {
    let mut state = new_state();
    state.record(
        snapshot("a"),
        Config::default_in(&path("/state")),
        200,
        &Instant::now(),
        SECOND,
    );
    assert!(!state.pending());
    assert!(state.cached.is_none());
    assert!(state.sleep.is_none());
    assert!(state.path().is_none());
}

#[test]
fn the_working_directory_is_never_relative() {
    let cwd = initial_cwd(Some(path("/here")), Some(path("/bin/hx")));
    assert_eq!(cwd.units, b"/here");
    assert_eq!(initial_cwd(None, Some(path("/bin/hx"))).units, b"/bin");
    assert_eq!(initial_cwd(None, Some(path("bin/hx"))).units, b"/");
    assert_eq!(initial_cwd(None, Some(path("/"))).units, b"/");
    assert_eq!(initial_cwd(None, None).units, b"/");
    assert_eq!(new_state().cwd().units, b"/work");
}

#[test]
fn timers_wait_for_the_deadline() {
    let mut state = new_state();
    state.attempted = true;
    let now = 10 * SECOND;
    state.record_with(snapshot("a"), config(), 1, now, true);
    assert_eq!(state.counted_from(99), now);
    let until = 14 * SECOND as u128;
    assert!(matches!(state.poll(now), Step::PollSleep(t) if t == until));
    assert_eq!(state.sleep, Some(until));
    match state.elapsed() {
        Step::StartWorker(started, _, generation) => {
            assert_eq!(started.text.to_string(), "a");
            assert_eq!(generation, 1);
        }
        other => panic!("{other:?}"),
    }
    assert!(state.sleep.is_none() && state.deadline.is_none());
    assert!(matches!(state.poll(now), Step::PollWorker));
    assert!(matches!(
        state.worker_done(Outcome::Written(None), now),
        Step::Report(None)
    ));
    assert!(matches!(state.poll(now), Step::Idle));
    // A deadline that is reached starts the writer at once.
    state.record_with(snapshot("b"), config(), 1, now, true);
    assert!(matches!(
        state.poll(14 * SECOND),
        Step::StartWorker(_, _, 2)
    ));
}

#[test]
fn a_deadline_beyond_the_clock_is_told() {
    let mut state = new_state();
    state.record_with(snapshot("a"), config(), 1, SECOND, true);
    state.record_with(snapshot("b"), config(), 1, SECOND, false);
    assert!(state.pending.is_none() && state.first_pending.is_none());
    assert!(state.pending());
    assert!(matches!(
        state.poll(SECOND),
        Step::Report(Some(Notice::UpdateTimeTooLarge))
    ));
    assert!(matches!(state.poll(SECOND), Step::Idle));
    // The longest interval is counted without loss.
    state.attempted = true;
    let longest = Config {
        update_time: u64::MAX,
        ..config()
    };
    state.record_with(snapshot("c"), longest, 1, SECOND, true);
    assert_eq!(
        state.deadline,
        Some(SECOND as u128 + u64::MAX as u128 * SECOND as u128)
    );
}

#[test]
fn changed_characters_saturate() {
    let mut state = new_state();
    state.attempted = true;
    let patient = Config {
        update_count: usize::MAX,
        ..config()
    };
    state.record_with(snapshot("a"), patient.clone(), usize::MAX - 1, SECOND, true);
    assert!(state.deadline.unwrap() > SECOND as u128);
    state.record_with(snapshot("b"), patient, 5, 2 * SECOND, true);
    assert_eq!(state.changed_chars, usize::MAX);
    assert_eq!(state.deadline, Some(2 * SECOND as u128));
}

#[test]
fn a_failure_keeps_changes_that_came_since() {
    let mut state = new_state();
    state.record_with(snapshot("a"), config(), 1, SECOND, true);
    assert!(matches!(state.poll(SECOND), Step::StartWorker(_, _, 1)));
    state.record_with(snapshot("b"), config(), 1, SECOND, true);
    assert!(matches!(
        state.worker_done(Outcome::Failed, SECOND),
        Step::ReportFailure
    ));
    assert!(state.pending.is_some() && !state.failed);
    state.clear_pending();
    state.record_with(snapshot("c"), config(), 200, SECOND, true);
    assert!(matches!(state.poll(SECOND), Step::StartWorker(_, _, 2)));
    assert!(matches!(
        state.worker_done(Outcome::Failed, SECOND),
        Step::ReportFailure
    ));
    assert!(state.failed && !state.pending());
    // A new configuration tries again.
    state.reconfigure_with(config(), 3 * SECOND, true);
    assert_eq!(state.deadline, Some(3 * SECOND as u128));
}

#[test]
fn unnamed_buffers_are_told_their_path_once() {
    let mut state = new_state();
    for told in [true, false] {
        state.record_with(snapshot("a"), config(), 200, SECOND, true);
        assert!(matches!(state.poll(SECOND), Step::StartWorker(_, _, _)));
        let step = state.worker_done(Outcome::Written(Some(path("/work/x"))), SECOND);
        match step {
            Step::Report(Some(Notice::RecoveryFile(published))) => {
                assert!(told);
                assert_eq!(published.units, b"/work/x");
            }
            Step::Report(None) => assert!(!told),
            other => panic!("{other:?}"),
        }
        assert_eq!(state.path().unwrap().units, b"/work/x");
    }
}

#[test]
fn saved_text_keeps_selections_inside() {
    let mut state = new_state();
    let mut shown = snapshot("a longer text");
    shown.selections = vec![(0, 13), (7, 2)];
    state.record_with(shown, config(), 1, SECOND, true);
    state.saved_text(&Rope::from_str("\u{e9}t\u{e9}"));
    let cached = state.cached.as_ref().unwrap();
    assert_eq!(cached.text.to_string(), "\u{e9}t\u{e9}");
    assert_eq!(cached.selections, vec![(0, 3), (3, 2)]);
}

#[test]
fn explicit_writes_report_the_limit_and_the_close() {
    let mut state = new_state();
    let (used, generation) = state
        .preserve(&snapshot("a"), Config::default_in(&path("/state")))
        .unwrap();
    assert!(used.enable);
    assert_eq!(generation, 1);
    assert!(state.failed);
    assert_eq!(
        state.preserved(true, 3, None).unwrap_err(),
        PreserveError::Oversized(3)
    );
    assert!(state.failed);
    let published = state.preserved(true, 3, Some(path("/work/x"))).unwrap();
    assert_eq!(published.units, b"/work/x");
    assert!(!state.failed && state.unnamed_reported);
    // Nothing was recovered, so nothing was written of it either.
    assert!(state.close(false));
    state.released();
    assert!(state.path().is_none());
    assert_eq!(
        state.preserve(&snapshot("a"), config()).unwrap_err(),
        PreserveError::Closed
    );
}

#[test]
fn the_clock_decides_whether_a_deadline_can_be_reached() {
    let epoch = Instant::now();
    let endless = || Config {
        update_time: u64::MAX,
        ..config()
    };
    let mut state = new_state();
    state.attempted = true;
    state.record(snapshot("a"), config(), 1, &epoch, SECOND);
    assert_eq!(state.deadline, Some(5 * SECOND as u128));
    state.record(snapshot("b"), endless(), 1, &epoch, SECOND);
    assert!(state.pending.is_none() && state.deadline.is_none());
    assert!(matches!(
        state.poll(SECOND),
        Step::Report(Some(Notice::UpdateTimeTooLarge))
    ));

    let refresh = |state: &mut State, config: Config| {
        state.refresh(
            Some(path("/work/a")),
            "UTF-8".into(),
            false,
            "lf".into(),
            config,
            &epoch,
            2 * SECOND,
        )
    };
    refresh(&mut state, config());
    assert_eq!(state.deadline, Some(2 * SECOND as u128));
    assert_eq!(
        state.cached.as_ref().unwrap().path.as_ref().unwrap().units,
        b"/work/a"
    );
    state.reconfigure(endless(), &epoch, 3 * SECOND);
    assert!(state.pending.is_none() && state.deadline.is_none());
    assert!(matches!(
        state.poll(SECOND),
        Step::Report(Some(Notice::UpdateTimeTooLarge))
    ));
}
