use nobro_kernel::{CApp, CAppError, CDispatchReport, CTaskOptions, CTaskRole, SystemProfile};
use std::sync::atomic::{AtomicU32, Ordering};

static RUNS: AtomicU32 = AtomicU32::new(0);

fn pass() -> i32 {
    RUNS.fetch_add(1, Ordering::Relaxed);
    0
}

fn fail() -> i32 {
    -23
}

fn noop() -> i32 {
    0
}

fn profile() -> SystemProfile {
    SystemProfile::new(192 * 1024, 64 * 1024, 16, 9)
}

#[test]
fn declaration_reuses_graph_admission_and_rejects_invalid_inputs() {
    let mut app = CApp::<2, 1>::new();
    assert_eq!(app.task("", 20_000, pass, CTaskOptions::default()), Err(CAppError::InvalidName));
    assert_eq!(app.task("imu", 0, pass, CTaskOptions::default()), Err(CAppError::InvalidPeriod));
    app.task("imu", 20_000, pass, CTaskOptions::default()).unwrap();
    assert_eq!(app.task("imu", 20_000, pass, CTaskOptions::default()), Err(CAppError::DuplicateTask));
    assert_eq!(app.wire("imu", "control", 8), Err(CAppError::UnknownEndpoint));
    app.task(
        "control",
        20_000,
        pass,
        CTaskOptions { role: CTaskRole::Control, budget_us: 2_000, ..CTaskOptions::default() },
    )
    .unwrap();
    app.wire("imu", "control", 8).unwrap();
    app.run::<3>(profile(), 100).unwrap();
    assert_eq!(app.task("late", 20_000, pass, CTaskOptions::default()), Err(CAppError::InvalidState));
}

#[test]
fn dispatch_preserves_phase_and_counts_skipped_releases() {
    RUNS.store(0, Ordering::Relaxed);
    let mut app = CApp::<1, 0>::new();
    app.task("control", 10, pass, CTaskOptions::default()).unwrap();
    app.run::<2>(profile(), 100).unwrap();
    assert_eq!(
        app.poll_at(100).unwrap(),
        CDispatchReport { ran: 1, skipped: 0, next_release_us: Some(110) }
    );
    assert_eq!(app.poll_at(109).unwrap().ran, 0);
    assert_eq!(
        app.poll_at(135).unwrap(),
        CDispatchReport { ran: 1, skipped: 2, next_release_us: Some(140) }
    );
    assert_eq!(app.skipped_releases(), 2);
    assert_eq!(RUNS.load(Ordering::Relaxed), 2);
}

#[test]
fn callback_failure_faults_the_application() {
    let mut app = CApp::<1, 0>::new();
    app.task("sensor", 1_000, fail, CTaskOptions::default()).unwrap();
    app.run::<2>(profile(), 0).unwrap();
    assert_eq!(app.poll_at(0), Err(CAppError::StepFailed { task: "sensor", code: -23 }));
    assert_eq!(app.poll_at(1), Err(CAppError::InvalidState));
}

#[test]
fn option_and_capacity_errors_fail_before_admission() {
    let mut app = CApp::<1, 1>::new();
    assert_eq!(
        app.task(
            "control",
            100,
            pass,
            CTaskOptions { budget_us: 90, blocking_us: 11, ..CTaskOptions::default() }
        ),
        Err(CAppError::InvalidOptions)
    );
    app.task("control", 100, pass, CTaskOptions::default()).unwrap();
    assert_eq!(app.task("extra", 100, pass, CTaskOptions::default()), Err(CAppError::TaskCapacity));
    assert_eq!(app.wire("control", "control", 0), Err(CAppError::WireCapacity));
    assert_eq!(app.run::<1>(profile(), 0), Err(CAppError::TaskCapacity));
}

#[test]
fn profile_admission_failure_does_not_start_dispatch() {
    let mut app = CApp::<1, 0>::new();
    app.task("control", 10_000, noop, CTaskOptions::default()).unwrap();
    let too_small = SystemProfile::new(1, 1, 1, 2);
    assert_eq!(app.run::<2>(too_small, 0), Err(CAppError::Admission));
    assert_eq!(app.poll_at(0), Err(CAppError::InvalidState));
    app.run::<2>(profile(), 10).unwrap();
    assert_eq!(app.poll_at(10).unwrap().ran, 1);
}

// ---------------------------------------------------------------- own tests

#[test]
fn status_codes_are_stable_negative_integers() {
    assert_eq!(CAppError::InvalidState.status(), -1);
    assert_eq!(CAppError::InvalidOptions.status(), -8);
    assert_eq!(CAppError::StepFailed { task: "x", code: -3 }.status(), -10);
}

#[test]
fn labels_must_be_lowercase_ascii_and_wires_unique() {
    let mut app = CApp::<2, 2>::new();
    assert_eq!(app.task("Imu", 100, noop, CTaskOptions::default()), Err(CAppError::InvalidName));
    assert_eq!(app.task("9imu", 100, noop, CTaskOptions::default()), Err(CAppError::InvalidName));
    app.task("imu-2_a", 100, noop, CTaskOptions::default()).unwrap();
    app.task("ctl", 100, noop, CTaskOptions { role: CTaskRole::Service, ..CTaskOptions::default() })
        .unwrap();
    app.wire("imu-2_a", "ctl", 1).unwrap();
    assert_eq!(app.wire("imu-2_a", "ctl", 1), Err(CAppError::WireCapacity));
    assert_eq!(app.wire("imu-2_a", "ctl", 65), Err(CAppError::WireCapacity));
    assert_eq!(app.poll_at(0), Err(CAppError::InvalidState));
}
