use migrate::commands::up::{exited, step, Run, RunAction, RunEvent, RunState};
use migrate::error::ExecutionError;
use migrate::state::{append_history, get_pending, read_history};
use migrate::time::Timestamp;
use migrate::{ExecutionContext, ExecutionResult, Migration};

fn migration(id: &str) -> Migration {
    Migration { id: id.to_string(), version: id[..5].to_string(), file_path: format!("{}.sh", id) }
}

fn ended(exit_code: i32) -> ExecutionResult {
    ExecutionResult { success: exit_code == 0, exit_code, error: None }
}

/// What a run did: the migrations that ran, the history, and how it ended.
struct Made {
    ran: Vec<String>,
    shown: Vec<String>,
    history: String,
    end: RunState,
    last: RunAction,
}

/// Makes a run as the program does, with migrations that end as `exit_codes` tell.
fn make_run(available: &[Migration], history: &str, dry_run: bool, exit_codes: &[i32]) -> Made {
    let applied = read_history(Some(history)).unwrap();
    let pending = get_pending(available, &applied, None);
    let mut made = Made {
        ran: Vec::new(),
        shown: Vec::new(),
        history: history.to_string(),
        end: RunState::Idle,
        last: RunAction::Finish,
    };
    let mut run = Run::new(pending.len(), dry_run);
    let mut event = RunEvent::Start;
    loop {
        let action = run.advance(event).unwrap();
        made.last = action;
        match action {
            RunAction::Show { index } => {
                made.shown.push(pending[index].id.clone());
                event = RunEvent::Shown;
            }
            RunAction::Execute { index } => {
                made.ran.push(pending[index].id.clone());
                let at = available.iter().position(|m| m.id == pending[index].id).unwrap();
                event = exited(&ended(exit_codes[at]));
            }
            RunAction::Record { index } => {
                let now = Timestamp::from_unix(1_704_067_200, 0).unwrap();
                append_history(&mut made.history, &pending[index].id, &now);
                event = RunEvent::Recorded;
            }
            RunAction::Finish | RunAction::Fail { .. } => break,
        }
    }
    made.end = run.state();
    made
}

#[test]
fn a_run_stops_at_the_migration_that_fails() {
    let available = vec![migration("00001-success"), migration("00002-fail"), migration("00003-never")];
    let made = make_run(&available, "", false, &[0, 1, 0]);
    assert_eq!(made.ran, vec!["00001-success".to_string(), "00002-fail".to_string()]);
    assert_eq!(made.end, RunState::Failed { index: 1, exit_code: 1 });
    assert_eq!(made.last, RunAction::Fail { index: 1, exit_code: 1 });
    let recorded = read_history(Some(&made.history)).unwrap();
    assert_eq!(recorded.len(), 1);
    assert_eq!(recorded[0].id, "00001-success");
    assert!(!made.history.contains("00002-fail"));
    assert!(!made.history.contains("00003-never"));
}

#[test]
fn a_run_after_a_failure_takes_up_where_it_stopped() {
    let available = vec![migration("00001-success"), migration("00002-fail"), migration("00003-never")];
    let first = make_run(&available, "", false, &[0, 1, 0]);
    let second = make_run(&available, &first.history, false, &[0, 0, 0]);
    assert_eq!(second.ran, vec!["00002-fail".to_string(), "00003-never".to_string()]);
    assert_eq!(second.end, RunState::Completed);
    assert_eq!(read_history(Some(&second.history)).unwrap().len(), 3);
}

#[test]
fn a_second_run_does_nothing() {
    let available = vec![migration("00001-a"), migration("00002-b")];
    let first = make_run(&available, "", false, &[0, 0]);
    assert_eq!(first.ran.len(), 2);
    assert_eq!(first.end, RunState::Completed);
    let second = make_run(&available, &first.history, false, &[0, 0]);
    assert!(second.ran.is_empty());
    assert_eq!(second.end, RunState::Completed);
    assert_eq!(second.history, first.history);
}

#[test]
fn a_dry_run_runs_and_records_nothing() {
    let available = vec![migration("00001-a"), migration("00002-b")];
    let made = make_run(&available, "", true, &[1, 1]);
    assert!(made.ran.is_empty());
    assert_eq!(made.shown, vec!["00001-a".to_string(), "00002-b".to_string()]);
    assert_eq!(made.history, "");
    assert_eq!(made.end, RunState::Completed);
}

#[test]
fn step_by_step() {
    let running = |index| RunState::Running { index, recording: false };
    let recording = |index| RunState::Running { index, recording: true };
    let ok = RunEvent::Exited { success: true, exit_code: 0 };
    assert_eq!(
        step(RunState::Idle, RunEvent::Start, 2, false),
        Some((running(0), RunAction::Execute { index: 0 }))
    );
    assert_eq!(step(running(0), ok, 2, false), Some((recording(0), RunAction::Record { index: 0 })));
    assert_eq!(
        step(recording(0), RunEvent::Recorded, 2, false),
        Some((running(1), RunAction::Execute { index: 1 }))
    );
    assert_eq!(step(running(1), ok, 2, false), Some((recording(1), RunAction::Record { index: 1 })));
    assert_eq!(
        step(recording(1), RunEvent::Recorded, 2, false),
        Some((RunState::Completed, RunAction::Finish))
    );
    assert_eq!(
        step(running(1), RunEvent::Exited { success: false, exit_code: 7 }, 2, false),
        Some((RunState::Failed { index: 1, exit_code: 7 }, RunAction::Fail { index: 1, exit_code: 7 }))
    );
    assert_eq!(
        step(RunState::Idle, RunEvent::Start, 2, true),
        Some((running(0), RunAction::Show { index: 0 }))
    );
    assert_eq!(
        step(running(0), RunEvent::Shown, 2, true),
        Some((running(1), RunAction::Show { index: 1 }))
    );
    assert_eq!(
        step(running(1), RunEvent::Shown, 2, true),
        Some((RunState::Completed, RunAction::Finish))
    );
    assert_eq!(
        step(RunState::Idle, RunEvent::Start, 0, false),
        Some((RunState::Completed, RunAction::Finish))
    );
}

#[test]
fn step_refuses_what_cannot_happen() {
    let running = RunState::Running { index: 0, recording: false };
    let recording = RunState::Running { index: 0, recording: true };
    let ok = RunEvent::Exited { success: true, exit_code: 0 };
    for event in [RunEvent::Start, RunEvent::Shown, ok, RunEvent::Recorded] {
        assert_eq!(step(RunState::Completed, event, 2, false), None);
        assert_eq!(step(RunState::Failed { index: 0, exit_code: 1 }, event, 2, false), None);
        assert_eq!(step(RunState::Running { index: 2, recording: false }, event, 2, false), None);
        assert_eq!(step(RunState::Running { index: usize::MAX, recording: true }, event, 2, false), None);
    }
    assert_eq!(step(RunState::Idle, ok, 2, false), None);
    assert_eq!(step(running, RunEvent::Start, 2, false), None);
    assert_eq!(step(running, RunEvent::Recorded, 2, false), None);
    assert_eq!(step(running, RunEvent::Shown, 2, false), None);
    assert_eq!(step(running, ok, 2, true), None);
    assert_eq!(step(recording, ok, 2, false), None);
    assert_eq!(step(recording, RunEvent::Recorded, 2, true), None);
}

#[test]
fn exited_takes_success_and_exit_code() {
    assert_eq!(exited(&ended(0)), RunEvent::Exited { success: true, exit_code: 0 });
    assert_eq!(exited(&ended(3)), RunEvent::Exited { success: false, exit_code: 3 });
    let odd = ExecutionResult { success: false, exit_code: -1, error: Some("killed".to_string()) };
    assert_eq!(exited(&odd), RunEvent::Exited { success: false, exit_code: -1 });
}

#[test]
fn execution_error_tells_the_migration_and_the_exit_code() {
    let e = ExecutionError { id: "00002-fail".to_string(), exit_code: 1 };
    assert_eq!(e.message(), "Migration 00002-fail failed with exit code 1");
    let e = ExecutionError { id: "x".to_string(), exit_code: -1 };
    assert_eq!(e.message(), "Migration x failed with exit code -1");
    let e = ExecutionError { id: "x".to_string(), exit_code: i32::MIN };
    assert_eq!(e.message(), "Migration x failed with exit code -2147483648");
    let e = ExecutionError { id: "x".to_string(), exit_code: 137 };
    assert_eq!(e.message(), "Migration x failed with exit code 137");
}

#[test]
fn the_context_is_told_in_four_variables() {
    let ctx = ExecutionContext {
        project_root: "/work/project".to_string(),
        migrations_dir: "/work/project/migrations".to_string(),
        migration_id: "00001-check-env".to_string(),
        dry_run: false,
    };
    let pair = |k: &str, v: &str| (k.to_string(), v.to_string());
    assert_eq!(
        ctx.environment(),
        vec![
            pair("MIGRATE_PROJECT_ROOT", "/work/project"),
            pair("MIGRATE_MIGRATIONS_DIR", "/work/project/migrations"),
            pair("MIGRATE_ID", "00001-check-env"),
            pair("MIGRATE_DRY_RUN", "false"),
        ]
    );
    let dry = ExecutionContext { dry_run: true, ..ctx.clone() };
    assert_eq!(dry.environment()[3], pair("MIGRATE_DRY_RUN", "true"));
}

#[test]
fn a_run_stays_where_it_is_when_it_is_told_what_cannot_happen() {
    let mut run = Run::new(1, false);
    assert_eq!(run.state(), RunState::Idle);
    assert_eq!(run.advance(RunEvent::Recorded), None);
    assert_eq!(run.state(), RunState::Idle);
    assert_eq!(run.advance(RunEvent::Start), Some(RunAction::Execute { index: 0 }));
    assert_eq!(run.advance(RunEvent::Start), None);
    assert_eq!(run.state(), RunState::Running { index: 0, recording: false });
    assert_eq!(
        run.advance(RunEvent::Exited { success: false, exit_code: 2 }),
        Some(RunAction::Fail { index: 0, exit_code: 2 })
    );
    assert_eq!(run.advance(RunEvent::Start), None);
    assert_eq!(run.state(), RunState::Failed { index: 0, exit_code: 2 });
}
