use world_backup::schedule::{ScheduleError, ScheduleSpec, Span};
use world_backup::scheduler::{
    next_stage, perform_scheduled_backup, start_run, RunEvent, RunStage, ScheduledBackup,
};
use world_backup::time::Timestamp;

fn at(secs: i64) -> Timestamp {
    Timestamp { secs, nanos: 0 }
}

fn ten_seconds() -> ScheduleSpec {
    ScheduleSpec::Interval(Span { secs: 10, nanos: 0 })
}

fn after(always_backup: bool, start: RunStage, events: &[RunEvent]) -> RunStage {
    let schedule = ten_seconds();
    let mut stage = start;
    for event in events {
        stage = next_stage(&schedule, always_backup, stage, *event);
    }
    stage
}

#[test]
fn backups_are_skipped_while_the_server_is_down() {
    assert_eq!(perform_scheduled_backup(false, false), ScheduledBackup::Skip);
    assert_eq!(perform_scheduled_backup(false, true), ScheduledBackup::Perform);
    assert_eq!(perform_scheduled_backup(true, false), ScheduledBackup::Perform);
}

#[test]
fn a_backup_at_the_start_is_made_if_asked_for() {
    assert!(matches!(start_run(false, false, false), RunStage::Idle));
    assert!(matches!(start_run(true, false, false), RunStage::Probe { startup: true }));
    assert!(matches!(start_run(false, true, false), RunStage::Probe { startup: true }));
    assert!(matches!(start_run(true, false, true), RunStage::Backup { startup: true }));
}

#[test]
fn the_scheduler_waits_and_then_makes_a_backup() {
    let stage = after(
        false,
        start_run(false, false, false),
        &[RunEvent::Shutdown(false), RunEvent::Now(at(100))],
    );
    assert!(matches!(stage, RunStage::Wait(Timestamp { secs: 110, nanos: 0 })));
    let stage = after(false, stage, &[RunEvent::Tick { now: at(105), shutdown: false }]);
    assert!(matches!(
        stage,
        RunStage::Sleep(Timestamp { secs: 110, nanos: 0 }, Span { secs: 1, nanos: 0 })
    ));
    let stage = after(
        false,
        stage,
        &[
            RunEvent::Awake,
            RunEvent::Tick { now: at(110), shutdown: false },
            RunEvent::Shutdown(false),
        ],
    );
    assert!(matches!(stage, RunStage::Probe { startup: false }));
    let stage = after(false, stage, &[RunEvent::Running(true)]);
    assert!(matches!(stage, RunStage::Backup { startup: false }));
    let stage = after(false, stage, &[RunEvent::BackupEnded]);
    assert!(matches!(stage, RunStage::Idle));
}

#[test]
fn a_skipped_backup_or_a_failed_probe_leads_on() {
    let probe = || RunStage::Probe { startup: false };
    assert!(matches!(after(false, probe(), &[RunEvent::Running(false)]), RunStage::Idle));
    assert!(matches!(after(false, probe(), &[RunEvent::ProbeFailed]), RunStage::Idle));
}

#[test]
fn a_shutdown_stops_the_scheduler() {
    assert!(matches!(
        after(true, RunStage::Idle, &[RunEvent::Shutdown(true)]),
        RunStage::Stopped
    ));
    assert!(matches!(
        after(
            true,
            RunStage::Wait(at(110)),
            &[RunEvent::Tick { now: at(105), shutdown: true }, RunEvent::Shutdown(true)],
        ),
        RunStage::Stopped
    ));
    assert!(matches!(
        after(true, RunStage::Due, &[RunEvent::Shutdown(false)]),
        RunStage::Backup { startup: false }
    ));
}

#[test]
fn a_schedule_without_a_next_time_ends_the_scheduler() {
    let schedule = ScheduleSpec::Interval(Span { secs: u64::MAX, nanos: 0 });
    let stage = next_stage(&schedule, false, RunStage::Plan, RunEvent::Now(at(0)));
    assert!(matches!(stage, RunStage::Failed(ScheduleError::IntervalTooLong)));
}
