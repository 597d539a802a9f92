//! Backups on a schedule, as a sequence of steps: what to do next, given how the last step went.
use crate::schedule::{
    can_be_next, can_fail, can_fail_at, nap, wait_until, ScheduleError, ScheduleErrorView,
    ScheduleSpec, Span,
};
use crate::time::Timestamp;
use vstd::prelude::*;

verus! {

/// Whether a scheduled backup is made.
#[derive(Debug, Clone, Copy, PartialEq, Eq, Structural)]
pub enum ScheduledBackup {
    Perform,
    /// The server does not appear to be running.
    Skip,
}

/// Whether a scheduled backup is made: always if asked to, else while the server is running.
pub fn perform_scheduled_backup(always_backup: bool, running: bool) -> (r: ScheduledBackup)
    ensures
        r == (if always_backup || running {
            ScheduledBackup::Perform
        } else {
            ScheduledBackup::Skip
        }),
{
    if always_backup || running {
        ScheduledBackup::Perform
    } else {
        ScheduledBackup::Skip
    }
}

/// What the scheduler is at.
#[derive(Debug)]
pub enum RunStage {
    /// A backup may be made; whether the server is running is found out.
    Probe { startup: bool },
    /// A backup is made.
    Backup { startup: bool },
    /// Whether a shutdown is asked for is found out, before the next time is.
    Idle,
    /// The time is read, from which on the next backup is due.
    Plan,
    /// The time is read, and whether a shutdown is asked for, on the way to the next backup.
    Wait(Timestamp),
    /// The scheduler sleeps on the way to the next backup.
    Sleep(Timestamp, Span),
    /// The next backup is due, or a shutdown asked for; which is found out.
    Due,
    /// A shutdown was asked for.
    Stopped,
    /// The next time cannot be told.
    Failed(ScheduleError),
}

/// What a [`RunStage`] says.
pub enum RunStageView {
    Probe { startup: bool },
    Backup { startup: bool },
    Idle,
    Plan,
    Wait(Timestamp),
    Sleep(Timestamp, Span),
    Due,
    Stopped,
    Failed(ScheduleErrorView),
}

impl View for RunStage {
    type V = RunStageView;

    open spec fn view(&self) -> RunStageView {
        match *self {
            RunStage::Probe { startup } => RunStageView::Probe { startup },
            RunStage::Backup { startup } => RunStageView::Backup { startup },
            RunStage::Idle => RunStageView::Idle,
            RunStage::Plan => RunStageView::Plan,
            RunStage::Wait(deadline) => RunStageView::Wait(deadline),
            RunStage::Sleep(deadline, span) => RunStageView::Sleep(deadline, span),
            RunStage::Due => RunStageView::Due,
            RunStage::Stopped => RunStageView::Stopped,
            RunStage::Failed(error) => RunStageView::Failed(error@),
        }
    }
}

/// How the last step went.
#[derive(Debug, Clone, Copy, PartialEq, Eq, Structural)]
pub enum RunEvent {
    /// Whether the server is running.
    Running(bool),
    /// It cannot be told whether the server is running.
    ProbeFailed,
    /// The backup has come to its end, well or not.
    BackupEnded,
    /// Whether a shutdown is asked for.
    Shutdown(bool),
    /// The time.
    Now(Timestamp),
    /// The time, and whether a shutdown is asked for.
    Tick { now: Timestamp, shutdown: bool },
    /// The sleep is over.
    Awake,
}

/// The stage at which a backup may be made.
pub open spec fn attempt(always_backup: bool, startup: bool) -> RunStageView {
    if always_backup {
        RunStageView::Backup { startup }
    } else {
        RunStageView::Probe { startup }
    }
}

/// The stage at the start: a backup may be made at once if asked to.
pub open spec fn run_start(at_once: bool, always_backup: bool) -> RunStageView {
    if at_once {
        attempt(always_backup, true)
    } else {
        RunStageView::Idle
    }
}

/// Whether an event can come of the step at a stage.
pub open spec fn run_expects(
    schedule: ScheduleSpec,
    stage: RunStageView,
    event: RunEvent,
) -> bool {
    match stage {
        RunStageView::Probe { startup } => event is Running || event is ProbeFailed,
        RunStageView::Backup { startup } => event is BackupEnded,
        RunStageView::Idle => event is Shutdown,
        RunStageView::Plan => event matches RunEvent::Now(now) && now.wf() && schedule.reaches(now),
        RunStageView::Wait(deadline) => event matches RunEvent::Tick { now, shutdown } && now.wf(),
        RunStageView::Sleep(deadline, span) => event is Awake,
        RunStageView::Due => event is Shutdown,
        RunStageView::Stopped => false,
        RunStageView::Failed(error) => false,
    }
}

/// Whether an event leads from stage `v` to stage `w`.
pub open spec fn run_leads_to(
    schedule: ScheduleSpec,
    always_backup: bool,
    v: RunStageView,
    event: RunEvent,
    w: RunStageView,
) -> bool {
    match (v, event) {
        (RunStageView::Probe { startup }, RunEvent::Running(running)) => w == if running {
            RunStageView::Backup { startup }
        } else {
            RunStageView::Idle
        },
        (RunStageView::Probe { startup }, RunEvent::ProbeFailed) => w == RunStageView::Idle,
        (RunStageView::Backup { startup }, RunEvent::BackupEnded) => w == RunStageView::Idle,
        (RunStageView::Idle, RunEvent::Shutdown(asked)) => w == if asked {
            RunStageView::Stopped
        } else {
            RunStageView::Plan
        },
        (RunStageView::Plan, RunEvent::Now(now)) => match w {
            RunStageView::Wait(deadline) => can_be_next(schedule, now, deadline),
            RunStageView::Failed(error) => can_fail_at(schedule, now, error),
            _ => false,
        },
        (RunStageView::Wait(deadline), RunEvent::Tick { now, shutdown }) => if shutdown
            || !deadline.later(now) {
            w == RunStageView::Due
        } else {
            w matches RunStageView::Sleep(until, span) && until == deadline && span.wf()
                && span.total() == nap(now, deadline)
        },
        (RunStageView::Sleep(deadline, span), RunEvent::Awake) => w == RunStageView::Wait(deadline),
        (RunStageView::Due, RunEvent::Shutdown(asked)) => w == if asked {
            RunStageView::Stopped
        } else {
            attempt(always_backup, false)
        },
        _ => false,
    }
}

/// The time that is waited for, if any, is one of the calendar.
pub open spec fn run_inv(stage: RunStageView) -> bool {
    match stage {
        RunStageView::Wait(deadline) => deadline.wf(),
        RunStageView::Sleep(deadline, span) => deadline.wf(),
        _ => true,
    }
}

/// The stage at the start.
pub fn start_run(run_immediately: bool, run_immediately_aligned: bool, always_backup: bool) -> (r:
    RunStage)
    ensures
        r@ == run_start(run_immediately || run_immediately_aligned, always_backup),
        run_inv(r@),
{
    if run_immediately || run_immediately_aligned {
        if always_backup {
            RunStage::Backup { startup: true }
        } else {
            RunStage::Probe { startup: true }
        }
    } else {
        RunStage::Idle
    }
}

/// The stage that an event leads to.
pub fn next_stage(
    schedule: &ScheduleSpec,
    always_backup: bool,
    stage: RunStage,
    event: RunEvent,
) -> (r: RunStage)
    requires
        schedule.wf(),
        run_inv(stage@),
        run_expects(*schedule, stage@, event),
    ensures
        run_inv(r@),
        run_leads_to(*schedule, always_backup, stage@, event, r@),
        stage is Plan ==> match (event, r) {
            (RunEvent::Now(now), RunStage::Wait(deadline)) => call_ensures(
                ScheduleSpec::next_after,
                (schedule, &now),
                Ok::<Timestamp, ScheduleError>(deadline),
            ),
            (RunEvent::Now(now), RunStage::Failed(error)) => call_ensures(
                ScheduleSpec::next_after,
                (schedule, &now),
                Err::<Timestamp, ScheduleError>(error),
            ),
            _ => false,
        },
{
    match (stage, event) {
        (RunStage::Probe { startup }, RunEvent::Running(running)) => {
            match perform_scheduled_backup(false, running) {
                ScheduledBackup::Perform => RunStage::Backup { startup },
                ScheduledBackup::Skip => RunStage::Idle,
            }
        },
        (RunStage::Idle, RunEvent::Shutdown(asked)) => {
            if asked {
                RunStage::Stopped
            } else {
                RunStage::Plan
            }
        },
        (RunStage::Plan, RunEvent::Now(now)) => {
            match schedule.next_after(&now) {
                Ok(deadline) => RunStage::Wait(deadline),
                Err(error) => RunStage::Failed(error),
            }
        },
        (RunStage::Wait(deadline), RunEvent::Tick { now, shutdown }) => {
            match wait_until(&deadline, &now, shutdown) {
                Some(span) => RunStage::Sleep(deadline, span),
                None => RunStage::Due,
            }
        },
        (RunStage::Sleep(deadline, _), RunEvent::Awake) => RunStage::Wait(deadline),
        (RunStage::Due, RunEvent::Shutdown(asked)) => {
            if asked {
                RunStage::Stopped
            } else if always_backup {
                RunStage::Backup { startup: false }
            } else {
                RunStage::Probe { startup: false }
            }
        },
        _ => RunStage::Idle,
    }
}

/// Whether the scheduler went through the given stages, by the given events.
pub open spec fn is_scheduler_run(
    schedule: ScheduleSpec,
    at_once: bool,
    always_backup: bool,
    stages: Seq<RunStageView>,
    events: Seq<RunEvent>,
) -> bool {
    &&& stages.len() == events.len() + 1
    &&& stages[0] == run_start(at_once, always_backup)
    &&& forall|i: int|
        0 <= i < events.len() ==> {
            &&& run_expects(schedule, stages[i], #[trigger] events[i])
            &&& run_leads_to(schedule, always_backup, stages[i], events[i], stages[i + 1])
        }
}

/// Whether an event says that a shutdown is asked for.
pub open spec fn asks(event: RunEvent) -> bool {
    match event {
        RunEvent::Shutdown(asked) => asked,
        RunEvent::Tick { now, shutdown } => shutdown,
        _ => false,
    }
}

/// Whether an event says that no shutdown is asked for.
pub open spec fn denies(event: RunEvent) -> bool {
    match event {
        RunEvent::Shutdown(asked) => !asked,
        RunEvent::Tick { now, shutdown } => !shutdown,
        _ => false,
    }
}

/// Whether a shutdown, once asked for, stays so.
pub open spec fn shutdown_is_final(events: Seq<RunEvent>) -> bool {
    forall|i: int, j: int|
        0 <= i < j < events.len() && asks(#[trigger] events[i]) ==> !denies(#[trigger] events[j])
}

/// At the start a backup is attempted if either option asks for it at once, and only then. If backups
/// are always wanted it is made, else the server is looked for.
pub proof fn law_start_attempts_a_backup_if_asked_to(
    run_immediately: bool,
    run_immediately_aligned: bool,
    always_backup: bool,
    r: RunStage,
)
    requires
        call_ensures(start_run, (run_immediately, run_immediately_aligned, always_backup), r),
    ensures
        match r {
            RunStage::Backup { startup } => startup && always_backup && (run_immediately
                || run_immediately_aligned),
            RunStage::Probe { startup } => startup && !always_backup && (run_immediately
                || run_immediately_aligned),
            RunStage::Idle => !run_immediately && !run_immediately_aligned,
            _ => false,
        },
{
}

/// Whenever a backup is attempted, at the start or later, and the server is found running, the very
/// next stage is a backup. If it is not found running, no backup is made of this attempt.
pub proof fn law_running_server_is_backed_up(
    schedule: &ScheduleSpec,
    always_backup: bool,
    stage: RunStage,
    event: RunEvent,
    r: RunStage,
)
    requires
        call_ensures(next_stage, (schedule, always_backup, stage, event), r),
        stage is Probe,
    ensures
        event == RunEvent::Running(true) ==> (r matches RunStage::Backup { startup } && startup
            == stage->Probe_startup),
        event == RunEvent::Running(false) || event == RunEvent::ProbeFailed ==> r is Idle,
{
}

/// Once a time has come that was waited for, and no shutdown is asked for, a backup is attempted: it
/// is made if backups are always wanted, and else the server is looked for. A shutdown ends it all.
pub proof fn law_due_time_leads_to_an_attempt(
    schedule: &ScheduleSpec,
    always_backup: bool,
    stage: RunStage,
    event: RunEvent,
    r: RunStage,
)
    requires
        call_ensures(next_stage, (schedule, always_backup, stage, event), r),
    ensures
        stage is Due && event == RunEvent::Shutdown(false) && always_backup ==> (r matches RunStage::Backup {
            startup,
        } && !startup),
        stage is Due && event == RunEvent::Shutdown(false) && !always_backup ==> (r matches RunStage::Probe {
            startup,
        } && !startup),
        (stage is Due || stage is Idle) && event == RunEvent::Shutdown(true) ==> r is Stopped,
{
}

/// However a backup ends, the next time is planned, unless a shutdown is asked for. It is the one that
/// the schedule gives for the time that was read, and it is waited for until it has come.
pub proof fn law_next_time_is_planned_and_waited_for(
    schedule: &ScheduleSpec,
    always_backup: bool,
    stage: RunStage,
    event: RunEvent,
    r: RunStage,
)
    requires
        call_ensures(next_stage, (schedule, always_backup, stage, event), r),
    ensures
        stage is Backup && event == RunEvent::BackupEnded ==> r is Idle,
        stage is Idle && event == RunEvent::Shutdown(false) ==> r is Plan,
        stage is Plan ==> (event matches RunEvent::Now(now) && match r {
            RunStage::Wait(deadline) => call_ensures(
                ScheduleSpec::next_after,
                (schedule, &now),
                Ok::<Timestamp, ScheduleError>(deadline),
            ),
            RunStage::Failed(error) => call_ensures(
                ScheduleSpec::next_after,
                (schedule, &now),
                Err::<Timestamp, ScheduleError>(error),
            ),
            _ => false,
        }),
        (stage matches RunStage::Wait(deadline) && (event matches RunEvent::Tick { now, shutdown } && {
            let has_come = now.secs > deadline.secs || (now.secs == deadline.secs && now.nanos
                >= deadline.nanos);
            if shutdown || has_come {
                r is Due
            } else {
                r matches RunStage::Sleep(until, span) && until == deadline
            }
        })) || !(stage is Wait && event is Tick),
        (stage matches RunStage::Sleep(deadline, span) && event == RunEvent::Awake) ==> r
            == RunStage::Wait(stage->Sleep_0),
{
}

/// Once the time that was waited for has come, a backup is made, if no shutdown is asked for and the
/// server is found running or backups are always wanted.
pub proof fn law_backup_is_made_in_time(
    schedule: ScheduleSpec,
    at_once: bool,
    always_backup: bool,
    stages: Seq<RunStageView>,
    events: Seq<RunEvent>,
    i: int,
    deadline: Timestamp,
    now: Timestamp,
)
    requires
        is_scheduler_run(schedule, at_once, always_backup, stages, events),
        0 <= i && i + 2 < events.len(),
        stages[i] == RunStageView::Wait(deadline),
        events[i] == (RunEvent::Tick { now, shutdown: false }),
        now.secs > deadline.secs || (now.secs == deadline.secs && now.nanos >= deadline.nanos),
        events[i + 1] == RunEvent::Shutdown(false),
        !always_backup ==> events[i + 2] == RunEvent::Running(true),
    ensures
        always_backup ==> stages[i + 2] == (RunStageView::Backup { startup: false }),
        !always_backup ==> stages[i + 3] == (RunStageView::Backup { startup: false }),
{
    assert(run_leads_to(schedule, always_backup, stages[i], events[i], stages[i + 1]));
    assert(run_leads_to(schedule, always_backup, stages[i + 1], events[i + 1], stages[i + 2]));
    assert(run_leads_to(schedule, always_backup, stages[i + 2], events[i + 2], stages[i + 3]));
}

/// Unless backups are always wanted, one is made only right after the server was found running.
pub proof fn law_backup_needs_a_running_server(
    schedule: ScheduleSpec,
    at_once: bool,
    always_backup: bool,
    stages: Seq<RunStageView>,
    events: Seq<RunEvent>,
    i: int,
)
    requires
        is_scheduler_run(schedule, at_once, always_backup, stages, events),
        0 <= i < stages.len(),
        stages[i] is Backup,
        !always_backup,
    ensures
        i > 0,
        events[i - 1] == RunEvent::Running(true),
{
    assert(run_leads_to(schedule, always_backup, stages[i - 1], events[i - 1], stages[i]));
}

/// A backup is made at the start only if that is asked for.
pub proof fn law_startup_backup_is_asked_for(
    schedule: ScheduleSpec,
    at_once: bool,
    always_backup: bool,
    stages: Seq<RunStageView>,
    events: Seq<RunEvent>,
    i: int,
)
    requires
        is_scheduler_run(schedule, at_once, always_backup, stages, events),
        0 <= i < stages.len(),
        stages[i] == (RunStageView::Backup { startup: true }) || stages[i] == (
        RunStageView::Probe { startup: true }),
    ensures
        at_once,
        i <= 1,
    decreases i,
{
    if i > 0 {
        assert(run_expects(schedule, stages[i - 1], events[i - 1]));
        assert(run_leads_to(schedule, always_backup, stages[i - 1], events[i - 1], stages[i]));
        law_startup_backup_is_asked_for(
            schedule,
            at_once,
            always_backup,
            stages,
            events,
            i - 1,
        );
        if i > 1 {
            assert(run_leads_to(schedule, always_backup, stages[0], events[0], stages[1]));
        }
    }
}

/// Any later backup is made only once the time that was waited for has come.
pub proof fn law_backup_waits_for_its_time(
    schedule: ScheduleSpec,
    at_once: bool,
    always_backup: bool,
    stages: Seq<RunStageView>,
    events: Seq<RunEvent>,
    i: int,
)
    requires
        is_scheduler_run(schedule, at_once, always_backup, stages, events),
        shutdown_is_final(events),
        0 <= i < stages.len(),
        stages[i] == (RunStageView::Backup { startup: false }) || stages[i] == (
        RunStageView::Probe { startup: false }),
    ensures
        exists|j: int|
            0 <= j < i && (#[trigger] stages[j] matches RunStageView::Wait(deadline) && (
            events[j] matches RunEvent::Tick { now, shutdown } && !deadline.later(now))),
    decreases i,
{
    assert(run_expects(schedule, stages[i - 1], events[i - 1]));
    assert(run_leads_to(schedule, always_backup, stages[i - 1], events[i - 1], stages[i]));
    if stages[i - 1] is Due {
        assert(run_expects(schedule, stages[i - 2], events[i - 2]));
        assert(run_leads_to(schedule, always_backup, stages[i - 2], events[i - 2], stages[i - 1]));
        assert(denies(events[i - 1]));
        assert(!asks(events[i - 2]));
        assert(stages[i - 2] is Wait);
    } else {
        law_backup_waits_for_its_time(schedule, at_once, always_backup, stages, events, i - 1);
    }
}

/// Once a shutdown is asked for, no further backup is made.
pub proof fn law_no_backup_after_shutdown(
    schedule: ScheduleSpec,
    at_once: bool,
    always_backup: bool,
    stages: Seq<RunStageView>,
    events: Seq<RunEvent>,
    j: int,
    i: int,
)
    requires
        is_scheduler_run(schedule, at_once, always_backup, stages, events),
        shutdown_is_final(events),
        0 <= j < i < stages.len(),
        asks(events[j]),
    ensures
        stages[i] is Due || stages[i] is Stopped,
    decreases i,
{
    if i > j + 1 {
        law_no_backup_after_shutdown(
            schedule,
            at_once,
            always_backup,
            stages,
            events,
            j,
            i - 1,
        );
        assert(!denies(events[i - 1]));
    }
    assert(run_expects(schedule, stages[i - 1], events[i - 1]));
    assert(run_leads_to(schedule, always_backup, stages[i - 1], events[i - 1], stages[i]));
}

/// The scheduler stops only because a shutdown is asked for: no backup that fails stops it.
pub proof fn law_only_a_shutdown_stops(
    schedule: ScheduleSpec,
    at_once: bool,
    always_backup: bool,
    stages: Seq<RunStageView>,
    events: Seq<RunEvent>,
    i: int,
)
    requires
        is_scheduler_run(schedule, at_once, always_backup, stages, events),
        0 <= i < stages.len(),
        stages[i] is Stopped || stages[i] is Failed,
    ensures
        i > 0,
        stages[i] is Stopped ==> events[i - 1] == RunEvent::Shutdown(true),
        stages[i] is Failed ==> stages[i - 1] is Plan && can_fail(schedule, stages[i]->Failed_0),
{
    assert(run_expects(schedule, stages[i - 1], events[i - 1]));
    assert(run_leads_to(schedule, always_backup, stages[i - 1], events[i - 1], stages[i]));
}

} // verus!
