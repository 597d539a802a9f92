//! A backup as a sequence of steps: what to do next, given how the last step went.
use crate::artifact::{
    backup_path, base_name_of, build_artifact, label_tells, partial_name, partial_path, stamp_tells,
    BackupArtifact,
};
use crate::backup::{
    ensure_target_is_not_inside_source, resolved_target, BackupConfig, BackupSummary, SummaryView,
};
use crate::cli::CompressionFormat;
use crate::exclude::{
    all_globs, build_fails, exclude_refused, globs_of, spell_out, ExcludeError, ExcludeErrorView,
    Exclusions,
};
use crate::path::{is_inside, is_rooted, joined, parent_path, with_name, FsPath, PartView};
use crate::retention::{all_clean, enforce_retention, paths, retention_deletes, RetentionPolicy};
use crate::snapshot::{
    copy_plan, is_reached, plan_copy, walk_reaches, CopyPlan, CopyPlanView, EntryKind,
    SnapshotError,
};
use crate::time::{reports, Timestamp, DAY, FIRST_SECOND, LAST_SECOND};
use vstd::prelude::*;

verus! {

/// What a backup is at.
#[derive(Debug, Clone, Copy, PartialEq, Eq, Structural)]
pub enum Stage {
    /// The current directory is found out, to which a relative target directory belongs.
    CurrentDir,
    /// The target directory is created.
    CreateTarget,
    /// The target directory is resolved by the file system.
    ResolveTarget,
    /// The command before the backup runs.
    PreHook,
    /// The time is read.
    ReadClock,
    /// The directory of the day is created.
    DayDirectory,
    /// The staging directory is made.
    MakeStaging,
    /// The root of the snapshot is created.
    SnapshotRoot,
    /// The next entry of the world is asked for.
    Walk,
    /// A directory of the snapshot is created.
    MakeDirectory,
    /// The directory of a file of the snapshot is created.
    MakeParent,
    /// A file is copied into the snapshot.
    CopyFile,
    /// The archive is written.
    Archive,
    /// The backup gets its final name.
    Publish,
    /// The backup is measured.
    Measure,
    /// The target directory is listed.
    List,
    /// An older backup is deleted.
    Delete,
    /// The staging directory is removed.
    RemoveStaging,
    /// The command after the backup runs.
    PostHook,
    /// Nothing is left to do.
    Finished,
}

/// Which of the two commands around a backup.
#[derive(Debug, Clone, Copy, PartialEq, Eq, Structural)]
pub enum Hook {
    Pre,
    Post,
}

/// What is to be done next.
#[derive(Debug)]
pub enum JobAction {
    FindCurrentDir,
    CreateDir(FsPath),
    Resolve(FsPath),
    RunHook(Hook, String),
    ReadClock,
    /// Make a directory with a fresh name in the given one.
    MakeStaging(FsPath),
    NextEntry,
    CopyFile { from: FsPath, to: FsPath },
    WriteArchive { format: CompressionFormat, level: Option<i32>, from: FsPath, to: FsPath },
    Rename { from: FsPath, to: FsPath },
    Measure(FsPath),
    /// List a directory, and if asked to the directories of days in it.
    List { dir: FsPath, day_directories: bool },
    Delete(FsPath),
    RemoveStaging(FsPath),
    Finish,
}

/// What a [`JobAction`] says.
#[verifier::ext_equal]
pub enum ActionView {
    FindCurrentDir,
    CreateDir(Seq<PartView>),
    Resolve(Seq<PartView>),
    RunHook(Hook, Seq<char>),
    ReadClock,
    MakeStaging(Seq<PartView>),
    NextEntry,
    CopyFile { from: Seq<PartView>, to: Seq<PartView> },
    WriteArchive {
        format: CompressionFormat,
        level: Option<i32>,
        from: Seq<PartView>,
        to: Seq<PartView>,
    },
    Rename { from: Seq<PartView>, to: Seq<PartView> },
    Measure(Seq<PartView>),
    List { dir: Seq<PartView>, day_directories: bool },
    Delete(Seq<PartView>),
    RemoveStaging(Seq<PartView>),
    Finish,
}

impl View for JobAction {
    type V = ActionView;

    open spec fn view(&self) -> ActionView {
        match *self {
            JobAction::FindCurrentDir => ActionView::FindCurrentDir,
            JobAction::CreateDir(path) => ActionView::CreateDir(path@),
            JobAction::Resolve(path) => ActionView::Resolve(path@),
            JobAction::RunHook(hook, command) => ActionView::RunHook(hook, command@),
            JobAction::ReadClock => ActionView::ReadClock,
            JobAction::MakeStaging(path) => ActionView::MakeStaging(path@),
            JobAction::NextEntry => ActionView::NextEntry,
            JobAction::CopyFile { from, to } => ActionView::CopyFile { from: from@, to: to@ },
            JobAction::WriteArchive { format, level, from, to } => ActionView::WriteArchive {
                format,
                level,
                from: from@,
                to: to@,
            },
            JobAction::Rename { from, to } => ActionView::Rename { from: from@, to: to@ },
            JobAction::Measure(path) => ActionView::Measure(path@),
            JobAction::List { dir, day_directories } => ActionView::List {
                dir: dir@,
                day_directories,
            },
            JobAction::Delete(path) => ActionView::Delete(path@),
            JobAction::RemoveStaging(path) => ActionView::RemoveStaging(path@),
            JobAction::Finish => ActionView::Finish,
        }
    }
}

/// How the last action went.
#[derive(Debug)]
pub enum JobEvent {
    Done,
    /// It failed, for the given reason.
    Failed(String),
    /// The path that was asked for.
    Path(FsPath),
    /// The time.
    Clock(Timestamp),
    /// The next entry of the world that is to be visited.
    Entry { path: FsPath, kind: EntryKind },
    NoMoreEntries,
    /// The size in bytes.
    Size(u64),
    /// What a directory holds.
    Entries(Vec<FsPath>),
}

/// What a [`JobEvent`] says.
pub enum EventView {
    Done,
    Failed(Seq<char>),
    Path(Seq<PartView>),
    Clock(Timestamp),
    Entry { path: Seq<PartView>, kind: EntryKind },
    NoMoreEntries,
    Size(u64),
    Entries(Seq<Seq<PartView>>),
}

impl View for JobEvent {
    type V = EventView;

    open spec fn view(&self) -> EventView {
        match *self {
            JobEvent::Done => EventView::Done,
            JobEvent::Failed(reason) => EventView::Failed(reason@),
            JobEvent::Path(path) => EventView::Path(path@),
            JobEvent::Clock(at) => EventView::Clock(at),
            JobEvent::Entry { path, kind } => EventView::Entry { path: path@, kind },
            JobEvent::NoMoreEntries => EventView::NoMoreEntries,
            JobEvent::Size(bytes) => EventView::Size(bytes),
            JobEvent::Entries(entries) => EventView::Entries(paths(entries@)),
        }
    }
}

/// Why a backup did not come about.
#[derive(Debug)]
pub enum Failure {
    /// An action failed, for the given reason.
    Action(Stage, String),
    /// The target directory lies inside the world.
    TargetInsideSource(FsPath),
    /// The files to leave out cannot be told.
    Exclude(ExcludeError),
    /// An entry cannot be copied.
    Entry(FsPath, SnapshotError),
}

/// What a [`Failure`] says.
pub enum FailureView {
    Action(Stage, Seq<char>),
    TargetInsideSource(Seq<PartView>),
    Exclude(ExcludeErrorView),
    Entry(Seq<PartView>, SnapshotError),
}

impl View for Failure {
    type V = FailureView;

    open spec fn view(&self) -> FailureView {
        match *self {
            Failure::Action(stage, reason) => FailureView::Action(stage, reason@),
            Failure::TargetInsideSource(path) => FailureView::TargetInsideSource(path@),
            Failure::Exclude(error) => FailureView::Exclude(error@),
            Failure::Entry(path, error) => FailureView::Entry(path@, error),
        }
    }
}

/// Why a backup failed as a whole.
#[derive(Debug)]
pub enum JobError {
    Backup(Failure),
    PostHook(String),
    /// The backup failed, and the command after it too.
    BackupAndPostHook(Failure, String),
}

/// What a [`JobError`] says.
pub enum JobErrorView {
    Backup(FailureView),
    PostHook(Seq<char>),
    BackupAndPostHook(FailureView, Seq<char>),
}

impl View for JobError {
    type V = JobErrorView;

    open spec fn view(&self) -> JobErrorView {
        match *self {
            JobError::Backup(failure) => JobErrorView::Backup(failure@),
            JobError::PostHook(reason) => JobErrorView::PostHook(reason@),
            JobError::BackupAndPostHook(failure, reason) => JobErrorView::BackupAndPostHook(
                failure@,
                reason@,
            ),
        }
    }
}

/// How far a backup has come.
#[derive(Debug)]
pub struct BackupJob {
    stage: Stage,
    target_dir: FsPath,
    pre_succeeded: bool,
    exclusions: Option<Exclusions>,
    artifact: BackupArtifact,
    staged: bool,
    staging: FsPath,
    entry: FsPath,
    destination: FsPath,
    bytes: u64,
    doomed: Vec<FsPath>,
    gone: usize,
    failure: Option<Failure>,
    post_failure: Option<String>,
}

/// What a [`BackupJob`] holds.
#[verifier::ext_equal]
pub struct JobView {
    pub stage: Stage,
    pub target: Seq<PartView>,
    /// Whether the command before the backup ran and succeeded.
    pub pre_succeeded: bool,
    /// The globs to leave out, once they are known.
    pub globs: Option<Seq<Seq<char>>>,
    pub base_name: Seq<char>,
    pub final_path: Seq<PartView>,
    /// Whether the staging directory was made.
    pub staged: bool,
    pub staging: Seq<PartView>,
    /// The file that is being copied.
    pub entry: Seq<PartView>,
    /// Where it goes.
    pub destination: Seq<PartView>,
    pub bytes: int,
    /// The older backups to delete.
    pub doomed: Seq<Seq<PartView>>,
    /// How many of them are deleted.
    pub gone: int,
    pub failure: Option<FailureView>,
    pub post_failure: Option<Seq<char>>,
}

impl View for BackupJob {
    type V = JobView;

    closed spec fn view(&self) -> JobView {
        JobView {
            stage: self.stage,
            target: self.target_dir@,
            pre_succeeded: self.pre_succeeded,
            globs: match self.exclusions {
                Some(exclusions) => Some(exclusions@),
                None => None,
            },
            base_name: self.artifact.base_name@,
            final_path: self.artifact.final_path@,
            staged: self.staged,
            staging: self.staging@,
            entry: self.entry@,
            destination: self.destination@,
            bytes: self.bytes as int,
            doomed: paths(self.doomed@),
            gone: self.gone as int,
            failure: match self.failure {
                Some(failure) => Some(failure@),
                None => None,
            },
            post_failure: match self.post_failure {
                Some(reason) => Some(reason@),
                None => None,
            },
        }
    }
}

/// The state at the start.
pub open spec fn job_start(config: BackupConfig) -> JobView {
    JobView {
        stage: if is_rooted(config.target_dir@) {
            Stage::CreateTarget
        } else {
            Stage::CurrentDir
        },
        target: config.target_dir@,
        pre_succeeded: false,
        globs: None,
        base_name: Seq::empty(),
        final_path: Seq::empty(),
        staged: false,
        staging: Seq::empty(),
        entry: Seq::empty(),
        destination: Seq::empty(),
        bytes: 0,
        doomed: Seq::empty(),
        gone: 0,
        failure: None,
        post_failure: None,
    }
}

/// What holds in every state.
pub open spec fn job_inv(config: BackupConfig, v: JobView) -> bool {
    &&& v.stage is PreHook ==> config.pre_command is Some
    &&& v.stage is PostHook ==> config.post_command is Some && v.pre_succeeded
    &&& v.stage is DayDirectory ==> v.final_path.len() > 0 && v.final_path.last() is Normal
    &&& v.stage is MakeParent ==> parent_path(v.destination) is Some
    &&& v.stage is Delete ==> v.gone < v.doomed.len()
    &&& 0 <= v.gone <= v.doomed.len()
    &&& is_under_way(v.stage) ==> v.globs == Some(
        globs_of(config.include_session_lock, config.exclude@),
    ) && spell_out(v.globs->0)
}

/// Whether a stage belongs to the backup proper.
pub open spec fn is_under_way(stage: Stage) -> bool {
    match stage {
        Stage::CurrentDir
        | Stage::CreateTarget
        | Stage::ResolveTarget
        | Stage::PreHook
        | Stage::RemoveStaging
        | Stage::PostHook
        | Stage::Finished => false,
        _ => true,
    }
}

/// The root of the snapshot: in the staging directory, called like the backup.
pub open spec fn snapshot_root(v: JobView) -> Seq<PartView> {
    v.staging.push(PartView::Normal(v.base_name))
}

/// Where the archive is written until it is complete.
pub open spec fn unfinished_path(v: JobView) -> Seq<PartView> {
    with_name(v.final_path, partial_name(v.final_path))
}

/// What is to be done in a state.
pub open spec fn action_in(config: BackupConfig, v: JobView) -> ActionView {
    match v.stage {
        Stage::CurrentDir => ActionView::FindCurrentDir,
        Stage::CreateTarget => ActionView::CreateDir(v.target),
        Stage::ResolveTarget => ActionView::Resolve(v.target),
        Stage::PreHook => ActionView::RunHook(Hook::Pre, config.pre_command->0@),
        Stage::ReadClock => ActionView::ReadClock,
        Stage::DayDirectory => ActionView::CreateDir(v.final_path.drop_last()),
        Stage::MakeStaging => ActionView::MakeStaging(v.target),
        Stage::SnapshotRoot => ActionView::CreateDir(snapshot_root(v)),
        Stage::Walk => ActionView::NextEntry,
        Stage::MakeDirectory => ActionView::CreateDir(v.destination),
        Stage::MakeParent => ActionView::CreateDir(v.destination.drop_last()),
        Stage::CopyFile => ActionView::CopyFile { from: v.entry, to: v.destination },
        Stage::Archive => ActionView::WriteArchive {
            format: config.compression,
            level: config.compression_level,
            from: snapshot_root(v),
            to: unfinished_path(v),
        },
        Stage::Publish => ActionView::Rename {
            from: if config.compression is Uncompressed {
                snapshot_root(v)
            } else {
                unfinished_path(v)
            },
            to: v.final_path,
        },
        Stage::Measure => ActionView::Measure(v.final_path),
        Stage::List => ActionView::List {
            dir: v.target,
            day_directories: config.day_directories,
        },
        Stage::Delete => ActionView::Delete(v.doomed[v.gone]),
        Stage::RemoveStaging => ActionView::RemoveStaging(v.staging),
        Stage::PostHook => ActionView::RunHook(Hook::Post, config.post_command->0@),
        Stage::Finished => ActionView::Finish,
    }
}

/// Whether an event can come of the action in a state.
///
/// The walk through the world comes upon nothing that is left out, and upon nothing in a directory
/// that is.
/// Reading the clock and removing the staging directory do not fail: the one cannot, and whether
/// the other does makes no difference.
pub open spec fn expects(config: BackupConfig, v: JobView, event: EventView) -> bool {
    match v.stage {
        Stage::CurrentDir | Stage::ResolveTarget | Stage::MakeStaging => event is Path
            || event is Failed,
        Stage::CreateTarget
        | Stage::PreHook
        | Stage::DayDirectory
        | Stage::SnapshotRoot
        | Stage::MakeDirectory
        | Stage::MakeParent
        | Stage::CopyFile
        | Stage::Archive
        | Stage::Publish
        | Stage::Delete
        | Stage::PostHook => event is Done || event is Failed,
        Stage::ReadClock => event matches EventView::Clock(at) && at.wf() && FIRST_SECOND + DAY
            <= at.secs <= LAST_SECOND - DAY,
        Stage::Walk => event is NoMoreEntries || event is Failed || (event matches EventView::Entry {
            path,
            kind,
        } && is_reached(path, config.source@, v.globs->0)),
        Stage::Measure => event is Size || event is Failed,
        Stage::List => event is Failed || (event matches EventView::Entries(entries) && all_clean(
            entries,
            config.name@,
        )),
        Stage::RemoveStaging => event is Done,
        Stage::Finished => false,
    }
}

/// The state in which another stage has begun.
pub open spec fn at_stage(v: JobView, stage: Stage) -> JobView {
    JobView { stage, ..v }
}

/// The state behind the backup proper: the command after it runs if the one before it succeeded.
pub open spec fn wound_up(config: BackupConfig, v: JobView) -> JobView {
    at_stage(
        v,
        if v.pre_succeeded && config.post_command is Some {
            Stage::PostHook
        } else {
            Stage::Finished
        },
    )
}

/// The state in which the backup proper has failed.
pub open spec fn backup_failed(config: BackupConfig, v: JobView, failure: FailureView) -> JobView {
    let failed = JobView { failure: Some(failure), ..v };
    if v.staged {
        at_stage(failed, Stage::RemoveStaging)
    } else {
        wound_up(config, failed)
    }
}

/// The state in which something failed before the backup proper began.
pub open spec fn refused(v: JobView, failure: FailureView) -> JobView {
    JobView { stage: Stage::Finished, failure: Some(failure), ..v }
}

/// Whether the backup proper begins in state `v` and leads to state `w`.
pub open spec fn begins(config: BackupConfig, v: JobView, w: JobView) -> bool {
    let globs = globs_of(config.include_session_lock, config.exclude@);
    if all_globs(config.exclude@) && !build_fails(globs) {
        spell_out(globs) && w == (JobView { stage: Stage::ReadClock, globs: Some(globs), ..v })
    } else {
        exists|error: ExcludeErrorView| #[trigger]
            exclude_refused(config.include_session_lock, config.exclude@, error) && w
                == backup_failed(config, v, FailureView::Exclude(error))
    }
}

/// Whether the backup of the time `at` has the given names.
///
/// What the local clocks show, and so the directory of the day, is the machine's own.
pub open spec fn is_named(
    config: BackupConfig,
    target: Seq<PartView>,
    at: Timestamp,
    base_name: Seq<char>,
    final_path: Seq<PartView>,
) -> bool {
    &&& base_name == base_name_of(config.name@, at.secs)
    &&& stamp_tells(at.secs)
    &&& if config.day_directories {
        exists|ahead: i32|
            -DAY < ahead < DAY && reports(at.secs, ahead) && label_tells((at.secs + ahead) as i64)
                && final_path == #[trigger] backup_path(
                target,
                config.name@,
                config.compression,
                at,
                Some(ahead),
            )
    } else {
        final_path == backup_path(target, config.name@, config.compression, at, None)
    }
}

/// Whether an event leads from state `v` to state `w`.
pub open spec fn leads_to(config: BackupConfig, v: JobView, event: EventView, w: JobView) -> bool {
    match (v.stage, event) {
        (Stage::CurrentDir, EventView::Path(current)) => w == (JobView {
            stage: Stage::CreateTarget,
            target: joined(current, config.target_dir@),
            ..v
        }),
        (Stage::CurrentDir, EventView::Failed(reason)) => w == refused(
            v,
            FailureView::Action(v.stage, reason),
        ),
        (Stage::CreateTarget, EventView::Done) => w == at_stage(v, Stage::ResolveTarget),
        (Stage::CreateTarget, EventView::Failed(reason)) => w == refused(
            v,
            FailureView::Action(v.stage, reason),
        ),
        (Stage::ResolveTarget, answer) => {
            let target = resolved_target(
                v.target,
                match answer {
                    EventView::Path(path) => Some(path),
                    _ => None,
                },
            );
            if is_inside(target, config.source@) {
                w == refused(v, FailureView::TargetInsideSource(target))
            } else if config.pre_command is Some {
                w == at_stage(v, Stage::PreHook)
            } else {
                begins(config, v, w)
            }
        },
        (Stage::PreHook, EventView::Done) => begins(
            config,
            JobView { pre_succeeded: true, ..v },
            w,
        ),
        (Stage::PreHook, EventView::Failed(reason)) => w == refused(
            v,
            FailureView::Action(v.stage, reason),
        ),
        (Stage::ReadClock, EventView::Clock(at)) => {
            &&& is_named(config, v.target, at, w.base_name, w.final_path)
            &&& w == (JobView {
                stage: if config.day_directories {
                    Stage::DayDirectory
                } else {
                    Stage::MakeStaging
                },
                base_name: w.base_name,
                final_path: w.final_path,
                ..v
            })
        },
        (Stage::DayDirectory, EventView::Done) => w == at_stage(v, Stage::MakeStaging),
        (Stage::MakeStaging, EventView::Path(staging)) => w == (JobView {
            stage: Stage::SnapshotRoot,
            staged: true,
            staging,
            ..v
        }),
        (Stage::SnapshotRoot, EventView::Done) => w == at_stage(v, Stage::Walk),
        (Stage::Walk, EventView::Entry { path, kind }) => match copy_plan(
            path,
            kind,
            config.source@,
            snapshot_root(v),
        ) {
            Ok(CopyPlanView::Nothing) => w == v,
            Ok(CopyPlanView::MakeDirectory(to)) => w == (JobView {
                stage: Stage::MakeDirectory,
                entry: path,
                destination: to,
                ..v
            }),
            Ok(CopyPlanView::CopyFile(to)) => w == (JobView {
                stage: if parent_path(to) is Some {
                    Stage::MakeParent
                } else {
                    Stage::CopyFile
                },
                entry: path,
                destination: to,
                ..v
            }),
            Err(error) => w == backup_failed(config, v, FailureView::Entry(path, error)),
        },
        (Stage::Walk, EventView::NoMoreEntries) => w == at_stage(
            v,
            if config.compression is Uncompressed {
                Stage::Publish
            } else {
                Stage::Archive
            },
        ),
        (Stage::MakeDirectory, EventView::Done) => w == at_stage(v, Stage::Walk),
        (Stage::MakeParent, EventView::Done) => w == at_stage(v, Stage::CopyFile),
        (Stage::CopyFile, EventView::Done) => w == at_stage(v, Stage::Walk),
        (Stage::Archive, EventView::Done) => w == at_stage(v, Stage::Publish),
        (Stage::Publish, EventView::Done) => w == at_stage(v, Stage::Measure),
        (Stage::Measure, EventView::Size(bytes)) => w == (JobView {
            stage: if config.retention is KeepAll {
                Stage::RemoveStaging
            } else {
                Stage::List
            },
            bytes: bytes as int,
            ..v
        }),
        (Stage::List, EventView::Entries(entries)) => {
            &&& retention_deletes(config.retention, entries, config.name@, v.final_path, w.doomed)
            &&& w == (JobView {
                stage: if w.doomed.len() > 0 {
                    Stage::Delete
                } else {
                    Stage::RemoveStaging
                },
                doomed: w.doomed,
                gone: 0,
                ..v
            })
        },
        (Stage::Delete, EventView::Done) => w == (JobView {
            stage: if v.gone + 1 < v.doomed.len() {
                Stage::Delete
            } else {
                Stage::RemoveStaging
            },
            gone: v.gone + 1,
            ..v
        }),
        (Stage::RemoveStaging, _) => w == wound_up(config, v),
        (Stage::PostHook, EventView::Done) => w == at_stage(v, Stage::Finished),
        (Stage::PostHook, EventView::Failed(reason)) => w == (JobView {
            stage: Stage::Finished,
            post_failure: Some(reason),
            ..v
        }),
        (_, EventView::Failed(reason)) => w == backup_failed(
            config,
            v,
            FailureView::Action(v.stage, reason),
        ),
        _ => false,
    }
}

/// What a finished backup comes to.
pub open spec fn outcome(v: JobView) -> Result<SummaryView, JobErrorView> {
    match (v.failure, v.post_failure) {
        (None, None) => Ok(
            SummaryView { path: v.final_path, bytes: v.bytes, deleted: v.doomed.take(v.gone) },
        ),
        (Some(failure), None) => Err(JobErrorView::Backup(failure)),
        (None, Some(reason)) => Err(JobErrorView::PostHook(reason)),
        (Some(failure), Some(reason)) => Err(JobErrorView::BackupAndPostHook(failure, reason)),
    }
}

impl BackupJob {
    /// A backup that has not begun.
    pub fn new(config: &BackupConfig) -> (r: BackupJob)
        ensures
            r@ == job_start(*config),
            job_inv(*config, r@),
    {
        let job = BackupJob {
            stage: if config.target_dir.is_rooted() {
                Stage::CreateTarget
            } else {
                Stage::CurrentDir
            },
            target_dir: config.target_dir.clone(),
            pre_succeeded: false,
            exclusions: None,
            artifact: BackupArtifact {
                base_name: String::new(),
                final_path: FsPath { parts: Vec::new() },
            },
            staged: false,
            staging: FsPath { parts: Vec::new() },
            entry: FsPath { parts: Vec::new() },
            destination: FsPath { parts: Vec::new() },
            bytes: 0,
            doomed: Vec::new(),
            gone: 0,
            failure: None,
            post_failure: None,
        };
        assert(job@ =~= job_start(*config));
        job
    }

    /// What the backup is at.
    pub fn stage(&self) -> (r: Stage)
        ensures
            r == self@.stage,
    {
        self.stage
    }

    /// Whether the walk through the world is to get to a path.
    ///
    /// It does not get to the world's lock file, unless that is wanted, nor to what lies in a
    /// directory that is left out.
    pub fn visits(&self, config: &BackupConfig, path: &FsPath) -> (r: bool)
        requires
            job_inv(*config, self@),
            self@.stage is Walk,
        ensures
            r == is_reached(path@, config.source@, self@.globs->0),
            !config.include_session_lock && path@ == config.source@.push(
                PartView::Normal("session.lock"@),
            ) ==> !r,
    {
        match &self.exclusions {
            Some(exclusions) => {
                proof {
                    let globs = globs_of(config.include_session_lock, config.exclude@);
                    if !config.include_session_lock {
                        assert(globs[0] == "session.lock"@);
                    }
                }
                walk_reaches(path, &config.source, exclusions)
            },
            None => true,
        }
    }

    fn snapshot_root(&self) -> (r: FsPath)
        ensures
            r@ == snapshot_root(self@),
    {
        self.staging.join_name(self.artifact.base_name.as_str())
    }

    /// What is to be done next.
    pub fn action(&self, config: &BackupConfig) -> (r: JobAction)
        requires
            job_inv(*config, self@),
        ensures
            r@ == action_in(*config, self@),
    {
        match self.stage {
            Stage::CurrentDir => JobAction::FindCurrentDir,
            Stage::CreateTarget => JobAction::CreateDir(self.target_dir.clone()),
            Stage::ResolveTarget => JobAction::Resolve(self.target_dir.clone()),
            Stage::PreHook => match &config.pre_command {
                Some(command) => JobAction::RunHook(Hook::Pre, command.clone()),
                None => JobAction::Finish,
            },
            Stage::ReadClock => JobAction::ReadClock,
            Stage::DayDirectory => match self.artifact.final_path.parent() {
                Some(dir) => JobAction::CreateDir(dir),
                None => JobAction::Finish,
            },
            Stage::MakeStaging => JobAction::MakeStaging(self.target_dir.clone()),
            Stage::SnapshotRoot => JobAction::CreateDir(self.snapshot_root()),
            Stage::Walk => JobAction::NextEntry,
            Stage::MakeDirectory => JobAction::CreateDir(self.destination.clone()),
            Stage::MakeParent => match self.destination.parent() {
                Some(dir) => JobAction::CreateDir(dir),
                None => JobAction::Finish,
            },
            Stage::CopyFile => JobAction::CopyFile {
                from: self.entry.clone(),
                to: self.destination.clone(),
            },
            Stage::Archive => JobAction::WriteArchive {
                format: config.compression,
                level: config.compression_level,
                from: self.snapshot_root(),
                to: partial_path(&self.artifact.final_path),
            },
            Stage::Publish => JobAction::Rename {
                from: if config.compression == CompressionFormat::Uncompressed {
                    self.snapshot_root()
                } else {
                    partial_path(&self.artifact.final_path)
                },
                to: self.artifact.final_path.clone(),
            },
            Stage::Measure => JobAction::Measure(self.artifact.final_path.clone()),
            Stage::List => JobAction::List {
                dir: self.target_dir.clone(),
                day_directories: config.day_directories,
            },
            Stage::Delete => {
                assert(paths(self.doomed@)[self.gone as int] == self.doomed@[self.gone as int]@);
                JobAction::Delete(self.doomed[self.gone].clone())
            },
            Stage::RemoveStaging => JobAction::RemoveStaging(self.staging.clone()),
            Stage::PostHook => match &config.post_command {
                Some(command) => JobAction::RunHook(Hook::Post, command.clone()),
                None => JobAction::Finish,
            },
            Stage::Finished => JobAction::Finish,
        }
    }

    /// Turns to what comes behind the backup proper.
    fn wind_up(&mut self, config: &BackupConfig)
        ensures
            final(self)@ == wound_up(*config, old(self)@),
    {
        self.stage = if self.pre_succeeded && config.post_command.is_some() {
            Stage::PostHook
        } else {
            Stage::Finished
        };
    }

    /// Notes that the backup proper has failed.
    fn fail(&mut self, config: &BackupConfig, failure: Failure)
        ensures
            final(self)@ == backup_failed(*config, old(self)@, failure@),
    {
        self.failure = Some(failure);
        if self.staged {
            self.stage = Stage::RemoveStaging;
        } else {
            self.wind_up(config);
        }
    }

    /// Notes that something failed before the backup proper began.
    fn refuse(&mut self, failure: Failure)
        ensures
            final(self)@ == refused(old(self)@, failure@),
    {
        self.failure = Some(failure);
        self.stage = Stage::Finished;
    }

    /// Begins the backup proper.
    fn begin(&mut self, config: &BackupConfig)
        ensures
            begins(*config, old(self)@, final(self)@),
    {
        match Exclusions::new(config) {
            Ok(exclusions) => {
                self.exclusions = Some(exclusions);
                self.stage = Stage::ReadClock;
            },
            Err(error) => {
                self.fail(config, Failure::Exclude(error));
            },
        }
    }

    /// Goes on once the file system has resolved the target directory, or failed to.
    fn check_target(&mut self, config: &BackupConfig, canonical: Option<FsPath>)
        requires
            old(self)@.stage is ResolveTarget,
        ensures
            ({
                let target = resolved_target(
                    old(self)@.target,
                    match canonical {
                        Some(path) => Some(path@),
                        None => None,
                    },
                );
                if is_inside(target, config.source@) {
                    final(self)@ == refused(
                        old(self)@,
                        FailureView::TargetInsideSource(target),
                    )
                } else if config.pre_command is Some {
                    final(self)@ == at_stage(old(self)@, Stage::PreHook)
                } else {
                    begins(*config, old(self)@, final(self)@)
                }
            }),
    {
        match ensure_target_is_not_inside_source(&config.source, &self.target_dir, canonical) {
            Err(target) => {
                self.refuse(Failure::TargetInsideSource(target));
            },
            Ok(_) => {
                if config.pre_command.is_some() {
                    self.stage = Stage::PreHook;
                } else {
                    self.begin(config);
                }
            },
        }
    }

    /// Names the backup.
    fn name_backup(&mut self, config: &BackupConfig, at: Timestamp)
        requires
            config.wf(),
            old(self)@.stage is ReadClock,
            expects(*config, old(self)@, EventView::Clock(at)),
        ensures
            leads_to(*config, old(self)@, EventView::Clock(at), final(self)@),
            final(self)@.final_path.len() > 0 && final(self)@.final_path.last() is Normal,
    {
        self.artifact =
        build_artifact(
            &self.target_dir,
            config.name.as_str(),
            config.compression,
            &at,
            config.day_directories,
        );
        self.stage = if config.day_directories {
            Stage::DayDirectory
        } else {
            Stage::MakeStaging
        };
    }

    /// Goes on with an entry of the world.
    fn take_entry(&mut self, config: &BackupConfig, path: FsPath, kind: EntryKind)
        requires
            old(self)@.stage is Walk,
        ensures
            leads_to(
                *config,
                old(self)@,
                EventView::Entry { path: path@, kind },
                final(self)@,
            ),
            final(self)@.stage is MakeParent ==> parent_path(final(self)@.destination) is Some,
    {
        let root: FsPath = self.snapshot_root();
        match plan_copy(&path, kind, &config.source, &root) {
            Ok(CopyPlan::Nothing) => {},
            Ok(CopyPlan::MakeDirectory(to)) => {
                self.entry = path;
                self.destination = to;
                self.stage = Stage::MakeDirectory;
            },
            Ok(CopyPlan::CopyFile(to)) => {
                self.stage = if to.parent().is_some() {
                    Stage::MakeParent
                } else {
                    Stage::CopyFile
                };
                self.entry = path;
                self.destination = to;
            },
            Err(error) => {
                self.fail(config, Failure::Entry(path, error));
            },
        }
    }

    /// Finds the older backups to delete.
    fn apply_retention(&mut self, config: &BackupConfig, entries: &[FsPath])
        requires
            config.wf(),
            old(self)@.stage is List,
            expects(*config, old(self)@, EventView::Entries(paths(entries@))),
        ensures
            leads_to(*config, old(self)@, EventView::Entries(paths(entries@)), final(self)@),
    {
        let name: &str = config.name.as_str();
        self.doomed =
        enforce_retention(entries, name, &config.retention, &self.artifact.final_path);
        self.gone = 0;
        self.stage = if self.doomed.len() > 0 {
            Stage::Delete
        } else {
            Stage::RemoveStaging
        };
    }

    /// Goes on, given how the last action went.
    pub fn step(&mut self, config: &BackupConfig, event: JobEvent)
        requires
            config.wf(),
            job_inv(*config, old(self)@),
            expects(*config, old(self)@, event@),
        ensures
            job_inv(*config, final(self)@),
            leads_to(*config, old(self)@, event@, final(self)@),
    {
        let stage: Stage = self.stage;
        match (stage, event) {
            (Stage::CurrentDir, JobEvent::Path(current)) => {
                self.target_dir = current.join(&config.target_dir);
                self.stage = Stage::CreateTarget;
            },
            (Stage::CurrentDir, JobEvent::Failed(reason))
            | (Stage::CreateTarget, JobEvent::Failed(reason))
            | (Stage::PreHook, JobEvent::Failed(reason)) => {
                self.refuse(Failure::Action(stage, reason));
            },
            (Stage::CreateTarget, JobEvent::Done) => {
                self.stage = Stage::ResolveTarget;
            },
            (Stage::ResolveTarget, JobEvent::Path(path)) => {
                self.check_target(config, Some(path));
            },
            (Stage::ResolveTarget, _) => {
                self.check_target(config, None);
            },
            (Stage::PreHook, JobEvent::Done) => {
                self.pre_succeeded = true;
                self.begin(config);
            },
            (Stage::ReadClock, JobEvent::Clock(at)) => {
                self.name_backup(config, at);
            },
            (Stage::DayDirectory, JobEvent::Done) => {
                self.stage = Stage::MakeStaging;
            },
            (Stage::MakeStaging, JobEvent::Path(staging)) => {
                self.staging = staging;
                self.staged = true;
                self.stage = Stage::SnapshotRoot;
            },
            (Stage::SnapshotRoot, JobEvent::Done)
            | (Stage::MakeDirectory, JobEvent::Done)
            | (Stage::CopyFile, JobEvent::Done) => {
                self.stage = Stage::Walk;
            },
            (Stage::Walk, JobEvent::Entry { path, kind }) => {
                self.take_entry(config, path, kind);
            },
            (Stage::Walk, JobEvent::NoMoreEntries) => {
                self.stage = if config.compression == CompressionFormat::Uncompressed {
                    Stage::Publish
                } else {
                    Stage::Archive
                };
            },
            (Stage::MakeParent, JobEvent::Done) => {
                self.stage = Stage::CopyFile;
            },
            (Stage::Archive, JobEvent::Done) => {
                self.stage = Stage::Publish;
            },
            (Stage::Publish, JobEvent::Done) => {
                self.stage = Stage::Measure;
            },
            (Stage::Measure, JobEvent::Size(bytes)) => {
                self.bytes = bytes;
                self.stage = match &config.retention {
                    RetentionPolicy::KeepAll => Stage::RemoveStaging,
                    _ => Stage::List,
                };
            },
            (Stage::List, JobEvent::Entries(entries)) => {
                self.apply_retention(config, &entries);
            },
            (Stage::Delete, JobEvent::Done) => {
                let count: usize = self.doomed.len();
                assert(self@.gone < count);
                self.gone = self.gone + 1;
                if self.gone == count {
                    self.stage = Stage::RemoveStaging;
                }
            },
            (Stage::RemoveStaging, _) => {
                self.wind_up(config);
            },
            (Stage::PostHook, JobEvent::Done) => {
                self.stage = Stage::Finished;
            },
            (Stage::PostHook, JobEvent::Failed(reason)) => {
                self.post_failure = Some(reason);
                self.stage = Stage::Finished;
            },
            (_, JobEvent::Failed(reason)) => {
                self.fail(config, Failure::Action(stage, reason));
            },
            _ => {},
        }
    }

    /// What the finished backup comes to.
    pub fn into_outcome(self) -> (r: Result<BackupSummary, JobError>)
        requires
            self@.stage is Finished,
            self@.gone <= self@.doomed.len(),
        ensures
            outcome(self@) == (match r {
                Ok(summary) => Ok(summary@),
                Err(error) => Err(error@),
            }),
    {
        match (self.failure, self.post_failure) {
            (None, None) => {
                let mut deleted: Vec<FsPath> = self.doomed;
                deleted.truncate(self.gone);
                let summary = BackupSummary {
                    path: self.artifact.final_path,
                    bytes: self.bytes,
                    deleted,
                };
                assert(summary@.deleted =~= paths(self.doomed@).take(self.gone as int));
                Ok(summary)
            },
            (Some(failure), None) => Err(JobError::Backup(failure)),
            (None, Some(reason)) => Err(JobError::PostHook(reason)),
            (Some(failure), Some(reason)) => Err(JobError::BackupAndPostHook(failure, reason)),
        }
    }
}

} // verus!
