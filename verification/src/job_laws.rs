//! What holds of every backup, however its steps go.
use crate::artifact::{
    backup_path, base_name_of, final_name_of, label_tells, law_name_gives_time_back, name_prefix,
    stamp_in,
};
use crate::backup::{resolved_target, BackupConfig};
use crate::calendar::label_reading;
use crate::cli::CompressionFormat;
use crate::exclude::{all_globs, build_fails, globs_of, left_out, lemma_spelled_out};
use crate::job::{
    action_in, expects, is_under_way, job_inv, job_start, leads_to, outcome, snapshot_root,
    ActionView, EventView, FailureView, Hook, JobErrorView, JobView, Stage,
};
use crate::path::{file_name_text, is_inside, is_rooted, joined, PartView};
use crate::retention::{entry_stamp, law_only_older_backups_are_deleted, retention_deletes};
use crate::snapshot::{
    destination, is_reached, law_walk_stays_out_of_what_is_left_out, lemma_session_lock_is_literal,
    EntryKind, SnapshotError,
};
use crate::time::{is_day_label, moment_text, reports, Timestamp, DAY, END_OF_YEAR_9999, YEAR_0};
use vstd::prelude::*;

verus! {

/// Whether a backup went through the given states, by the given events.
pub open spec fn is_run(
    config: BackupConfig,
    states: Seq<JobView>,
    events: Seq<EventView>,
) -> bool {
    &&& states.len() == events.len() + 1
    &&& states[0] == job_start(config)
    &&& forall|i: int|
        0 <= i < events.len() ==> {
            &&& expects(config, states[i], #[trigger] events[i])
            &&& leads_to(config, states[i], events[i], states[i + 1])
        }
}

/// Whether step `i` was at a stage and ended well.
pub open spec fn did(states: Seq<JobView>, events: Seq<EventView>, i: int, stage: Stage) -> bool {
    &&& 0 <= i < events.len()
    &&& states[i].stage == stage
    &&& events[i] is Done
}

/// Whether a state comes behind the publication of the backup.
spec fn is_published(v: JobView) -> bool {
    match v.stage {
        Stage::Measure | Stage::List | Stage::Delete => true,
        Stage::RemoveStaging | Stage::PostHook | Stage::Finished => v.failure is None,
        _ => false,
    }
}

/// The invariant holds throughout.
proof fn lemma_inv(config: BackupConfig, states: Seq<JobView>, events: Seq<EventView>, i: int)
    requires
        is_run(config, states, events),
        0 <= i <= events.len(),
    ensures
        job_inv(config, states[i]),
    decreases i,
{
    if i > 0 {
        lemma_inv(config, states, events, i - 1);
        assert(expects(config, states[i - 1], events[i - 1]));
        assert(leads_to(config, states[i - 1], events[i - 1], states[i]));
    }
}

/// Before the backup is published nothing counts as published.
proof fn lemma_published(
    config: BackupConfig,
    states: Seq<JobView>,
    events: Seq<EventView>,
    i: int,
) -> (j: int)
    requires
        is_run(config, states, events),
        0 <= i <= events.len(),
        is_published(states[i]),
    ensures
        0 <= j < i,
        did(states, events, j, Stage::Publish),
        states[j].final_path == states[i].final_path,
    decreases i,
{
    let before = states[i - 1];
    assert(expects(config, before, events[i - 1]));
    assert(leads_to(config, before, events[i - 1], states[i]));
    if before.stage is Publish {
        i - 1
    } else {
        lemma_published(config, states, events, i - 1)
    }
}

/// While the command before the backup has not succeeded, nothing counts as if it had.
proof fn lemma_pre_hook_ran(
    config: BackupConfig,
    states: Seq<JobView>,
    events: Seq<EventView>,
    i: int,
) -> (j: int)
    requires
        is_run(config, states, events),
        0 <= i <= events.len(),
        states[i].pre_succeeded,
    ensures
        0 <= j < i,
        did(states, events, j, Stage::PreHook),
    decreases i,
{
    let before = states[i - 1];
    assert(expects(config, before, events[i - 1]));
    assert(leads_to(config, before, events[i - 1], states[i]));
    if before.pre_succeeded {
        lemma_pre_hook_ran(config, states, events, i - 1)
    } else {
        i - 1
    }
}

/// Whether a stage comes before the backup proper.
spec fn is_early(stage: Stage) -> bool {
    match stage {
        Stage::CurrentDir | Stage::CreateTarget | Stage::ResolveTarget | Stage::PreHook => true,
        _ => false,
    }
}

/// Before the backup proper nothing is staged, and no command has succeeded.
proof fn lemma_early(config: BackupConfig, states: Seq<JobView>, events: Seq<EventView>, i: int)
    requires
        is_run(config, states, events),
        0 <= i <= events.len(),
        is_early(states[i].stage),
    ensures
        !states[i].pre_succeeded,
        !states[i].staged,
        states[i].failure is None,
    decreases i,
{
    if i > 0 {
        assert(expects(config, states[i - 1], events[i - 1]));
        assert(leads_to(config, states[i - 1], events[i - 1], states[i]));
        lemma_early(config, states, events, i - 1);
    }
}

/// What has come to pass stays so: a command that succeeded, a staging directory that was made, a
/// failure.
proof fn lemma_lasting(
    config: BackupConfig,
    states: Seq<JobView>,
    events: Seq<EventView>,
    i: int,
    n: int,
)
    requires
        is_run(config, states, events),
        0 <= i <= n <= events.len(),
    ensures
        states[i].pre_succeeded ==> states[n].pre_succeeded,
        states[i].staged ==> states[n].staged && states[n].staging == states[i].staging,
        states[i].failure is Some ==> states[n].failure is Some,
        states[i].post_failure is Some ==> states[n].post_failure is Some,
    decreases n,
{
    if i < n {
        lemma_lasting(config, states, events, i, n - 1);
        assert(expects(config, states[n - 1], events[n - 1]));
        assert(leads_to(config, states[n - 1], events[n - 1], states[n]));
        if states[n - 1].stage is MakeStaging {
            lemma_unstaged(config, states, events, n - 1);
        }
    }
}

/// Until the staging directory is asked for, nothing is staged.
proof fn lemma_unstaged(config: BackupConfig, states: Seq<JobView>, events: Seq<EventView>, i: int)
    requires
        is_run(config, states, events),
        0 <= i <= events.len(),
        states[i].stage is MakeStaging || states[i].stage is DayDirectory
            || states[i].stage is ReadClock || is_early(states[i].stage),
    ensures
        !states[i].staged,
    decreases i,
{
    if i > 0 {
        assert(expects(config, states[i - 1], events[i - 1]));
        assert(leads_to(config, states[i - 1], events[i - 1], states[i]));
        lemma_unstaged(config, states, events, i - 1);
    }
}

/// An older backup is deleted only once the new one has its final name.
///
/// What is deleted was listed in the target directory, carries a backup's name with a timestamp,
/// and is not the new backup.
pub proof fn law_deletion_follows_publication(
    config: BackupConfig,
    states: Seq<JobView>,
    events: Seq<EventView>,
    i: int,
    path: Seq<PartView>,
)
    requires
        is_run(config, states, events),
        0 <= i < states.len(),
        action_in(config, states[i]) == ActionView::Delete(path),
    ensures
        path != states[i].final_path,
        entry_stamp(path, config.name@) is Some,
        exists|j: int|
            0 <= j < i && #[trigger] did(states, events, j, Stage::Publish) && states[j].final_path
                == states[i].final_path,
        exists|j: int|
            0 <= j < i && states[j].stage is List && (#[trigger] events[j] matches EventView::Entries(
                entries,
            ) && entries.contains(path)),
{
    lemma_inv(config, states, events, i);
    let published = lemma_published(config, states, events, i);
    let listed = lemma_listed(config, states, events, i);
    assert(did(states, events, published, Stage::Publish));
    let v = states[i];
    assert(v.doomed[v.gone] == path);
    assert(v.doomed.contains(path));
    law_only_older_backups_are_deleted(
        config.retention,
        events[listed]->Entries_0,
        config.name@,
        v.final_path,
        v.doomed,
        path,
    );
}

/// What is doomed was found so when the target directory was listed.
proof fn lemma_listed(
    config: BackupConfig,
    states: Seq<JobView>,
    events: Seq<EventView>,
    i: int,
) -> (j: int)
    requires
        is_run(config, states, events),
        0 <= i <= events.len(),
        states[i].stage is Delete || (!(config.retention is KeepAll) && states[i].failure is None && (
        states[i].stage is RemoveStaging || states[i].stage is PostHook
            || states[i].stage is Finished)),
    ensures
        0 <= j < i,
        states[j].stage is List,
        events[j] is Entries,
        retention_deletes(
            config.retention,
            events[j]->Entries_0,
            config.name@,
            states[i].final_path,
            states[i].doomed,
        ),
    decreases i,
{
    let before = states[i - 1];
    assert(expects(config, before, events[i - 1]));
    assert(leads_to(config, before, events[i - 1], states[i]));
    if before.stage is List {
        i - 1
    } else {
        lemma_listed(config, states, events, i - 1)
    }
}

/// The command after the backup runs only once the command before it has succeeded.
pub proof fn law_post_hook_follows_pre_hook(
    config: BackupConfig,
    states: Seq<JobView>,
    events: Seq<EventView>,
    i: int,
    command: Seq<char>,
)
    requires
        is_run(config, states, events),
        0 <= i < states.len(),
        action_in(config, states[i]) == ActionView::RunHook(Hook::Post, command),
    ensures
        exists|j: int|
            0 <= j < i && #[trigger] did(states, events, j, Stage::PreHook),
{
    lemma_inv(config, states, events, i);
    let j = lemma_pre_hook_ran(config, states, events, i);
    assert(did(states, events, j, Stage::PreHook));
}

/// Once the command before the backup has succeeded, the command after it, if there is one, runs
/// before the end, whatever becomes of the backup.
pub proof fn law_post_hook_is_not_skipped(
    config: BackupConfig,
    states: Seq<JobView>,
    events: Seq<EventView>,
    j: int,
)
    requires
        is_run(config, states, events),
        states.last().stage is Finished,
        did(states, events, j, Stage::PreHook),
        config.post_command is Some,
    ensures
        exists|k: int| j < k < events.len() && (#[trigger] states[k]).stage is PostHook,
{
    let n = events.len() as int;
    assert(expects(config, states[j], events[j]));
    assert(leads_to(config, states[j], events[j], states[j + 1]));
    lemma_lasting(config, states, events, j + 1, n);
    let before = states[n - 1];
    assert(expects(config, before, events[n - 1]));
    assert(leads_to(config, before, events[n - 1], states[n]));
    if is_early(before.stage) {
        lemma_early(config, states, events, n - 1);
    }
    lemma_early(config, states, events, j);
    assert(before.stage is PostHook);
    assert(n - 1 != j);
}

/// A staging directory that was made is removed before the end, whatever becomes of the backup.
pub proof fn law_staging_is_removed(
    config: BackupConfig,
    states: Seq<JobView>,
    events: Seq<EventView>,
    j: int,
    staging: Seq<PartView>,
)
    requires
        is_run(config, states, events),
        states.last().stage is Finished,
        0 <= j < events.len(),
        states[j].stage is MakeStaging,
        events[j] == EventView::Path(staging),
    ensures
        exists|k: int|
            j < k < events.len() && action_in(config, #[trigger] states[k])
                == ActionView::RemoveStaging(staging),
{
    let n = events.len() as int;
    assert(expects(config, states[j], events[j]));
    assert(leads_to(config, states[j], events[j], states[j + 1]));
    lemma_lasting(config, states, events, j + 1, n);
    lemma_unstaged(config, states, events, j);
    let k = lemma_removed(config, states, events, n);
    if k <= j {
        lemma_lasting(config, states, events, k, j);
    }
    assert(action_in(config, states[k]) == ActionView::RemoveStaging(staging));
}

/// Behind the backup proper, what was staged has been removed.
proof fn lemma_removed(
    config: BackupConfig,
    states: Seq<JobView>,
    events: Seq<EventView>,
    i: int,
) -> (k: int)
    requires
        is_run(config, states, events),
        0 <= i <= events.len(),
        states[i].stage is PostHook || states[i].stage is Finished,
        states[i].staged,
    ensures
        0 <= k < i,
        states[k].stage is RemoveStaging,
        states[k].staged,
        states[k].staging == states[i].staging,
    decreases i,
{
    let before = states[i - 1];
    assert(expects(config, before, events[i - 1]));
    assert(leads_to(config, before, events[i - 1], states[i]));
    if is_early(before.stage) {
        lemma_early(config, states, events, i - 1);
    }
    if before.stage is RemoveStaging {
        i - 1
    } else {
        lemma_removed(config, states, events, i - 1)
    }
}

/// If any action fails, other than resolving the target directory, the backup as a whole fails.
pub proof fn law_failures_are_reported(
    config: BackupConfig,
    states: Seq<JobView>,
    events: Seq<EventView>,
    j: int,
)
    requires
        is_run(config, states, events),
        states.last().stage is Finished,
        0 <= j < events.len(),
        events[j] is Failed,
        states[j].stage !is ResolveTarget,
    ensures
        outcome(states.last()) is Err,
{
    assert(expects(config, states[j], events[j]));
    assert(leads_to(config, states[j], events[j], states[j + 1]));
    lemma_lasting(config, states, events, j + 1, events.len() as int);
}

/// No command runs, and nothing is written but the target directory itself, unless the target
/// directory, as the file system resolves it, lies outside the world.
pub proof fn law_target_lies_outside_source(
    config: BackupConfig,
    states: Seq<JobView>,
    events: Seq<EventView>,
    i: int,
)
    requires
        is_run(config, states, events),
        0 <= i < states.len(),
        states[i].stage is PreHook || states[i].stage is RemoveStaging
            || states[i].stage is PostHook || is_under_way(states[i].stage),
    ensures
        exists|j: int|
            0 <= j < i && states[j].stage is ResolveTarget && !is_inside(
                resolved_target(
                    states[j].target,
                    match #[trigger] events[j] {
                        EventView::Path(path) => Some(path),
                        _ => None,
                    },
                ),
                config.source@,
            ),
    decreases i,
{
    let before = states[i - 1];
    assert(expects(config, before, events[i - 1]));
    assert(leads_to(config, before, events[i - 1], states[i]));
    if before.stage !is ResolveTarget {
        law_target_lies_outside_source(config, states, events, i - 1);
    }
}

/// What is copied is an entry of the world that the walk gets to, and goes to its place in the
/// snapshot.
pub proof fn law_copies_go_to_their_place(
    config: BackupConfig,
    states: Seq<JobView>,
    events: Seq<EventView>,
    i: int,
    from: Seq<PartView>,
    to: Seq<PartView>,
)
    requires
        is_run(config, states, events),
        0 <= i < states.len(),
        action_in(config, states[i]) == (ActionView::CopyFile { from, to }),
    ensures
        is_inside(from, config.source@),
        from != config.source@,
        is_reached(from, config.source@, globs_of(config.include_session_lock, config.exclude@)),
        to == destination(from, config.source@, snapshot_root(states[i])),
{
    lemma_copying(config, states, events, i);
}

/// Unless it is wanted, the world's lock file is not copied.
pub proof fn law_session_lock_is_not_copied(
    config: BackupConfig,
    states: Seq<JobView>,
    events: Seq<EventView>,
    i: int,
    from: Seq<PartView>,
    to: Seq<PartView>,
)
    requires
        is_run(config, states, events),
        0 <= i < states.len(),
        action_in(config, states[i]) == (ActionView::CopyFile { from, to }),
        !config.include_session_lock,
    ensures
        from != config.source@.push(PartView::Normal("session.lock"@)),
{
    law_copies_go_to_their_place(config, states, events, i, from, to);
    lemma_inv(config, states, events, i);
    let lock = seq![PartView::Normal("session.lock"@)];
    let globs = globs_of(config.include_session_lock, config.exclude@);
    lemma_session_lock_is_literal();
    assert(globs[0] == "session.lock"@);
    assert(globs.contains("session.lock"@));
    reveal_strlit("session.lock");
    lemma_spelled_out(globs, "session.lock"@);
    if from == config.source@.push(PartView::Normal("session.lock"@)) {
        assert(from.skip(config.source@.len() as int) =~= lock);
        assert(from.take(from.len() as int) =~= from);
    }
}

/// Nothing that is left out gets into the snapshot, and nothing that lies in a directory that is:
/// neither is copied, nor created as a directory.
pub proof fn law_left_out_directories_stay_out(
    config: BackupConfig,
    states: Seq<JobView>,
    events: Seq<EventView>,
    i: int,
    directory: Seq<PartView>,
)
    requires
        is_run(config, states, events),
        0 <= i < states.len(),
        states[i].stage is MakeDirectory || states[i].stage is MakeParent || states[i].stage
            is CopyFile,
        is_inside(directory, config.source@),
        left_out(
            globs_of(config.include_session_lock, config.exclude@),
            directory.skip(config.source@.len() as int),
        ),
    ensures
        !is_inside(states[i].entry, directory),
        states[i].destination == destination(
            states[i].entry,
            config.source@,
            snapshot_root(states[i]),
        ),
{
    lemma_copying(config, states, events, i);
    if is_inside(states[i].entry, directory) {
        law_walk_stays_out_of_what_is_left_out(
            directory,
            states[i].entry,
            config.source@,
            globs_of(config.include_session_lock, config.exclude@),
        );
    }
}

/// What is being copied or created is an entry that the walk came upon.
proof fn lemma_copying(config: BackupConfig, states: Seq<JobView>, events: Seq<EventView>, i: int)
    requires
        is_run(config, states, events),
        0 <= i < states.len(),
        states[i].stage is MakeDirectory || states[i].stage is MakeParent || states[i].stage
            is CopyFile,
    ensures
        is_inside(states[i].entry, config.source@),
        states[i].entry != config.source@,
        is_reached(
            states[i].entry,
            config.source@,
            globs_of(config.include_session_lock, config.exclude@),
        ),
        states[i].destination == destination(
            states[i].entry,
            config.source@,
            snapshot_root(states[i]),
        ),
    decreases i,
{
    let before = states[i - 1];
    lemma_inv(config, states, events, i - 1);
    assert(expects(config, before, events[i - 1]));
    assert(leads_to(config, before, events[i - 1], states[i]));
    if before.stage is MakeParent {
        lemma_copying(config, states, events, i - 1);
    }
}

/// In a backup that succeeds, every file that the walk comes upon is copied to its place, and every
/// directory is created there.
pub proof fn law_every_entry_is_copied(
    config: BackupConfig,
    states: Seq<JobView>,
    events: Seq<EventView>,
    j: int,
    path: Seq<PartView>,
    kind: EntryKind,
)
    requires
        is_run(config, states, events),
        states.last().stage is Finished,
        outcome(states.last()) is Ok,
        0 <= j < events.len(),
        states[j].stage is Walk,
        events[j] == (EventView::Entry { path, kind }),
        path != config.source@,
    ensures
        kind is File ==> exists|k: int|
            #![trigger states[k]]
            j < k && did(states, events, k, Stage::CopyFile) && states[k].entry == path
                && states[k].destination == destination(
                path,
                config.source@,
                snapshot_root(states[k]),
            ),
        kind is Directory ==> exists|k: int|
            #![trigger states[k]]
            j < k && did(states, events, k, Stage::MakeDirectory) && states[k].destination
                == destination(path, config.source@, snapshot_root(states[k])),
        kind !is Symlink,
{
    let n = events.len() as int;
    assert(expects(config, states[j], events[j]));
    assert(leads_to(config, states[j], events[j], states[j + 1]));
    lemma_lasting(config, states, events, j + 1, n);
    assert(j + 1 < n);
    assert(expects(config, states[j + 1], events[j + 1]));
    assert(leads_to(config, states[j + 1], events[j + 1], states[j + 2]));
    lemma_lasting(config, states, events, j + 2, n);
    if states[j + 1].stage is MakeParent {
        assert(j + 2 < n);
        assert(expects(config, states[j + 2], events[j + 2]));
        assert(leads_to(config, states[j + 2], events[j + 2], states[j + 3]));
        lemma_lasting(config, states, events, j + 3, n);
        assert(did(states, events, j + 2, Stage::CopyFile));
    } else {
        assert(did(states, events, j + 1, states[j + 1].stage));
    }
}

/// The archive is written only once the whole world has been walked through, and the backup gets
/// its final name only once, in addition, the archive is complete.
pub proof fn law_snapshot_comes_first(
    config: BackupConfig,
    states: Seq<JobView>,
    events: Seq<EventView>,
    i: int,
)
    requires
        is_run(config, states, events),
        0 <= i < states.len(),
        states[i].stage is Archive || states[i].stage is Publish,
    ensures
        exists|j: int|
            0 <= j < i && states[j].stage is Walk && #[trigger] events[j] is NoMoreEntries,
        states[i].stage is Publish && config.compression !is Uncompressed ==> exists|j: int|
            0 <= j < i && #[trigger] did(states, events, j, Stage::Archive),
    decreases i,
{
    let before = states[i - 1];
    assert(expects(config, before, events[i - 1]));
    assert(leads_to(config, before, events[i - 1], states[i]));
    if before.stage is Archive {
        law_snapshot_comes_first(config, states, events, i - 1);
        assert(did(states, events, i - 1, Stage::Archive));
    }
}

/// A backup that succeeds has its final name, and all that retention dooms is deleted.
pub proof fn law_success_is_complete(
    config: BackupConfig,
    states: Seq<JobView>,
    events: Seq<EventView>,
)
    requires
        is_run(config, states, events),
        states.last().stage is Finished,
        outcome(states.last()) is Ok,
    ensures
        exists|j: int| #[trigger]
            did(states, events, j, Stage::Publish) && states[j].final_path == outcome(
                states.last(),
            )->Ok_0.path,
        config.retention is KeepAll ==> outcome(states.last())->Ok_0.deleted.len() == 0,
        !(config.retention is KeepAll) ==> exists|j: int|
            0 <= j < events.len() && states[j].stage is List && (
            #[trigger] events[j] matches EventView::Entries(entries) && retention_deletes(
                config.retention,
                entries,
                config.name@,
                outcome(states.last())->Ok_0.path,
                outcome(states.last())->Ok_0.deleted,
            )),
{
    let n = events.len() as int;
    let j = lemma_published(config, states, events, n);
    assert(did(states, events, j, Stage::Publish));
    lemma_all_deleted(config, states, events, n);
    let v = states[n];
    assert(v.doomed.take(v.gone) =~= v.doomed);
    if !(config.retention is KeepAll) {
        let k = lemma_listed(config, states, events, n);
        assert(events[k] is Entries);
    }
}

/// Behind a backup proper that did not fail, all that was doomed is deleted.
proof fn lemma_all_deleted(
    config: BackupConfig,
    states: Seq<JobView>,
    events: Seq<EventView>,
    i: int,
)
    requires
        is_run(config, states, events),
        0 <= i <= events.len(),
        states[i].failure is None,
    ensures
        states[i].stage !is Delete ==> states[i].gone == states[i].doomed.len(),
        config.retention is KeepAll ==> states[i].doomed.len() == 0,
    decreases i,
{
    if i > 0 {
        let before = states[i - 1];
        lemma_inv(config, states, events, i - 1);
        assert(expects(config, before, events[i - 1]));
        assert(leads_to(config, before, events[i - 1], states[i]));
        lemma_all_deleted(config, states, events, i - 1);
    }
}

/// Once the time is read, the backup has its names, and its place is in the target directory. In the
/// years 0 to 9999 the time is found again in its name.
pub proof fn law_backup_is_placed_in_target(
    config: BackupConfig,
    states: Seq<JobView>,
    events: Seq<EventView>,
    i: int,
)
    requires
        is_run(config, states, events),
        0 <= i < states.len(),
        is_under_way(states[i].stage),
        states[i].stage !is ReadClock,
    ensures
        is_inside(states[i].final_path, states[i].target),
        file_name_text(states[i].final_path) == Some(
            final_name_of(states[i].base_name, config.compression),
        ),
        exists|j: int|
            0 <= j < i && (#[trigger] events[j] matches EventView::Clock(at) && states[i].base_name
                == base_name_of(config.name@, at.secs) && (YEAR_0 <= at.secs <= END_OF_YEAR_9999
                ==> stamp_in(
                name_prefix(config.name@),
                final_name_of(states[i].base_name, config.compression),
            ) == Some(Timestamp { secs: at.secs, nanos: 0 }))),
    decreases i,
{
    let before = states[i - 1];
    assert(expects(config, before, events[i - 1]));
    assert(leads_to(config, before, events[i - 1], states[i]));
    if before.stage is ReadClock {
        let at = events[i - 1]->Clock_0;
        if YEAR_0 <= at.secs <= END_OF_YEAR_9999 {
            law_name_gives_time_back(config.name@, at.secs, config.compression);
        }
        if config.day_directories {
            let ahead = choose|ahead: i32|
                -DAY < ahead < DAY && states[i].final_path == #[trigger] backup_path(
                    before.target,
                    config.name@,
                    config.compression,
                    at,
                    Some(ahead),
                );
            law_backup_lies_in_target(
                before.target,
                config.name@,
                config.compression,
                at,
                Some(ahead),
            );
        } else {
            law_backup_lies_in_target(before.target, config.name@, config.compression, at, None);
        }
    } else {
        law_backup_is_placed_in_target(config, states, events, i - 1);
    }
}

/// A backup ends up in the target directory: in it, or in a directory of it.
pub proof fn law_backup_lies_in_target(
    target: Seq<PartView>,
    name: Seq<char>,
    format: CompressionFormat,
    at: Timestamp,
    offset: Option<i32>,
)
    ensures
        is_inside(backup_path(target, name, format, at, offset), target),
        backup_path(target, name, format, at, offset).len() <= target.len() + 2,
        offset is None ==> backup_path(target, name, format, at, offset).drop_last() == target,
{
    let path = backup_path(target, name, format, at, offset);
    assert(path.take(target.len() as int) =~= target);
    assert(offset is None ==> path.drop_last() =~= target);
}

/// Whether nothing stands in the way of a backup at step `i`: nothing fails but resolving the target
/// directory, the target directory lies outside the world, and the walk comes upon entries of the
/// world that are no symbolic links.
pub open spec fn goes_well(
    config: BackupConfig,
    states: Seq<JobView>,
    events: Seq<EventView>,
    i: int,
) -> bool {
    match (states[i].stage, events[i]) {
        (Stage::ResolveTarget, EventView::Path(path)) => !config.source@.is_prefix_of(path),
        (Stage::ResolveTarget, _) => !config.source@.is_prefix_of(states[i].target),
        (Stage::Walk, EventView::Entry { path, kind }) => config.source@.is_prefix_of(path) && (path
            == config.source@ || kind !is Symlink),
        (_, EventView::Failed(_)) => false,
        _ => true,
    }
}

/// While nothing stands in the way, nothing has failed.
proof fn lemma_nothing_failed(
    config: BackupConfig,
    states: Seq<JobView>,
    events: Seq<EventView>,
    i: int,
)
    requires
        is_run(config, states, events),
        all_globs(config.exclude@),
        !build_fails(globs_of(config.include_session_lock, config.exclude@)),
        0 <= i <= events.len(),
        forall|j: int| #![trigger events[j]] 0 <= j < i ==> goes_well(config, states, events, j),
    ensures
        states[i].failure is None,
        states[i].post_failure is None,
    decreases i,
{
    if i > 0 {
        lemma_nothing_failed(config, states, events, i - 1);
        assert(goes_well(config, states, events, i - 1));
        assert(expects(config, states[i - 1], events[i - 1]));
        assert(leads_to(config, states[i - 1], events[i - 1], states[i]));
    }
}

/// A backup in whose way nothing stands succeeds.
pub proof fn law_backup_succeeds_if_all_goes_well(
    config: BackupConfig,
    states: Seq<JobView>,
    events: Seq<EventView>,
)
    requires
        is_run(config, states, events),
        states.last().stage is Finished,
        all_globs(config.exclude@),
        !build_fails(globs_of(config.include_session_lock, config.exclude@)),
        forall|j: int|
            #![trigger events[j]]
            0 <= j < events.len() ==> goes_well(config, states, events, j),
    ensures
        outcome(states.last()) is Ok,
{
    lemma_nothing_failed(config, states, events, events.len() as int);
}

/// A target directory inside the world, as the file system resolves it, is refused: nothing follows.
pub proof fn law_target_inside_source_is_refused(
    config: BackupConfig,
    states: Seq<JobView>,
    events: Seq<EventView>,
    j: int,
    target: Seq<PartView>,
)
    requires
        is_run(config, states, events),
        0 <= j < events.len(),
        states[j].stage is ResolveTarget,
        events[j] == EventView::Path(target) || (events[j] is Failed && target == states[j].target),
        config.source@.is_prefix_of(target),
    ensures
        states.len() == j + 2,
        states.last().stage is Finished,
        outcome(states.last()) is Err,
{
    assert(expects(config, states[j], events[j]));
    assert(leads_to(config, states[j], events[j], states[j + 1]));
    lemma_early(config, states, events, j);
    if events.len() > j + 1 {
        assert(expects(config, states[j + 1], events[j + 1]));
    }
}

/// A failure of the backup stays as it is.
proof fn lemma_failure_stays(
    config: BackupConfig,
    states: Seq<JobView>,
    events: Seq<EventView>,
    i: int,
    n: int,
)
    requires
        is_run(config, states, events),
        0 <= i <= n <= events.len(),
        states[i].failure is Some,
        states[i].stage is RemoveStaging || states[i].stage is PostHook || states[i].stage is Finished,
    ensures
        states[n].failure == states[i].failure,
        states[n].stage is RemoveStaging || states[n].stage is PostHook || states[n].stage is Finished,
    decreases n,
{
    if i < n {
        lemma_failure_stays(config, states, events, i, n - 1);
        assert(expects(config, states[n - 1], events[n - 1]));
        assert(leads_to(config, states[n - 1], events[n - 1], states[n]));
    }
}

/// When a step of the backup fails, the backup comes to nothing more, and what it comes to names that
/// step and its reason. A failure of the command behind it is told in addition.
pub proof fn law_the_failing_step_is_told(
    config: BackupConfig,
    states: Seq<JobView>,
    events: Seq<EventView>,
    j: int,
    reason: Seq<char>,
)
    requires
        is_run(config, states, events),
        states.last().stage is Finished,
        0 <= j < events.len(),
        events[j] == EventView::Failed(reason),
        states[j].stage !is ResolveTarget,
    ensures
        states[j].stage !is PostHook ==> match outcome(states.last()) {
            Err(JobErrorView::Backup(FailureView::Action(stage, text))) => stage == states[j].stage
                && text == reason,
            Err(JobErrorView::BackupAndPostHook(FailureView::Action(stage, text), _)) => stage
                == states[j].stage && text == reason,
            _ => false,
        },
        states[j].stage is PostHook ==> match outcome(states.last()) {
            Err(JobErrorView::PostHook(text)) => text == reason,
            Err(JobErrorView::BackupAndPostHook(_, text)) => text == reason,
            _ => false,
        },
{
    let n = events.len() as int;
    assert(expects(config, states[j], events[j]));
    assert(leads_to(config, states[j], events[j], states[j + 1]));
    if states[j].stage is PostHook {
        if j + 1 < n {
            assert(expects(config, states[j + 1], events[j + 1]));
        }
    } else {
        lemma_failure_stays(config, states, events, j + 1, n);
    }
}

/// The command before the backup, if there is one, has run and succeeded before anything of the
/// backup proper is done.
pub proof fn law_pre_hook_runs_first(
    config: BackupConfig,
    states: Seq<JobView>,
    events: Seq<EventView>,
    i: int,
)
    requires
        is_run(config, states, events),
        0 <= i < states.len(),
        is_under_way(states[i].stage),
        config.pre_command is Some,
    ensures
        exists|j: int|
            0 <= j < i && #[trigger] did(states, events, j, Stage::PreHook) && action_in(
                config,
                states[j],
            ) == ActionView::RunHook(Hook::Pre, config.pre_command->0@),
    decreases i,
{
    let before = states[i - 1];
    assert(expects(config, before, events[i - 1]));
    assert(leads_to(config, before, events[i - 1], states[i]));
    if before.stage is PreHook {
        assert(did(states, events, i - 1, Stage::PreHook));
    } else {
        law_pre_hook_runs_first(config, states, events, i - 1);
    }
}

/// The names of a backup and its staging directory stay as they are while it is under way.
proof fn lemma_names_stay(
    config: BackupConfig,
    states: Seq<JobView>,
    events: Seq<EventView>,
    i: int,
) -> (j: int)
    requires
        is_run(config, states, events),
        0 <= i < states.len(),
        states[i].stage is Publish,
        config.compression !is Uncompressed,
    ensures
        0 <= j < i,
        did(states, events, j, Stage::Archive),
        states[j].final_path == states[i].final_path,
        states[j].staging == states[i].staging,
        states[j].base_name == states[i].base_name,
{
    let before = states[i - 1];
    assert(expects(config, before, events[i - 1]));
    assert(leads_to(config, before, events[i - 1], states[i]));
    i - 1
}

/// What gets the final name is the snapshot itself, if nothing is compressed, and else the archive
/// that was written of it: in the format and at the level asked for, and under another name beside
/// the final one.
pub proof fn law_what_was_written_is_published(
    config: BackupConfig,
    states: Seq<JobView>,
    events: Seq<EventView>,
    i: int,
    from: Seq<PartView>,
    to: Seq<PartView>,
)
    requires
        is_run(config, states, events),
        0 <= i < states.len(),
        action_in(config, states[i]) == (ActionView::Rename { from, to }),
    ensures
        to == states[i].final_path,
        config.compression is Uncompressed ==> from == states[i].staging + seq![
            PartView::Normal(states[i].base_name),
        ],
        config.compression !is Uncompressed ==> exists|j: int|
            0 <= j < i && #[trigger] did(states, events, j, Stage::Archive) && action_in(
                config,
                states[j],
            ) == (ActionView::WriteArchive {
                format: config.compression,
                level: config.compression_level,
                from: states[i].staging + seq![PartView::Normal(states[i].base_name)],
                to: from,
            }),
{
    let root = states[i].staging + seq![PartView::Normal(states[i].base_name)];
    assert(snapshot_root(states[i]) =~= root);
    if config.compression !is Uncompressed {
        let j = lemma_names_stay(config, states, events, i);
        assert(did(states, events, j, Stage::Archive));
        assert(snapshot_root(states[j]) =~= root);
    }
}

/// The size that a backup tells is the one measured of it, at its final place.
pub proof fn law_size_is_the_one_measured(
    config: BackupConfig,
    states: Seq<JobView>,
    events: Seq<EventView>,
)
    requires
        is_run(config, states, events),
        states.last().stage is Finished,
        outcome(states.last()) is Ok,
    ensures
        exists|j: int|
            {
                &&& 0 <= j < events.len()
                &&& action_in(config, states[j]) == ActionView::Measure(
                    outcome(states.last())->Ok_0.path,
                )
                &&& #[trigger] events[j] matches EventView::Size(bytes) && bytes == outcome(
                    states.last(),
                )->Ok_0.bytes
            },
{
    let j = lemma_measured(config, states, events, events.len() as int);
    assert(events[j] is Size);
}

/// Behind the measuring, the size is the one measured.
proof fn lemma_measured(
    config: BackupConfig,
    states: Seq<JobView>,
    events: Seq<EventView>,
    i: int,
) -> (j: int)
    requires
        is_run(config, states, events),
        0 <= i <= events.len(),
        states[i].stage is List || states[i].stage is Delete || (states[i].failure is None && (
        states[i].stage is RemoveStaging || states[i].stage is PostHook
            || states[i].stage is Finished)),
    ensures
        0 <= j < i,
        states[j].stage is Measure,
        states[j].final_path == states[i].final_path,
        events[j] matches EventView::Size(bytes) && bytes == states[i].bytes,
    decreases i,
{
    let before = states[i - 1];
    assert(expects(config, before, events[i - 1]));
    assert(leads_to(config, before, events[i - 1], states[i]));
    if before.stage is Measure {
        i - 1
    } else {
        lemma_measured(config, states, events, i - 1)
    }
}

/// What a backup tells to have deleted, it has deleted.
pub proof fn law_what_is_told_was_deleted(
    config: BackupConfig,
    states: Seq<JobView>,
    events: Seq<EventView>,
    k: int,
)
    requires
        is_run(config, states, events),
        states.last().stage is Finished,
        outcome(states.last()) is Ok,
        0 <= k < outcome(states.last())->Ok_0.deleted.len(),
    ensures
        exists|j: int| #[trigger]
            did(states, events, j, Stage::Delete) && action_in(config, states[j])
                == ActionView::Delete(outcome(states.last())->Ok_0.deleted[k]),
{
    let n = events.len() as int;
    lemma_inv(config, states, events, n);
    let j = lemma_gone_was_deleted(config, states, events, n, k);
    assert(did(states, events, j, Stage::Delete));
}

/// What counts as gone was deleted.
proof fn lemma_gone_was_deleted(
    config: BackupConfig,
    states: Seq<JobView>,
    events: Seq<EventView>,
    i: int,
    k: int,
) -> (j: int)
    requires
        is_run(config, states, events),
        0 <= i <= events.len(),
        0 <= k < states[i].gone,
    ensures
        0 <= j < i,
        did(states, events, j, Stage::Delete),
        states[j].gone == k,
        states[j].doomed == states[i].doomed,
    decreases i,
{
    let before = states[i - 1];
    assert(expects(config, before, events[i - 1]));
    assert(leads_to(config, before, events[i - 1], states[i]));
    if before.stage is Delete && events[i - 1] is Done && before.gone == k {
        i - 1
    } else {
        lemma_gone_was_deleted(config, states, events, i - 1, k)
    }
}

/// The target directory is the one asked for. A relative one belongs to the current directory. It is
/// made, if need be, and resolved before anything else.
pub proof fn law_target_is_made_first(
    config: BackupConfig,
    states: Seq<JobView>,
    events: Seq<EventView>,
    current: Seq<PartView>,
)
    requires
        is_run(config, states, events),
        events.len() >= 3,
    ensures
        is_rooted(config.target_dir@) ==> action_in(config, states[0]) == ActionView::CreateDir(
            config.target_dir@,
        ) && (events[0] is Done ==> action_in(config, states[1]) == ActionView::Resolve(
            config.target_dir@,
        )),
        !is_rooted(config.target_dir@) ==> action_in(config, states[0])
            == ActionView::FindCurrentDir && (events[0] == EventView::Path(current) ==> action_in(
            config,
            states[1],
        ) == ActionView::CreateDir(joined(current, config.target_dir@)) && (events[1] is Done
            ==> action_in(config, states[2]) == ActionView::Resolve(
            joined(current, config.target_dir@),
        ))),
{
    assert(expects(config, states[0], events[0]));
    assert(leads_to(config, states[0], events[0], states[1]));
    assert(expects(config, states[1], events[1]));
    assert(leads_to(config, states[1], events[1], states[2]));
}

/// A symbolic link in the world, or an entry from elsewhere, fails the backup, which says so.
pub proof fn law_symlinks_fail_the_backup(
    config: BackupConfig,
    states: Seq<JobView>,
    events: Seq<EventView>,
    j: int,
    path: Seq<PartView>,
    kind: EntryKind,
)
    requires
        is_run(config, states, events),
        states.last().stage is Finished,
        0 <= j < events.len(),
        states[j].stage is Walk,
        events[j] == (EventView::Entry { path, kind }),
        !config.source@.is_prefix_of(path) || (path != config.source@ && kind is Symlink),
    ensures
        ({
            let fault = if config.source@.is_prefix_of(path) {
                SnapshotError::Symlink
            } else {
                SnapshotError::OutsideSource
            };
            match outcome(states.last()) {
                Err(JobErrorView::Backup(FailureView::Entry(entry, error))) => entry == path && error
                    == fault,
                Err(JobErrorView::BackupAndPostHook(FailureView::Entry(entry, error), _)) => entry
                    == path && error == fault,
                _ => false,
            }
        }),
{
    let n = events.len() as int;
    assert(expects(config, states[j], events[j]));
    assert(leads_to(config, states[j], events[j], states[j + 1]));
    lemma_failure_stays(config, states, events, j + 1, n);
}

/// With directories for days, a backup goes into the one of the day that local clocks show at the
/// time that was read, by what the machine reports for it. Without, it goes into the target directory
/// itself.
pub proof fn law_backup_goes_into_its_day(
    config: BackupConfig,
    states: Seq<JobView>,
    events: Seq<EventView>,
    i: int,
    at: Timestamp,
)
    requires
        is_run(config, states, events),
        0 <= i < events.len(),
        states[i].stage is ReadClock,
        events[i] == EventView::Clock(at),
        YEAR_0 + DAY <= at.secs <= END_OF_YEAR_9999 - DAY,
    ensures
        !config.day_directories ==> states[i + 1].final_path.drop_last() == states[i].target,
        config.day_directories ==> {
            let path = states[i + 1].final_path;
            &&& path.len() == states[i].target.len() + 2
            &&& path.take(states[i].target.len() as int) == states[i].target
            &&& exists|ahead: i32, label: Seq<char>|
                {
                    &&& #[trigger] reports(at.secs, ahead)
                    &&& path[states[i].target.len() as int] == PartView::Normal(label)
                    &&& #[trigger] is_day_label(label)
                    &&& label_reading(label) matches Some(day) && day * 86_400 <= at.secs + ahead < (
                    day + 1) * 86_400
                }
        },
{
    let target = states[i].target;
    let path = states[i + 1].final_path;
    assert(expects(config, states[i], events[i]));
    assert(leads_to(config, states[i], events[i], states[i + 1]));
    if config.day_directories {
        let ahead = choose|ahead: i32|
            -DAY < ahead < DAY && reports(at.secs, ahead) && label_tells((at.secs + ahead) as i64)
                && path == #[trigger] backup_path(
                target,
                config.name@,
                config.compression,
                at,
                Some(ahead),
            );
        let label = moment_text((at.secs + ahead) as i64, "%Y-%m-%d"@);
        assert(path == backup_path(target, config.name@, config.compression, at, Some(ahead)));
        assert(path.take(target.len() as int) =~= target);
        assert(reports(at.secs, ahead) && is_day_label(label));
    } else {
        assert(path.drop_last() =~= target);
    }
}

/// Once the backup has its final name, the older ones are looked for in the target directory, and in
/// the directories of days in it if backups go there.
pub proof fn law_older_backups_are_looked_for_in_the_target(
    config: BackupConfig,
    states: Seq<JobView>,
    events: Seq<EventView>,
    i: int,
)
    requires
        is_run(config, states, events),
        0 <= i < states.len(),
        states[i].stage is List || states[i].stage is MakeStaging,
    ensures
        states[i].stage is List ==> action_in(config, states[i]) == (ActionView::List {
            dir: states[i].target,
            day_directories: config.day_directories,
        }),
        states[i].stage is MakeStaging ==> action_in(config, states[i]) == ActionView::MakeStaging(
            states[i].target,
        ),
        exists|j: int|
            0 <= j < i && (#[trigger] states[j]).stage is ResolveTarget && action_in(
                config,
                states[j],
            ) == ActionView::Resolve(states[i].target),
{
    let j = lemma_target_was_resolved(config, states, events, i);
    assert(states[j].stage is ResolveTarget);
}

/// The target directory stays the one that was resolved.
proof fn lemma_target_was_resolved(
    config: BackupConfig,
    states: Seq<JobView>,
    events: Seq<EventView>,
    i: int,
) -> (j: int)
    requires
        is_run(config, states, events),
        0 <= i < states.len(),
        is_under_way(states[i].stage) || states[i].stage is PreHook,
    ensures
        0 <= j < i,
        states[j].stage is ResolveTarget,
        states[j].target == states[i].target,
    decreases i,
{
    let before = states[i - 1];
    assert(expects(config, before, events[i - 1]));
    assert(leads_to(config, before, events[i - 1], states[i]));
    if before.stage is ResolveTarget {
        i - 1
    } else {
        lemma_target_was_resolved(config, states, events, i - 1)
    }
}

/// The directory that a file is copied to is made right before.
pub proof fn law_directory_is_made_before_its_file(
    config: BackupConfig,
    states: Seq<JobView>,
    events: Seq<EventView>,
    i: int,
    from: Seq<PartView>,
    to: Seq<PartView>,
)
    requires
        is_run(config, states, events),
        0 <= i < states.len(),
        action_in(config, states[i]) == (ActionView::CopyFile { from, to }),
        to.len() > 0,
        to.last().is_name(),
    ensures
        i > 0,
        did(states, events, i - 1, Stage::MakeParent),
        action_in(config, states[i - 1]) == ActionView::CreateDir(to.drop_last()),
{
    let before = states[i - 1];
    assert(expects(config, before, events[i - 1]));
    assert(leads_to(config, before, events[i - 1], states[i]));
}

/// The directories made are those of the day, of the snapshot itself, and of what goes into it, each
/// at its place.
pub proof fn law_directories_are_made_at_their_place(
    config: BackupConfig,
    states: Seq<JobView>,
    events: Seq<EventView>,
    i: int,
    path: Seq<PartView>,
)
    requires
        is_run(config, states, events),
        0 <= i < states.len(),
        action_in(config, states[i]) == ActionView::CreateDir(path),
    ensures
        states[i].stage is DayDirectory ==> config.day_directories && path
            == states[i].final_path.drop_last(),
        states[i].stage is SnapshotRoot ==> path == states[i].staging + seq![
            PartView::Normal(states[i].base_name),
        ],
        states[i].stage is MakeDirectory ==> path == destination(
            states[i].entry,
            config.source@,
            states[i].staging + seq![PartView::Normal(states[i].base_name)],
        ),
{
    assert(snapshot_root(states[i]) =~= states[i].staging + seq![
        PartView::Normal(states[i].base_name),
    ]);
    if states[i].stage is DayDirectory {
        let before = states[i - 1];
        assert(expects(config, before, events[i - 1]));
        assert(leads_to(config, before, events[i - 1], states[i]));
    }
    if states[i].stage is MakeDirectory {
        lemma_copying(config, states, events, i);
    }
}

/// The staging directory is removed only once the backup has its final name, or has failed.
pub proof fn law_staging_outlives_publication(
    config: BackupConfig,
    states: Seq<JobView>,
    events: Seq<EventView>,
    i: int,
    path: Seq<PartView>,
)
    requires
        is_run(config, states, events),
        0 <= i < states.len(),
        action_in(config, states[i]) == ActionView::RemoveStaging(path),
    ensures
        states[i].failure is Some || exists|j: int|
            0 <= j < i && #[trigger] did(states, events, j, Stage::Publish),
{
    if states[i].failure is None {
        let j = lemma_published(config, states, events, i);
        assert(did(states, events, j, Stage::Publish));
    }
}

} // verus!
