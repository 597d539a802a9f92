//! What retention keeps and deletes, in terms of the clock.
use crate::artifact::{lemma_stamp_is_found, name_prefix};
use crate::calendar::{lemma_stamp_is_in_range, stamp_reading};
use crate::order::{byte_less, lemma_lex_irreflexive, lex_less};
use crate::path::{part_less, path_keys, path_less, FsPath, PartKey, PartView};
use crate::retention::{
    all_reported, all_wf, borrowed_views, collect_managed_backups, daily_pick, dated, deleted,
    enforce_retention, entry_stamp, in_daily_window, kept, kept_by_policy, kept_daily,
    lemma_managed_are_entries, managed, newest_first, paths, retention_deletes, same_day,
    select_backup_for_checkpoint, select_backups_to_delete, serves_best, views, BackupView, Dated,
    ManagedBackup, RetentionPolicy, TieredRetentionPolicy,
};
use crate::retention_laws::{
    law_deleted_are_backups_not_kept, law_every_past_day_keeps_a_backup,
    law_keep_last_deletes_the_others, law_kept_or_deleted, law_newest_is_never_deleted,
    law_recent_backups_are_kept, law_tiered_deletes_the_others, paths_differ,
};
use crate::time::{is_stamp, reports, ClockTime, Timestamp};
use vstd::prelude::*;
use vstd::utf8::*;

verus! {

/// How many whole seconds a time of day, on a clock that is `offset` seconds ahead of UTC, is away
/// from another.
pub open spec fn seconds_away(at: Timestamp, offset: int, checkpoint: ClockTime) -> int {
    let shown = (at.secs + offset) % 86_400 * 1_000_000_000 + at.nanos;
    let wanted = checkpoint.secs * 1_000_000_000 + checkpoint.nanos;
    (if shown < wanted {
        wanted - shown
    } else {
        shown - wanted
    }) / 1_000_000_000
}

/// The day that a clock shows which is `offset` seconds ahead of UTC, counted from 1970-01-01.
pub open spec fn day_shown(at: Timestamp, offset: int) -> int {
    (at.secs + offset) / 86_400
}

/// Whether one time comes before another.
pub open spec fn is_before(a: Timestamp, b: Timestamp) -> bool {
    a.secs < b.secs || (a.secs == b.secs && a.nanos < b.nanos)
}

/// Outside of leap seconds, backups are ranked by how far what local clocks show is away from a
/// checkpoint. Of whole seconds that is the difference between the two times of day.
pub proof fn law_gap_is_the_distance(b: BackupView, checkpoint: ClockTime)
    requires
        b.wf(),
        checkpoint.wf(),
        b.at.nanos < 1_000_000_000,
        checkpoint.nanos < 1_000_000_000,
    ensures
        b.gap(checkpoint) == seconds_away(b.at, b.offset, checkpoint),
        b.at.nanos == 0 && checkpoint.nanos == 0 ==> {
            let second = (b.at.secs + b.offset) % 86_400;
            &&& second >= checkpoint.secs ==> b.gap(checkpoint) == second - checkpoint.secs
            &&& second <= checkpoint.secs ==> b.gap(checkpoint) == checkpoint.secs - second
        },
{
}

/// A leap second counts as a second of its own: it is a second further from what comes before it
/// than the second that it follows, and as far from what comes behind it as that second is.
pub proof fn law_gap_counts_leap_seconds(b: BackupView, checkpoint: ClockTime)
    requires
        b.wf(),
        checkpoint.wf(),
        1_000_000_000 <= b.at.nanos,
        checkpoint.nanos < 1_000_000_000,
    ensures
        ({
            let second = (b.at.secs + b.offset) % 86_400;
            let second_before = BackupView {
                at: Timestamp { secs: b.at.secs, nanos: (b.at.nanos - 1_000_000_000) as u32 },
                ..b
            };
            &&& second >= checkpoint.secs && (second > checkpoint.secs || b.at.nanos - 1_000_000_000
                >= checkpoint.nanos) ==> b.gap(checkpoint) == second_before.gap(checkpoint) + 1
            &&& second < checkpoint.secs ==> b.gap(checkpoint) == second_before.gap(checkpoint)
        }),
{
}

/// Of the backups of a day, the one that is kept for a checkpoint is never further from it than
/// another, and of two that are as far from it, it is not the earlier.
pub proof fn law_checkpoint_keeps_the_closest<'a>(
    backups: &[&'a ManagedBackup],
    checkpoint: ClockTime,
    best: &'a ManagedBackup,
    j: int,
)
    requires
        call_ensures(select_backup_for_checkpoint, (backups, checkpoint), Some(best)),
        checkpoint.wf(),
        checkpoint.nanos < 1_000_000_000,
        0 <= j < backups@.len(),
        best@.wf() && best.timestamp_utc.nanos < 1_000_000_000,
        backups@[j]@.wf() && backups@[j].timestamp_utc.nanos < 1_000_000_000,
    ensures
        ({
            let chosen = seconds_away(best.timestamp_utc, best.local_offset as int, checkpoint);
            let other = seconds_away(
                backups@[j].timestamp_utc,
                backups@[j].local_offset as int,
                checkpoint,
            );
            &&& backups@.contains(best)
            &&& chosen <= other
            &&& chosen == other ==> !is_before(best.timestamp_utc, backups@[j].timestamp_utc)
        }),
{
    let group = borrowed_views(backups@);
    let k = choose|k: int| serves_best(group, k, checkpoint) && best == #[trigger] backups@[k];
    assert(group[k] == best@);
    assert(group[j] == backups@[j]@);
    law_gap_is_the_distance(best@, checkpoint);
    law_gap_is_the_distance(backups@[j]@, checkpoint);
    if j != k {
        assert(!group[j].serves_better(group[k], checkpoint));
    }
}

/// Whether no time lies in a leap second.
pub open spec fn no_leap_seconds(backups: Seq<BackupView>) -> bool {
    forall|i: int| 0 <= i < backups.len() ==> (#[trigger] backups[i]).at.nanos < 1_000_000_000
}

/// Whether backup `i` is one of a past day: it lies behind the recent window, and local clocks showed
/// a day one to so many days before that of the newest backup.
pub open spec fn is_of_a_past_day(
    policy: TieredRetentionPolicy,
    backups: Seq<BackupView>,
    i: int,
) -> bool {
    &&& policy.keep_recent <= i < backups.len()
    &&& 1 <= day_shown(backups[0].at, backups[0].offset) - day_shown(
        backups[i].at,
        backups[i].offset,
    ) <= policy.keep_daily_for_days
}

/// Whether, of the backups of its past day, backup `i` is the one to keep for a checkpoint: none is
/// closer to it, and none that is as close is later.
pub open spec fn is_closest_of_its_day(
    policy: TieredRetentionPolicy,
    backups: Seq<BackupView>,
    i: int,
    checkpoint: ClockTime,
) -> bool {
    &&& is_of_a_past_day(policy, backups, i)
    &&& forall|j: int| #[trigger]
        is_of_a_past_day(policy, backups, j) && day_shown(backups[i].at, backups[i].offset)
            == day_shown(backups[j].at, backups[j].offset) ==> {
            let here = seconds_away(backups[i].at, backups[i].offset, checkpoint);
            let there = seconds_away(backups[j].at, backups[j].offset, checkpoint);
            here < there || (here == there && !is_before(backups[i].at, backups[j].at))
        }
}

/// A daily pick is closest to its checkpoint.
proof fn lemma_pick_is_closest(
    policy: TieredRetentionPolicy,
    backups: Seq<BackupView>,
    i: int,
    checkpoint: ClockTime,
)
    requires
        daily_pick(policy, backups, i, checkpoint),
        checkpoint.wf(),
        checkpoint.nanos < 1_000_000_000,
        forall|k: int| 0 <= k < backups.len() ==> (#[trigger] backups[k]).wf(),
        no_leap_seconds(backups),
    ensures
        is_closest_of_its_day(policy, backups, i, checkpoint),
{
    assert(in_daily_window(policy, backups, i));
    assert forall|j: int| #[trigger]
        is_of_a_past_day(policy, backups, j) && day_shown(backups[i].at, backups[i].offset)
            == day_shown(backups[j].at, backups[j].offset) implies ({
        let here = seconds_away(backups[i].at, backups[i].offset, checkpoint);
        let there = seconds_away(backups[j].at, backups[j].offset, checkpoint);
        here < there || (here == there && !is_before(backups[i].at, backups[j].at))
    }) by {
        assert(in_daily_window(policy, backups, j));
        assert(same_day(backups, i, j));
        law_gap_is_the_distance(backups[i], checkpoint);
        law_gap_is_the_distance(backups[j], checkpoint);
        if j != i {
            assert(!backups[j].serves_better(backups[i], checkpoint));
        }
    }
}

/// Retention that keeps all deletes nothing.
pub proof fn law_keeping_all_deletes_nothing(
    backups: &[ManagedBackup],
    newest_path: &FsPath,
    r: Vec<FsPath>,
)
    requires
        call_ensures(
            select_backups_to_delete,
            (&RetentionPolicy::KeepAll, backups, newest_path),
            r,
        ),
    ensures
        r@.len() == 0,
{
    assert(paths(r@).len() == r@.len());
}

/// Keeping the last so many backups deletes exactly those behind them in the list, but never the
/// newest path.
pub proof fn law_keep_last_splits_the_list(
    limit: usize,
    backups: &[ManagedBackup],
    newest_path: &FsPath,
    r: Vec<FsPath>,
    i: int,
)
    requires
        call_ensures(
            select_backups_to_delete,
            (&RetentionPolicy::KeepLast(limit), backups, newest_path),
            r,
        ),
        paths_differ(views(backups@)),
        0 <= i < backups@.len(),
    ensures
        paths(r@).contains(backups@[i].path@) <==> i >= limit && backups@[i].path@
            != newest_path@,
{
    let bs = views(backups@);
    let retention = RetentionPolicy::KeepLast(limit);
    assert(bs[i] == backups@[i]@);
    law_kept_or_deleted(retention, bs, newest_path@, i);
    if i < limit {
        law_recent_backups_are_kept(retention, bs, newest_path@, i);
    } else if kept(retention, bs, newest_path@, bs[i].path) && bs[i].path != newest_path@ {
        let j = choose|j: int|
            0 <= j < bs.len() && #[trigger] bs[j].path == bs[i].path && kept_by_policy(
                retention,
                bs,
                j,
            );
        assert(j < i && bs[j].path != bs[i].path);
    }
}

/// Tiered retention never deletes the recent backups, nor the newest path, nor, of the backups of
/// each past day, the one closest to a checkpoint.
pub proof fn law_tiered_keeps_the_closest_of_each_day(
    policy: TieredRetentionPolicy,
    backups: &[ManagedBackup],
    newest_path: &FsPath,
    r: Vec<FsPath>,
    i: int,
    c: int,
)
    requires
        call_ensures(
            select_backups_to_delete,
            (&RetentionPolicy::Tiered(policy), backups, newest_path),
            r,
        ),
        forall|k: int| 0 <= k < views(backups@).len() ==> (#[trigger] views(backups@)[k]).wf(),
        no_leap_seconds(views(backups@)),
        0 <= c < policy.daily_checkpoints@.len(),
        policy.daily_checkpoints@[c].wf(),
        policy.daily_checkpoints@[c].nanos < 1_000_000_000,
        0 <= i < backups@.len(),
    ensures
        !paths(r@).contains(newest_path@),
        i < policy.keep_recent ==> !paths(r@).contains(backups@[i].path@),
        is_of_a_past_day(policy, views(backups@), i) ==> exists|k: int|
            {
                let bs = views(backups@);
                &&& #[trigger] is_closest_of_its_day(
                    policy,
                    views(backups@),
                    k,
                    policy.daily_checkpoints@[c],
                )
                &&& day_shown(bs[k].at, bs[k].offset) == day_shown(bs[i].at, bs[i].offset)
                &&& !paths(r@).contains(bs[k].path)
            },
{
    let bs = views(backups@);
    let retention = RetentionPolicy::Tiered(policy);
    let checkpoint = policy.daily_checkpoints@[c];
    assert(bs[i] == backups@[i]@);
    law_newest_is_never_deleted(retention, bs, newest_path@);
    if i < policy.keep_recent {
        law_recent_backups_are_kept(retention, bs, newest_path@, i);
    }
    if is_of_a_past_day(policy, bs, i) {
        assert(in_daily_window(policy, bs, i));
        law_every_past_day_keeps_a_backup(policy, bs, newest_path@, i, c);
        let k = choose|k: int|
            {
                &&& 0 <= k < bs.len()
                &&& same_day(bs, i, k)
                &&& #[trigger] daily_pick(policy, bs, k, policy.daily_checkpoints@[c])
                &&& !deleted(RetentionPolicy::Tiered(policy), bs, newest_path@).contains(bs[k].path)
            };
        lemma_pick_is_closest(policy, bs, k, checkpoint);
        assert(is_closest_of_its_day(policy, bs, k, policy.daily_checkpoints@[c]));
    }
}

/// Behind the recent backups, tiered retention keeps nothing but the newest path and, of the backups
/// of each past day, those closest to some checkpoint.
pub proof fn law_tiered_keeps_nothing_else(
    policy: TieredRetentionPolicy,
    backups: &[ManagedBackup],
    newest_path: &FsPath,
    r: Vec<FsPath>,
    i: int,
)
    requires
        call_ensures(
            select_backups_to_delete,
            (&RetentionPolicy::Tiered(policy), backups, newest_path),
            r,
        ),
        forall|k: int| 0 <= k < views(backups@).len() ==> (#[trigger] views(backups@)[k]).wf(),
        no_leap_seconds(views(backups@)),
        forall|c: int|
            0 <= c < policy.daily_checkpoints@.len() ==> (#[trigger] policy.daily_checkpoints@[c]).wf()
                && policy.daily_checkpoints@[c].nanos < 1_000_000_000,
        paths_differ(views(backups@)),
        policy.keep_recent <= i < backups@.len(),
        backups@[i].path@ != newest_path@,
        !paths(r@).contains(backups@[i].path@),
    ensures
        exists|c: int|
            0 <= c < policy.daily_checkpoints@.len() && #[trigger] is_closest_of_its_day(
                policy,
                views(backups@),
                i,
                policy.daily_checkpoints@[c],
            ),
{
    let bs = views(backups@);
    let retention = RetentionPolicy::Tiered(policy);
    assert(bs[i] == backups@[i]@);
    law_kept_or_deleted(retention, bs, newest_path@, i);
    let j = choose|j: int|
        0 <= j < bs.len() && #[trigger] bs[j].path == bs[i].path && kept_by_policy(
            retention,
            bs,
            j,
        );
    if j < i {
        assert(bs[j].path != bs[i].path);
    } else if i < j {
        assert(bs[i].path != bs[j].path);
    }
    assert(kept_daily(policy, bs, i));
    let c = choose|c: int|
        0 <= c < policy.daily_checkpoints@.len() && #[trigger] daily_pick(
            policy,
            bs,
            i,
            policy.daily_checkpoints@[c],
        );
    assert(policy.daily_checkpoints@[c].wf());
    lemma_pick_is_closest(policy, bs, i, policy.daily_checkpoints@[c]);
    assert(is_closest_of_its_day(policy, bs, i, policy.daily_checkpoints@[c]));
}

/// Whether an entry of the target directory is a backup called `name`.
pub open spec fn is_backup(
    entries: Seq<Seq<PartView>>,
    name: Seq<char>,
    path: Seq<PartView>,
) -> bool {
    entries.contains(path) && entry_stamp(path, name) is Some
}

/// The time of such an entry.
pub open spec fn time_of(name: Seq<char>, path: Seq<PartView>) -> Timestamp {
    entry_stamp(path, name)->0
}

/// Every entry with a time in its name is managed.
proof fn lemma_entries_are_managed(entries: Seq<Seq<PartView>>, name: Seq<char>, path: Seq<PartView>)
    requires
        is_backup(entries, name, path),
    ensures
        managed(entries, name).contains(Dated { path, at: time_of(name, path) }),
    decreases entries.len(),
{
    let d = Dated { path, at: time_of(name, path) };
    let before = managed(entries.drop_last(), name);
    let all = managed(entries, name);
    let k = choose|k: int| 0 <= k < entries.len() && entries[k] == path;
    if k < entries.len() - 1 {
        assert(entries.drop_last()[k] == path);
        lemma_entries_are_managed(entries.drop_last(), name, path);
        let l = choose|l: int| 0 <= l < before.len() && before[l] == d;
        assert(all[l] == d);
    } else {
        assert(all[before.len() as int] == d);
    }
}

/// Of entries that differ each is managed once.
proof fn lemma_managed_once(entries: Seq<Seq<PartView>>, name: Seq<char>)
    requires
        entries.no_duplicates(),
    ensures
        managed(entries, name).no_duplicates(),
    decreases entries.len(),
{
    if entries.len() > 0 {
        let rest = entries.drop_last();
        lemma_managed_once(rest, name);
        let before = managed(rest, name);
        if let Some(at) = entry_stamp(entries.last(), name) {
            let d = Dated { path: entries.last(), at };
            if before.contains(d) {
                lemma_managed_are_entries(rest, name, d);
                let k = choose|k: int| 0 <= k < rest.len() && rest[k] == d.path;
                assert(entries[k] == entries[entries.len() - 1]);
            }
        }
    }
}

/// The backups that retention looked at: the entries with a time in their name, newest first.
proof fn lemma_considered(
    retention: RetentionPolicy,
    entries: Seq<Seq<PartView>>,
    name: Seq<char>,
    newest: Seq<PartView>,
    doomed: Seq<Seq<PartView>>,
) -> (bs: Seq<BackupView>)
    requires
        retention_deletes(retention, entries, name, newest, doomed),
        retention !is KeepAll,
        entries.no_duplicates(),
    ensures
        newest_first(bs),
        all_reported(bs),
        doomed == deleted(retention, bs, newest),
        paths_differ(bs),
        bs.len() == managed(entries, name).len(),
        forall|i: int|
            0 <= i < bs.len() ==> (#[trigger] bs[i]).wf() && is_backup(entries, name, bs[i].path)
                && time_of(name, bs[i].path) == bs[i].at,
        forall|path: Seq<PartView>| #[trigger]
            is_backup(entries, name, path) ==> exists|i: int|
                0 <= i < bs.len() && #[trigger] bs[i].path == path,
{
    let bs = choose|backups: Seq<BackupView>|
        {
            &&& newest_first(backups)
            &&& all_wf(backups)
            &&& all_reported(backups)
            &&& dated(backups).to_multiset() == managed(entries, name).to_multiset()
            &&& doomed == #[trigger] deleted(retention, backups, newest)
        };
    let found = managed(entries, name);
    lemma_managed_once(entries, name);
    found.lemma_multiset_has_no_duplicates();
    dated(bs).lemma_multiset_has_no_duplicates_conv();
    vstd::seq_lib::to_multiset_len(found);
    vstd::seq_lib::to_multiset_len(dated(bs));
    assert forall|i: int| 0 <= i < bs.len() implies (#[trigger] bs[i]).wf() && is_backup(
        entries,
        name,
        bs[i].path,
    ) && time_of(name, bs[i].path) == bs[i].at by {
        let d = dated(bs)[i];
        vstd::seq_lib::to_multiset_contains(dated(bs), d);
        vstd::seq_lib::to_multiset_contains(found, d);
        lemma_managed_are_entries(entries, name, d);
    }
    assert forall|path: Seq<PartView>| #[trigger] is_backup(entries, name, path) implies exists|
        i: int,
    | 0 <= i < bs.len() && #[trigger] bs[i].path == path by {
        let d = Dated { path, at: time_of(name, path) };
        lemma_entries_are_managed(entries, name, path);
        vstd::seq_lib::to_multiset_contains(found, d);
        vstd::seq_lib::to_multiset_contains(dated(bs), d);
        let i = choose|i: int| 0 <= i < dated(bs).len() && dated(bs)[i] == d;
        assert(bs[i].path == path);
    }
    assert forall|i: int, j: int| 0 <= i < j < bs.len() implies (#[trigger] bs[i]).path != (
    #[trigger] bs[j]).path by {
        if bs[i].path == bs[j].path {
            assert(dated(bs)[i] == dated(bs)[j]);
        }
    }
    bs
}

/// Newest first means by time.
proof fn lemma_newest_first_by_time(bs: Seq<BackupView>, i: int, j: int)
    requires
        newest_first(bs),
        0 <= i <= j < bs.len(),
    ensures
        !is_before(bs[i].at, bs[j].at),
{
    if i < j {
        assert(!bs[j].newer(bs[i]));
    }
}

/// Whether `recent` are so many of the latest backups among the entries: all there are, if there are
/// fewer, and otherwise no other is later than one of them.
pub open spec fn are_latest(
    recent: Seq<Seq<PartView>>,
    limit: nat,
    entries: Seq<Seq<PartView>>,
    name: Seq<char>,
) -> bool {
    &&& recent.no_duplicates()
    &&& recent.len() <= limit
    &&& forall|i: int| 0 <= i < recent.len() ==> is_backup(entries, name, #[trigger] recent[i])
    &&& recent.len() < limit ==> forall|path: Seq<PartView>| #[trigger]
        is_backup(entries, name, path) ==> recent.contains(path)
    &&& forall|path: Seq<PartView>, i: int|
        #![trigger is_backup(entries, name, path), recent[i]]
        0 <= i < recent.len() && is_backup(entries, name, path) && !recent.contains(path)
            ==> !is_before(time_of(name, recent[i]), time_of(name, path))
}

/// The first backups looked at are the latest.
proof fn lemma_first_are_latest(
    bs: Seq<BackupView>,
    limit: nat,
    entries: Seq<Seq<PartView>>,
    name: Seq<char>,
) -> (recent: Seq<Seq<PartView>>)
    requires
        newest_first(bs),
        paths_differ(bs),
        forall|i: int|
            0 <= i < bs.len() ==> (#[trigger] bs[i]).wf() && is_backup(entries, name, bs[i].path)
                && time_of(name, bs[i].path) == bs[i].at,
        forall|path: Seq<PartView>| #[trigger]
            is_backup(entries, name, path) ==> exists|i: int|
                0 <= i < bs.len() && #[trigger] bs[i].path == path,
    ensures
        are_latest(recent, limit, entries, name),
        recent.len() == (if limit < bs.len() {
            limit
        } else {
            bs.len()
        }),
        forall|i: int| 0 <= i < recent.len() ==> #[trigger] recent[i] == bs[i].path,
        forall|i: int| 0 <= i < bs.len() ==> (recent.contains(#[trigger] bs[i].path) <==> i < limit),
{
    let n: nat = if limit < bs.len() {
        limit
    } else {
        bs.len()
    };
    let recent = Seq::new(n, |i: int| bs[i].path);
    assert forall|i: int, j: int| 0 <= i < n && 0 <= j < n && i != j implies recent[i] != recent[j] by {
        if i < j {
            assert(bs[i].path != bs[j].path);
        } else {
            assert(bs[j].path != bs[i].path);
        }
    }
    assert forall|i: int| 0 <= i < bs.len() implies (recent.contains(#[trigger] bs[i].path) <==> i
        < limit) by {
        if i < limit {
            assert(recent[i] == bs[i].path);
        } else if recent.contains(bs[i].path) {
            let j = choose|j: int| 0 <= j < n && recent[j] == bs[i].path;
            assert(bs[j].path != bs[i].path);
        }
    }
    assert forall|i: int| 0 <= i < recent.len() implies is_backup(
        entries,
        name,
        #[trigger] recent[i],
    ) by {
        assert(is_backup(entries, name, bs[i].path));
    }
    assert forall|path: Seq<PartView>| #[trigger]
        is_backup(entries, name, path) && n < limit implies recent.contains(path) by {
        let i = choose|i: int| 0 <= i < bs.len() && #[trigger] bs[i].path == path;
        assert(recent.contains(bs[i].path));
    }
    assert forall|path: Seq<PartView>, i: int|
        #![trigger is_backup(entries, name, path), recent[i]]
        0 <= i < recent.len() && is_backup(entries, name, path) && !recent.contains(
            path,
        ) implies !is_before(time_of(name, recent[i]), time_of(name, path)) by {
        let j = choose|j: int| 0 <= j < bs.len() && #[trigger] bs[j].path == path;
        assert(!(j < limit));
        lemma_newest_first_by_time(bs, i, j);
        assert(time_of(name, bs[i].path) == bs[i].at);
    }
    recent
}

/// Keeping the last so many backups deletes, of the entries with a time in their name, all but that
/// many of the latest and the backup just made, and nothing else.
pub proof fn law_keep_last_keeps_the_latest(
    entries: &[FsPath],
    name: &str,
    limit: usize,
    newest_path: &FsPath,
    r: Vec<FsPath>,
)
    requires
        call_ensures(
            enforce_retention,
            (entries, name, &RetentionPolicy::KeepLast(limit), newest_path),
            r,
        ),
        paths(entries@).no_duplicates(),
    ensures
        exists|recent: Seq<Seq<PartView>>|
            {
                &&& #[trigger] are_latest(recent, limit as nat, paths(entries@), name@)
                &&& forall|path: Seq<PartView>| #[trigger]
                    paths(r@).contains(path) <==> is_backup(paths(entries@), name@, path)
                        && !recent.contains(path) && path != newest_path@
            },
{
    let all = paths(entries@);
    let retention = RetentionPolicy::KeepLast(limit);
    let bs = lemma_considered(retention, all, name@, newest_path@, paths(r@));
    let recent = lemma_first_are_latest(bs, limit as nat, all, name@);
    assert forall|path: Seq<PartView>| #[trigger] paths(r@).contains(path) <==> is_backup(
        all,
        name@,
        path,
    ) && !recent.contains(path) && path != newest_path@ by {
        law_deleted_are_backups_not_kept(retention, bs, newest_path@, path);
        if paths(r@).contains(path) {
            let i = choose|i: int| 0 <= i < bs.len() && #[trigger] bs[i].path == path;
            if i < limit {
                assert(kept_by_policy(retention, bs, i));
            }
        }
        if is_backup(all, name@, path) && !recent.contains(path) && path != newest_path@ {
            let i = choose|i: int| 0 <= i < bs.len() && #[trigger] bs[i].path == path;
            law_keep_last_deletes_the_others(limit, bs, newest_path@, i);
        }
    }
    assert(are_latest(recent, limit as nat, all, name@));
}

/// What local clocks are ahead of UTC at each second.
pub type Zone = spec_fn(i64) -> int;

/// Whether the machine reports nothing else.
pub open spec fn is_zone(zone: Zone) -> bool {
    forall|secs: i64, ahead: i32| #[trigger] reports(secs, ahead) ==> ahead == zone(secs)
}

/// The day that local clocks showed at the time of a backup.
pub open spec fn local_day_of(zone: Zone, name: Seq<char>, path: Seq<PartView>) -> int {
    day_shown(time_of(name, path), zone(time_of(name, path).secs))
}

/// How far the local time of a backup is from a checkpoint.
pub open spec fn distance(
    zone: Zone,
    name: Seq<char>,
    path: Seq<PartView>,
    checkpoint: ClockTime,
) -> int {
    seconds_away(time_of(name, path), zone(time_of(name, path).secs), checkpoint)
}

/// What tiered retention goes by: the entries, what the backups are called, the recent ones and the
/// latest one.
pub struct Tiers {
    pub zone: Zone,
    pub entries: Seq<Seq<PartView>>,
    pub name: Seq<char>,
    pub recent: Seq<Seq<PartView>>,
    pub latest: Seq<PartView>,
    pub days: nat,
}

impl Tiers {
    /// Whether an entry is a backup, but no recent one, of a day one to so many days before that of
    /// the latest.
    pub open spec fn of_a_past_day(self, path: Seq<PartView>) -> bool {
        &&& is_backup(self.entries, self.name, path)
        &&& !self.recent.contains(path)
        &&& 1 <= local_day_of(self.zone, self.name, self.latest) - local_day_of(
            self.zone,
            self.name,
            path,
        ) <= self.days
    }

    /// Whether, of those of its day, it is closest to a checkpoint, and none that is as close is
    /// later.
    pub open spec fn closest(self, path: Seq<PartView>, checkpoint: ClockTime) -> bool {
        &&& self.of_a_past_day(path)
        &&& forall|other: Seq<PartView>| #[trigger]
            self.of_a_past_day(other) && local_day_of(self.zone, self.name, path) == local_day_of(
                self.zone,
                self.name,
                other,
            ) ==> {
                let here = distance(self.zone, self.name, path, checkpoint);
                let there = distance(self.zone, self.name, other, checkpoint);
                here < there || (here == there && !is_before(
                    time_of(self.name, path),
                    time_of(self.name, other),
                ))
            }
    }
}

impl Tiers {
    /// Whether `doomed` are the backups that are neither recent, nor the one just made, nor the
    /// closest of its past day to a checkpoint; and each past day keeps the closest to each.
    pub open spec fn decide(
        self,
        checkpoints: Seq<ClockTime>,
        newest: Seq<PartView>,
        doomed: Seq<Seq<PartView>>,
    ) -> bool {
        &&& forall|path: Seq<PartView>| #[trigger]
            doomed.contains(path) ==> is_backup(self.entries, self.name, path)
                && !self.recent.contains(path) && path != newest
        &&& forall|path: Seq<PartView>| #[trigger]
            is_backup(self.entries, self.name, path) && !self.recent.contains(path) && path
                != newest && !doomed.contains(path) ==> exists|c: int|
                0 <= c < checkpoints.len() && self.closest(path, #[trigger] checkpoints[c])
        &&& forall|path: Seq<PartView>, c: int|
            #![trigger self.of_a_past_day(path), checkpoints[c]]
            self.of_a_past_day(path) && 0 <= c < checkpoints.len() ==> self.keeps_of_day(
                path,
                checkpoints[c],
                doomed,
            )
    }

    /// Whether, of the day of an entry, the closest to a checkpoint stays.
    pub open spec fn keeps_of_day(
        self,
        path: Seq<PartView>,
        checkpoint: ClockTime,
        doomed: Seq<Seq<PartView>>,
    ) -> bool {
        exists|other: Seq<PartView>| #[trigger]
            self.closest(other, checkpoint) && local_day_of(self.zone, self.name, other)
                == local_day_of(self.zone, self.name, path) && !doomed.contains(other)
    }
}

/// Whether an entry is the latest backup.
pub open spec fn is_latest(
    latest: Seq<PartView>,
    entries: Seq<Seq<PartView>>,
    name: Seq<char>,
) -> bool {
    &&& is_backup(entries, name, latest)
    &&& forall|path: Seq<PartView>| #[trigger]
        is_backup(entries, name, path) ==> !is_before(time_of(name, latest), time_of(name, path))
}

impl Tiers {
    /// Whether backup `i` of those looked at is the one of its entry.
    pub open spec fn holds(self, bs: Seq<BackupView>, keep_recent: int, i: int) -> bool {
        &&& bs[i].wf()
        &&& bs[i].at.nanos < 1_000_000_000
        &&& bs[i].offset == (self.zone)(bs[i].at.secs)
        &&& is_backup(self.entries, self.name, bs[i].path)
        &&& time_of(self.name, bs[i].path) == bs[i].at
        &&& self.recent.contains(bs[i].path) <==> i < keep_recent
    }

    /// Whether the backups looked at are those of the entries.
    pub open spec fn mirror(self, policy: TieredRetentionPolicy, bs: Seq<BackupView>) -> bool {
        &&& bs.len() > 0
        &&& bs[0].at == time_of(self.name, self.latest)
        &&& self.days == policy.keep_daily_for_days
        &&& paths_differ(bs)
        &&& forall|i: int|
            0 <= i < bs.len() ==> #[trigger] self.holds(bs, policy.keep_recent as int, i)
        &&& forall|path: Seq<PartView>| #[trigger]
            is_backup(self.entries, self.name, path) ==> exists|i: int|
                0 <= i < bs.len() && #[trigger] bs[i].path == path
        &&& forall|c: int|
            0 <= c < policy.daily_checkpoints@.len() ==> (#[trigger] policy.daily_checkpoints@[c]).wf()
                && policy.daily_checkpoints@[c].nanos < 1_000_000_000
    }
}

/// A backup looked at is one of a past day exactly if its entry is.
proof fn lemma_past_days_mirror(
    policy: TieredRetentionPolicy,
    bs: Seq<BackupView>,
    tiers: Tiers,
    i: int,
)
    requires
        tiers.mirror(policy, bs),
        0 <= i < bs.len(),
    ensures
        tiers.of_a_past_day(bs[i].path) == is_of_a_past_day(policy, bs, i),
{
    assert(tiers.holds(bs, policy.keep_recent as int, 0));
    assert(tiers.holds(bs, policy.keep_recent as int, i));
}

/// A daily pick is the closest entry of its day.
proof fn lemma_picks_mirror(
    policy: TieredRetentionPolicy,
    bs: Seq<BackupView>,
    tiers: Tiers,
    i: int,
    c: int,
)
    requires
        tiers.mirror(policy, bs),
        0 <= c < policy.daily_checkpoints@.len(),
        daily_pick(policy, bs, i, policy.daily_checkpoints@[c]),
    ensures
        tiers.closest(bs[i].path, policy.daily_checkpoints@[c]),
{
    let checkpoint = policy.daily_checkpoints@[c];
    assert(checkpoint.wf());
    assert(in_daily_window(policy, bs, i));
    assert forall|k: int| 0 <= k < bs.len() implies (#[trigger] bs[k]).wf() && bs[k].at.nanos
        < 1_000_000_000 by {
        assert(tiers.holds(bs, policy.keep_recent as int, k));
    }
    lemma_pick_is_closest(policy, bs, i, checkpoint);
    lemma_past_days_mirror(policy, bs, tiers, i);
    assert(tiers.holds(bs, policy.keep_recent as int, i));
    let zone = tiers.zone;
    let name = tiers.name;
    assert forall|other: Seq<PartView>| #[trigger]
        tiers.of_a_past_day(other) && local_day_of(zone, name, bs[i].path) == local_day_of(
            zone,
            name,
            other,
        ) implies ({
        let here = distance(zone, name, bs[i].path, checkpoint);
        let there = distance(zone, name, other, checkpoint);
        here < there || (here == there && !is_before(
            time_of(name, bs[i].path),
            time_of(name, other),
        ))
    }) by {
        let j = choose|j: int| 0 <= j < bs.len() && #[trigger] bs[j].path == other;
        assert(tiers.holds(bs, policy.keep_recent as int, j));
        lemma_past_days_mirror(policy, bs, tiers, j);
        assert(is_of_a_past_day(policy, bs, j));
    }
}

/// What is deleted is neither recent nor the newest.
proof fn lemma_recent_and_newest_stay(
    policy: TieredRetentionPolicy,
    bs: Seq<BackupView>,
    tiers: Tiers,
    newest: Seq<PartView>,
)
    requires
        tiers.mirror(policy, bs),
    ensures
        forall|path: Seq<PartView>| #[trigger]
            deleted(RetentionPolicy::Tiered(policy), bs, newest).contains(path) ==> is_backup(
                tiers.entries,
                tiers.name,
                path,
            ) && !tiers.recent.contains(path) && path != newest,
{
    let retention = RetentionPolicy::Tiered(policy);
    assert forall|path: Seq<PartView>| #[trigger]
        deleted(retention, bs, newest).contains(path) implies is_backup(
        tiers.entries,
        tiers.name,
        path,
    ) && !tiers.recent.contains(path) && path != newest by {
        law_deleted_are_backups_not_kept(retention, bs, newest, path);
        let i = choose|i: int| 0 <= i < bs.len() && #[trigger] bs[i].path == path;
        assert(tiers.holds(bs, policy.keep_recent as int, i));
        if i < policy.keep_recent {
            assert(kept_by_policy(retention, bs, i));
        }
    }
}

/// What else stays is closest to some checkpoint.
proof fn lemma_kept_are_closest(
    policy: TieredRetentionPolicy,
    bs: Seq<BackupView>,
    tiers: Tiers,
    newest: Seq<PartView>,
)
    requires
        tiers.mirror(policy, bs),
    ensures
        forall|path: Seq<PartView>| #[trigger]
            is_backup(tiers.entries, tiers.name, path) && !tiers.recent.contains(path) && path
                != newest && !deleted(RetentionPolicy::Tiered(policy), bs, newest).contains(path)
                ==> exists|c: int|
                0 <= c < policy.daily_checkpoints@.len() && tiers.closest(
                    path,
                    #[trigger] policy.daily_checkpoints@[c],
                ),
{
    assert forall|path: Seq<PartView>| #[trigger]
        is_backup(tiers.entries, tiers.name, path) && !tiers.recent.contains(path) && path
            != newest && !deleted(RetentionPolicy::Tiered(policy), bs, newest).contains(
            path,
        ) implies exists|c: int|
        0 <= c < policy.daily_checkpoints@.len() && tiers.closest(
            path,
            #[trigger] policy.daily_checkpoints@[c],
        ) by {
        let i = choose|i: int| 0 <= i < bs.len() && #[trigger] bs[i].path == path;
        assert(tiers.holds(bs, policy.keep_recent as int, i));
        if !kept_daily(policy, bs, i) {
            law_tiered_deletes_the_others(policy, bs, newest, i);
        }
        let c = choose|c: int|
            0 <= c < policy.daily_checkpoints@.len() && #[trigger] daily_pick(
                policy,
                bs,
                i,
                policy.daily_checkpoints@[c],
            );
        lemma_picks_mirror(policy, bs, tiers, i, c);
    }
}

/// A past day keeps the closest to a checkpoint.
proof fn lemma_past_day_keeps_closest(
    policy: TieredRetentionPolicy,
    bs: Seq<BackupView>,
    tiers: Tiers,
    newest: Seq<PartView>,
    path: Seq<PartView>,
    c: int,
)
    requires
        tiers.mirror(policy, bs),
        tiers.of_a_past_day(path),
        0 <= c < policy.daily_checkpoints@.len(),
    ensures
        tiers.keeps_of_day(
            path,
            policy.daily_checkpoints@[c],
            deleted(RetentionPolicy::Tiered(policy), bs, newest),
        ),
{
    let i = choose|i: int| 0 <= i < bs.len() && #[trigger] bs[i].path == path;
    assert(tiers.holds(bs, policy.keep_recent as int, i));
    lemma_past_days_mirror(policy, bs, tiers, i);
    assert(in_daily_window(policy, bs, i));
    law_every_past_day_keeps_a_backup(policy, bs, newest, i, c);
    let k = choose|k: int|
        {
            &&& 0 <= k < bs.len()
            &&& same_day(bs, i, k)
            &&& #[trigger] daily_pick(policy, bs, k, policy.daily_checkpoints@[c])
            &&& !deleted(RetentionPolicy::Tiered(policy), bs, newest).contains(bs[k].path)
        };
    assert(tiers.holds(bs, policy.keep_recent as int, k));
    lemma_picks_mirror(policy, bs, tiers, k, c);
    assert(tiers.closest(bs[k].path, policy.daily_checkpoints@[c]));
}

/// Of the entries with a time in their name, tiered retention keeps the backup just made, so many of
/// the latest, and behind those, for each past day asked for and each checkpoint, the one that is
/// closest to the checkpoint by local clocks. It deletes all others, and nothing else.
pub proof fn law_tiered_keeps_the_recent_and_the_closest(
    entries: &[FsPath],
    name: &str,
    policy: TieredRetentionPolicy,
    newest_path: &FsPath,
    r: Vec<FsPath>,
    zone: Zone,
    latest: Seq<PartView>,
)
    requires
        call_ensures(
            enforce_retention,
            (entries, name, &RetentionPolicy::Tiered(policy), newest_path),
            r,
        ),
        paths(entries@).no_duplicates(),
        is_zone(zone),
        is_latest(latest, paths(entries@), name@),
        forall|path: Seq<PartView>| #[trigger]
            is_backup(paths(entries@), name@, path) ==> time_of(name@, path).nanos < 1_000_000_000,
        forall|c: int|
            0 <= c < policy.daily_checkpoints@.len() ==> (#[trigger] policy.daily_checkpoints@[c]).wf()
                && policy.daily_checkpoints@[c].nanos < 1_000_000_000,
    ensures
        exists|recent: Seq<Seq<PartView>>|
            #![trigger are_latest(recent, policy.keep_recent as nat, paths(entries@), name@)]
            {
                let tiers = Tiers {
                    zone,
                    entries: paths(entries@),
                    name: name@,
                    recent,
                    latest,
                    days: policy.keep_daily_for_days as nat,
                };
                &&& are_latest(recent, policy.keep_recent as nat, paths(entries@), name@)
                &&& tiers.decide(policy.daily_checkpoints@, newest_path@, paths(r@))
            },
{
    let all = paths(entries@);
    let retention = RetentionPolicy::Tiered(policy);
    let newest = newest_path@;
    let bs = lemma_considered(retention, all, name@, newest, paths(r@));
    let recent = lemma_first_are_latest(bs, policy.keep_recent as nat, all, name@);
    let tiers = Tiers {
        zone,
        entries: all,
        name: name@,
        recent,
        latest,
        days: policy.keep_daily_for_days as nat,
    };
    let top = choose|i: int| 0 <= i < bs.len() && #[trigger] bs[i].path == latest;
    lemma_newest_first_by_time(bs, 0, top);
    assert(is_backup(all, name@, bs[0].path));
    assert(time_of(name@, bs[0].path) == bs[0].at && time_of(name@, bs[top].path) == bs[top].at);
    assert(bs[0].at == time_of(name@, latest));
    assert forall|i: int| 0 <= i < bs.len() implies #[trigger] tiers.holds(
        bs,
        policy.keep_recent as int,
        i,
    ) by {
        assert(bs[i].wf());
        assert(reports(bs[i].at.secs, bs[i].offset as i32));
        assert(is_backup(all, name@, bs[i].path));
        assert(recent.contains(bs[i].path) <==> i < policy.keep_recent);
    }
    lemma_recent_and_newest_stay(policy, bs, tiers, newest);
    lemma_kept_are_closest(policy, bs, tiers, newest);
    assert forall|path: Seq<PartView>, c: int|
        #![trigger tiers.of_a_past_day(path), policy.daily_checkpoints@[c]]
        tiers.of_a_past_day(path) && 0 <= c < policy.daily_checkpoints@.len() implies tiers.keeps_of_day(
        path,
        policy.daily_checkpoints@[c],
        paths(r@),
    ) by {
        lemma_past_day_keeps_closest(policy, bs, tiers, newest, path, c);
    }
    assert(are_latest(recent, policy.keep_recent as nat, all, name@));
}

/// An entry is a backup of a name exactly if it is called by that name, a dash and a timestamp, with
/// nothing or a dot and more behind it, and it is of the time that the digits mean.
pub proof fn law_entries_are_told_by_their_names(
    directory: Seq<PartView>,
    name: Seq<char>,
    stamp: Seq<char>,
    rest: Seq<char>,
)
    requires
        is_stamp(stamp),
        rest.len() > 0 ==> rest[0] == '.',
    ensures
        ({
            let entry = directory + seq![PartView::Normal(name + seq!['-'] + stamp + rest)];
            match (entry_stamp(entry, name), stamp_reading(stamp)) {
                (Some(at), Some((secs, nanos))) => at.secs == secs && at.nanos == nanos,
                (None, None) => true,
                _ => false,
            }
        }),
{
    reveal_strlit("-");
    assert(name_prefix(name) =~= name + seq!['-']);
    let entry = directory + seq![PartView::Normal(name + seq!['-'] + stamp + rest)];
    assert(entry.last() == PartView::Normal(name_prefix(name) + stamp + rest));
    lemma_stamp_is_found(name_prefix(name), stamp, rest);
    if stamp_reading(stamp) is Some {
        lemma_stamp_is_in_range(stamp);
    }
}

/// What is no name in Unicode, or does not begin with the backups' name and a dash, is no backup.
pub proof fn law_other_entries_are_no_backups(entry: Seq<PartView>, name: Seq<char>)
    requires
        entry_stamp(entry, name) is Some,
    ensures
        entry.len() > 0,
        entry.last() is Normal,
        (name + seq!['-']).is_prefix_of(entry.last()->Normal_0),
{
    reveal_strlit("-");
    assert(name_prefix(name) =~= name + seq!['-']);
}

/// Of two backups of the same time in the same directory, the one whose name comes later comes first.
pub proof fn law_same_times_are_ordered_by_name(
    entries: &[FsPath],
    name: &str,
    r: Vec<ManagedBackup>,
    i: int,
    j: int,
    directory: Seq<PartView>,
    x: Seq<char>,
    y: Seq<char>,
)
    requires
        call_ensures(collect_managed_backups, (entries, name), r),
        0 <= i < j < r@.len(),
        r@[i].path@ == directory + seq![PartView::Normal(x)],
        r@[j].path@ == directory + seq![PartView::Normal(y)],
    ensures
        !is_before(r@[i].timestamp_utc, r@[j].timestamp_utc),
        r@[i].timestamp_utc == r@[j].timestamp_utc ==> !lex_less(
            |a: u8, b: u8| a < b,
            encode_utf8(x),
            encode_utf8(y),
        ),
{
    let bs = views(r@);
    assert(bs[i] == r@[i]@ && bs[j] == r@[j]@);
    lemma_newest_first_by_time(bs, i, j);
    assert(!bs[j].newer(bs[i]));
    if bs[i].at == bs[j].at {
        let a = path_keys(bs[i].path);
        let b = path_keys(bs[j].path);
        assert(a =~= path_keys(directory) + seq![PartView::Normal(x).key()]);
        assert(b =~= path_keys(directory) + seq![PartView::Normal(y).key()]);
        assert(byte_less() =~= |a: u8, b: u8| a < b);
        if lex_less(byte_less(), encode_utf8(x), encode_utf8(y)) {
            lemma_lex_irreflexive(byte_less(), encode_utf8(x));
            assert(part_less()(PartView::Normal(x).key(), PartView::Normal(y).key()));
            lemma_less_behind_same(
                path_keys(directory),
                PartView::Normal(x).key(),
                PartView::Normal(y).key(),
            );
            assert(path_less(bs[i].path, bs[j].path));
            assert(bs[j].newer(bs[i]));
        }
    }
}

/// Behind the same components, the last ones decide.
proof fn lemma_less_behind_same(front: Seq<PartKey>, x: PartKey, y: PartKey)
    requires
        x != y,
    ensures
        lex_less(part_less(), front + seq![x], front + seq![y]) == part_less()(x, y),
    decreases front.len(),
{
    let a = front + seq![x];
    let b = front + seq![y];
    if front.len() == 0 {
        assert(a[0] == x && b[0] == y);
    } else {
        assert(a.drop_first() =~= front.drop_first() + seq![x]);
        assert(b.drop_first() =~= front.drop_first() + seq![y]);
        lemma_less_behind_same(front.drop_first(), x, y);
    }
}

} // verus!
