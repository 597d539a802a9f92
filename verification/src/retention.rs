//! Which older backups stay and which go.
use crate::artifact::{cut_is_clean, has_clean_cut, name_prefix, parse_backup_timestamp, stamp_in};
use crate::order::lex_less;
use crate::path::{
    file_name_text, lemma_path_order, part_less, path_keys, path_less, FsPath, PartKey, PartView,
    PathSet,
};
use crate::time::{
    day_of, local_day, local_offset, local_second_of_day, reports, second_of_day, seconds_between,
    whole_seconds_between, ClockTime, Timestamp, DAY,
};
use vstd::prelude::*;

verus! {

/// How many older backups are kept.
#[derive(Debug, Clone)]
pub enum RetentionPolicy {
    /// All of them.
    KeepAll,
    /// The newest, up to a number.
    KeepLast(usize),
    /// The newest, up to a number, and some of each of the days before.
    Tiered(TieredRetentionPolicy),
}

/// A recent window, and behind it the backups closest to some times of each day.
#[derive(Debug, Clone)]
pub struct TieredRetentionPolicy {
    pub keep_recent: usize,
    pub keep_daily_for_days: usize,
    pub daily_checkpoints: Vec<ClockTime>,
}

/// A backup that retention manages.
#[derive(Debug, Clone)]
pub struct ManagedBackup {
    pub path: FsPath,
    pub timestamp_utc: Timestamp,
    /// How many seconds local clocks were ahead of UTC at that time.
    pub local_offset: i32,
}

/// What a [`ManagedBackup`] holds.
pub struct BackupView {
    pub path: Seq<PartView>,
    pub at: Timestamp,
    pub offset: int,
}

impl View for ManagedBackup {
    type V = BackupView;

    open spec fn view(&self) -> BackupView {
        BackupView { path: self.path@, at: self.timestamp_utc, offset: self.local_offset as int }
    }
}

impl BackupView {
    /// The point in time is one of the calendar, and the offset less than a day.
    pub open spec fn wf(self) -> bool {
        self.at.wf() && -DAY < self.offset < DAY
    }

    /// The day of the backup on local clocks.
    pub open spec fn day(self) -> int {
        local_day(self.at, self.offset)
    }

    /// How many whole seconds the local time of the backup is away from a checkpoint.
    pub open spec fn gap(self, checkpoint: ClockTime) -> int {
        whole_seconds_between(
            checkpoint.secs as int,
            checkpoint.nanos as int,
            local_second_of_day(self.at, self.offset),
            self.at.nanos as int,
        )
    }

    /// Whether this backup comes before `other` in the order newest first.
    ///
    /// Of two backups of the same time the one with the later path comes first.
    pub open spec fn newer(self, other: BackupView) -> bool {
        self.at.later(other.at) || (self.at == other.at && path_less(other.path, self.path))
    }

    /// Whether this backup serves a checkpoint better than `other`: it is closer, or as close and
    /// later.
    pub open spec fn serves_better(self, other: BackupView, checkpoint: ClockTime) -> bool {
        self.gap(checkpoint) < other.gap(checkpoint) || (self.gap(checkpoint) == other.gap(
            checkpoint,
        ) && self.at.later(other.at))
    }
}

/// The views of some backups.
pub open spec fn views(backups: Seq<ManagedBackup>) -> Seq<BackupView> {
    backups.map_values(|b: ManagedBackup| b@)
}

/// The views of some borrowed backups.
pub open spec fn borrowed_views(backups: Seq<&ManagedBackup>) -> Seq<BackupView> {
    backups.map_values(|b: &ManagedBackup| b@)
}

/// Whether every backup is well formed.
pub open spec fn all_wf(backups: Seq<BackupView>) -> bool {
    forall|i: int| 0 <= i < backups.len() ==> (#[trigger] backups[i]).wf()
}

/// Whether every checkpoint lies within a day.
pub open spec fn checkpoints_wf(checkpoints: Seq<ClockTime>) -> bool {
    forall|i: int| 0 <= i < checkpoints.len() ==> (#[trigger] checkpoints[i]).wf()
}

impl RetentionPolicy {
    /// Every checkpoint lies within a day.
    pub open spec fn wf(self) -> bool {
        self matches RetentionPolicy::Tiered(policy) ==> checkpoints_wf(policy.daily_checkpoints@)
    }
}

/// Whether the backups are in the order newest first.
pub open spec fn newest_first(backups: Seq<BackupView>) -> bool {
    forall|i: int, j: int|
        0 <= i < j < backups.len() ==> !(#[trigger] backups[j]).newer(#[trigger] backups[i])
}

/// Whether backup `k` serves a checkpoint best: none of the others serves it better, and those
/// before it serve it worse.
pub open spec fn serves_best(group: Seq<BackupView>, k: int, checkpoint: ClockTime) -> bool {
    &&& 0 <= k < group.len()
    &&& forall|j: int|
        0 <= j < group.len() && j != k ==> !(#[trigger] group[j]).serves_better(
            group[k],
            checkpoint,
        )
    &&& forall|j: int| 0 <= j < k ==> group[k].serves_better(#[trigger] group[j], checkpoint)
}

/// Whether daily retention looks at backup `i`: it lies behind the recent window, and its day one
/// to `keep_daily_for_days` days before that of the first backup.
pub open spec fn in_daily_window(
    policy: TieredRetentionPolicy,
    backups: Seq<BackupView>,
    i: int,
) -> bool {
    &&& policy.keep_recent <= i < backups.len()
    &&& 1 <= backups[0].day() - backups[i].day() <= policy.keep_daily_for_days
}

/// Whether two backups of the daily window fall on the same day.
pub open spec fn same_day(backups: Seq<BackupView>, i: int, j: int) -> bool {
    backups[i].day() == backups[j].day()
}

/// Whether, among the backups of its day in the daily window, backup `i` serves a checkpoint best.
pub open spec fn daily_pick(
    policy: TieredRetentionPolicy,
    backups: Seq<BackupView>,
    i: int,
    checkpoint: ClockTime,
) -> bool {
    &&& in_daily_window(policy, backups, i)
    &&& forall|j: int| #[trigger]
        in_daily_window(policy, backups, j) && j != i && same_day(backups, i, j)
            ==> !backups[j].serves_better(backups[i], checkpoint)
    &&& forall|j: int| #[trigger]
        in_daily_window(policy, backups, j) && j < i && same_day(backups, i, j)
            ==> backups[i].serves_better(backups[j], checkpoint)
}

/// Whether daily retention keeps backup `i`: it serves some checkpoint best.
pub open spec fn kept_daily(
    policy: TieredRetentionPolicy,
    backups: Seq<BackupView>,
    i: int,
) -> bool {
    exists|c: int|
        0 <= c < policy.daily_checkpoints@.len() && #[trigger] daily_pick(
            policy,
            backups,
            i,
            policy.daily_checkpoints@[c],
        )
}

/// Whether a retention policy keeps backup `i`.
pub open spec fn kept_by_policy(
    retention: RetentionPolicy,
    backups: Seq<BackupView>,
    i: int,
) -> bool {
    match retention {
        RetentionPolicy::KeepAll => false,
        RetentionPolicy::KeepLast(limit) => i < limit,
        RetentionPolicy::Tiered(policy) => i < policy.keep_recent || kept_daily(policy, backups, i),
    }
}

/// Whether a path is kept: it is the newest one, or that of a backup that the policy keeps.
pub open spec fn kept(
    retention: RetentionPolicy,
    backups: Seq<BackupView>,
    newest: Seq<PartView>,
    path: Seq<PartView>,
) -> bool {
    ||| path == newest
    ||| exists|i: int|
        0 <= i < backups.len() && #[trigger] backups[i].path == path && kept_by_policy(
            retention,
            backups,
            i,
        )
}

/// The backup that serves a checkpoint best, if there is any backup.
pub fn select_backup_for_checkpoint<'a>(
    backups: &[&'a ManagedBackup],
    checkpoint: ClockTime,
) -> (r: Option<&'a ManagedBackup>)
    requires
        all_wf(borrowed_views(backups@)),
        checkpoint.wf(),
    ensures
        r is None <==> backups@.len() == 0,
        r matches Some(best) ==> exists|k: int|
            serves_best(borrowed_views(backups@), k, checkpoint) && best == #[trigger] backups@[k],
{
    if backups.len() == 0 {
        return None;
    }
    let ghost group = borrowed_views(backups@);
    let mut best: usize = 0;
    assert(group[0] == backups@[0]@);
    let mut best_gap: i64 = gap_of(backups[0], &checkpoint);
    let mut i: usize = 1;
    while i < backups.len()
        invariant
            group == borrowed_views(backups@),
            all_wf(group),
            checkpoint.wf(),
            best < i <= backups@.len(),
            best_gap == group[best as int].gap(checkpoint),
            serves_best(group.take(i as int), best as int, checkpoint),
        decreases backups@.len() - i,
    {
        assert(group[i as int] == backups@[i as int]@);
        assert(group[best as int] == backups@[best as int]@);
        let gap: i64 = gap_of(backups[i], &checkpoint);
        let ghost before = group.take(i as int);
        let ghost after = group.take(i + 1);
        if gap < best_gap || (gap == best_gap && backups[i].timestamp_utc.is_later(
            &backups[best].timestamp_utc,
        )) {
            proof {
                assert forall|j: int| 0 <= j < i implies after[i as int].serves_better(
                    #[trigger] after[j],
                    checkpoint,
                ) by {
                    assert(after[j] == before[j]);
                    if j != best {
                        assert(!before[j].serves_better(before[best as int], checkpoint));
                    }
                }
            }
            best = i;
            best_gap = gap;
        } else {
            proof {
                assert forall|j: int| 0 <= j < after.len() && j != best implies !(
                #[trigger] after[j]).serves_better(after[best as int], checkpoint) by {
                    if j < i {
                        assert(after[j] == before[j]);
                    }
                }
                assert forall|j: int| 0 <= j < best implies after[best as int].serves_better(
                    #[trigger] after[j],
                    checkpoint,
                ) by {
                    assert(after[j] == before[j]);
                }
            }
        }
        i = i + 1;
    }
    assert(group.take(group.len() as int) =~= group);
    assert(serves_best(group, best as int, checkpoint) && backups[best as int]
        == backups@[best as int]);
    Some(backups[best])
}

/// How many whole seconds the local time of a backup is away from a checkpoint.
fn gap_of(backup: &ManagedBackup, checkpoint: &ClockTime) -> (r: i64)
    requires
        backup@.wf(),
        checkpoint.wf(),
    ensures
        r == backup@.gap(*checkpoint),
{
    let second: i64 = second_of_day(&backup.timestamp_utc, backup.local_offset);
    seconds_between(checkpoint, second, backup.timestamp_utc.nanos)
}

/// Whether daily retention looks at backup `i`.
fn looks_daily(policy: &TieredRetentionPolicy, backups: &[ManagedBackup], i: usize) -> (r: bool)
    requires
        i < backups@.len(),
        all_wf(views(backups@)),
    ensures
        r == in_daily_window(*policy, views(backups@), i as int),
{
    assert(views(backups@)[0] == backups@[0]@);
    assert(views(backups@)[i as int] == backups@[i as int]@);
    if i < policy.keep_recent {
        return false;
    }
    let first: i64 = day_of(&backups[0].timestamp_utc, backups[0].local_offset);
    let day: i64 = day_of(&backups[i].timestamp_utc, backups[i].local_offset);
    let age: i64 = first - day;
    1 <= age && age as u64 <= policy.keep_daily_for_days as u64
}

/// Whether two backups fall on the same day.
fn on_same_day(a: &ManagedBackup, b: &ManagedBackup) -> (r: bool)
    requires
        a@.wf(),
        b@.wf(),
    ensures
        r == (a@.day() == b@.day()),
{
    day_of(&a.timestamp_utc, a.local_offset) == day_of(&b.timestamp_utc, b.local_offset)
}

/// Whether some backup before `n` in the daily window falls on the day of backup `i`.
spec fn day_seen(
    policy: TieredRetentionPolicy,
    backups: Seq<BackupView>,
    n: int,
    i: int,
) -> bool {
    exists|f: int|
        0 <= f < n && #[trigger] in_daily_window(policy, backups, f) && same_day(backups, i, f)
}

/// The paths that a retention policy keeps: the newest one, and those of the backups that it keeps.
pub fn select_backups_to_keep(
    retention: &RetentionPolicy,
    backups: &[ManagedBackup],
    newest_path: &FsPath,
) -> (keep: PathSet)
    requires
        retention.wf(),
        all_wf(views(backups@)),
    ensures
        keep.wf(),
        forall|path: Seq<PartView>| #[trigger]
            keep@.contains(path) <==> kept(*retention, views(backups@), newest_path@, path),
{
    let mut keep: PathSet = PathSet::new();
    keep.insert(newest_path);
    match retention {
        RetentionPolicy::KeepAll => keep,
        RetentionPolicy::KeepLast(limit) => {
            keep_first(&mut keep, backups, *limit);
            proof {
                let bs = views(backups@);
                assert forall|path: Seq<PartView>| #[trigger] keep@.contains(path) implies kept(
                    *retention,
                    bs,
                    newest_path@,
                    path,
                ) by {
                    if path != newest_path@ {
                        let i = choose|i: int|
                            0 <= i < bs.len() && i < *limit && #[trigger] bs[i].path == path;
                        assert(kept_by_policy(*retention, bs, i));
                    }
                }
            }
            keep
        },
        RetentionPolicy::Tiered(policy) => {
            keep_first(&mut keep, backups, policy.keep_recent);
            keep_daily(&mut keep, policy, backups);
            proof {
                let bs = views(backups@);
                assert forall|path: Seq<PartView>| #[trigger] keep@.contains(path) implies kept(
                    *retention,
                    bs,
                    newest_path@,
                    path,
                ) by {
                    if path != newest_path@ {
                        if exists|i: int|
                            0 <= i < bs.len() && kept_daily(*policy, bs, i) && #[trigger] bs[i].path
                                == path {
                            let i = choose|i: int|
                                0 <= i < bs.len() && kept_daily(*policy, bs, i)
                                    && #[trigger] bs[i].path == path;
                            assert(kept_by_policy(*retention, bs, i));
                        } else {
                            let i = choose|i: int|
                                0 <= i < bs.len() && i < policy.keep_recent && #[trigger] bs[i].path
                                    == path;
                            assert(kept_by_policy(*retention, bs, i));
                        }
                    }
                }
                assert forall|path: Seq<PartView>|
                    kept(*retention, bs, newest_path@, path) implies #[trigger] keep@.contains(
                    path,
                ) by {
                    if path != newest_path@ {
                        let i = choose|i: int|
                            0 <= i < bs.len() && #[trigger] bs[i].path == path && kept_by_policy(
                                *retention,
                                bs,
                                i,
                            );
                        assert(i < policy.keep_recent || kept_daily(*policy, bs, i));
                    }
                }
            }
            keep
        },
    }
}

/// Puts the paths of the first backups, up to `limit`, into the set.
fn keep_first(keep: &mut PathSet, backups: &[ManagedBackup], limit: usize)
    requires
        old(keep).wf(),
    ensures
        final(keep).wf(),
        forall|path: Seq<PartView>| #[trigger]
            final(keep)@.contains(path) <==> old(keep)@.contains(path) || exists|i: int|
                0 <= i < views(backups@).len() && i < limit && #[trigger] views(backups@)[i].path
                    == path,
{
    let ghost bs = views(backups@);
    let mut i: usize = 0;
    while i < backups.len() && i < limit
        invariant
            keep.wf(),
            bs == views(backups@),
            i <= backups@.len(),
            i <= limit,
            forall|path: Seq<PartView>| #[trigger]
                keep@.contains(path) <==> old(keep)@.contains(path) || exists|k: int|
                    0 <= k < i && #[trigger] bs[k].path == path,
        decreases backups@.len() - i,
    {
        let ghost before = keep@;
        assert(bs[i as int] == backups@[i as int]@);
        keep.insert(&backups[i].path);
        proof {
            assert forall|path: Seq<PartView>| #[trigger] keep@.contains(path) <==> old(
                keep,
            )@.contains(path) || exists|k: int| 0 <= k < i + 1 && #[trigger] bs[k].path == path by {
                if before.contains(path) && !old(keep)@.contains(path) {
                    let k = choose|k: int| 0 <= k < i && #[trigger] bs[k].path == path;
                    assert(bs[k].path == path);
                }
                if exists|k: int| 0 <= k < i + 1 && #[trigger] bs[k].path == path {
                    let k = choose|k: int| 0 <= k < i + 1 && #[trigger] bs[k].path == path;
                    if k < i {
                        assert(before.contains(path));
                    }
                }
                if path == bs[i as int].path {
                    assert(0 <= i < i + 1 && bs[i as int].path == path);
                }
            }
        }
        i = i + 1;
    }
}

/// Puts the paths of the backups that daily retention keeps into the set.
fn keep_daily(keep: &mut PathSet, policy: &TieredRetentionPolicy, backups: &[ManagedBackup])
    requires
        old(keep).wf(),
        checkpoints_wf(policy.daily_checkpoints@),
        all_wf(views(backups@)),
    ensures
        final(keep).wf(),
        forall|path: Seq<PartView>| #[trigger]
            final(keep)@.contains(path) <==> old(keep)@.contains(path) || exists|i: int|
                0 <= i < views(backups@).len() && kept_daily(*policy, views(backups@), i)
                    && #[trigger] views(backups@)[i].path == path,
{
    let ghost bs = views(backups@);
    let mut n: usize = 0;
    while n < backups.len()
        invariant
            keep.wf(),
            bs == views(backups@),
            all_wf(bs),
            checkpoints_wf(policy.daily_checkpoints@),
            n <= backups@.len(),
            forall|path: Seq<PartView>| #[trigger]
                keep@.contains(path) ==> old(keep)@.contains(path) || exists|i: int|
                    0 <= i < bs.len() && kept_daily(*policy, bs, i) && #[trigger] bs[i].path
                        == path,
            forall|path: Seq<PartView>|
                old(keep)@.contains(path) ==> #[trigger] keep@.contains(path),
            forall|i: int| #[trigger]
                kept_daily(*policy, bs, i) && day_seen(*policy, bs, n as int, i)
                    ==> keep@.contains(bs[i].path),
        decreases backups@.len() - n,
    {
        assert(bs[n as int] == backups@[n as int]@);
        if looks_daily(policy, backups, n) && !day_was_seen(policy, backups, n) {
            keep_of_day(keep, policy, backups, n);
            proof {
                assert forall|i: int| #[trigger]
                    kept_daily(*policy, bs, i) && day_seen(
                        *policy,
                        bs,
                        n + 1,
                        i,
                    ) implies keep@.contains(bs[i].path) by {
                    let f = choose|f: int|
                        0 <= f < n + 1 && #[trigger] in_daily_window(*policy, bs, f) && same_day(
                            bs,
                            i,
                            f,
                        );
                    if f < n {
                        assert(day_seen(*policy, bs, n as int, i));
                    }
                }
            }
        } else {
            proof {
                assert forall|i: int| #[trigger]
                    kept_daily(*policy, bs, i) && day_seen(
                        *policy,
                        bs,
                        n + 1,
                        i,
                    ) implies keep@.contains(bs[i].path) by {
                    let f = choose|f: int|
                        0 <= f < n + 1 && #[trigger] in_daily_window(*policy, bs, f) && same_day(
                            bs,
                            i,
                            f,
                        );
                    if f == n {
                        let g = choose|g: int|
                            0 <= g < n && #[trigger] in_daily_window(*policy, bs, g) && same_day(
                                bs,
                                n as int,
                                g,
                            );
                        assert(in_daily_window(*policy, bs, g) && same_day(bs, i, g));
                    }
                    assert(day_seen(*policy, bs, n as int, i));
                }
            }
        }
        n = n + 1;
    }
    proof {
        assert forall|i: int| #[trigger] kept_daily(*policy, bs, i) implies keep@.contains(
            bs[i].path,
        ) by {
            assert(in_daily_window(*policy, bs, i) && same_day(bs, i, i));
            assert(day_seen(*policy, bs, n as int, i));
        }
    }
}

/// Whether some backup before `n` in the daily window falls on the day of backup `n`.
fn day_was_seen(policy: &TieredRetentionPolicy, backups: &[ManagedBackup], n: usize) -> (r: bool)
    requires
        n < backups@.len(),
        all_wf(views(backups@)),
    ensures
        r == day_seen(*policy, views(backups@), n as int, n as int),
{
    let ghost bs = views(backups@);
    let mut j: usize = 0;
    assert(bs[n as int] == backups@[n as int]@);
    while j < n
        invariant
            bs == views(backups@),
            all_wf(bs),
            j <= n < backups@.len(),
            bs[n as int] == backups@[n as int]@,
            forall|f: int|
                0 <= f < j && #[trigger] in_daily_window(*policy, bs, f) ==> !same_day(
                    bs,
                    n as int,
                    f,
                ),
        decreases n - j,
    {
        assert(bs[j as int] == backups@[j as int]@);
        if looks_daily(policy, backups, j) && on_same_day(&backups[n], &backups[j]) {
            assert(in_daily_window(*policy, bs, j as int) && same_day(bs, n as int, j as int));
            return true;
        }
        j = j + 1;
    }
    false
}

/// Puts the paths of the backups that daily retention keeps of the day of backup `n`, the first of
/// its day in the daily window, into the set.
fn keep_of_day(
    keep: &mut PathSet,
    policy: &TieredRetentionPolicy,
    backups: &[ManagedBackup],
    n: usize,
)
    requires
        old(keep).wf(),
        checkpoints_wf(policy.daily_checkpoints@),
        all_wf(views(backups@)),
        n < backups@.len(),
        in_daily_window(*policy, views(backups@), n as int),
        !day_seen(*policy, views(backups@), n as int, n as int),
    ensures
        final(keep).wf(),
        forall|path: Seq<PartView>| #[trigger]
            final(keep)@.contains(path) ==> old(keep)@.contains(path) || exists|i: int|
                0 <= i < views(backups@).len() && kept_daily(*policy, views(backups@), i)
                    && #[trigger] views(backups@)[i].path == path,
        forall|path: Seq<PartView>|
            old(keep)@.contains(path) ==> #[trigger] final(keep)@.contains(path),
        forall|i: int| #[trigger]
            kept_daily(*policy, views(backups@), i) && same_day(views(backups@), i, n as int)
                ==> final(keep)@.contains(views(backups@)[i].path),
{
    let ghost bs = views(backups@);
    let mut group: Vec<&ManagedBackup> = Vec::new();
    let ghost mut places: Seq<int> = Seq::empty();
    let mut j: usize = 0;
    assert(bs[n as int] == backups@[n as int]@);
    while j < backups.len()
        invariant
            bs == views(backups@),
            all_wf(bs),
            n < backups@.len(),
            bs[n as int] == backups@[n as int]@,
            j <= backups@.len(),
            places.len() == group@.len(),
            forall|k: int|
                0 <= k < places.len() ==> {
                    let place = #[trigger] places[k];
                    &&& 0 <= place < j
                    &&& group@[k]@ == bs[place]
                    &&& in_daily_window(*policy, bs, place)
                    &&& same_day(bs, place, n as int)
                },
            forall|k: int, l: int|
                0 <= k < l < places.len() ==> #[trigger] places[k] < #[trigger] places[l],
            forall|i: int|
                0 <= i < j && #[trigger] in_daily_window(*policy, bs, i) && same_day(
                    bs,
                    i,
                    n as int,
                ) ==> places.contains(i),
        decreases backups@.len() - j,
    {
        assert(bs[j as int] == backups@[j as int]@);
        let ghost before = places;
        if looks_daily(policy, backups, j) && on_same_day(&backups[j], &backups[n]) {
            group.push(&backups[j]);
            proof {
                places = places.push(j as int);
                assert forall|i: int|
                    0 <= i < j + 1 && #[trigger] in_daily_window(*policy, bs, i) && same_day(
                        bs,
                        i,
                        n as int,
                    ) implies places.contains(i) by {
                    if i < j {
                        let k = choose|k: int| 0 <= k < before.len() && before[k] == i;
                        assert(places[k] == i);
                    } else {
                        assert(places[before.len() as int] == i);
                    }
                }
            }
        }
        j = j + 1;
    }
    let ghost gs = borrowed_views(group@);
    assert(all_wf(gs)) by {
        assert forall|k: int| 0 <= k < gs.len() implies (#[trigger] gs[k]).wf() by {
            assert(gs[k] == bs[places[k]]);
        }
    }
    let mut c: usize = 0;
    while c < policy.daily_checkpoints.len()
        invariant
            keep.wf(),
            bs == views(backups@),
            gs == borrowed_views(group@),
            all_wf(gs),
            checkpoints_wf(policy.daily_checkpoints@),
            c <= policy.daily_checkpoints@.len(),
            n < backups@.len(),
            in_daily_window(*policy, bs, n as int),
            places.len() == group@.len(),
            forall|k: int|
                0 <= k < places.len() ==> {
                    let place = #[trigger] places[k];
                    &&& 0 <= place < bs.len()
                    &&& group@[k]@ == bs[place]
                    &&& in_daily_window(*policy, bs, place)
                    &&& same_day(bs, place, n as int)
                },
            forall|k: int, l: int|
                0 <= k < l < places.len() ==> #[trigger] places[k] < #[trigger] places[l],
            forall|i: int|
                0 <= i < bs.len() && #[trigger] in_daily_window(*policy, bs, i) && same_day(
                    bs,
                    i,
                    n as int,
                ) ==> places.contains(i),
            forall|path: Seq<PartView>| #[trigger]
                keep@.contains(path) ==> old(keep)@.contains(path) || exists|i: int|
                    0 <= i < bs.len() && kept_daily(*policy, bs, i) && #[trigger] bs[i].path
                        == path,
            forall|path: Seq<PartView>|
                old(keep)@.contains(path) ==> #[trigger] keep@.contains(path),
            forall|i: int, d: int|
                0 <= d < c && #[trigger] daily_pick(*policy, bs, i, policy.daily_checkpoints@[d])
                    && same_day(bs, i, n as int) ==> keep@.contains(bs[i].path),
        decreases policy.daily_checkpoints@.len() - c,
    {
        let checkpoint: ClockTime = policy.daily_checkpoints[c];
        let ghost before = keep@;
        match select_backup_for_checkpoint(&group, checkpoint) {
            Some(selected) => {
                keep.insert(&selected.path);
                proof {
                    let k = choose|k: int|
                        serves_best(gs, k, checkpoint) && selected == #[trigger] group@[k];
                    let place = places[k];
                    lemma_best_of_group(*policy, bs, gs, places, n as int, k, checkpoint);
                    assert(kept_daily(*policy, bs, place));
                    assert(bs[place].path == selected.path@);
                    assert forall|i: int, d: int|
                        0 <= d < c + 1 && #[trigger] daily_pick(
                            *policy,
                            bs,
                            i,
                            policy.daily_checkpoints@[d],
                        ) && same_day(bs, i, n as int) implies keep@.contains(bs[i].path) by {
                        if d == c {
                            lemma_pick_is_unique(*policy, bs, i, place, checkpoint);
                        }
                    }
                }
            },
            None => {
                proof {
                    assert(places.contains(n as int));
                    assert(false);
                }
            },
        }
        c = c + 1;
    }
    proof {
        assert forall|i: int| #[trigger]
            kept_daily(*policy, bs, i) && same_day(bs, i, n as int) implies keep@.contains(
            bs[i].path,
        ) by {
            let d = choose|d: int|
                0 <= d < policy.daily_checkpoints@.len() && #[trigger] daily_pick(
                    *policy,
                    bs,
                    i,
                    policy.daily_checkpoints@[d],
                );
            assert(daily_pick(*policy, bs, i, policy.daily_checkpoints@[d]));
        }
    }
}

/// The backup that serves a checkpoint best in the group of a day's backups is the daily pick.
proof fn lemma_best_of_group(
    policy: TieredRetentionPolicy,
    backups: Seq<BackupView>,
    group: Seq<BackupView>,
    places: Seq<int>,
    n: int,
    k: int,
    checkpoint: ClockTime,
)
    requires
        serves_best(group, k, checkpoint),
        group.len() == places.len(),
        0 <= n < backups.len(),
        forall|k: int|
            0 <= k < places.len() ==> {
                let place = #[trigger] places[k];
                &&& 0 <= place < backups.len()
                &&& group[k] == backups[place]
                &&& in_daily_window(policy, backups, place)
                &&& same_day(backups, place, n)
            },
        forall|k: int, l: int|
            0 <= k < l < places.len() ==> #[trigger] places[k] < #[trigger] places[l],
        forall|i: int|
            0 <= i < backups.len() && #[trigger] in_daily_window(policy, backups, i) && same_day(
                backups,
                i,
                n,
            ) ==> places.contains(i),
    ensures
        daily_pick(policy, backups, places[k], checkpoint),
{
    let place = places[k];
    assert forall|j: int| #[trigger]
        in_daily_window(policy, backups, j) && j != place && same_day(
            backups,
            place,
            j,
        ) implies !backups[j].serves_better(backups[place], checkpoint) by {
        assert(places.contains(j));
        let l = choose|l: int| 0 <= l < places.len() && places[l] == j;
        assert(group[l] == backups[j]);
    }
    assert forall|j: int| #[trigger]
        in_daily_window(policy, backups, j) && j < place && same_day(
            backups,
            place,
            j,
        ) implies backups[place].serves_better(backups[j], checkpoint) by {
        assert(places.contains(j));
        let l = choose|l: int| 0 <= l < places.len() && places[l] == j;
        assert(group[l] == backups[j]);
        if k < l {
            assert(places[k] < places[l]);
        }
    }
}

/// A day has one pick for each checkpoint.
pub proof fn lemma_pick_is_unique(
    policy: TieredRetentionPolicy,
    backups: Seq<BackupView>,
    i: int,
    j: int,
    checkpoint: ClockTime,
)
    requires
        daily_pick(policy, backups, i, checkpoint),
        daily_pick(policy, backups, j, checkpoint),
        same_day(backups, i, j),
    ensures
        i == j,
{
    if i < j {
        assert(in_daily_window(policy, backups, i));
        assert(backups[j].serves_better(backups[i], checkpoint));
        assert(in_daily_window(policy, backups, j));
    } else if j < i {
        assert(in_daily_window(policy, backups, j));
        assert(backups[i].serves_better(backups[j], checkpoint));
        assert(in_daily_window(policy, backups, i));
    }
}

/// The order newest first is transitive.
proof fn lemma_newer_transitive(a: BackupView, b: BackupView, c: BackupView)
    requires
        a.newer(b),
        b.newer(c),
    ensures
        a.newer(c),
{
    if a.at == b.at && b.at == c.at {
        lemma_path_order();
        let less = |x: Seq<PartKey>, y: Seq<PartKey>| lex_less(part_less(), x, y);
        assert(less(path_keys(c.path), path_keys(b.path)));
        assert(less(path_keys(b.path), path_keys(a.path)));
        assert(less(path_keys(c.path), path_keys(a.path)));
    }
}

/// Puts a backup into its place among backups in the order newest first.
fn insert_by_age(backups: &mut Vec<ManagedBackup>, backup: ManagedBackup)
    requires
        newest_first(views(old(backups)@)),
    ensures
        newest_first(views(final(backups)@)),
        exists|place: int|
            0 <= place <= old(backups)@.len() && #[trigger] views(old(backups)@).insert(
                place,
                backup@,
            ) == views(final(backups)@),
{
    let ghost before = views(backups@);
    let ghost new = backup@;
    let mut place: usize = 0;
    while place < backups.len() && !comes_before(&backup, &backups[place])
        invariant
            backups@ == old(backups)@,
            before == views(backups@),
            new == backup@,
            place <= backups@.len(),
            forall|k: int| 0 <= k < place ==> !new.newer(#[trigger] before[k]),
        decreases backups@.len() - place,
    {
        assert(before[place as int] == backups@[place as int]@);
        place = place + 1;
    }
    assert(place < before.len() ==> before[place as int] == backups@[place as int]@);
    backups.insert(place, backup);
    let ghost after = views(backups@);
    proof {
        assert(after =~= before.insert(place as int, new));
        assert forall|i: int, j: int| 0 <= i < j < after.len() implies !(
        #[trigger] after[j]).newer(#[trigger] after[i]) by {
            if j < place {
                assert(after[i] == before[i] && after[j] == before[j]);
            } else if j == place {
                assert(after[i] == before[i]);
            } else if i == place {
                assert(after[j] == before[j - 1]);
                if before[j - 1].newer(new) {
                    lemma_newer_transitive(before[j - 1], new, before[place as int]);
                    if j - 1 == place {
                        lemma_not_newer_than_itself(before[place as int]);
                    }
                }
            } else if i < place {
                assert(after[i] == before[i] && after[j] == before[j - 1]);
            } else {
                assert(after[i] == before[i - 1] && after[j] == before[j - 1]);
            }
        }
    }
}

/// No backup comes before itself.
proof fn lemma_not_newer_than_itself(a: BackupView)
    ensures
        !a.newer(a),
{
    lemma_path_order();
    let less = |x: Seq<PartKey>, y: Seq<PartKey>| lex_less(part_less(), x, y);
    assert(!less(path_keys(a.path), path_keys(a.path)));
}

/// Whether a backup comes before another in the order newest first.
fn comes_before(a: &ManagedBackup, b: &ManagedBackup) -> (r: bool)
    ensures
        r == a@.newer(b@),
{
    a.timestamp_utc.is_later(&b.timestamp_utc) || (a.timestamp_utc == b.timestamp_utc
        && b.path.before(&a.path))
}

/// The path and the time of a backup.
pub struct Dated {
    pub path: Seq<PartView>,
    pub at: Timestamp,
}

/// The path and the time of each backup.
pub open spec fn dated(backups: Seq<BackupView>) -> Seq<Dated> {
    backups.map_values(|b: BackupView| Dated { path: b.path, at: b.at })
}

/// The paths of some entries.
pub open spec fn paths(entries: Seq<FsPath>) -> Seq<Seq<PartView>> {
    entries.map_values(|path: FsPath| path@)
}

/// The time in an entry's name, if it is that of a backup called `name`.
pub open spec fn entry_stamp(entry: Seq<PartView>, name: Seq<char>) -> Option<Timestamp> {
    match file_name_text(entry) {
        Some(file_name) => stamp_in(name_prefix(name), file_name),
        None => None,
    }
}

/// Whether no character straddles the end of the timestamp in an entry's name.
pub open spec fn entry_is_clean(entry: Seq<PartView>, name: Seq<char>) -> bool {
    file_name_text(entry) matches Some(file_name) ==> cut_is_clean(name_prefix(name), file_name)
}

/// Whether all entries are such.
pub open spec fn all_clean(entries: Seq<Seq<PartView>>, name: Seq<char>) -> bool {
    forall|i: int| 0 <= i < entries.len() ==> entry_is_clean(#[trigger] entries[i], name)
}

/// The entries that are backups called `name`, with their times.
pub open spec fn managed(entries: Seq<Seq<PartView>>, name: Seq<char>) -> Seq<Dated>
    decreases entries.len(),
{
    if entries.len() == 0 {
        Seq::empty()
    } else {
        let before = managed(entries.drop_last(), name);
        match entry_stamp(entries.last(), name) {
            Some(at) => before.push(Dated { path: entries.last(), at }),
            None => before,
        }
    }
}

/// Whether the offset of every backup is one that the machine reports for its time.
pub open spec fn all_reported(backups: Seq<BackupView>) -> bool {
    forall|i: int|
        0 <= i < backups.len() ==> reports(
            (#[trigger] backups[i]).at.secs,
            backups[i].offset as i32,
        )
}

/// The backups called `name` among the entries of the target directory, newest first.
pub fn collect_managed_backups(entries: &[FsPath], name: &str) -> (backups: Vec<ManagedBackup>)
    requires
        all_clean(paths(entries@), name@),
    ensures
        newest_first(views(backups@)),
        all_wf(views(backups@)),
        all_reported(views(backups@)),
        dated(views(backups@)).to_multiset() == managed(paths(entries@), name@).to_multiset(),
{
    let mut prefix: String = name.to_owned();
    prefix.append("-");
    let mut backups: Vec<ManagedBackup> = Vec::new();
    let mut i: usize = 0;
    assert(dated(views(backups@)) =~= managed(paths(entries@).take(0), name@));
    while i < entries.len()
        invariant
            prefix@ == name_prefix(name@),
            i <= entries@.len(),
            all_clean(paths(entries@), name@),
            newest_first(views(backups@)),
            all_wf(views(backups@)),
            all_reported(views(backups@)),
            dated(views(backups@)).to_multiset() == managed(
                paths(entries@).take(i as int),
                name@,
            ).to_multiset(),
        decreases entries@.len() - i,
    {
        let ghost so_far = paths(entries@).take(i as int);
        let ghost next = paths(entries@).take(i + 1);
        let ghost old_views = views(backups@);
        assert(paths(entries@)[i as int] == entries@[i as int]@);
        assert(next.drop_last() =~= so_far);
        assert(next.last() == entries@[i as int]@);
        if let Some(file_name) = entries[i].file_name() {
            if let Some(timestamp_utc) = parse_backup_timestamp(
                prefix.as_str(),
                file_name.as_str(),
            ) {
                let offset: i32 = local_offset(timestamp_utc.secs);
                let backup = ManagedBackup {
                    path: entries[i].clone(),
                    timestamp_utc,
                    local_offset: offset,
                };
                let ghost new = backup@;
                insert_by_age(&mut backups, backup);
                proof {
                    let place = choose|place: int|
                        0 <= place <= old_views.len() && #[trigger] old_views.insert(place, new)
                            == views(backups@);
                    let d = Dated { path: new.path, at: new.at };
                    assert(dated(views(backups@)) =~= dated(old_views).insert(place, d));
                    vstd::seq_lib::to_multiset_insert(dated(old_views), place, d);
                    vstd::seq_lib::to_multiset_build(managed(so_far, name@), d);
                    assert forall|k: int| 0 <= k < views(backups@).len() implies (
                    #[trigger] views(backups@)[k]).wf() && reports(
                        views(backups@)[k].at.secs,
                        views(backups@)[k].offset as i32,
                    ) by {
                        if k < place {
                            assert(views(backups@)[k] == old_views[k]);
                        } else if k > place {
                            assert(views(backups@)[k] == old_views[k - 1]);
                        }
                    }
                }
            }
        }
        i = i + 1;
    }
    assert(paths(entries@).take(entries@.len() as int) =~= paths(entries@));
    backups
}

/// The paths to delete, in order: those of the backups that are not kept.
pub open spec fn deleted(
    retention: RetentionPolicy,
    backups: Seq<BackupView>,
    newest: Seq<PartView>,
) -> Seq<Seq<PartView>> {
    if retention is KeepAll {
        Seq::empty()
    } else {
        backups.filter(
            |b: BackupView| !kept(retention, backups, newest, b.path),
        ).map_values(|b: BackupView| b.path)
    }
}

/// The paths of the backups that retention does not keep, in order.
pub fn select_backups_to_delete(
    retention: &RetentionPolicy,
    backups: &[ManagedBackup],
    newest_path: &FsPath,
) -> (r: Vec<FsPath>)
    requires
        retention.wf(),
        all_wf(views(backups@)),
    ensures
        paths(r@) == deleted(*retention, views(backups@), newest_path@),
{
    let mut out: Vec<FsPath> = Vec::new();
    if let RetentionPolicy::KeepAll = retention {
        assert(paths(out@) =~= Seq::empty());
        return out;
    }
    let keep: PathSet = select_backups_to_keep(retention, backups, newest_path);
    let ghost bs = views(backups@);
    let ghost goes = |b: BackupView| !kept(*retention, bs, newest_path@, b.path);
    let mut i: usize = 0;
    proof {
        reveal(Seq::filter);
        assert(paths(out@) =~= bs.take(0).filter(goes).map_values(|b: BackupView| b.path));
    }
    while i < backups.len()
        invariant
            bs == views(backups@),
            goes == (|b: BackupView| !kept(*retention, bs, newest_path@, b.path)),
            i <= backups@.len(),
            forall|path: Seq<PartView>| #[trigger]
                keep@.contains(path) <==> kept(*retention, bs, newest_path@, path),
            paths(out@) == bs.take(i as int).filter(goes).map_values(|b: BackupView| b.path),
        decreases backups@.len() - i,
    {
        let ghost before = out@;
        proof {
            reveal(Seq::filter);
            assert(bs.take(i + 1).drop_last() =~= bs.take(i as int));
            assert(bs.take(i + 1).last() == backups@[i as int]@);
        }
        if !keep.contains(&backups[i].path) {
            out.push(backups[i].path.clone());
            proof {
                assert(goes(bs[i as int]));
                assert(paths(out@) =~= paths(before).push(bs[i as int].path));
                assert(bs.take(i + 1).filter(goes).map_values(|b: BackupView| b.path) =~= bs.take(
                    i as int,
                ).filter(goes).map_values(|b: BackupView| b.path).push(bs[i as int].path));
            }
        } else {
            assert(!goes(bs[i as int]));
        }
        i = i + 1;
    }
    assert(bs.take(bs.len() as int) =~= bs);
    out
}

/// Whether `doomed` are the paths that retention deletes, in order, where `entries` are those of
/// the target directory and `newest` is the backup just made.
///
/// What the local clocks showed at the time of each backup is the machine's own.
pub open spec fn retention_deletes(
    retention: RetentionPolicy,
    entries: Seq<Seq<PartView>>,
    name: Seq<char>,
    newest: Seq<PartView>,
    doomed: Seq<Seq<PartView>>,
) -> bool {
    if retention is KeepAll {
        doomed.len() == 0
    } else {
        exists|backups: Seq<BackupView>|
            {
                &&& newest_first(backups)
                &&& all_wf(backups)
                &&& all_reported(backups)
                &&& dated(backups).to_multiset() == managed(entries, name).to_multiset()
                &&& doomed == #[trigger] deleted(retention, backups, newest)
            }
    }
}

/// Whether an entry's name lets the timestamp in it be told.
pub fn is_clean_entry(entry: &FsPath, name: &str) -> (r: bool)
    ensures
        r == entry_is_clean(entry@, name@),
{
    match entry.file_name() {
        None => true,
        Some(file_name) => {
            let mut prefix: String = name.to_owned();
            prefix.append("-");
            has_clean_cut(prefix.as_str(), file_name.as_str())
        },
    }
}

/// The paths to delete from the target directory, in order, once the backup at `newest_path` is
/// there.
pub fn enforce_retention(
    entries: &[FsPath],
    name: &str,
    retention: &RetentionPolicy,
    newest_path: &FsPath,
) -> (r: Vec<FsPath>)
    requires
        retention.wf(),
        retention is KeepAll || all_clean(paths(entries@), name@),
    ensures
        retention_deletes(*retention, paths(entries@), name@, newest_path@, paths(r@)),
{
    if let RetentionPolicy::KeepAll = retention {
        return Vec::new();
    }
    let backups: Vec<ManagedBackup> = collect_managed_backups(entries, name);
    select_backups_to_delete(retention, &backups, newest_path)
}

/// What is managed is an entry, of the time in its name.
pub proof fn lemma_managed_are_entries(entries: Seq<Seq<PartView>>, name: Seq<char>, d: Dated)
    requires
        managed(entries, name).contains(d),
    ensures
        entries.contains(d.path),
        entry_stamp(d.path, name) == Some(d.at),
    decreases entries.len(),
{
    let found = managed(entries, name);
    let k = choose|k: int| 0 <= k < found.len() && found[k] == d;
    if entries.len() > 0 {
        let before = managed(entries.drop_last(), name);
        if k < before.len() {
            assert(before[k] == d);
            lemma_managed_are_entries(entries.drop_last(), name, d);
            let i = choose|i: int|
                0 <= i < entries.drop_last().len() && entries.drop_last()[i] == d.path;
            assert(entries[i] == d.path);
        } else {
            assert(entries[entries.len() - 1] == d.path);
        }
    }
}

/// Retention deletes nothing but entries of the target directory whose names are those of backups
/// with a timestamp, and never the backup just made.
pub proof fn law_only_older_backups_are_deleted(
    retention: RetentionPolicy,
    entries: Seq<Seq<PartView>>,
    name: Seq<char>,
    newest: Seq<PartView>,
    doomed: Seq<Seq<PartView>>,
    path: Seq<PartView>,
)
    requires
        retention_deletes(retention, entries, name, newest, doomed),
        doomed.contains(path),
    ensures
        path != newest,
        entries.contains(path),
        entry_stamp(path, name) is Some,
{
    let bs = choose|backups: Seq<BackupView>|
        {
            &&& newest_first(backups)
            &&& all_wf(backups)
            &&& all_reported(backups)
            &&& dated(backups).to_multiset() == managed(entries, name).to_multiset()
            &&& doomed == #[trigger] deleted(retention, backups, newest)
        };
    let goes = |b: BackupView| !kept(retention, bs, newest, b.path);
    assert(doomed == bs.filter(goes).map_values(|b: BackupView| b.path));
    let k = choose|k: int| 0 <= k < doomed.len() && doomed[k] == path;
    let b = bs.filter(goes)[k];
    bs.lemma_filter_pred(goes, k);
    bs.lemma_filter_contains_rev(goes, b);
    let i = choose|i: int| 0 <= i < bs.len() && bs[i] == b;
    let d = dated(bs)[i];
    vstd::seq_lib::to_multiset_contains(dated(bs), d);
    vstd::seq_lib::to_multiset_contains(managed(entries, name), d);
    lemma_managed_are_entries(entries, name, d);
}

} // verus!
