//! What holds of retention, whatever the backups.
use crate::path::PartView;
use crate::retention::{
    daily_pick, deleted, in_daily_window, kept, kept_by_policy, kept_daily, same_day, BackupView,
    RetentionPolicy, TieredRetentionPolicy,
};
use crate::time::ClockTime;
use vstd::prelude::*;

verus! {

/// No two backups have the same path.
pub open spec fn paths_differ(backups: Seq<BackupView>) -> bool {
    forall|i: int, j: int|
        0 <= i < j < backups.len() ==> (#[trigger] backups[i]).path != (#[trigger] backups[j]).path
}

/// What is left once retention has deleted.
pub open spec fn remaining(
    retention: RetentionPolicy,
    backups: Seq<BackupView>,
    newest: Seq<PartView>,
) -> Seq<BackupView> {
    backups.filter(|b: BackupView| kept(retention, backups, newest, b.path))
}

/// A filtered sequence holds the elements at some increasing places, namely all the places at
/// which the property holds.
proof fn lemma_filter_places<A>(s: Seq<A>, pred: spec_fn(A) -> bool) -> (places: Seq<int>)
    ensures
        places.len() == s.filter(pred).len(),
        forall|k: int|
            0 <= k < places.len() ==> {
                let place = #[trigger] places[k];
                &&& 0 <= place < s.len()
                &&& pred(s[place])
                &&& s.filter(pred)[k] == s[place]
                &&& k <= place
            },
        forall|k: int, l: int|
            0 <= k < l < places.len() ==> #[trigger] places[k] < #[trigger] places[l],
        forall|i: int| 0 <= i < s.len() && pred(#[trigger] s[i]) ==> places.contains(i),
    decreases s.len(),
{
    reveal(Seq::filter);
    if s.len() == 0 {
        Seq::empty()
    } else {
        let rest = s.drop_last();
        let before = lemma_filter_places(rest, pred);
        if pred(s.last()) {
            let places = before.push(s.len() - 1);
            assert forall|i: int| 0 <= i < s.len() && pred(#[trigger] s[i]) implies places.contains(
                i,
            ) by {
                if i < rest.len() {
                    assert(pred(rest[i]));
                    let k = choose|k: int| 0 <= k < before.len() && before[k] == i;
                    assert(places[k] == i);
                } else {
                    assert(places[before.len() as int] == i);
                }
            }
            places
        } else {
            assert forall|i: int| 0 <= i < s.len() && pred(#[trigger] s[i]) implies before.contains(
                i,
            ) by {
                assert(pred(rest[i]));
            }
            before
        }
    }
}

/// The newest backup is never deleted.
pub proof fn law_newest_is_never_deleted(
    retention: RetentionPolicy,
    backups: Seq<BackupView>,
    newest: Seq<PartView>,
)
    ensures
        !deleted(retention, backups, newest).contains(newest),
{
    law_deleted_are_backups_not_kept(retention, backups, newest, newest);
}

/// What is deleted is the path of a backup, and not kept.
pub proof fn law_deleted_are_backups_not_kept(
    retention: RetentionPolicy,
    backups: Seq<BackupView>,
    newest: Seq<PartView>,
    path: Seq<PartView>,
)
    ensures
        deleted(retention, backups, newest).contains(path) ==> retention !is KeepAll && !kept(
            retention,
            backups,
            newest,
            path,
        ) && exists|i: int| 0 <= i < backups.len() && #[trigger] backups[i].path == path,
{
    if deleted(retention, backups, newest).contains(path) {
        let goes = |b: BackupView| !kept(retention, backups, newest, b.path);
        let places = lemma_filter_places(backups, goes);
        let k = choose|k: int|
            0 <= k < deleted(retention, backups, newest).len() && deleted(
                retention,
                backups,
                newest,
            )[k] == path;
        assert(goes(backups[places[k]]));
        assert(backups[places[k]].path == path);
    }
}

/// Every backup is either kept or deleted, unless the policy keeps all.
pub proof fn law_kept_or_deleted(
    retention: RetentionPolicy,
    backups: Seq<BackupView>,
    newest: Seq<PartView>,
    i: int,
)
    requires
        retention !is KeepAll,
        0 <= i < backups.len(),
    ensures
        kept(retention, backups, newest, backups[i].path) <==> !deleted(
            retention,
            backups,
            newest,
        ).contains(backups[i].path),
{
    law_deleted_are_backups_not_kept(retention, backups, newest, backups[i].path);
    if !kept(retention, backups, newest, backups[i].path) {
        let goes = |b: BackupView| !kept(retention, backups, newest, b.path);
        let places = lemma_filter_places(backups, goes);
        assert(goes(backups[i]));
        let k = choose|k: int| 0 <= k < places.len() && places[k] == i;
        assert(deleted(retention, backups, newest)[k] == backups[i].path);
    }
}

/// The newest backups, up to the number asked for, are never deleted.
pub proof fn law_recent_backups_are_kept(
    retention: RetentionPolicy,
    backups: Seq<BackupView>,
    newest: Seq<PartView>,
    i: int,
)
    requires
        0 <= i < backups.len(),
        match retention {
            RetentionPolicy::KeepAll => true,
            RetentionPolicy::KeepLast(limit) => i < limit,
            RetentionPolicy::Tiered(policy) => i < policy.keep_recent,
        },
    ensures
        !deleted(retention, backups, newest).contains(backups[i].path),
{
    if retention !is KeepAll {
        assert(kept_by_policy(retention, backups, i));
        law_kept_or_deleted(retention, backups, newest, i);
    }
}

/// Keeping the last `limit` deletes every other backup but the newest, if no two share a path.
pub proof fn law_keep_last_deletes_the_others(
    limit: usize,
    backups: Seq<BackupView>,
    newest: Seq<PartView>,
    i: int,
)
    requires
        paths_differ(backups),
        limit <= i < backups.len(),
        backups[i].path != newest,
    ensures
        deleted(RetentionPolicy::KeepLast(limit), backups, newest).contains(backups[i].path),
{
    let retention = RetentionPolicy::KeepLast(limit);
    if kept(retention, backups, newest, backups[i].path) {
        let j = choose|j: int|
            0 <= j < backups.len() && #[trigger] backups[j].path == backups[i].path
                && kept_by_policy(retention, backups, j);
        assert(j < i);
        assert(backups[j].path != backups[i].path);
    }
    law_kept_or_deleted(retention, backups, newest, i);
}

/// Keeping more of the last backups keeps whatever keeping fewer keeps.
pub proof fn law_keep_last_is_monotone(
    fewer: usize,
    more: usize,
    backups: Seq<BackupView>,
    newest: Seq<PartView>,
    path: Seq<PartView>,
)
    requires
        fewer <= more,
        kept(RetentionPolicy::KeepLast(fewer), backups, newest, path),
    ensures
        kept(RetentionPolicy::KeepLast(more), backups, newest, path),
{
    if path != newest {
        let i = choose|i: int|
            0 <= i < backups.len() && #[trigger] backups[i].path == path && kept_by_policy(
                RetentionPolicy::KeepLast(fewer),
                backups,
                i,
            );
        assert(kept_by_policy(RetentionPolicy::KeepLast(more), backups, i));
    }
}

/// Behind the recent window, nothing stays but the newest backup and, for each checkpoint and each
/// of the past days asked for, the backup that serves it best.
pub proof fn law_tiered_deletes_the_others(
    policy: TieredRetentionPolicy,
    backups: Seq<BackupView>,
    newest: Seq<PartView>,
    i: int,
)
    requires
        paths_differ(backups),
        policy.keep_recent <= i < backups.len(),
        !kept_daily(policy, backups, i),
        backups[i].path != newest,
    ensures
        deleted(RetentionPolicy::Tiered(policy), backups, newest).contains(backups[i].path),
{
    let retention = RetentionPolicy::Tiered(policy);
    if kept(retention, backups, newest, backups[i].path) {
        let j = choose|j: int|
            0 <= j < backups.len() && #[trigger] backups[j].path == backups[i].path
                && kept_by_policy(retention, backups, j);
        if j < i {
            assert(backups[j].path != backups[i].path);
        } else if i < j {
            assert(backups[i].path != backups[j].path);
        }
    }
    law_kept_or_deleted(retention, backups, newest, i);
}

/// A backup of today, or of a day further back than asked for, is not kept as a daily one.
pub proof fn law_daily_window_is_bounded(
    policy: TieredRetentionPolicy,
    backups: Seq<BackupView>,
    i: int,
)
    requires
        0 <= i < backups.len(),
        backups[0].day() - backups[i].day() < 1 || backups[0].day() - backups[i].day()
            > policy.keep_daily_for_days,
    ensures
        !kept_daily(policy, backups, i),
{
}

/// The best backup for a checkpoint among the first `n` that fall on the day of backup `i`, or -1.
proof fn find_pick(
    policy: TieredRetentionPolicy,
    backups: Seq<BackupView>,
    i: int,
    checkpoint: ClockTime,
    n: int,
) -> (best: int)
    requires
        0 <= n <= backups.len(),
        0 <= i < backups.len(),
    ensures
        -1 <= best < n,
        best == -1 ==> forall|j: int| #[trigger]
            in_daily_window(policy, backups, j) && j < n ==> !same_day(backups, i, j),
        best >= 0 ==> {
            &&& in_daily_window(policy, backups, best)
            &&& same_day(backups, i, best)
            &&& forall|j: int| #[trigger]
                in_daily_window(policy, backups, j) && j < n && j != best && same_day(backups, i, j)
                    ==> !backups[j].serves_better(backups[best], checkpoint)
            &&& forall|j: int| #[trigger]
                in_daily_window(policy, backups, j) && j < best && same_day(backups, i, j)
                    ==> backups[best].serves_better(backups[j], checkpoint)
        },
    decreases n,
{
    if n == 0 {
        -1
    } else {
        let best = find_pick(policy, backups, i, checkpoint, n - 1);
        let last = n - 1;
        if in_daily_window(policy, backups, last) && same_day(backups, i, last) && (best == -1
            || backups[last].serves_better(backups[best], checkpoint)) {
            assert forall|j: int| #[trigger]
                in_daily_window(policy, backups, j) && j < last && same_day(
                    backups,
                    i,
                    j,
                ) implies backups[last].serves_better(backups[j], checkpoint) && !backups[j].serves_better(
                backups[last],
                checkpoint,
            ) by {
                if j != best {
                    assert(!backups[j].serves_better(backups[best], checkpoint));
                }
            }
            last
        } else {
            best
        }
    }
}

/// Each of the past days asked for that has a backup behind the recent window keeps one for every
/// checkpoint.
pub proof fn law_every_past_day_keeps_a_backup(
    policy: TieredRetentionPolicy,
    backups: Seq<BackupView>,
    newest: Seq<PartView>,
    i: int,
    c: int,
)
    requires
        in_daily_window(policy, backups, i),
        0 <= c < policy.daily_checkpoints@.len(),
    ensures
        exists|k: int|
            {
                &&& 0 <= k < backups.len()
                &&& same_day(backups, i, k)
                &&& #[trigger] daily_pick(policy, backups, k, policy.daily_checkpoints@[c])
                &&& !deleted(RetentionPolicy::Tiered(policy), backups, newest).contains(
                    backups[k].path,
                )
            },
{
    let checkpoint = policy.daily_checkpoints@[c];
    let k = find_pick(policy, backups, i, checkpoint, backups.len() as int);
    assert(daily_pick(policy, backups, k, checkpoint)) by {
        assert forall|j: int| #[trigger]
            in_daily_window(policy, backups, j) && j != k && same_day(
                backups,
                k,
                j,
            ) implies !backups[j].serves_better(backups[k], checkpoint) by {
            assert(same_day(backups, i, j));
        }
        assert forall|j: int| #[trigger]
            in_daily_window(policy, backups, j) && j < k && same_day(
                backups,
                k,
                j,
            ) implies backups[k].serves_better(backups[j], checkpoint) by {
            assert(same_day(backups, i, j));
        }
    }
    let retention = RetentionPolicy::Tiered(policy);
    assert(kept_daily(policy, backups, k));
    assert(kept_by_policy(retention, backups, k));
    law_kept_or_deleted(retention, backups, newest, k);
}

/// Applying retention to what it left deletes nothing more, where the newest backup is the first.
pub proof fn law_retention_is_idempotent(
    retention: RetentionPolicy,
    backups: Seq<BackupView>,
    newest: Seq<PartView>,
)
    requires
        paths_differ(backups),
        backups.len() > 0,
        backups[0].path == newest,
    ensures
        deleted(retention, remaining(retention, backups, newest), newest).len() == 0,
{
    let left = remaining(retention, backups, newest);
    let stays = |b: BackupView| kept(retention, backups, newest, b.path);
    let places = lemma_filter_places(backups, stays);
    if retention !is KeepAll {
        assert forall|k: int| 0 <= k < left.len() implies kept(
            retention,
            left,
            newest,
            (#[trigger] left[k]).path,
        ) by {
            lemma_kept_stays_kept(retention, backups, newest, left, places, k);
        }
        let goes = |b: BackupView| !kept(retention, left, newest, b.path);
        let gone = lemma_filter_places(left, goes);
        if gone.len() > 0 {
            assert(goes(left[gone[0]]));
        }
    }
}

/// The places of what is left begin with all the places up to `n`, if all of those stay.
proof fn lemma_leading_places(places: Seq<int>, n: int, k: int)
    requires
        forall|i: int| 0 <= i < n ==> places.contains(i),
        forall|k: int, l: int|
            0 <= k < l < places.len() ==> #[trigger] places[k] < #[trigger] places[l],
        forall|k: int| 0 <= k < places.len() ==> k <= #[trigger] places[k],
        0 <= k < n,
    ensures
        k < places.len(),
        places[k] == k,
    decreases k,
{
    assert(places.contains(k));
    let l = choose|l: int| 0 <= l < places.len() && places[l] == k;
    if l < k {
        lemma_leading_places(places, n, l);
    } else if l > k {
        assert(places[k] < places[l]);
    }
}

/// A backup that stays is kept again.
proof fn lemma_kept_stays_kept(
    retention: RetentionPolicy,
    backups: Seq<BackupView>,
    newest: Seq<PartView>,
    left: Seq<BackupView>,
    places: Seq<int>,
    k: int,
)
    requires
        paths_differ(backups),
        backups.len() > 0,
        backups[0].path == newest,
        places.len() == left.len(),
        forall|k: int|
            0 <= k < places.len() ==> {
                let place = #[trigger] places[k];
                &&& 0 <= place < backups.len()
                &&& kept(retention, backups, newest, backups[place].path)
                &&& left[k] == backups[place]
                &&& k <= place
            },
        forall|k: int, l: int|
            0 <= k < l < places.len() ==> #[trigger] places[k] < #[trigger] places[l],
        forall|i: int|
            0 <= i < backups.len() && kept(retention, backups, newest, (#[trigger] backups[i]).path)
                ==> places.contains(i),
        0 <= k < left.len(),
    ensures
        kept(retention, left, newest, left[k].path),
{
    let i = places[k];
    if left[k].path != newest {
        let j = choose|j: int|
            0 <= j < backups.len() && #[trigger] backups[j].path == left[k].path && kept_by_policy(
                retention,
                backups,
                j,
            );
        if j < i {
            assert(backups[j].path != backups[i].path);
        } else if i < j {
            assert(backups[i].path != backups[j].path);
        }
        assert(kept_by_policy(retention, backups, i));
        match retention {
            RetentionPolicy::KeepAll => {},
            RetentionPolicy::KeepLast(limit) => {
                assert(kept_by_policy(retention, left, k));
            },
            RetentionPolicy::Tiered(policy) => {
                if i >= policy.keep_recent {
                    lemma_pick_stays_pick(policy, backups, newest, left, places, k);
                }
                assert(kept_by_policy(retention, left, k));
            },
        }
        assert(left[k].path == left[k].path);
    }
}

/// A backup that serves a checkpoint best still does so among what is left.
proof fn lemma_pick_stays_pick(
    policy: TieredRetentionPolicy,
    backups: Seq<BackupView>,
    newest: Seq<PartView>,
    left: Seq<BackupView>,
    places: Seq<int>,
    k: int,
)
    requires
        backups.len() > 0,
        backups[0].path == newest,
        places.len() == left.len(),
        forall|k: int|
            0 <= k < places.len() ==> {
                let place = #[trigger] places[k];
                &&& 0 <= place < backups.len()
                &&& left[k] == backups[place]
                &&& k <= place
            },
        forall|k: int, l: int|
            0 <= k < l < places.len() ==> #[trigger] places[k] < #[trigger] places[l],
        forall|i: int|
            0 <= i < backups.len() && kept(
                RetentionPolicy::Tiered(policy),
                backups,
                newest,
                (#[trigger] backups[i]).path,
            ) ==> places.contains(i),
        0 <= k < left.len(),
        kept_daily(policy, backups, places[k]),
    ensures
        kept_daily(policy, left, k),
{
    let retention = RetentionPolicy::Tiered(policy);
    let i = places[k];
    let c = choose|c: int|
        0 <= c < policy.daily_checkpoints@.len() && #[trigger] daily_pick(
            policy,
            backups,
            i,
            policy.daily_checkpoints@[c],
        );
    let checkpoint = policy.daily_checkpoints@[c];
    let recent: int = if policy.keep_recent < backups.len() {
        policy.keep_recent as int
    } else {
        backups.len() as int
    };
    assert forall|r: int| 0 <= r < recent implies places.contains(r) by {
        assert(kept_by_policy(retention, backups, r));
        assert(kept(retention, backups, newest, backups[r].path));
    }
    assert(places.contains(0)) by {
        assert(kept(retention, backups, newest, backups[0].path));
    }
    lemma_leading_places(places, 1, 0);
    assert(left[0] == backups[0]);
    assert forall|l: int| 0 <= l < left.len() implies (policy.keep_recent <= l <==> policy.keep_recent
        <= #[trigger] places[l]) by {
        if l < policy.keep_recent && policy.keep_recent <= places[l] {
            lemma_leading_places(places, recent, l);
        }
    }
    assert forall|l: int| 0 <= l < left.len() implies #[trigger] in_daily_window(policy, left, l)
        == in_daily_window(policy, backups, places[l]) by {
        assert(left[l] == backups[places[l]]);
        assert(policy.keep_recent <= l <==> policy.keep_recent <= places[l]);
    }
    assert(in_daily_window(policy, left, k));
    assert forall|l: int| #[trigger]
        in_daily_window(policy, left, l) && l != k && same_day(left, k, l) implies !left[l].serves_better(
        left[k],
        checkpoint,
    ) by {
        assert(in_daily_window(policy, backups, places[l]));
        assert(same_day(backups, i, places[l]));
        if l < k {
            assert(places[l] < places[k]);
        } else {
            assert(places[k] < places[l]);
        }
    }
    assert forall|l: int| #[trigger]
        in_daily_window(policy, left, l) && l < k && same_day(left, k, l) implies left[k].serves_better(
        left[l],
        checkpoint,
    ) by {
        assert(in_daily_window(policy, backups, places[l]));
        assert(same_day(backups, i, places[l]));
        assert(places[l] < places[k]);
    }
    assert(daily_pick(policy, left, k, policy.daily_checkpoints@[c]));
}

} // verus!
