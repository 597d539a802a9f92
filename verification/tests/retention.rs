use chrono::{Duration, Local, Offset, TimeZone, Utc};
use world_backup::path::{FsPath, PathPart};
use world_backup::retention::{
    collect_managed_backups, enforce_retention, is_clean_entry, select_backup_for_checkpoint,
    select_backups_to_delete, select_backups_to_keep, ManagedBackup, RetentionPolicy,
    TieredRetentionPolicy,
};
use world_backup::time::{ClockTime, Timestamp};

fn file(name: &str) -> FsPath {
    FsPath { parts: vec![PathPart::Normal(name.to_string())] }
}

fn in_dir(dir: &str, name: &str) -> FsPath {
    FsPath {
        parts: vec![PathPart::Normal(dir.to_string()), PathPart::Normal(name.to_string())],
    }
}

fn clock(hours: u32, minutes: u32) -> ClockTime {
    ClockTime { secs: hours * 3600 + minutes * 60, nanos: 0 }
}

fn managed_backup(timestamp_utc: chrono::DateTime<Utc>) -> ManagedBackup {
    let file_name = format!("atm10-{}.zip", timestamp_utc.format("%Y%m%dT%H%M%SZ"));
    let local = timestamp_utc.with_timezone(&Local);
    ManagedBackup {
        path: file(&file_name),
        timestamp_utc: Timestamp { secs: timestamp_utc.timestamp(), nanos: 0 },
        local_offset: local.offset().fix().local_minus_utc(),
    }
}

fn backup_at(day: i64, hour: i64, minute: i64) -> ManagedBackup {
    let secs = day * 86_400 + hour * 3_600 + minute * 60;
    ManagedBackup {
        path: file(&format!("b{secs}")),
        timestamp_utc: Timestamp { secs, nanos: 0 },
        local_offset: 0,
    }
}

fn names(paths: &[FsPath]) -> Vec<String> {
    paths.iter().map(|path| path.file_name().unwrap()).collect()
}

fn tiered(recent: usize, days: usize, checkpoints: Vec<ClockTime>) -> RetentionPolicy {
    RetentionPolicy::Tiered(TieredRetentionPolicy {
        keep_recent: recent,
        keep_daily_for_days: days,
        daily_checkpoints: checkpoints,
    })
}

#[test]
fn tiered_retention_keeps_recent_window_and_daily_checkpoints() {
    let start_local = Local.with_ymd_and_hms(2026, 2, 10, 0, 0, 0).single().unwrap();
    let mut backups = Vec::new();
    for step in 0..96 {
        let local_time = start_local + Duration::minutes((step * 30) as i64);
        backups.push(managed_backup(local_time.with_timezone(&Utc)));
    }
    backups.sort_by(|left, right| right.timestamp_utc.secs.cmp(&left.timestamp_utc.secs));

    let newest_path = backups.first().unwrap().path.clone();
    let keep = select_backups_to_keep(
        &RetentionPolicy::Tiered(TieredRetentionPolicy {
            keep_recent: 48,
            keep_daily_for_days: 14,
            daily_checkpoints: vec![clock(0, 0), clock(12, 0)],
        }),
        &backups,
        &newest_path,
    );

    assert_eq!(keep.len(), 50);

    let previous_midnight = managed_backup(
        Local
            .with_ymd_and_hms(2026, 2, 10, 0, 0, 0)
            .single()
            .unwrap()
            .with_timezone(&Utc),
    );
    let previous_noon = managed_backup(
        Local
            .with_ymd_and_hms(2026, 2, 10, 12, 0, 0)
            .single()
            .unwrap()
            .with_timezone(&Utc),
    );
    let previous_extra = managed_backup(
        Local
            .with_ymd_and_hms(2026, 2, 10, 12, 30, 0)
            .single()
            .unwrap()
            .with_timezone(&Utc),
    );

    assert!(keep.contains(&previous_midnight.path));
    assert!(keep.contains(&previous_noon.path));
    assert!(!keep.contains(&previous_extra.path));
}

#[test]
fn backups_are_found_among_entries_newest_first() {
    let entries = vec![
        file("atm10-20200101T000000Z.zip"),
        file("other-20200105T000000Z.zip"),
        file("atm10-20200103T000000Z"),
        file("atm10-20200102T000000Z.tar.zst"),
        file("atm10-20200104T000000Zzip"),
        file("atm10-2020"),
        file("atm10-20201399T000000Z.zip"),
        file(".atm10-20200104T000000Z.zip.partial"),
        in_dir("2020-01-06", "atm10-20200106T120000Z.zip"),
        FsPath { parts: vec![PathPart::RootDir] },
    ];
    let backups = collect_managed_backups(&entries, "atm10");
    let found: Vec<String> = backups.iter().map(|b| b.path.file_name().unwrap()).collect();
    assert_eq!(
        found,
        vec![
            "atm10-20200106T120000Z.zip",
            "atm10-20200103T000000Z",
            "atm10-20200102T000000Z.tar.zst",
            "atm10-20200101T000000Z.zip",
        ]
    );
    let expected = Utc.with_ymd_and_hms(2020, 1, 3, 0, 0, 0).single().unwrap();
    assert_eq!(backups[1].timestamp_utc, Timestamp { secs: expected.timestamp(), nanos: 0 });
    let local = expected.with_timezone(&Local);
    assert_eq!(backups[1].local_offset, local.offset().fix().local_minus_utc());
}

#[test]
fn equal_times_are_ordered_by_path() {
    let entries = vec![
        file("w-20200101T000000Z.tar.gz"),
        file("w-20200101T000000Z.zip"),
        file("w-20200101T000000Z"),
    ];
    let backups = collect_managed_backups(&entries, "w");
    let found: Vec<String> = backups.iter().map(|b| b.path.file_name().unwrap()).collect();
    assert_eq!(
        found,
        vec!["w-20200101T000000Z.zip", "w-20200101T000000Z.tar.gz", "w-20200101T000000Z"]
    );
}

#[test]
fn keep_last_deletes_all_but_the_newest() {
    let entries = vec![
        file("atm10-20200101T000000Z.zip"),
        file("atm10-20200102T000000Z.zip"),
        file("other-20200101T000000Z.zip"),
        file("atm10-20260101T000000Z.zip"),
    ];
    let newest = file("atm10-20260101T000000Z.zip");
    let gone = enforce_retention(&entries, "atm10", &RetentionPolicy::KeepLast(2), &newest);
    assert_eq!(names(&gone), vec!["atm10-20200101T000000Z.zip"]);
    let gone = enforce_retention(&entries, "atm10", &RetentionPolicy::KeepAll, &newest);
    assert!(gone.is_empty());
}

#[test]
fn the_new_backup_stays_even_if_it_is_not_the_newest() {
    let entries = vec![file("w-20200101T000000Z.zip"), file("w-20300101T000000Z.zip")];
    let newest = file("w-20200101T000000Z.zip");
    let gone = enforce_retention(&entries, "w", &RetentionPolicy::KeepLast(1), &newest);
    assert!(gone.is_empty());
}

#[test]
fn retention_twice_deletes_nothing_more() {
    let mut backups: Vec<ManagedBackup> = Vec::new();
    for day in (0..6).rev() {
        for hour in [23, 13, 11, 1] {
            backups.push(backup_at(day, hour, 0));
        }
    }
    let newest = backups[0].path.clone();
    let policy = tiered(3, 4, vec![clock(0, 0), clock(12, 0)]);
    let gone = names(&select_backups_to_delete(&policy, &backups, &newest));
    let left: Vec<ManagedBackup> = backups
        .iter()
        .filter(|b| !gone.contains(&b.path.file_name().unwrap()))
        .cloned()
        .collect();
    assert_eq!(gone.len() + left.len(), backups.len());
    assert!(!gone.is_empty());
    assert!(select_backups_to_delete(&policy, &left, &newest).is_empty());
}

#[test]
fn days_beyond_the_window_keep_nothing() {
    let backups: Vec<ManagedBackup> = (0..5).rev().map(|day| backup_at(day, 12, 0)).collect();
    let newest = backups[0].path.clone();
    let gone = select_backups_to_delete(&tiered(1, 2, vec![clock(12, 0)]), &backups, &newest);
    assert_eq!(names(&gone).len(), 2);
    let keep = select_backups_to_keep(&tiered(1, 2, vec![clock(12, 0)]), &backups, &newest);
    assert!(keep.contains(&backup_at(4, 12, 0).path));
    assert!(keep.contains(&backup_at(3, 12, 0).path));
    assert!(keep.contains(&backup_at(2, 12, 0).path));
    assert!(!keep.contains(&backup_at(1, 12, 0).path));
    assert!(!keep.contains(&backup_at(0, 12, 0).path));
}

#[test]
fn every_day_of_the_window_keeps_a_backup() {
    let backups: Vec<ManagedBackup> = (0..8).rev().map(|day| backup_at(day, day, 7)).collect();
    let newest = backups[0].path.clone();
    let keep = select_backups_to_keep(&tiered(1, 7, vec![clock(20, 0)]), &backups, &newest);
    assert_eq!(keep.len(), 8);
}

#[test]
fn the_closest_backup_serves_a_checkpoint_and_of_two_the_newer() {
    let early = backup_at(3, 11, 0);
    let late = backup_at(3, 13, 0);
    let far = backup_at(3, 20, 0);
    let chosen = select_backup_for_checkpoint(&[&far, &late, &early], clock(12, 0)).unwrap();
    assert!(chosen.path.same(&late.path));
    let chosen = select_backup_for_checkpoint(&[&far, &late, &early], clock(11, 59)).unwrap();
    assert!(chosen.path.same(&early.path));
    assert!(select_backup_for_checkpoint(&[], clock(0, 0)).is_none());
}

#[test]
fn keeping_more_deletes_no_more() {
    let backups: Vec<ManagedBackup> = (0..6).rev().map(|day| backup_at(day, 3, 0)).collect();
    let newest = backups[0].path.clone();
    for limit in 0..7 {
        let some = select_backups_to_keep(&RetentionPolicy::KeepLast(limit), &backups, &newest);
        let more = select_backups_to_keep(&RetentionPolicy::KeepLast(limit + 1), &backups, &newest);
        for backup in &backups {
            assert!(!some.contains(&backup.path) || more.contains(&backup.path));
        }
        assert_eq!(some.len(), limit.clamp(1, 6));
    }
}

#[test]
fn huge_windows_keep_every_day() {
    let backups: Vec<ManagedBackup> = (0..6).rev().map(|day| backup_at(day, 3, 0)).collect();
    let newest = backups[0].path.clone();
    let keep = select_backups_to_keep(
        &tiered(1, usize::MAX, vec![clock(0, 0)]),
        &backups,
        &newest,
    );
    assert_eq!(keep.len(), 6);
}

#[test]
fn names_whose_timestamp_would_cut_a_character_are_told_apart() {
    assert!(is_clean_entry(&file("w-20200101T000000Z.zip"), "w"));
    assert!(is_clean_entry(&file("w-short"), "w"));
    assert!(is_clean_entry(&file("other"), "w"));
    assert!(!is_clean_entry(&file("w-20200101T000000\u{e9}.zip"), "w"));
    assert!(is_clean_entry(&file("w-20200101T00000\u{e9}.zip"), "w"));
}
