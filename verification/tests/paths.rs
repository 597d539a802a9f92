use world_backup::artifact::{
    artifact_at, build_artifact, has_clean_cut, parse_backup_timestamp, partial_path,
};
use world_backup::backup::{artifact_size, ensure_target_is_not_inside_source};
use world_backup::cli::CompressionFormat;
use world_backup::path::{normalize_path, FsPath, PathPart, PathSet};
use world_backup::time::{Timestamp, DAY, FIRST_SECOND, LAST_SECOND};

fn path(text: &str) -> FsPath {
    let mut parts = Vec::new();
    if text.starts_with('/') {
        parts.push(PathPart::RootDir);
    }
    for name in text.split('/') {
        match name {
            "" => {}
            "." => parts.push(PathPart::CurDir),
            ".." => parts.push(PathPart::ParentDir),
            _ => parts.push(PathPart::Normal(name.to_string())),
        }
    }
    FsPath { parts }
}

fn at(secs: i64) -> Timestamp {
    Timestamp { secs, nanos: 0 }
}

#[test]
fn paths_are_written_with_slashes() {
    assert_eq!(normalize_path(&path("/a/b/c")), "/a/b/c");
    assert_eq!(normalize_path(&path("a/b")), "a/b");
    assert_eq!(normalize_path(&path("")), "");
    assert_eq!(normalize_path(&path("./a/..")), "./a/..");
    let odd = FsPath { parts: vec![PathPart::Normal("a\\b".to_string())] };
    assert_eq!(normalize_path(&odd), "a/b");
    let windows = FsPath {
        parts: vec![
            PathPart::Prefix("C:".to_string()),
            PathPart::RootDir,
            PathPart::Normal("server".to_string()),
        ],
    };
    assert_eq!(normalize_path(&windows), "C:/server");
    assert!(windows.is_rooted());
    let opaque = FsPath {
        parts: vec![PathPart::Opaque { encoded: vec![0xff], lossy: "\u{fffd}".to_string() }],
    };
    assert_eq!(normalize_path(&opaque), "\u{fffd}");
    assert_eq!(opaque.file_name(), None);
}

#[test]
fn paths_come_apart_and_together() {
    assert!(path("/a/b").parent().unwrap().same(&path("/a")));
    assert!(path("/").parent().is_none());
    assert!(path("").parent().is_none());
    assert!(path("/a").join(&path("b/c")).same(&path("/a/b/c")));
    assert!(path("/a").join(&path("/b")).same(&path("/b")));
    assert!(path("/a").join(&path("./b")).same(&path("/a/b")));
    assert!(path("/a/b").strip_prefix(&path("/a")).unwrap().same(&path("b")));
    assert!(path("/a/b").strip_prefix(&path("/b")).is_none());
    assert!(path("/a/bc").strip_prefix(&path("/a/b")).is_none());
    assert!(path("/a/b").with_file_name("c").same(&path("/a/c")));
    assert!(path("/a").is_rooted());
    assert!(!path("a").is_rooted());
}

#[test]
fn roots_without_a_drive_are_those_of_the_drive_before_them() {
    let rest = [PathPart::Normal("b".to_string()), PathPart::Normal("c".to_string())];
    let mut current = FsPath { parts: vec![PathPart::DriveRoot] };
    current.parts.extend(rest.clone());
    assert!(!current.is_rooted());
    assert_eq!(normalize_path(&current), "/b/c");
    let base = FsPath {
        parts: vec![
            PathPart::Prefix("D:".to_string()),
            PathPart::RootDir,
            PathPart::Normal("a".to_string()),
        ],
    };
    let mut whole = FsPath { parts: vec![PathPart::Prefix("D:".to_string()), PathPart::RootDir] };
    whole.parts.extend(rest);
    assert!(base.join(&current).same(&whole));
    assert!(whole.is_rooted());
    assert!(path("a").join(&current).same(&current));
    assert!(FsPath { parts: vec![PathPart::DriveRoot] }.parent().is_none());
}

#[test]
fn paths_are_ordered_like_their_components() {
    let paths = [path("/a"), path("a"), path("a/b"), path("a/c"), path("ab"), path("b")];
    for (i, left) in paths.iter().enumerate() {
        for (j, right) in paths.iter().enumerate() {
            assert_eq!(left.before(right), i < j, "{i} {j}");
        }
    }
}

#[test]
fn sets_hold_a_path_once() {
    let mut set = PathSet::new();
    set.insert(&path("a"));
    set.insert(&path("b"));
    set.insert(&path("a"));
    assert_eq!(set.len(), 2);
    assert!(set.contains(&path("a")));
    assert!(!set.contains(&path("c")));
}

#[test]
fn backups_are_named_by_their_time() {
    let moment = at(1_767_225_599);
    let zip = build_artifact(&path("/b"), "atm10", CompressionFormat::Zip, &moment, false);
    assert_eq!(zip.base_name, "atm10-20251231T235959Z");
    assert!(zip.final_path.same(&path("/b/atm10-20251231T235959Z.zip")));
    let plain =
        build_artifact(&path("/b"), "atm10", CompressionFormat::Uncompressed, &moment, false);
    assert!(plain.final_path.same(&path("/b/atm10-20251231T235959Z")));
    let zst = artifact_at(&path("/b"), "w", CompressionFormat::TarZst, &moment, Some(3_600));
    assert!(zst.final_path.same(&path("/b/2026-01-01/w-20251231T235959Z.tar.zst")));
    let zst = artifact_at(&path("/b"), "w", CompressionFormat::TarZst, &moment, Some(-3_600));
    assert!(zst.final_path.same(&path("/b/2025-12-31/w-20251231T235959Z.tar.zst")));
}

#[test]
fn day_directories_are_those_of_the_local_day() {
    let moment = at(1_767_225_599);
    let local = chrono::DateTime::from_timestamp(moment.secs, 0)
        .unwrap()
        .with_timezone(&chrono::Local);
    let expected = path("/b").join_name(&local.format("%Y-%m-%d").to_string());
    let made = build_artifact(&path("/b"), "w", CompressionFormat::TarGz, &moment, true);
    assert!(made.final_path.parent().unwrap().same(&expected));
}

#[test]
fn times_at_the_ends_of_the_calendar_can_be_written() {
    let first = chrono::DateTime::<chrono::Utc>::MIN_UTC.timestamp();
    let last = chrono::DateTime::<chrono::Utc>::MAX_UTC.timestamp();
    assert_eq!(first, FIRST_SECOND);
    assert_eq!(last, LAST_SECOND);
    for secs in [FIRST_SECOND + DAY, LAST_SECOND - DAY] {
        let made = build_artifact(&path("b"), "w", CompressionFormat::Zip, &at(secs), true);
        assert!(made.base_name.starts_with("w-"));
    }
}

#[test]
fn the_time_in_a_name_is_found_again() {
    for secs in [0, 951_782_400, 1_767_225_599, 253_402_300_799, -62_167_219_200] {
        for format in [
            CompressionFormat::Uncompressed,
            CompressionFormat::Zip,
            CompressionFormat::TarGz,
            CompressionFormat::TarZst,
        ] {
            let made = build_artifact(&path("b"), "my-w", format, &at(secs), false);
            let name = made.final_path.file_name().unwrap();
            assert_eq!(parse_backup_timestamp("my-w-", &name), Some(at(secs)));
        }
    }
    for world in ["", ".", "w:1", "who?", "*", "con", "a.zip"] {
        let made = build_artifact(&path("b"), world, CompressionFormat::Zip, &at(0), false);
        let name = made.final_path.file_name().unwrap();
        assert_eq!(name, format!("{world}-19700101T000000Z.zip"));
        assert_eq!(parse_backup_timestamp(&format!("{world}-"), &name), Some(at(0)));
    }
}

#[test]
fn the_digits_of_a_timestamp_mean_its_time() {
    let read = |stamp: &str| parse_backup_timestamp("w-", &format!("w-{stamp}.zip"));
    assert_eq!(read("19700101T000000Z"), Some(at(0)));
    assert_eq!(read("20200229T123456Z"), Some(at(1_582_979_696)));
    assert_eq!(read("00000101T000000Z"), Some(at(-62_167_219_200)));
    assert_eq!(read("99991231T235959Z"), Some(at(253_402_300_799)));
    assert_eq!(
        read("20161231T235960Z"),
        Some(Timestamp { secs: 1_483_228_799, nanos: 1_000_000_000 })
    );
    for none in [
        "20190229T000000Z",
        "19000229T000000Z",
        "20200001T000000Z",
        "20200100T000000Z",
        "20200431T000000Z",
        "20200101T240000Z",
        "20200101T006000Z",
        "20200101T000061Z",
    ] {
        assert_eq!(read(none), None, "{none}");
    }
}

#[test]
fn names_are_ordered_like_the_times_in_them() {
    let stamps = [
        "00000229T000000Z",
        "19991231T235959Z",
        "19991231T235960Z",
        "20000101T000000Z",
        "20000229T000000Z",
        "20000301T000000Z",
        "20200101T000000Z",
        "20200102T000000Z",
    ];
    for pair in stamps.windows(2) {
        assert!(pair[0] < pair[1]);
        let earlier = parse_backup_timestamp("", pair[0]).unwrap();
        let later = parse_backup_timestamp("", pair[1]).unwrap();
        assert!(later.is_later(&earlier));
    }
}

#[test]
fn the_label_of_a_day_means_that_day() {
    for (secs, ahead, label) in [
        (0, 0, "1970-01-01"),
        (-1, 0, "1969-12-31"),
        (951_782_399, 1, "2000-02-29"),
        (951_868_799, 0, "2000-02-29"),
        (-62_167_219_200, 0, "0000-01-01"),
    ] {
        let made =
            artifact_at(&path("/b"), "w", CompressionFormat::Zip, &at(secs), Some(ahead));
        assert_eq!(made.final_path.parent().unwrap().file_name().unwrap(), label);
    }
}

#[test]
fn names_without_a_timestamp_are_no_backups() {
    for name in [
        "w-20200101T000000",
        "w-20200101T000000Zx",
        "w-20201301T000000Z",
        "w-20200101 000000Z",
        "v-20200101T000000Z",
        "w",
        "",
    ] {
        assert!(has_clean_cut("w-", name));
        assert_eq!(parse_backup_timestamp("w-", name), None, "{name}");
    }
    assert_eq!(
        parse_backup_timestamp("w-", "w-19700101T000001Z.anything"),
        Some(at(1))
    );
    assert!(!has_clean_cut("w-", "w-20200101T000000\u{20ac}"));
}

#[test]
fn unfinished_backups_are_hidden_beside_the_finished() {
    assert!(partial_path(&path("/b/w.zip")).same(&path("/b/.w.zip.partial")));
    assert!(partial_path(&path("/")).same(&path("/.backup.partial")));
    let name = partial_path(&path("/b/w-20200101T000000Z.zip")).file_name().unwrap();
    assert_eq!(parse_backup_timestamp("w-", &name), None);
}

#[test]
fn targets_inside_the_world_are_refused() {
    let world = path("/srv/world");
    assert!(ensure_target_is_not_inside_source(&world, &path("/srv/world-backups"), None).is_ok());
    let refused = ensure_target_is_not_inside_source(&world, &path("/srv/world/b"), None);
    assert!(refused.unwrap_err().same(&path("/srv/world/b")));
    assert!(ensure_target_is_not_inside_source(&world, &world, None).is_err());
    let resolved = Some(path("/srv/world/b"));
    assert!(ensure_target_is_not_inside_source(&world, &path("/link"), resolved).is_err());
    let resolved = Some(path("/elsewhere"));
    assert!(ensure_target_is_not_inside_source(&world, &path("/srv/world/b"), resolved).is_ok());
}

#[test]
fn sizes_add_up() {
    assert_eq!(artifact_size(&[]), Some(0));
    assert_eq!(artifact_size(&[5, 7, 30]), Some(42));
    assert_eq!(artifact_size(&[u64::MAX]), Some(u64::MAX));
    assert_eq!(artifact_size(&[u64::MAX, 1]), None);
}
