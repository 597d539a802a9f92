use world_backup::backup::BackupConfig;
use world_backup::cli::CompressionFormat;
use world_backup::exclude::{ExcludeError, Exclusions};
use world_backup::path::{FsPath, PathPart};
use world_backup::retention::RetentionPolicy;
use world_backup::snapshot::{
    name_in_archive, plan_copy, should_visit, walk_reaches, ArchiveNameError, CopyPlan, EntryKind,
    SnapshotError,
};

fn path(text: &str) -> FsPath {
    let mut parts = Vec::new();
    if text.starts_with('/') {
        parts.push(PathPart::RootDir);
    }
    for name in text.split('/') {
        if !name.is_empty() {
            parts.push(PathPart::Normal(name.to_string()));
        }
    }
    FsPath { parts }
}

fn config(exclude: &[&str], include_session_lock: bool) -> BackupConfig {
    BackupConfig {
        source: path("/srv/world"),
        target_dir: path("/srv/world-backups"),
        name: "world".to_string(),
        compression: CompressionFormat::Zip,
        compression_level: None,
        retention: RetentionPolicy::KeepAll,
        exclude: exclude.iter().map(|text| text.to_string()).collect(),
        day_directories: false,
        include_session_lock,
        pre_command: None,
        post_command: None,
    }
}

#[test]
fn the_lock_file_is_left_out_unless_wanted() {
    let world = path("/srv/world");
    let lock = path("/srv/world/session.lock");
    let standard = Exclusions::new(&config(&[], false)).unwrap();
    assert!(standard.is_match(&path("session.lock")));
    assert!(!standard.is_match(&path("region/session.lock")));
    assert!(!standard.is_match(&path("level.dat")));
    assert!(!standard.is_match(&path("")));
    assert!(!should_visit(&lock, &world, &standard));
    let wanted = Exclusions::new(&config(&[], true)).unwrap();
    assert!(should_visit(&lock, &world, &wanted));
}

#[test]
fn globs_leave_files_out() {
    let world = path("/srv/world");
    let exclusions = Exclusions::new(&config(&["logs/**", "cache\\*.tmp"], false)).unwrap();
    assert!(!should_visit(&path("/srv/world/logs/latest.log"), &world, &exclusions));
    assert!(!should_visit(&path("/srv/world/cache/a.tmp"), &world, &exclusions));
    assert!(should_visit(&path("/srv/world/cache/a.dat"), &world, &exclusions));
    assert!(!should_visit(&path("/srv/world/session.lock"), &world, &exclusions));
    assert!(should_visit(&world, &world, &exclusions));
    assert!(should_visit(&path("/elsewhere/logs/x"), &world, &exclusions));
}

#[test]
fn the_walk_stays_out_of_directories_that_are_left_out() {
    let world = path("/srv/world");
    let exclusions = Exclusions::new(&config(&["logs"], false)).unwrap();
    let reaches = |text: &str| walk_reaches(&path(text), &world, &exclusions);
    assert!(!reaches("/srv/world/logs"));
    assert!(!reaches("/srv/world/logs/a"));
    assert!(!reaches("/srv/world/logs/old/a"));
    assert!(!reaches("/srv/world/session.lock"));
    assert!(reaches("/srv/world"));
    assert!(reaches("/srv/world/region/logs"));
    assert!(reaches("/srv/world/logs2/a"));
    assert!(reaches("/elsewhere/logs/a"));
    assert!(!should_visit(&path("/srv/world/logs"), &world, &exclusions));
    assert!(should_visit(&path("/srv/world/logs/a"), &world, &exclusions));
}

#[test]
fn patterns_that_are_no_globs_are_refused() {
    match Exclusions::new(&config(&["fine", "odd[", "{"], false)) {
        Err(ExcludeError::InvalidPattern { pattern, reason }) => {
            assert_eq!(pattern, "odd[");
            assert!(reason.contains("odd["));
        }
        other => panic!("unexpected result: {other:?}"),
    }
}

#[test]
fn patterns_may_be_too_large_together() {
    let pattern = "?".repeat(1_000_000);
    match Exclusions::new(&config(&[&pattern], false)) {
        Err(ExcludeError::Unbuildable(reason)) => assert!(!reason.is_empty()),
        Err(ExcludeError::InvalidPattern { .. }) => panic!("the pattern is a glob"),
        Ok(_) => panic!("the pattern is not too large"),
    }
}

#[test]
fn entries_are_copied_to_their_place() {
    let world = path("/srv/world");
    let root = path("/b/.staging/world-1");
    let file = plan_copy(&path("/srv/world/region/r.0.0.mca"), EntryKind::File, &world, &root);
    match file {
        Ok(CopyPlan::CopyFile(to)) => {
            assert!(to.same(&path("/b/.staging/world-1/region/r.0.0.mca")))
        }
        other => panic!("unexpected plan: {other:?}"),
    }
    match plan_copy(&path("/srv/world/region"), EntryKind::Directory, &world, &root) {
        Ok(CopyPlan::MakeDirectory(to)) => assert!(to.same(&path("/b/.staging/world-1/region"))),
        other => panic!("unexpected plan: {other:?}"),
    }
    assert!(matches!(
        plan_copy(&world, EntryKind::Directory, &world, &root),
        Ok(CopyPlan::Nothing)
    ));
    assert!(matches!(
        plan_copy(&world, EntryKind::Symlink, &world, &root),
        Ok(CopyPlan::Nothing)
    ));
    assert!(matches!(
        plan_copy(&path("/srv/world/link"), EntryKind::Symlink, &world, &root),
        Err(SnapshotError::Symlink)
    ));
    assert!(matches!(
        plan_copy(&path("/srv/other"), EntryKind::File, &world, &root),
        Err(SnapshotError::OutsideSource)
    ));
}

#[test]
fn archives_hold_the_snapshot_under_its_own_name() {
    let root = path("/b/.staging/world-1");
    assert_eq!(name_in_archive(&root, true, &root), Ok("world-1/".to_string()));
    assert_eq!(
        name_in_archive(&path("/b/.staging/world-1/region"), true, &root),
        Ok("world-1/region/".to_string())
    );
    assert_eq!(
        name_in_archive(&path("/b/.staging/world-1/region/r.0.0.mca"), false, &root),
        Ok("world-1/region/r.0.0.mca".to_string())
    );
    assert_eq!(name_in_archive(&path("/c"), false, &root), Err(ArchiveNameError::Outside));
    assert_eq!(name_in_archive(&path("/c"), false, &path("/")), Err(ArchiveNameError::NoParent));
}
