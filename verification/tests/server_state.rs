use world_backup::hooks::{log_level, LogLevel};
use world_backup::path::{FsPath, PathPart};
use world_backup::server_state::{
    is_lock_conflict, lock_path, world_appears_running, LockError, LockProbe,
};

#[test]
fn missing_session_lock_means_not_running() {
    assert!(!world_appears_running(LockProbe::NotFound).unwrap());
}

#[test]
fn unlocked_session_lock_means_not_running() {
    assert!(!world_appears_running(LockProbe::Unlocked).unwrap());
}

#[test]
fn server_state_locked_session_lock_means_running() {
    assert!(world_appears_running(LockProbe::Locked).unwrap());
}

#[test]
fn failures_to_look_are_told_apart() {
    match world_appears_running(LockProbe::OpenFailed("denied".to_string())) {
        Err(LockError::Open(reason)) => assert_eq!(reason, "denied"),
        other => panic!("unexpected result: {other:?}"),
    }
    match world_appears_running(LockProbe::InspectFailed("odd".to_string())) {
        Err(LockError::Inspect(reason)) => assert_eq!(reason, "odd"),
        other => panic!("unexpected result: {other:?}"),
    }
}

#[test]
fn lock_file_lies_in_the_world() {
    let world = FsPath { parts: vec![PathPart::RootDir, PathPart::Normal("world".to_string())] };
    assert_eq!(lock_path(&world).file_name().as_deref(), Some("session.lock"));
    assert!(lock_path(&world).starts_with(&world));
}

#[test]
fn lock_conflicts_are_told_by_kind_or_code() {
    assert!(is_lock_conflict(true, None));
    assert!(is_lock_conflict(false, Some(33)));
    assert!(!is_lock_conflict(false, Some(5)));
    assert!(!is_lock_conflict(false, None));
}

#[test]
fn more_is_told_the_more_is_asked_for() {
    assert_eq!(log_level(0), LogLevel::Info);
    assert_eq!(log_level(1), LogLevel::Debug);
    assert_eq!(log_level(2), LogLevel::Trace);
    assert_eq!(log_level(255), LogLevel::Trace);
}
