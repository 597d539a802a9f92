use std::collections::{BTreeMap, BTreeSet};
use world_backup::backup::{BackupConfig, BackupSummary};
use world_backup::cli::CompressionFormat;
use world_backup::exclude::ExcludeError;
use world_backup::job::{BackupJob, Failure, Hook, JobAction, JobError, JobEvent, Stage};
use world_backup::path::{normalize_path, FsPath, PathPart};
use world_backup::retention::RetentionPolicy;
use world_backup::snapshot::{EntryKind, SnapshotError};
use world_backup::time::Timestamp;

fn path(text: &str) -> FsPath {
    let mut parts = Vec::new();
    if text.starts_with('/') {
        parts.push(PathPart::RootDir);
    }
    for name in text.split('/') {
        if !name.is_empty() {
            parts.push(PathPart::Normal(name.to_string()));
        }
    }
    FsPath { parts }
}

/// Files and directories in memory, and what was done to them.
struct Disk {
    files: BTreeMap<String, String>,
    dirs: BTreeSet<String>,
    links: BTreeSet<String>,
    log: Vec<String>,
    fail: Option<Stage>,
}

impl Disk {
    fn new(files: &[(&str, &str)]) -> Disk {
        let mut disk = Disk {
            files: BTreeMap::new(),
            dirs: BTreeSet::new(),
            links: BTreeSet::new(),
            log: Vec::new(),
            fail: None,
        };
        for (name, content) in files {
            disk.files.insert(name.to_string(), content.to_string());
            let mut dir = *name;
            while let Some(cut) = dir.rfind('/') {
                dir = &dir[..cut];
                disk.dirs.insert(dir.to_string());
            }
        }
        disk
    }

    fn below<'a>(all: impl Iterator<Item = &'a String>, dir: &str) -> Vec<String> {
        let start = format!("{dir}/");
        all.filter(|name| name.starts_with(&start)).cloned().collect()
    }

    fn entries(&self, job: &BackupJob, config: &BackupConfig) -> Vec<(String, EntryKind)> {
        let source = normalize_path(&config.source);
        let mut found = vec![(source.clone(), EntryKind::Directory)];
        for name in Disk::below(self.dirs.iter(), &source) {
            found.push((name, EntryKind::Directory));
        }
        for name in Disk::below(self.files.keys(), &source) {
            found.push((name, EntryKind::File));
        }
        for name in Disk::below(self.links.iter(), &source) {
            found.push((name, EntryKind::Symlink));
        }
        found.sort_by(|left, right| left.0.cmp(&right.0));
        found.retain(|(name, _)| job.visits(config, &path(name)));
        found
    }

    fn rename(&mut self, from: &str, to: &str) {
        if let Some(content) = self.files.remove(from) {
            self.files.insert(to.to_string(), content);
            return;
        }
        self.dirs.remove(from);
        self.dirs.insert(to.to_string());
        for name in Disk::below(self.dirs.iter(), from) {
            self.dirs.remove(&name);
            self.dirs.insert(format!("{to}{}", &name[from.len()..]));
        }
        for name in Disk::below(self.files.keys(), from) {
            let content = self.files.remove(&name).unwrap();
            self.files.insert(format!("{to}{}", &name[from.len()..]), content);
        }
    }

    fn remove(&mut self, name: &str) {
        self.files.remove(name);
        self.dirs.remove(name);
        for inner in Disk::below(self.files.keys(), name) {
            self.files.remove(&inner);
        }
        for inner in Disk::below(self.dirs.iter(), name) {
            self.dirs.remove(&inner);
        }
    }

    fn run(&mut self, config: &BackupConfig) -> Result<BackupSummary, JobError> {
        let mut job = BackupJob::new(config);
        let mut walk: Option<std::vec::IntoIter<(String, EntryKind)>> = None;
        loop {
            let stage = job.stage();
            let action = job.action(config);
            if let JobAction::Finish = action {
                return job.into_outcome();
            }
            self.log.push(format!("{stage:?}"));
            let event = if self.fail == Some(stage) {
                JobEvent::Failed(format!("no {stage:?}"))
            } else {
                self.perform(&job, config, action, &mut walk)
            };
            job.step(config, event);
        }
    }

    fn perform(
        &mut self,
        job: &BackupJob,
        config: &BackupConfig,
        action: JobAction,
        walk: &mut Option<std::vec::IntoIter<(String, EntryKind)>>,
    ) -> JobEvent {
        match action {
            JobAction::FindCurrentDir => JobEvent::Path(path("/cwd")),
            JobAction::CreateDir(dir) => {
                self.dirs.insert(normalize_path(&dir));
                JobEvent::Done
            }
            JobAction::Resolve(dir) => JobEvent::Path(dir),
            JobAction::RunHook(hook, command) => {
                let label = if hook == Hook::Pre { "pre" } else { "post" };
                self.log.push(format!("{label}: {command}"));
                JobEvent::Done
            }
            JobAction::ReadClock => JobEvent::Clock(Timestamp { secs: 1_767_225_599, nanos: 7 }),
            JobAction::MakeStaging(dir) => {
                let staging = dir.join_name(".world-backup-x");
                self.dirs.insert(normalize_path(&staging));
                JobEvent::Path(staging)
            }
            JobAction::NextEntry => {
                if walk.is_none() {
                    *walk = Some(self.entries(job, config).into_iter());
                }
                match walk.as_mut().unwrap().next() {
                    Some((name, kind)) => JobEvent::Entry { path: path(&name), kind },
                    None => JobEvent::NoMoreEntries,
                }
            }
            JobAction::CopyFile { from, to } => {
                let content = self.files[&normalize_path(&from)].clone();
                self.files.insert(normalize_path(&to), content);
                JobEvent::Done
            }
            JobAction::WriteArchive { from, to, .. } => {
                let names = Disk::below(self.files.keys(), &normalize_path(&from));
                self.files.insert(normalize_path(&to), names.join(" "));
                JobEvent::Done
            }
            JobAction::Rename { from, to } => {
                self.rename(&normalize_path(&from), &normalize_path(&to));
                JobEvent::Done
            }
            JobAction::Measure(target) => {
                let name = normalize_path(&target);
                let mut size = self.files.get(&name).map_or(0, |content| content.len());
                for inner in Disk::below(self.files.keys(), &name) {
                    size += self.files[&inner].len();
                }
                JobEvent::Size(size as u64)
            }
            JobAction::List { dir, day_directories } => {
                let start = normalize_path(&dir);
                let depth = start.matches('/').count() + if day_directories { 2 } else { 1 };
                let mut entries = Vec::new();
                for name in Disk::below(self.files.keys(), &start) {
                    if name.matches('/').count() <= depth {
                        entries.push(path(&name));
                    }
                }
                JobEvent::Entries(entries)
            }
            JobAction::Delete(target) => {
                self.remove(&normalize_path(&target));
                JobEvent::Done
            }
            JobAction::RemoveStaging(dir) => {
                self.remove(&normalize_path(&dir));
                JobEvent::Done
            }
            JobAction::Finish => unreachable!(),
        }
    }
}

fn config(compression: CompressionFormat, retention: RetentionPolicy) -> BackupConfig {
    BackupConfig {
        source: path("/home/world"),
        target_dir: path("/target"),
        name: "atm10".to_string(),
        compression,
        compression_level: None,
        retention,
        exclude: Vec::new(),
        day_directories: false,
        include_session_lock: false,
        pre_command: None,
        post_command: None,
    }
}

fn world() -> Disk {
    Disk::new(&[
        ("/home/world/level.dat", "level"),
        ("/home/world/session.lock", "lock"),
        ("/home/world/region/r.0.0.mca", "chunk"),
    ])
}

fn text_of(paths: &[FsPath]) -> Vec<String> {
    paths.iter().map(normalize_path).collect()
}

#[test]
fn creates_uncompressed_snapshot_and_skips_session_lock() {
    let mut disk = world();
    let config = config(CompressionFormat::Uncompressed, RetentionPolicy::KeepAll);
    let summary = disk.run(&config).unwrap();
    let root = normalize_path(&summary.path);
    assert_eq!(root, "/target/atm10-20251231T235959Z");
    assert!(disk.dirs.contains(&root));
    assert!(disk.files.contains_key(&format!("{root}/level.dat")));
    assert!(disk.files.contains_key(&format!("{root}/region/r.0.0.mca")));
    assert!(!disk.files.contains_key(&format!("{root}/session.lock")));
    assert_eq!(summary.bytes, 10);
    assert!(!disk.dirs.contains("/target/.world-backup-x"));
}

#[test]
fn nothing_in_a_directory_that_is_left_out_is_copied() {
    let mut disk = Disk::new(&[
        ("/home/world/level.dat", "level"),
        ("/home/world/logs/a", "a"),
        ("/home/world/logs/old/b", "b"),
    ]);
    let mut config = config(CompressionFormat::Uncompressed, RetentionPolicy::KeepAll);
    config.exclude = vec!["logs".to_string()];
    let root = normalize_path(&disk.run(&config).unwrap().path);
    assert_eq!(
        Disk::below(disk.files.keys(), &root),
        vec![format!("{root}/level.dat")]
    );
    assert!(!disk.dirs.contains(&format!("{root}/logs")));
    assert!(!disk.dirs.contains(&format!("{root}/logs/old")));
}

#[test]
fn retention_removes_older_matching_backups() {
    let old_one = "/target/atm10-20200101T000000Z.zip";
    let old_two = "/target/atm10-20200102T000000Z.zip";
    let keep_other = "/target/other-20200101T000000Z.zip";
    let mut disk = Disk::new(&[
        ("/home/world/level.dat", "level"),
        (old_one, "a"),
        (old_two, "b"),
        (keep_other, "c"),
    ]);
    let mut config = config(CompressionFormat::Zip, RetentionPolicy::KeepLast(2));
    config.compression_level = Some(1);
    let summary = disk.run(&config).unwrap();
    assert!(disk.files.contains_key(&normalize_path(&summary.path)));
    assert_eq!(summary.deleted.len(), 1);
    assert_eq!(text_of(&summary.deleted), vec![old_one]);
    assert!(!disk.files.contains_key(old_one));
    assert!(disk.files.contains_key(old_two));
    assert!(disk.files.contains_key(keep_other));
}

#[test]
fn archives_are_written_beside_their_final_name() {
    let mut disk = world();
    let config = config(CompressionFormat::TarGz, RetentionPolicy::KeepAll);
    let summary = disk.run(&config).unwrap();
    let name = normalize_path(&summary.path);
    assert_eq!(name, "/target/atm10-20251231T235959Z.tar.gz");
    let content = &disk.files[&name];
    assert!(content.contains("/target/.world-backup-x/atm10-20251231T235959Z/level.dat"));
    assert!(!content.contains("session.lock"));
    let order: Vec<&str> = disk.log.iter().map(|entry| entry.as_str()).collect();
    assert_eq!(
        order,
        vec![
            "CreateTarget", "ResolveTarget", "ReadClock", "MakeStaging", "SnapshotRoot", "Walk",
            "Walk", "MakeParent", "CopyFile", "Walk", "MakeDirectory", "Walk", "MakeParent",
            "CopyFile", "Walk", "Archive", "Publish", "Measure", "RemoveStaging",
        ]
    );
}

#[test]
fn day_directories_hold_backups_and_take_part_in_retention() {
    let old = "/target/2020-01-01/atm10-20200101T000000Z.zip";
    let mut disk = Disk::new(&[("/home/world/level.dat", "level"), (old, "a")]);
    let mut config = config(CompressionFormat::Zip, RetentionPolicy::KeepLast(1));
    config.day_directories = true;
    let summary = disk.run(&config).unwrap();
    let made = chrono::DateTime::from_timestamp(1_767_225_599, 0)
        .unwrap()
        .with_timezone(&chrono::Local);
    let day = format!("/target/{}", made.format("%Y-%m-%d"));
    assert_eq!(
        normalize_path(&summary.path),
        format!("{day}/atm10-20251231T235959Z.zip")
    );
    assert!(disk.dirs.contains(&day));
    assert_eq!(text_of(&summary.deleted), vec![old]);
}

#[test]
fn relative_targets_belong_to_the_current_directory() {
    let mut disk = world();
    let mut config = config(CompressionFormat::Zip, RetentionPolicy::KeepAll);
    config.target_dir = path("backups");
    let summary = disk.run(&config).unwrap();
    assert!(summary.path.starts_with(&path("/cwd/backups")));
    disk.fail = Some(Stage::CurrentDir);
    match disk.run(&config) {
        Err(JobError::Backup(Failure::Action(Stage::CurrentDir, reason))) => {
            assert_eq!(reason, "no CurrentDir")
        }
        other => panic!("unexpected result: {other:?}"),
    }
}

#[test]
fn a_target_inside_the_world_is_refused_before_anything_runs() {
    let mut disk = world();
    let mut config = config(CompressionFormat::Zip, RetentionPolicy::KeepAll);
    config.target_dir = path("/home/world/backups");
    config.pre_command = Some("echo save-all".to_string());
    match disk.run(&config) {
        Err(JobError::Backup(Failure::TargetInsideSource(target))) => {
            assert!(target.same(&path("/home/world/backups")))
        }
        other => panic!("unexpected result: {other:?}"),
    }
    assert_eq!(disk.log, vec!["CreateTarget", "ResolveTarget"]);
}

#[test]
fn a_target_that_cannot_be_resolved_is_taken_as_it_is() {
    let mut disk = world();
    disk.fail = Some(Stage::ResolveTarget);
    assert!(disk.run(&config(CompressionFormat::Zip, RetentionPolicy::KeepAll)).is_ok());
}

#[test]
fn hooks_run_around_the_backup() {
    let mut disk = world();
    let mut config = config(CompressionFormat::Zip, RetentionPolicy::KeepAll);
    config.pre_command = Some("echo save-all".to_string());
    config.post_command = Some("echo backup completed".to_string());
    disk.run(&config).unwrap();
    let pre = disk.log.iter().position(|entry| entry == "pre: echo save-all").unwrap();
    let clock = disk.log.iter().position(|entry| entry == "ReadClock").unwrap();
    let staging = disk.log.iter().position(|entry| entry == "RemoveStaging").unwrap();
    let post = disk.log.iter().position(|entry| entry == "post: echo backup completed").unwrap();
    assert!(pre < clock && clock < staging && staging < post);
}

#[test]
fn the_post_hook_needs_a_pre_hook_that_succeeded() {
    let mut disk = world();
    let mut config = config(CompressionFormat::Zip, RetentionPolicy::KeepAll);
    config.post_command = Some("echo backup completed".to_string());
    disk.run(&config).unwrap();
    assert!(!disk.log.iter().any(|entry| entry == "PostHook"));
    config.pre_command = Some("false".to_string());
    disk.fail = Some(Stage::PreHook);
    disk.log.clear();
    match disk.run(&config) {
        Err(JobError::Backup(Failure::Action(Stage::PreHook, _))) => {}
        other => panic!("unexpected result: {other:?}"),
    }
    assert_eq!(disk.log, vec!["CreateTarget", "ResolveTarget", "PreHook"]);
}

#[test]
fn the_post_hook_runs_after_a_failed_backup_too() {
    for stage in [
        Stage::DayDirectory,
        Stage::MakeStaging,
        Stage::SnapshotRoot,
        Stage::Walk,
        Stage::MakeDirectory,
        Stage::MakeParent,
        Stage::CopyFile,
        Stage::Archive,
        Stage::Publish,
        Stage::Measure,
        Stage::List,
        Stage::Delete,
    ] {
        let mut disk = world();
        disk.files.insert("/target/atm10-20200101T000000Z.zip".to_string(), "a".to_string());
        disk.fail = Some(stage);
        let mut config = config(CompressionFormat::Zip, RetentionPolicy::KeepLast(1));
        config.day_directories = true;
        config.pre_command = Some("a".to_string());
        config.post_command = Some("b".to_string());
        match disk.run(&config) {
            Err(JobError::Backup(Failure::Action(at, reason))) => {
                assert_eq!(at, stage);
                assert_eq!(reason, format!("no {stage:?}"));
            }
            other => panic!("unexpected result at {stage:?}: {other:?}"),
        }
        assert!(disk.log.iter().any(|entry| entry == "post: b"));
        assert!(!disk.dirs.contains("/target/.world-backup-x"));
        assert!(disk.files.contains_key("/target/atm10-20200101T000000Z.zip"));
    }
}

#[test]
fn failures_of_backup_and_post_hook_are_both_told() {
    let mut disk = world();
    disk.links.insert("/home/world/link".to_string());
    disk.fail = Some(Stage::PostHook);
    let mut config = config(CompressionFormat::Zip, RetentionPolicy::KeepAll);
    config.pre_command = Some("a".to_string());
    config.post_command = Some("b".to_string());
    match disk.run(&config) {
        Err(JobError::BackupAndPostHook(Failure::Entry(entry, error), reason)) => {
            assert!(entry.same(&path("/home/world/link")));
            assert_eq!(error, SnapshotError::Symlink);
            assert_eq!(reason, "no PostHook");
        }
        other => panic!("unexpected result: {other:?}"),
    }
    disk.links.clear();
    match disk.run(&config) {
        Err(JobError::PostHook(reason)) => assert_eq!(reason, "no PostHook"),
        other => panic!("unexpected result: {other:?}"),
    }
}

#[test]
fn patterns_that_are_no_globs_fail_the_backup() {
    let mut disk = world();
    let mut config = config(CompressionFormat::Zip, RetentionPolicy::KeepAll);
    config.exclude = vec!["[".to_string()];
    match disk.run(&config) {
        Err(JobError::Backup(Failure::Exclude(ExcludeError::InvalidPattern { pattern, .. }))) => {
            assert_eq!(pattern, "[")
        }
        other => panic!("unexpected result: {other:?}"),
    }
}
