use world_backup::backup::{gzip_level, zstd_level};
use world_backup::cli::{
    build_retention_policy, default_target_dir, parse_checkpoint_times, read_checkpoint,
    sanitize_name, validate_compression_level, BackupOptions, CompressionFormat, ConfigError,
    SourceProbe,
};
use world_backup::path::{FsPath, PathPart};
use world_backup::retention::RetentionPolicy;
use world_backup::time::ClockTime;

fn path(text: &str) -> FsPath {
    let mut parts = Vec::new();
    if text.starts_with('/') {
        parts.push(PathPart::RootDir);
    }
    for name in text.split('/') {
        if !name.is_empty() {
            parts.push(PathPart::Normal(name.to_string()));
        }
    }
    FsPath { parts }
}

fn clock(hours: u32, minutes: u32, seconds: u32) -> ClockTime {
    ClockTime { secs: hours * 3600 + minutes * 60 + seconds, nanos: 0 }
}

fn options() -> BackupOptions {
    BackupOptions {
        source: path("world"),
        target_dir: None,
        name: None,
        compression: CompressionFormat::Zip,
        compression_level: None,
        keep_last: None,
        keep_recent: None,
        keep_daily_for_days: None,
        keep_daily_at: Vec::new(),
        exclude: Vec::new(),
        day_directories: false,
        include_session_lock: false,
        pre_command: None,
        post_command: None,
    }
}

fn found() -> SourceProbe {
    SourceProbe::Directory(path("/srv/server/world"))
}

#[test]
fn default_target_dir_uses_world_name() {
    let source = path("/srv/server/world");
    let target = default_target_dir(&source).unwrap();
    assert_eq!(target.file_name().as_deref(), Some("world-backups"));
}

#[test]
fn default_target_dir_stands_beside_the_world() {
    let source = path("/srv/server/world");
    let target = default_target_dir(&source).unwrap();
    assert!(target.same(&path("/srv/server/world-backups")));
    assert!(!target.starts_with(&source));
    assert!(matches!(default_target_dir(&path("/")), Err(ConfigError::NoWorldName)));
}

#[test]
fn sanitize_name_replaces_invalid_path_characters() {
    assert_eq!(sanitize_name(r#"atm10:world?*"#), "atm10_world__");
}

#[test]
fn sanitize_name_trims_white_space_then_dots() {
    assert_eq!(sanitize_name("  ..my world.. \t"), "my world");
    assert_eq!(sanitize_name(". a"), " a");
    assert_eq!(sanitize_name("a/b\\c\"d<e>f|g"), "a_b_c_d_e_f_g");
    assert_eq!(sanitize_name(" ... "), "");
    assert_eq!(sanitize_name("\u{2003}w\u{3000}"), "w");
    assert_eq!(sanitize_name("world"), "world");
}

#[test]
fn sanitize_name_trims_exactly_the_white_space_of_the_standard_library() {
    for code in 0..=0x10ffff_u32 {
        if let Some(c) = char::from_u32(code) {
            if c == '.' {
                continue;
            }
            let raw = format!("{c}x");
            let blank = c.is_whitespace();
            assert_eq!(sanitize_name(&raw).chars().count() == 1, blank, "{code:x}");
        }
    }
}

#[test]
fn rejects_invalid_zip_level() {
    assert!(validate_compression_level(CompressionFormat::Zip, 12).is_err());
}

#[test]
fn rejects_level_for_uncompressed_snapshot() {
    assert!(validate_compression_level(CompressionFormat::Uncompressed, 1).is_err());
}

#[test]
fn accepts_levels_up_to_the_bounds_only() {
    for format in [CompressionFormat::Zip, CompressionFormat::TarGz] {
        assert!(validate_compression_level(format, 0).is_ok());
        assert!(validate_compression_level(format, 9).is_ok());
        assert!(validate_compression_level(format, -1).is_err());
        assert!(validate_compression_level(format, 10).is_err());
    }
    assert!(validate_compression_level(CompressionFormat::TarZst, 1).is_ok());
    assert!(validate_compression_level(CompressionFormat::TarZst, 22).is_ok());
    assert!(validate_compression_level(CompressionFormat::TarZst, 0).is_err());
    assert!(validate_compression_level(CompressionFormat::TarZst, 23).is_err());
    assert!(matches!(
        validate_compression_level(CompressionFormat::Uncompressed, 1),
        Err(ConfigError::LevelWithoutCompression)
    ));
    assert!(matches!(
        validate_compression_level(CompressionFormat::TarZst, 0),
        Err(ConfigError::LevelOutOfRange(CompressionFormat::TarZst))
    ));
}

#[test]
fn suitable_levels_reach_the_compressor_unchanged() {
    for level in 0..=9 {
        assert_eq!(gzip_level(Some(level)), level as u32);
    }
    for level in 1..=22 {
        assert_eq!(zstd_level(Some(level)), level);
    }
    assert_eq!(gzip_level(None), 6);
    assert_eq!(zstd_level(None), 3);
    assert_eq!(gzip_level(Some(-4)), 0);
    assert_eq!(gzip_level(Some(40)), 9);
    assert_eq!(zstd_level(Some(0)), 1);
    assert_eq!(zstd_level(Some(40)), 22);
}

#[test]
fn formats_have_extensions() {
    assert_eq!(CompressionFormat::Uncompressed.extension(), None);
    assert_eq!(CompressionFormat::Zip.extension(), Some("zip"));
    assert_eq!(CompressionFormat::TarGz.extension(), Some("tar.gz"));
    assert_eq!(CompressionFormat::TarZst.extension(), Some("tar.zst"));
}

#[test]
fn builds_tiered_retention_with_default_checkpoint_times() {
    let retention = build_retention_policy(None, Some(48), Some(14), &[]).unwrap();
    match retention {
        RetentionPolicy::Tiered(policy) => {
            assert_eq!(policy.keep_recent, 48);
            assert_eq!(policy.keep_daily_for_days, 14);
            assert_eq!(policy.daily_checkpoints, vec![clock(0, 0, 0), clock(12, 0, 0)]);
        }
        other => panic!("unexpected retention policy: {other:?}"),
    }
}

#[test]
fn rejects_zero_recent_retention() {
    assert!(build_retention_policy(None, Some(0), Some(14), &[]).is_err());
}

#[test]
fn tells_what_is_wrong_with_retention_options() {
    let noon = vec!["12:00".to_string()];
    let odd = vec!["12:00".to_string(), "noon".to_string(), "25:00".to_string()];
    assert!(matches!(
        build_retention_policy(Some(0), None, None, &[]),
        Err(ConfigError::KeepLastZero)
    ));
    assert!(matches!(
        build_retention_policy(None, Some(0), None, &[]),
        Err(ConfigError::KeepRecentZero)
    ));
    assert!(matches!(
        build_retention_policy(None, None, Some(0), &[]),
        Err(ConfigError::KeepDailyZero)
    ));
    assert!(matches!(
        build_retention_policy(None, Some(3), None, &noon),
        Err(ConfigError::CheckpointsWithoutDays)
    ));
    match build_retention_policy(None, None, Some(3), &odd) {
        Err(ConfigError::InvalidCheckpoint(text)) => assert_eq!(text, "noon"),
        other => panic!("unexpected result: {other:?}"),
    }
}

#[test]
fn builds_the_other_policies() {
    assert!(matches!(
        build_retention_policy(None, None, None, &[]),
        Ok(RetentionPolicy::KeepAll)
    ));
    assert!(matches!(
        build_retention_policy(Some(7), None, None, &[]),
        Ok(RetentionPolicy::KeepLast(7))
    ));
    match build_retention_policy(None, Some(5), None, &[]) {
        Ok(RetentionPolicy::Tiered(policy)) => {
            assert_eq!(policy.keep_recent, 5);
            assert_eq!(policy.keep_daily_for_days, 0);
            assert!(policy.daily_checkpoints.is_empty());
        }
        other => panic!("unexpected result: {other:?}"),
    }
}

#[test]
fn checkpoints_are_sorted_and_held_once() {
    let raw: Vec<String> = ["18:30", "06:00:15", "18:30:00", "00:00"]
        .iter()
        .map(|text| text.to_string())
        .collect();
    let times = parse_checkpoint_times(&raw).unwrap();
    assert_eq!(times, vec![clock(0, 0, 0), clock(6, 0, 15), clock(18, 30, 0)]);
}

#[test]
fn reads_checkpoints_with_and_without_seconds() {
    assert_eq!(read_checkpoint("09:39"), Some(clock(9, 39, 0)));
    assert_eq!(read_checkpoint("23:59:58"), Some(clock(23, 59, 58)));
    assert_eq!(read_checkpoint("24:00"), None);
    assert_eq!(read_checkpoint("12:60"), None);
    assert_eq!(read_checkpoint("12"), None);
    assert_eq!(read_checkpoint(""), None);
}

#[test]
fn configuration_takes_defaults_from_the_source() {
    let config = options().backup_config(found()).unwrap();
    assert!(config.source.same(&path("/srv/server/world")));
    assert!(config.target_dir.same(&path("/srv/server/world-backups")));
    assert_eq!(config.name, "world");
    assert_eq!(config.compression, CompressionFormat::Zip);
    assert!(matches!(config.retention, RetentionPolicy::KeepAll));
    assert!(!config.include_session_lock);
}

#[test]
fn configuration_takes_what_is_asked_for() {
    let mut asked = options();
    asked.target_dir = Some(path("backups"));
    asked.name = Some("atm10:world".to_string());
    asked.compression = CompressionFormat::TarZst;
    asked.compression_level = Some(19);
    asked.keep_last = Some(24);
    asked.exclude = vec!["logs/**".to_string(), "cache/**".to_string()];
    asked.day_directories = true;
    asked.include_session_lock = true;
    asked.pre_command = Some("echo save-all".to_string());
    asked.post_command = Some("echo backup completed".to_string());
    let config = asked.backup_config(found()).unwrap();
    assert!(config.target_dir.same(&path("backups")));
    assert_eq!(config.name, "atm10_world");
    assert_eq!(config.compression, CompressionFormat::TarZst);
    assert_eq!(config.compression_level, Some(19));
    assert!(matches!(config.retention, RetentionPolicy::KeepLast(24)));
    assert_eq!(config.exclude, vec!["logs/**".to_string(), "cache/**".to_string()]);
    assert!(config.day_directories);
    assert!(config.include_session_lock);
    assert_eq!(config.pre_command.as_deref(), Some("echo save-all"));
    assert_eq!(config.post_command.as_deref(), Some("echo backup completed"));
}

#[test]
fn configuration_errors_come_in_order() {
    match options().backup_config(SourceProbe::Missing("gone".to_string())) {
        Err(ConfigError::SourceMissing(reason)) => assert_eq!(reason, "gone"),
        other => panic!("unexpected result: {other:?}"),
    }
    assert!(matches!(
        options().backup_config(SourceProbe::NotDirectory),
        Err(ConfigError::SourceNotDirectory)
    ));
    let mut wrong = options();
    wrong.name = Some(" .. ".to_string());
    wrong.compression = CompressionFormat::Uncompressed;
    wrong.compression_level = Some(1);
    wrong.keep_last = Some(0);
    assert!(matches!(
        wrong.backup_config(SourceProbe::Directory(path("/"))),
        Err(ConfigError::NoWorldName)
    ));
    assert!(matches!(wrong.backup_config(found()), Err(ConfigError::EmptyName)));
    wrong.name = None;
    assert!(matches!(
        wrong.backup_config(found()),
        Err(ConfigError::LevelWithoutCompression)
    ));
    wrong.compression_level = None;
    assert!(matches!(wrong.backup_config(found()), Err(ConfigError::KeepLastZero)));
    wrong.keep_last = None;
    assert!(wrong.backup_config(found()).is_ok());
}

#[test]
fn a_source_without_a_readable_name_is_called_world() {
    let mut asked = options();
    asked.target_dir = Some(path("/backups"));
    let config = asked.backup_config(SourceProbe::Directory(path("/"))).unwrap();
    assert_eq!(config.name, "world");
}
