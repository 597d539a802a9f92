//! What holds of the options of the command line, in terms of what is given.
use crate::backup::{gzip_level, zstd_level, BackupConfig};
use crate::cli::{
    are_checkpoints, build_retention_policy, checkpoint_reading, checkpoint_texts, clock_time,
    default_target_dir, first_unreadable, is_reserved, law_sanitized_name_is_safe, means_its_digits,
    retention_option_error, retention_refused, sanitize_name, sanitized, texts,
    validate_compression_level, without_reserved, BackupOptions, CompressionFormat, ConfigError,
    ConfigErrorView, SourceProbe,
};
use crate::path::{FsPath, PartView};
use crate::retention::RetentionPolicy;
use crate::text::{equal_to, is_white_space, lemma_trimmed_off, trim_both, white_space};
use crate::time::{is_hours_minutes, is_hours_minutes_seconds, two_digits, ClockTime};
use vstd::prelude::*;

verus! {

/// Whether a character is one of those that become an underscore.
pub open spec fn becomes_underscore(c: char) -> bool {
    seq!['/', '\\', ':', '*', '?', '"', '<', '>', '|'].contains(c)
}

/// A sanitized name is a stretch of what was given, with an underscore for each character that not
/// every file system takes. What is cut off is all white space at the ends, and then all dots.
pub proof fn law_sanitizing_keeps_a_stretch(raw: &str, r: String)
    requires
        call_ensures(sanitize_name, (raw,), r),
    ensures
        exists|a: int, b: int, c: int, d: int|
            {
                &&& 0 <= a <= c <= d <= b <= raw@.len()
                &&& r@ == (#[trigger] raw@.subrange(c, d)).map_values(
                    |c: char| if becomes_underscore(c) { '_' } else { c },
                )
                &&& forall|i: int|
                    0 <= i < a || b <= i < raw@.len() ==> is_white_space(#[trigger] raw@[i])
                &&& forall|i: int| a <= i < c || d <= i < b ==> #[trigger] raw@[i] == '.'
                &&& a < b ==> !is_white_space(#[trigger] raw@[a]) && !is_white_space(
                    #[trigger] raw@[b - 1],
                )
                &&& c < d ==> raw@[c] != '.' && raw@[d - 1] != '.'
            },
        forall|i: int| 0 <= i < r@.len() ==> !becomes_underscore(#[trigger] r@[i]),
{
    let clean = without_reserved(raw@);
    let inner = trim_both(clean, white_space());
    let (a, b) = lemma_trimmed_off(clean, white_space());
    let (c, d) = lemma_trimmed_off(inner, equal_to('.'));
    let given = raw@.subrange(a + c, a + d).map_values(
        |c: char| if becomes_underscore(c) { '_' } else { c },
    );
    lemma_reserved();
    assert(!is_white_space('_'));
    assert(is_reserved('/') && is_reserved('\\'));
    assert forall|i: int| 0 <= i < raw@.len() implies is_white_space(#[trigger] raw@[i])
        == is_white_space(clean[i]) && (raw@[i] == '.') == (clean[i] == '.') by {}
    assert(r@ =~= given) by {
        assert forall|i: int| 0 <= i < given.len() implies r@[i] == given[i] by {
            assert(r@[i] == inner[c + i] && inner[c + i] == clean[a + c + i]);
            assert(raw@.subrange(a + c, a + d)[i] == raw@[a + c + i]);
        }
    }
    assert forall|i: int| 0 <= i < a || b <= i < raw@.len() implies is_white_space(
        #[trigger] raw@[i],
    ) by {
        assert(white_space()(clean[i]));
    }
    assert forall|i: int| a <= i < a + c || a + d <= i < b implies #[trigger] raw@[i] == '.' by {
        assert(inner[i - a] == clean[i]);
        assert(equal_to('.')(inner[i - a]));
    }
    if a < b {
        assert(!white_space()(clean[a]) && !white_space()(clean[b - 1]));
        assert(!is_white_space(raw@[a]) && !is_white_space(raw@[b - 1]));
    }
    if c < d {
        assert(inner[c] == clean[a + c] && inner[d - 1] == clean[a + d - 1]);
        assert(!equal_to('.')(inner[c]) && !equal_to('.')(inner[d - 1]));
        assert(raw@[a + c] != '.' && raw@[a + d - 1] != '.');
    }
    law_sanitized_name_is_safe(raw@);
}

/// The reserved characters are those that become an underscore.
proof fn lemma_reserved()
    ensures
        forall|c: char| #[trigger] becomes_underscore(c) == is_reserved(c),
{
    let all = seq!['/', '\\', ':', '*', '?', '"', '<', '>', '|'];
    assert(all[0] == '/' && all[1] == '\\' && all[2] == ':' && all[3] == '*' && all[4] == '?' && all[5]
        == '"' && all[6] == '<' && all[7] == '>' && all[8] == '|');
    assert forall|c: char| #[trigger] becomes_underscore(c) == is_reserved(c) by {
        if becomes_underscore(c) {
            let k = choose|k: int| 0 <= k < all.len() && all[k] == c;
        }
    }
}

/// A compression level is accepted if and only if it suits the format: 0 to 9 for zip and gzip, 1 to
/// 22 for zstd, and none where nothing is compressed.
pub proof fn law_levels_that_suit_are_accepted(
    format: CompressionFormat,
    level: i32,
    r: Result<(), ConfigError>,
)
    requires
        call_ensures(validate_compression_level, (format, level), r),
    ensures
        r is Ok <==> match format {
            CompressionFormat::Uncompressed => false,
            CompressionFormat::Zip => 0 <= level <= 9,
            CompressionFormat::TarGz => 0 <= level <= 9,
            CompressionFormat::TarZst => 1 <= level <= 22,
        },
        r matches Err(error) ==> error@ == (if format is Uncompressed {
            ConfigErrorView::LevelWithoutCompression
        } else {
            ConfigErrorView::LevelOutOfRange(format)
        }),
{
}

/// The compressors get the level asked for, where it is one of theirs, and else the nearest that is.
/// Without one they get 6 and 3.
pub proof fn law_compressors_get_the_level_asked_for(level: Option<i32>, gzip: u32, zstd: i32)
    requires
        call_ensures(gzip_level, (level,), gzip),
        call_ensures(zstd_level, (level,), zstd),
    ensures
        0 <= gzip <= 9,
        1 <= zstd <= 22,
        level is None ==> gzip == 6 && zstd == 3,
        level matches Some(value) ==> {
            &&& 0 <= value <= 9 ==> gzip == value
            &&& 1 <= value <= 22 ==> zstd == value
            &&& value < 0 ==> gzip == 0
            &&& value > 9 ==> gzip == 9
            &&& value < 1 ==> zstd == 1
            &&& value > 22 ==> zstd == 22
        },
{
}

/// What the retention options amount to, and when they are refused.
///
/// A number of last backups goes before all else. Without any number all backups are kept. Zero is
/// refused everywhere, and so are checkpoints for no days.
pub proof fn law_retention_options_mean_what_they_say(
    keep_last: Option<usize>,
    keep_recent: Option<usize>,
    keep_daily_for_days: Option<usize>,
    keep_daily_at: &[String],
    r: Result<RetentionPolicy, ConfigError>,
)
    requires
        call_ensures(
            build_retention_policy,
            (keep_last, keep_recent, keep_daily_for_days, keep_daily_at),
            r,
        ),
    ensures
        keep_last matches Some(limit) ==> match r {
            Ok(policy) => limit > 0 && policy == RetentionPolicy::KeepLast(limit),
            Err(error) => limit == 0 && error@ == ConfigErrorView::KeepLastZero,
        },
        keep_last is None && keep_recent is None && keep_daily_for_days is None ==> r == Ok::<
            RetentionPolicy,
            ConfigError,
        >(RetentionPolicy::KeepAll),
        keep_last is None && keep_recent == Some(0usize) ==> (r matches Err(error) && error@
            == ConfigErrorView::KeepRecentZero),
        keep_last is None && keep_recent != Some(0usize) && keep_daily_for_days == Some(0usize) ==> (
        r matches Err(error) && error@ == ConfigErrorView::KeepDailyZero),
        keep_last is None && keep_daily_for_days is None && (keep_recent matches Some(recent)
            && recent > 0) ==> match r {
            Ok(policy) => keep_daily_at@.len() == 0 && (policy matches RetentionPolicy::Tiered(
                tiers,
            ) && tiers.keep_recent == keep_recent->0 && tiers.keep_daily_for_days == 0
                && tiers.daily_checkpoints@.len() == 0),
            Err(error) => keep_daily_at@.len() > 0 && error@
                == ConfigErrorView::CheckpointsWithoutDays,
        },
        keep_last is None && keep_recent != Some(0usize) && (keep_daily_for_days matches Some(days)
            && days > 0) ==> match r {
            Ok(policy) => policy matches RetentionPolicy::Tiered(tiers) && tiers.keep_recent == (
            match keep_recent {
                Some(recent) => recent,
                None => 0,
            }) && tiers.keep_daily_for_days == keep_daily_for_days->0,
            Err(error) => error@ is InvalidCheckpoint,
        },
{
}

/// Checkpoints written `HH:MM` or `HH:MM:SS` are taken at their word: each becomes the time of day
/// that its digits mean, none is refused, each time comes once, and they come in order. Without any,
/// midnight and noon are meant.
pub proof fn law_checkpoints_mean_their_digits(
    keep_recent: Option<usize>,
    days: usize,
    keep_daily_at: &[String],
    r: Result<RetentionPolicy, ConfigError>,
)
    requires
        call_ensures(
            build_retention_policy,
            (None::<usize>, keep_recent, Some(days), keep_daily_at),
            r,
        ),
        days > 0,
        keep_recent != Some(0usize),
        forall|k: int|
            0 <= k < keep_daily_at@.len() ==> is_hours_minutes((#[trigger] keep_daily_at@[k])@)
                || is_hours_minutes_seconds(keep_daily_at@[k]@),
    ensures
        r matches Ok(RetentionPolicy::Tiered(tiers)) && {
            let times = tiers.daily_checkpoints@;
            &&& forall|i: int, j: int|
                0 <= i < j < times.len() ==> (#[trigger] times[i]).secs < (#[trigger] times[j]).secs
            &&& keep_daily_at@.len() == 0 ==> times == seq![clock_time(0, 0, 0), clock_time(12, 0, 0)]
            &&& forall|k: int|
                0 <= k < keep_daily_at@.len() ==> times.contains(
                    time_in_digits((#[trigger] keep_daily_at@[k])@),
                )
            &&& keep_daily_at@.len() > 0 ==> forall|i: int|
                0 <= i < times.len() ==> some_text_means(keep_daily_at@, #[trigger] times[i])
        },
{
    let raw = texts(keep_daily_at@);
    assert forall|k: int|
        0 <= k < raw.len() && means_its_digits(#[trigger] raw[k]) implies checkpoint_reading(raw[k])
        == Some(time_in_digits(raw[k])) by {
        assert(raw[k] == keep_daily_at@[k]@);
        assert(is_hours_minutes(keep_daily_at@[k]@) || is_hours_minutes_seconds(keep_daily_at@[k]@));
    }
    match r {
        Err(error) => {
            assert(retention_refused(error@, None, keep_recent, Some(days), raw));
            assert(retention_option_error(None, keep_recent, Some(days), raw.len()) is None);
            let k = choose|k: int| #[trigger]
                first_unreadable(raw, k) && error@
                    == ConfigErrorView::InvalidCheckpoint(raw[k]);
            assert(first_unreadable(raw, k));
            assert(means_its_digits(raw[k]));
        },
        Ok(policy) => {
            let tiers = policy->Tiered_0;
            let times = tiers.daily_checkpoints@;
            assert(are_checkpoints(times, checkpoint_texts(raw)));
            if keep_daily_at@.len() > 0 {
                assert forall|k: int| 0 <= k < keep_daily_at@.len() implies times.contains(
                    time_in_digits((#[trigger] keep_daily_at@[k])@),
                ) by {
                    assert(raw[k] == keep_daily_at@[k]@);
                    assert(means_its_digits(raw[k]));
                }
                assert forall|i: int| 0 <= i < times.len() implies some_text_means(
                    keep_daily_at@,
                    #[trigger] times[i],
                ) by {
                    let k = choose|k: int|
                        0 <= k < raw.len() && checkpoint_reading(#[trigger] raw[k]) == Some(
                            #[trigger] times[i],
                        );
                    assert(raw[k] == keep_daily_at@[k]@);
                    assert(means_its_digits(raw[k]));
                }
                assert forall|i: int, j: int| 0 <= i < j < times.len() implies (
                #[trigger] times[i]).secs < (#[trigger] times[j]).secs by {
                    assert(times[i].earlier(times[j]));
                    assert(some_text_means(keep_daily_at@, times[i]));
                    assert(some_text_means(keep_daily_at@, times[j]));
                    let k = choose|k: int|
                        0 <= k < keep_daily_at@.len() && time_in_digits(
                            (#[trigger] keep_daily_at@[k])@,
                        ) == times[i];
                    let l = choose|l: int|
                        0 <= l < keep_daily_at@.len() && time_in_digits(
                            (#[trigger] keep_daily_at@[l])@,
                        ) == times[j];
                    assert(times[i].nanos == 0 && times[j].nanos == 0);
                }
            } else {
                assert(times == seq![
                    ClockTime { secs: 0, nanos: 0 },
                    ClockTime { secs: 43_200, nanos: 0 },
                ]);
            }
        },
    }
}

/// The time of day that a text written `HH:MM` or `HH:MM:SS` means.
pub open spec fn time_in_digits(text: Seq<char>) -> ClockTime {
    clock_time(
        two_digits(text, 0),
        two_digits(text, 3),
        if text.len() == 8 {
            two_digits(text, 6)
        } else {
            0
        },
    )
}

/// Whether one of the texts means a time of day.
pub open spec fn some_text_means(given: Seq<String>, time: ClockTime) -> bool {
    exists|k: int| 0 <= k < given.len() && time_in_digits((#[trigger] given[k])@) == time
}

/// By default backups go beside the world, into a directory called after it.
pub proof fn law_default_target_is_called_after_the_world(
    source: &FsPath,
    r: Result<FsPath, ConfigError>,
    world: Seq<char>,
)
    requires
        call_ensures(default_target_dir, (source,), r),
        source@.len() > 0,
        source@.last() == PartView::Normal(world),
    ensures
        r matches Ok(target) && target@ == source@.drop_last() + seq![
            PartView::Normal(world + "-backups"@),
        ],
{
    assert(source@.drop_last() + seq![PartView::Normal(world + "-backups"@)]
        =~= source@.drop_last().push(PartView::Normal(world + "-backups"@)));
}

/// A configuration holds what the options say, and the name that they give amounts to.
pub proof fn law_configuration_holds_the_options(
    options: &BackupOptions,
    source: FsPath,
    config: BackupConfig,
)
    requires
        call_ensures(
            BackupOptions::backup_config,
            (options, SourceProbe::Directory(source)),
            Ok::<BackupConfig, ConfigError>(config),
        ),
    ensures
        config.source@ == source@,
        options.target_dir matches Some(target) ==> config.target_dir@ == target@,
        config.name@ == sanitized(
            match options.name {
                Some(name) => name@,
                None => if source@.len() > 0 && source@.last() is Normal {
                    source@.last()->Normal_0
                } else {
                    "world"@
                },
            },
        ),
        config.name@.len() > 0,
        config.compression == options.compression,
        config.compression_level == options.compression_level,
        config.exclude@.len() == options.exclude@.len(),
        forall|i: int|
            0 <= i < config.exclude@.len() ==> (#[trigger] config.exclude@[i])@
                == options.exclude@[i]@,
        config.day_directories == options.day_directories,
        config.include_session_lock == options.include_session_lock,
        config.pre_command is Some == options.pre_command is Some,
        options.pre_command matches Some(command) ==> config.pre_command->0@ == command@,
        config.post_command is Some == options.post_command is Some,
        options.post_command matches Some(command) ==> config.post_command->0@ == command@,
        options.keep_last matches Some(limit) ==> limit > 0 && config.retention
            == RetentionPolicy::KeepLast(limit),
        options.keep_last is None && options.keep_recent is None && options.keep_daily_for_days is None
            ==> config.retention is KeepAll,
        options.keep_last is None && (options.keep_recent is Some
            || options.keep_daily_for_days is Some) ==> (config.retention matches RetentionPolicy::Tiered(
            tiers,
        ) && tiers.keep_recent == (match options.keep_recent {
            Some(recent) => recent,
            None => 0,
        }) && tiers.keep_daily_for_days == (match options.keep_daily_for_days {
            Some(days) => days,
            None => 0,
        })),
{
    assert(options.asks_for(source@, config));
    assert(texts(config.exclude@).len() == texts(options.exclude@).len());
    assert forall|i: int| 0 <= i < config.exclude@.len() implies (#[trigger] config.exclude@[i])@
        == options.exclude@[i]@ by {
        assert(texts(config.exclude@)[i] == texts(options.exclude@)[i]);
    }
}

} // verus!
