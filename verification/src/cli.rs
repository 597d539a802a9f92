//! What the command line asks for, and the backup configuration that it amounts to.
use crate::artifact::names_one_file;
use crate::backup::BackupConfig;
use crate::path::{file_name_text, is_inside, parent_path, FsPath, PartView};
use crate::retention::{checkpoints_wf, RetentionPolicy, TieredRetentionPolicy};
use crate::text::{
    chars_of, equal_to, lemma_trim_both, text_of, trim_both, trimmed, trimmed_of, white_space,
};
use crate::time::{
    clock_reading, is_hours_minutes, is_hours_minutes_seconds, read_clock, two_digits, ClockTime,
};
use vstd::prelude::*;

verus! {

/// The form in which a backup is stored.
#[derive(Debug, Clone, Copy, PartialEq, Eq, Structural)]
pub enum CompressionFormat {
    /// A plain directory.
    Uncompressed,
    Zip,
    TarGz,
    TarZst,
}

/// The file name extension of each format.
pub open spec fn extension_of(format: CompressionFormat) -> Option<Seq<char>> {
    match format {
        CompressionFormat::Uncompressed => None,
        CompressionFormat::Zip => Some("zip"@),
        CompressionFormat::TarGz => Some("tar.gz"@),
        CompressionFormat::TarZst => Some("tar.zst"@),
    }
}

impl CompressionFormat {
    /// The file name extension of the format.
    pub fn extension(self) -> (r: Option<&'static str>)
        ensures
            extension_of(self) == (match r {
                Some(text) => Some(text@),
                None => None,
            }),
    {
        match self {
            CompressionFormat::Uncompressed => None,
            CompressionFormat::Zip => Some("zip"),
            CompressionFormat::TarGz => Some("tar.gz"),
            CompressionFormat::TarZst => Some("tar.zst"),
        }
    }
}

/// Whether a character cannot stand in a file name everywhere.
pub open spec fn is_reserved(c: char) -> bool {
    c == '/' || c == '\\' || c == ':' || c == '*' || c == '?' || c == '"' || c == '<' || c == '>' || c
        == '|'
}

/// `raw` with an underscore for each reserved character.
pub open spec fn without_reserved(raw: Seq<char>) -> Seq<char> {
    raw.map_values(|c: char| if is_reserved(c) { '_' } else { c })
}

/// The backup name that `raw` amounts to: reserved characters become underscores, then white space
/// goes from both ends, then dots.
pub open spec fn sanitized(raw: Seq<char>) -> Seq<char> {
    trim_both(trim_both(without_reserved(raw), white_space()), equal_to('.'))
}

/// Whether a text holds no reserved character.
pub open spec fn is_plain_name(name: Seq<char>) -> bool {
    forall|i: int| 0 <= i < name.len() ==> !is_reserved(#[trigger] name[i])
}

/// A sanitized name holds no reserved character and neither starts nor ends with a dot.
pub proof fn law_sanitized_name_is_safe(raw: Seq<char>)
    ensures
        is_plain_name(sanitized(raw)),
        sanitized(raw).len() > 0 ==> sanitized(raw)[0] != '.' && sanitized(raw).last() != '.',
        sanitized(raw).len() <= raw.len(),
{
    let clean = without_reserved(raw);
    assert(is_plain_name(clean));
    lemma_trim_both(clean, white_space());
    let inner = trim_both(clean, white_space());
    lemma_trim_both(inner, equal_to('.'));
}

/// A name that is plain, and has neither white space nor a dot at either end, is its own sanitized
/// form.
pub proof fn law_clean_name_stays(name: Seq<char>)
    requires
        is_plain_name(name),
        name.len() > 0 ==> !white_space()(name[0]) && !white_space()(name.last()),
        name.len() > 0 ==> name[0] != '.' && name.last() != '.',
    ensures
        sanitized(name) == name,
{
    assert(without_reserved(name) =~= name);
}

/// The backup name that `raw` amounts to.
pub fn sanitize_name(raw: &str) -> (r: String)
    ensures
        r@ == sanitized(raw@),
{
    let chars: Vec<char> = chars_of(raw);
    let mut clean: Vec<char> = Vec::new();
    let mut i: usize = 0;
    while i < chars.len()
        invariant
            chars@ == raw@,
            i <= chars@.len(),
            clean@ == without_reserved(raw@.take(i as int)),
        decreases chars@.len() - i,
    {
        let c: char = chars[i];
        let kept: char = match c {
            '/' | '\\' | ':' | '*' | '?' | '"' | '<' | '>' | '|' => '_',
            _ => c,
        };
        proof {
            assert(raw@.take(i + 1) =~= raw@.take(i as int).push(c));
            assert(without_reserved(raw@.take(i + 1)) =~= without_reserved(
                raw@.take(i as int),
            ).push(kept));
        }
        clean.push(kept);
        i = i + 1;
    }
    assert(raw@.take(raw@.len() as int) =~= raw@);
    let inner: Vec<char> = trimmed(&clean);
    let name: Vec<char> = trimmed_of(&inner, '.');
    text_of(&name)
}

/// Why a configuration is refused.
#[derive(Debug)]
pub enum ConfigError {
    /// The source does not exist; the text says what the file system said.
    SourceMissing(String),
    /// The source is not a directory.
    SourceNotDirectory,
    /// The source path has no name to call the target directory by.
    NoWorldName,
    /// The source path has no parent to put the target directory into.
    NoParent,
    /// The backup name is empty.
    EmptyName,
    /// A compression level was given, but nothing is compressed.
    LevelWithoutCompression,
    /// The compression level does not suit the format.
    LevelOutOfRange(CompressionFormat),
    /// None of the last backups would be kept.
    KeepLastZero,
    /// None of the recent backups would be kept.
    KeepRecentZero,
    /// No days would be kept.
    KeepDailyZero,
    /// Checkpoints were given, but no number of days.
    CheckpointsWithoutDays,
    /// A checkpoint is not a time of day.
    InvalidCheckpoint(String),
}

/// What a [`ConfigError`] says.
pub enum ConfigErrorView {
    SourceMissing(Seq<char>),
    SourceNotDirectory,
    NoWorldName,
    NoParent,
    EmptyName,
    LevelWithoutCompression,
    LevelOutOfRange(CompressionFormat),
    KeepLastZero,
    KeepRecentZero,
    KeepDailyZero,
    CheckpointsWithoutDays,
    InvalidCheckpoint(Seq<char>),
}

impl View for ConfigError {
    type V = ConfigErrorView;

    open spec fn view(&self) -> ConfigErrorView {
        match *self {
            ConfigError::SourceMissing(text) => ConfigErrorView::SourceMissing(text@),
            ConfigError::SourceNotDirectory => ConfigErrorView::SourceNotDirectory,
            ConfigError::NoWorldName => ConfigErrorView::NoWorldName,
            ConfigError::NoParent => ConfigErrorView::NoParent,
            ConfigError::EmptyName => ConfigErrorView::EmptyName,
            ConfigError::LevelWithoutCompression => ConfigErrorView::LevelWithoutCompression,
            ConfigError::LevelOutOfRange(format) => ConfigErrorView::LevelOutOfRange(format),
            ConfigError::KeepLastZero => ConfigErrorView::KeepLastZero,
            ConfigError::KeepRecentZero => ConfigErrorView::KeepRecentZero,
            ConfigError::KeepDailyZero => ConfigErrorView::KeepDailyZero,
            ConfigError::CheckpointsWithoutDays => ConfigErrorView::CheckpointsWithoutDays,
            ConfigError::InvalidCheckpoint(text) => ConfigErrorView::InvalidCheckpoint(text@),
        }
    }
}

/// The lowest and the highest compression level of a format.
pub open spec fn level_range(format: CompressionFormat) -> Option<(int, int)> {
    match format {
        CompressionFormat::Uncompressed => None,
        CompressionFormat::Zip => Some((0, 9)),
        CompressionFormat::TarGz => Some((0, 9)),
        CompressionFormat::TarZst => Some((1, 22)),
    }
}

/// What is wrong with a compression level, if anything.
pub open spec fn level_error(format: CompressionFormat, level: i32) -> Option<ConfigErrorView> {
    match level_range(format) {
        None => Some(ConfigErrorView::LevelWithoutCompression),
        Some((low, high)) => if low <= level <= high {
            None
        } else {
            Some(ConfigErrorView::LevelOutOfRange(format))
        },
    }
}

/// Accepts a compression level that suits the format.
pub fn validate_compression_level(format: CompressionFormat, level: i32) -> (r: Result<
    (),
    ConfigError,
>)
    ensures
        level_error(format, level) == (match r {
            Ok(_) => None,
            Err(error) => Some(error@),
        }),
{
    match format {
        CompressionFormat::Uncompressed => Err(ConfigError::LevelWithoutCompression),
        CompressionFormat::Zip | CompressionFormat::TarGz => {
            if 0 <= level && level <= 9 {
                Ok(())
            } else {
                Err(ConfigError::LevelOutOfRange(format))
            }
        },
        CompressionFormat::TarZst => {
            if 1 <= level && level <= 22 {
                Ok(())
            } else {
                Err(ConfigError::LevelOutOfRange(format))
            }
        },
    }
}

/// The texts that some strings hold.
pub open spec fn texts(strings: Seq<String>) -> Seq<Seq<char>> {
    strings.map_values(|s: String| s@)
}

/// The time of day that a checkpoint text means: `HH:MM:SS` is tried first, then `HH:MM`.
pub open spec fn checkpoint_reading(text: Seq<char>) -> Option<ClockTime> {
    match clock_reading(text, "%H:%M:%S"@) {
        Some((secs, nanos)) => Some(ClockTime { secs, nanos }),
        None => match clock_reading(text, "%H:%M"@) {
            Some((secs, nanos)) => Some(ClockTime { secs, nanos }),
            None => None,
        },
    }
}

/// The checkpoint texts in force: those given, or else midnight and noon.
pub open spec fn checkpoint_texts(raw: Seq<Seq<char>>) -> Seq<Seq<char>> {
    if raw.len() == 0 {
        seq!["00:00"@, "12:00"@]
    } else {
        raw
    }
}

/// Whether text `k` is the first that is not a time of day.
pub open spec fn first_unreadable(raw: Seq<Seq<char>>, k: int) -> bool {
    &&& 0 <= k < raw.len()
    &&& checkpoint_reading(raw[k]) is None
    &&& forall|j: int| 0 <= j < k ==> checkpoint_reading(#[trigger] raw[j]) is Some
}

/// Whether the times strictly increase.
pub open spec fn increasing(times: Seq<ClockTime>) -> bool {
    forall|i: int, j: int|
        0 <= i < j < times.len() ==> (#[trigger] times[i]).earlier(#[trigger] times[j])
}

/// Whether the times are those that the texts mean, each once, in order.
pub open spec fn are_checkpoints(times: Seq<ClockTime>, raw: Seq<Seq<char>>) -> bool {
    &&& increasing(times)
    &&& forall|k: int|
        0 <= k < raw.len() ==> checkpoint_reading(#[trigger] raw[k]) is Some && times.contains(
            checkpoint_reading(raw[k])->0,
        )
    &&& forall|i: int|
        0 <= i < times.len() ==> exists|k: int|
            0 <= k < raw.len() && checkpoint_reading(#[trigger] raw[k]) == Some(#[trigger] times[i])
}

/// The time of day that a checkpoint text means.
///
/// Times written `HH:MM` and `HH:MM:SS` mean what they say.
pub fn read_checkpoint(text: &str) -> (r: Option<ClockTime>)
    ensures
        r == checkpoint_reading(text@),
        r matches Some(time) ==> time.wf(),
        is_hours_minutes(text@) ==> r == Some(
            ClockTime {
                secs: (two_digits(text@, 0) * 3600 + two_digits(text@, 3) * 60) as u32,
                nanos: 0,
            },
        ),
        is_hours_minutes_seconds(text@) ==> r == Some(
            ClockTime {
                secs: (two_digits(text@, 0) * 3600 + two_digits(text@, 3) * 60 + two_digits(
                    text@,
                    6,
                )) as u32,
                nanos: 0,
            },
        ),
{
    match read_clock(text, "%H:%M:%S") {
        Some((secs, nanos)) => Some(ClockTime { secs, nanos }),
        None => match read_clock(text, "%H:%M") {
            Some((secs, nanos)) => Some(ClockTime { secs, nanos }),
            None => None,
        },
    }
}

/// The time of day that hours, minutes and seconds make.
pub open spec fn clock_time(hours: int, minutes: int, seconds: int) -> ClockTime {
    ClockTime { secs: (hours * 3600 + minutes * 60 + seconds) as u32, nanos: 0 }
}

/// Whether a text written `HH:MM` or `HH:MM:SS` is read as the time that its digits mean.
pub open spec fn means_its_digits(text: Seq<char>) -> bool {
    &&& is_hours_minutes(text) ==> checkpoint_reading(text) == Some(
        clock_time(two_digits(text, 0), two_digits(text, 3), 0),
    )
    &&& is_hours_minutes_seconds(text) ==> checkpoint_reading(text) == Some(
        clock_time(two_digits(text, 0), two_digits(text, 3), two_digits(text, 6)),
    )
}

/// Puts a time into its place among increasing times, unless it is there.
fn insert_time(times: &mut Vec<ClockTime>, time: ClockTime)
    requires
        increasing(old(times)@),
    ensures
        increasing(final(times)@),
        forall|t: ClockTime| #[trigger]
            final(times)@.contains(t) <==> old(times)@.contains(t) || t == time,
{
    let mut place: usize = 0;
    while place < times.len() && times[place].is_earlier(&time)
        invariant
            times@ == old(times)@,
            place <= times@.len(),
            forall|k: int| 0 <= k < place ==> (#[trigger] times@[k]).earlier(time),
        decreases times@.len() - place,
    {
        place = place + 1;
    }
    if place < times.len() && times[place] == time {
        assert(times@.contains(time)) by {
            assert(times@[place as int] == time);
        }
        return;
    }
    let ghost before = times@;
    times.insert(place, time);
    proof {
        let after = times@;
        assert(after == before.insert(place as int, time));
        assert forall|i: int, j: int| 0 <= i < j < after.len() implies (
        #[trigger] after[i]).earlier(#[trigger] after[j]) by {
            if j < place {
                assert(after[i] == before[i] && after[j] == before[j]);
            } else if j == place {
                assert(after[i] == before[i]);
            } else if i == place {
                assert(after[j] == before[j - 1]);
                assert(time.earlier(before[place as int]));
                if place < j - 1 {
                    assert(before[place as int].earlier(before[j - 1]));
                }
            } else if i < place {
                assert(after[i] == before[i] && after[j] == before[j - 1]);
            } else {
                assert(after[i] == before[i - 1] && after[j] == before[j - 1]);
            }
        }
        assert forall|t: ClockTime| #[trigger] after.contains(t) <==> before.contains(t) || t
            == time by {
            if before.contains(t) {
                let k = choose|k: int| 0 <= k < before.len() && before[k] == t;
                if k < place {
                    assert(after[k] == t);
                } else {
                    assert(after[k + 1] == t);
                }
            }
            assert(after[place as int] == time);
            if after.contains(t) {
                let k = choose|k: int| 0 <= k < after.len() && after[k] == t;
                if k < place {
                    assert(before[k] == t);
                } else if k > place {
                    assert(before[k - 1] == t);
                }
            }
        }
    }
}

/// The times of day that the checkpoint texts mean, each once, in order.
///
/// Without texts these are midnight and noon.
pub fn parse_checkpoint_times(raw_times: &[String]) -> (r: Result<Vec<ClockTime>, ConfigError>)
    ensures
        match r {
            Ok(times) => {
                &&& are_checkpoints(times@, checkpoint_texts(texts(raw_times@)))
                &&& checkpoints_wf(times@)
                &&& forall|k: int|
                    0 <= k < raw_times@.len() ==> means_its_digits(#[trigger] texts(raw_times@)[k])
            },
            Err(error) => exists|k: int|
                #![trigger first_unreadable(texts(raw_times@), k)]
                first_unreadable(texts(raw_times@), k) && means_its_digits(texts(raw_times@)[k])
                    && error@ == ConfigErrorView::InvalidCheckpoint(texts(raw_times@)[k]),
        },
        raw_times@.len() == 0 ==> r is Ok && r->Ok_0@ == seq![
            ClockTime { secs: 0, nanos: 0 },
            ClockTime { secs: 43_200, nanos: 0 },
        ],
{
    let mut times: Vec<ClockTime> = Vec::new();
    if raw_times.len() == 0 {
        proof {
            reveal_strlit("00:00");
            reveal_strlit("12:00");
            assert(is_hours_minutes("00:00"@));
            assert(is_hours_minutes("12:00"@));
        }
        let midnight: Option<ClockTime> = read_checkpoint("00:00");
        let noon: Option<ClockTime> = read_checkpoint("12:00");
        if let (Some(first), Some(second)) = (midnight, noon) {
            times.push(first);
            times.push(second);
            proof {
                let raw = checkpoint_texts(texts(raw_times@));
                assert(raw[0] == "00:00"@ && raw[1] == "12:00"@);
                assert(times@[0] == first && times@[1] == second);
                assert forall|i: int| 0 <= i < times@.len() implies exists|k: int|
                    0 <= k < raw.len() && checkpoint_reading(#[trigger] raw[k]) == Some(
                        #[trigger] times@[i],
                    ) by {
                    assert(checkpoint_reading(raw[i]) == Some(times@[i]));
                }
                assert(times@ =~= seq![
                    ClockTime { secs: 0, nanos: 0 },
                    ClockTime { secs: 43_200, nanos: 0 },
                ]);
            }
        }
        return Ok(times);
    }
    let ghost raw = texts(raw_times@);
    let mut i: usize = 0;
    while i < raw_times.len()
        invariant
            raw == texts(raw_times@),
            i <= raw_times@.len(),
            checkpoints_wf(times@),
            are_checkpoints(times@, raw.take(i as int)),
            forall|k: int| 0 <= k < i ==> means_its_digits(#[trigger] raw[k]),
        decreases raw_times@.len() - i,
    {
        assert(raw[i as int] == raw_times@[i as int]@);
        let ghost before = times@;
        match read_checkpoint(raw_times[i].as_str()) {
            Some(time) => {
                insert_time(&mut times, time);
                proof {
                    let done = raw.take(i as int);
                    let next = raw.take(i + 1);
                    assert forall|k: int| 0 <= k < next.len() implies checkpoint_reading(
                        #[trigger] next[k],
                    ) is Some && times@.contains(checkpoint_reading(next[k])->0) by {
                        if k < i {
                            assert(next[k] == done[k]);
                            assert(before.contains(checkpoint_reading(done[k])->0));
                        }
                    }
                    assert forall|j: int| 0 <= j < times@.len() implies exists|k: int|
                        0 <= k < next.len() && checkpoint_reading(#[trigger] next[k]) == Some(
                            #[trigger] times@[j],
                        ) by {
                        assert(times@.contains(times@[j]));
                        if before.contains(times@[j]) {
                            let l = choose|l: int| 0 <= l < before.len() && before[l] == times@[j];
                            let k = choose|k: int|
                                0 <= k < done.len() && checkpoint_reading(#[trigger] done[k])
                                    == Some(before[l]);
                            assert(next[k] == done[k]);
                        } else {
                            assert(checkpoint_reading(next[i as int]) == Some(times@[j]));
                        }
                    }
                    assert forall|j: int| 0 <= j < times@.len() implies (
                    #[trigger] times@[j]).wf() by {
                        assert(times@.contains(times@[j]));
                        if before.contains(times@[j]) {
                            let l = choose|l: int| 0 <= l < before.len() && before[l] == times@[j];
                            assert(before[l].wf());
                        }
                    }
                }
            },
            None => {
                proof {
                    assert forall|j: int| 0 <= j < i implies checkpoint_reading(
                        #[trigger] raw[j],
                    ) is Some by {
                        assert(raw.take(i as int)[j] == raw[j]);
                    }
                    assert(first_unreadable(raw, i as int));
                }
                return Err(ConfigError::InvalidCheckpoint(raw_times[i].clone()));
            },
        }
        i = i + 1;
    }
    assert(raw.take(raw.len() as int) =~= raw);
    Ok(times)
}

/// What is wrong with the retention options, if it can be told before reading the checkpoints.
pub open spec fn retention_option_error(
    keep_last: Option<usize>,
    keep_recent: Option<usize>,
    keep_daily_for_days: Option<usize>,
    checkpoints: nat,
) -> Option<ConfigErrorView> {
    if keep_last is Some {
        if keep_last == Some(0usize) {
            Some(ConfigErrorView::KeepLastZero)
        } else {
            None
        }
    } else if keep_recent == Some(0usize) {
        Some(ConfigErrorView::KeepRecentZero)
    } else if keep_daily_for_days == Some(0usize) {
        Some(ConfigErrorView::KeepDailyZero)
    } else if keep_recent is Some && keep_daily_for_days is None && checkpoints > 0 {
        Some(ConfigErrorView::CheckpointsWithoutDays)
    } else {
        None
    }
}

/// Whether the checkpoint options are read at all.
pub open spec fn reads_checkpoints(
    keep_last: Option<usize>,
    keep_daily_for_days: Option<usize>,
) -> bool {
    keep_last is None && keep_daily_for_days is Some
}

/// Whether a retention policy is the one that the options ask for.
pub open spec fn is_policy_for(
    policy: RetentionPolicy,
    keep_last: Option<usize>,
    keep_recent: Option<usize>,
    keep_daily_for_days: Option<usize>,
    keep_daily_at: Seq<Seq<char>>,
) -> bool {
    match (keep_last, keep_recent, keep_daily_for_days) {
        (Some(limit), _, _) => policy == RetentionPolicy::KeepLast(limit),
        (None, None, None) => policy == RetentionPolicy::KeepAll,
        (None, recent, days) => {
            &&& policy matches RetentionPolicy::Tiered(tiered)
            &&& tiered.keep_recent == (match recent {
                Some(n) => n as int,
                None => 0,
            })
            &&& tiered.keep_daily_for_days == (match days {
                Some(n) => n as int,
                None => 0,
            })
            &&& if days is Some {
                are_checkpoints(tiered.daily_checkpoints@, checkpoint_texts(keep_daily_at))
            } else {
                tiered.daily_checkpoints@.len() == 0
            }
        },
    }
}

/// Whether the retention options are refused with the given error.
pub open spec fn retention_refused(
    error: ConfigErrorView,
    keep_last: Option<usize>,
    keep_recent: Option<usize>,
    keep_daily_for_days: Option<usize>,
    keep_daily_at: Seq<Seq<char>>,
) -> bool {
    let early = retention_option_error(
        keep_last,
        keep_recent,
        keep_daily_for_days,
        keep_daily_at.len(),
    );
    if early is Some {
        early == Some(error)
    } else {
        reads_checkpoints(keep_last, keep_daily_for_days) && exists|k: int| #[trigger]
            first_unreadable(keep_daily_at, k) && error == ConfigErrorView::InvalidCheckpoint(
                keep_daily_at[k],
            )
    }
}

/// The retention policy that the options ask for.
pub fn build_retention_policy(
    keep_last: Option<usize>,
    keep_recent: Option<usize>,
    keep_daily_for_days: Option<usize>,
    keep_daily_at: &[String],
) -> (r: Result<RetentionPolicy, ConfigError>)
    ensures
        match r {
            Ok(policy) => {
                &&& retention_option_error(
                    keep_last,
                    keep_recent,
                    keep_daily_for_days,
                    keep_daily_at@.len(),
                ) is None
                &&& is_policy_for(
                    policy,
                    keep_last,
                    keep_recent,
                    keep_daily_for_days,
                    texts(keep_daily_at@),
                )
                &&& policy.wf()
                &&& keep_last is None && keep_daily_for_days is Some ==> forall|k: int|
                    0 <= k < keep_daily_at@.len() ==> means_its_digits(
                        #[trigger] texts(keep_daily_at@)[k],
                    )
            },
            Err(error) => {
                &&& retention_refused(
                    error@,
                    keep_last,
                    keep_recent,
                    keep_daily_for_days,
                    texts(keep_daily_at@),
                )
                &&& error@ matches ConfigErrorView::InvalidCheckpoint(text) ==> means_its_digits(
                    text,
                )
            },
        },
        keep_last is None && keep_daily_for_days is Some && keep_daily_at@.len() == 0 ==> (r matches Ok(
            policy,
        ) ==> policy matches RetentionPolicy::Tiered(tiered) && tiered.daily_checkpoints@ == seq![
            ClockTime { secs: 0, nanos: 0 },
            ClockTime { secs: 43_200, nanos: 0 },
        ]),
{
    if let Some(limit) = keep_last {
        if limit == 0 {
            return Err(ConfigError::KeepLastZero);
        }
        return Ok(RetentionPolicy::KeepLast(limit));
    }
    if let Some(0) = keep_recent {
        return Err(ConfigError::KeepRecentZero);
    }
    if let Some(0) = keep_daily_for_days {
        return Err(ConfigError::KeepDailyZero);
    }
    if keep_recent.is_none() && keep_daily_for_days.is_none() {
        return Ok(RetentionPolicy::KeepAll);
    }
    let daily_checkpoints: Vec<ClockTime> = if keep_daily_for_days.is_some() {
        match parse_checkpoint_times(keep_daily_at) {
            Ok(times) => times,
            Err(error) => {
                return Err(error);
            },
        }
    } else if keep_daily_at.len() > 0 {
        return Err(ConfigError::CheckpointsWithoutDays);
    } else {
        Vec::new()
    };
    Ok(
        RetentionPolicy::Tiered(
            TieredRetentionPolicy {
                keep_recent: keep_recent.unwrap_or(0),
                keep_daily_for_days: keep_daily_for_days.unwrap_or(0),
                daily_checkpoints,
            },
        ),
    )
}

/// The target directory that goes with a source, or what stands in the way.
pub open spec fn default_target(source: Seq<PartView>) -> Result<Seq<PartView>, ConfigErrorView> {
    match (file_name_text(source), parent_path(source)) {
        (None, _) => Err(ConfigErrorView::NoWorldName),
        (Some(_), None) => Err(ConfigErrorView::NoParent),
        (Some(world), Some(parent)) => Ok(parent.push(PartView::Normal(world + "-backups"@))),
    }
}

/// The directory beside the source, called after it, that backups go to by default.
pub fn default_target_dir(source: &FsPath) -> (r: Result<FsPath, ConfigError>)
    ensures
        default_target(source@) == (match r {
            Ok(path) => Ok(path@),
            Err(error) => Err(error@),
        }),
{
    let world_name: String = match source.file_name() {
        Some(text) => text,
        None => {
            return Err(ConfigError::NoWorldName);
        },
    };
    let parent: FsPath = match source.parent() {
        Some(path) => path,
        None => {
            return Err(ConfigError::NoParent);
        },
    };
    let mut name: String = world_name;
    name.append("-backups");
    Ok(parent.join_name(name.as_str()))
}

/// The options of a backup.
#[derive(Debug, Clone)]
pub struct BackupOptions {
    pub source: FsPath,
    pub target_dir: Option<FsPath>,
    pub name: Option<String>,
    pub compression: CompressionFormat,
    pub compression_level: Option<i32>,
    pub keep_last: Option<usize>,
    pub keep_recent: Option<usize>,
    pub keep_daily_for_days: Option<usize>,
    pub keep_daily_at: Vec<String>,
    pub exclude: Vec<String>,
    pub day_directories: bool,
    pub include_session_lock: bool,
    pub pre_command: Option<String>,
    pub post_command: Option<String>,
}

/// What asks for a single backup.
#[derive(Debug)]
pub struct BackupArgs {
    pub backup: BackupOptions,
}

/// What asks for backups on a schedule.
#[derive(Debug)]
pub struct RunArgs {
    pub backup: BackupOptions,
    pub interval: Option<String>,
    pub cron: Option<String>,
    pub run_immediately: bool,
    pub run_immediately_aligned: bool,
    pub always_backup: bool,
}

/// What is asked for.
#[derive(Debug)]
pub enum Command {
    Backup(BackupArgs),
    Run(RunArgs),
}

/// The command line.
#[derive(Debug)]
pub struct Cli {
    /// How many times more is to be told.
    pub verbose: u8,
    pub command: Command,
}

/// What the file system says of the source.
#[derive(Debug)]
pub enum SourceProbe {
    /// It cannot be resolved, for the given reason.
    Missing(String),
    /// It is something else than a directory.
    NotDirectory,
    /// It is a directory, at the given place once resolved.
    Directory(FsPath),
}

/// The text in an optional string.
pub open spec fn optional_text(text: Option<String>) -> Option<Seq<char>> {
    match text {
        Some(t) => Some(t@),
        None => None,
    }
}

impl BackupOptions {
    /// The target directory that goes with a source, or what stands in the way.
    pub open spec fn target(self, source: Seq<PartView>) -> Result<Seq<PartView>, ConfigErrorView> {
        match self.target_dir {
            Some(path) => Ok(path@),
            None => default_target(source),
        }
    }

    /// The name that a backup of a source is given: the one asked for, or else the source's own.
    pub open spec fn raw_name(self, source: Seq<PartView>) -> Seq<char> {
        match (self.name, file_name_text(source)) {
            (Some(name), _) => name@,
            (None, Some(world)) => world,
            (None, None) => "world"@,
        }
    }

    /// What that name amounts to.
    pub open spec fn backup_name(self, source: Seq<PartView>) -> Seq<char> {
        sanitized(self.raw_name(source))
    }

    /// Whether the options are refused with the given error, where the source is at `source`.
    pub open spec fn refused(self, source: Seq<PartView>, error: ConfigErrorView) -> bool {
        if self.target(source) is Err {
            error == self.target(source)->Err_0
        } else if self.backup_name(source).len() == 0 {
            error == ConfigErrorView::EmptyName
        } else if self.compression_level is Some && level_error(
            self.compression,
            self.compression_level->0,
        ) is Some {
            Some(error) == level_error(self.compression, self.compression_level->0)
        } else {
            retention_refused(
                error,
                self.keep_last,
                self.keep_recent,
                self.keep_daily_for_days,
                texts(self.keep_daily_at@),
            )
        }
    }

    /// Whether a configuration is the one that the options ask for, where the source is at `source`.
    pub open spec fn asks_for(self, source: Seq<PartView>, config: BackupConfig) -> bool {
        &&& config.source@ == source
        &&& self.target(source) == Ok::<Seq<PartView>, ConfigErrorView>(config.target_dir@)
        &&& config.name@ == self.backup_name(source)
        &&& config.name@.len() > 0
        &&& config.compression == self.compression
        &&& config.compression_level == self.compression_level
        &&& self.compression_level matches Some(level) ==> level_error(
            self.compression,
            level,
        ) is None
        &&& retention_option_error(
            self.keep_last,
            self.keep_recent,
            self.keep_daily_for_days,
            self.keep_daily_at@.len(),
        ) is None
        &&& is_policy_for(
            config.retention,
            self.keep_last,
            self.keep_recent,
            self.keep_daily_for_days,
            texts(self.keep_daily_at@),
        )
        &&& self.keep_last is None && self.keep_daily_for_days is Some ==> forall|k: int|
            0 <= k < self.keep_daily_at@.len() ==> means_its_digits(
                #[trigger] texts(self.keep_daily_at@)[k],
            )
        &&& texts(config.exclude@) == texts(self.exclude@)
        &&& config.day_directories == self.day_directories
        &&& config.include_session_lock == self.include_session_lock
        &&& optional_text(config.pre_command) == optional_text(self.pre_command)
        &&& optional_text(config.post_command) == optional_text(self.post_command)
    }

    /// The configuration that the options ask for, given what the file system says of the source.
    pub fn backup_config(&self, probe: SourceProbe) -> (r: Result<BackupConfig, ConfigError>)
        ensures
            match (probe, r) {
                (SourceProbe::Missing(reason), Err(error)) => error@
                    == ConfigErrorView::SourceMissing(reason@),
                (SourceProbe::NotDirectory, Err(error)) => error@
                    == ConfigErrorView::SourceNotDirectory,
                (SourceProbe::Directory(source), Ok(config)) => self.asks_for(source@, config)
                    && config.wf(),
                (SourceProbe::Directory(source), Err(error)) => self.refused(source@, error@),
                _ => false,
            },
    {
        let source: FsPath = match probe {
            SourceProbe::Missing(reason) => {
                return Err(ConfigError::SourceMissing(reason));
            },
            SourceProbe::NotDirectory => {
                return Err(ConfigError::SourceNotDirectory);
            },
            SourceProbe::Directory(source) => source,
        };
        let target_dir: FsPath = match &self.target_dir {
            Some(path) => path.clone(),
            None => match default_target_dir(&source) {
                Ok(path) => path,
                Err(error) => {
                    return Err(error);
                },
            },
        };
        let name: String = match &self.name {
            Some(name) => sanitize_name(name.as_str()),
            None => match source.file_name() {
                Some(world) => sanitize_name(world.as_str()),
                None => sanitize_name("world"),
            },
        };
        if chars_of(name.as_str()).len() == 0 {
            return Err(ConfigError::EmptyName);
        }
        if let Some(level) = self.compression_level {
            if let Err(error) = validate_compression_level(self.compression, level) {
                return Err(error);
            }
        }
        let retention: RetentionPolicy = match build_retention_policy(
            self.keep_last,
            self.keep_recent,
            self.keep_daily_for_days,
            self.keep_daily_at.as_slice(),
        ) {
            Ok(retention) => retention,
            Err(error) => {
                return Err(error);
            },
        };
        proof {
            law_sanitized_name_is_safe(self.raw_name(source@));
            assert(names_one_file(name@)) by {
                assert(is_reserved('/') && is_reserved('\\'));
            }
        }
        Ok(
            BackupConfig {
                source,
                target_dir,
                name,
                compression: self.compression,
                compression_level: self.compression_level,
                retention,
                exclude: copied(&self.exclude),
                day_directories: self.day_directories,
                include_session_lock: self.include_session_lock,
                pre_command: copied_option(&self.pre_command),
                post_command: copied_option(&self.post_command),
            },
        )
    }
}

/// A copy of some strings.
fn copied(strings: &Vec<String>) -> (r: Vec<String>)
    ensures
        texts(r@) == texts(strings@),
{
    let mut out: Vec<String> = Vec::new();
    let mut i: usize = 0;
    assert(texts(out@) =~= texts(strings@).take(0));
    while i < strings.len()
        invariant
            i <= strings@.len(),
            texts(out@) == texts(strings@).take(i as int),
        decreases strings@.len() - i,
    {
        let ghost before = texts(out@);
        out.push(strings[i].clone());
        assert(texts(out@) =~= before.push(strings@[i as int]@));
        assert(texts(strings@).take(i + 1) =~= texts(strings@).take(i as int).push(
            strings@[i as int]@,
        ));
        i = i + 1;
    }
    assert(texts(strings@).take(strings@.len() as int) =~= texts(strings@));
    out
}

/// A copy of an optional string.
fn copied_option(text: &Option<String>) -> (r: Option<String>)
    ensures
        optional_text(r) == optional_text(*text),
{
    match text {
        Some(t) => Some(t.clone()),
        None => None,
    }
}

/// The default target directory stands beside the source, never inside it.
pub proof fn law_default_target_lies_outside_source(source: Seq<PartView>)
    requires
        default_target(source) is Ok,
    ensures
        !is_inside(default_target(source)->Ok_0, source),
        default_target(source)->Ok_0.drop_last() == source.drop_last(),
{
    let target = default_target(source)->Ok_0;
    let world = file_name_text(source)->0;
    assert(target.drop_last() =~= source.drop_last());
    reveal_strlit("-backups");
    assert((world + "-backups"@).len() > world.len());
    if is_inside(target, source) {
        assert(source[source.len() - 1] == target.subrange(0, source.len() as int)[source.len()
            - 1]);
    }
}

/// A world with a name that can name files is backed up without any options.
pub proof fn law_defaults_are_accepted(
    options: BackupOptions,
    source: Seq<PartView>,
    error: ConfigErrorView,
)
    requires
        options.target_dir is None,
        options.name is None,
        options.compression_level is None,
        options.keep_last is None,
        options.keep_recent is None,
        options.keep_daily_for_days is None,
        file_name_text(source) is Some,
        sanitized(file_name_text(source)->0).len() > 0,
    ensures
        !options.refused(source, error),
{
}

} // verus!
