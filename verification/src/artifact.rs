//! The names of backups, and the timestamps in them.
use crate::calendar::{
    char_less, label_reading, law_stamps_are_ordered_like_times, lemma_stamp_is_in_range,
    stamp_reading,
};
use crate::cli::{extension_of, CompressionFormat};
use crate::order::lex_less;
use crate::path::{file_name_text, with_name, FsPath, PartView};
use crate::text::{chars_of, text_between};
use crate::time::{
    is_day_label, is_digit, is_stamp, law_labels_and_stamps_by_their_places, local_day,
    local_offset, local_seconds, moment_reading, moment_text, read_moment, reads_as_day, reports,
    write_moment, Timestamp, DAY, END_OF_YEAR_9999, FIRST_SECOND, LAST_SECOND, YEAR_0,
};
use vstd::prelude::*;
use vstd::utf8::*;

verus! {

/// The time that a timestamp means.
///
/// With its digits in their places, it is the time that they mean. Other texts are read by
/// [`moment_reading`].
pub open spec fn time_of_stamp(text: Seq<char>) -> Option<Timestamp> {
    if is_stamp(text) {
        match stamp_reading(text) {
            Some((secs, nanos)) => Some(Timestamp { secs: secs as i64, nanos: nanos as u32 }),
            None => None,
        }
    } else {
        match moment_reading(text, "%Y%m%dT%H%M%SZ"@) {
            Some((secs, nanos)) => Some(Timestamp { secs, nanos }),
            None => None,
        }
    }
}

/// The timestamp behind `prefix` in a file name.
///
/// It is the first sixteen bytes behind the prefix, and nothing or a dot follows it.
pub open spec fn stamp_in(prefix: Seq<char>, file_name: Seq<char>) -> Option<Timestamp> {
    let bytes = encode_utf8(file_name.skip(prefix.len() as int));
    if !prefix.is_prefix_of(file_name) {
        None
    } else if bytes.len() < 16 {
        None
    } else if bytes.len() > 16 && bytes[16] != 0x2e {
        None
    } else {
        time_of_stamp(decode_utf8(bytes.take(16)))
    }
}

/// Whether no character straddles the end of the sixteen bytes behind `prefix`.
pub open spec fn cut_is_clean(prefix: Seq<char>, file_name: Seq<char>) -> bool {
    let bytes = encode_utf8(file_name.skip(prefix.len() as int));
    prefix.is_prefix_of(file_name) && bytes.len() >= 16 ==> is_char_boundary(bytes, 16)
}

/// The text behind `prefix`, if the text starts with it.
fn behind(prefix: &str, text: &str) -> (r: Option<String>)
    ensures
        match r {
            Some(rest) => prefix@.is_prefix_of(text@) && rest@ == text@.skip(prefix@.len() as int),
            None => !prefix@.is_prefix_of(text@),
        },
{
    let start: Vec<char> = chars_of(prefix);
    let chars: Vec<char> = chars_of(text);
    if start.len() > chars.len() {
        return None;
    }
    let mut i: usize = 0;
    while i < start.len()
        invariant
            start@ == prefix@,
            chars@ == text@,
            i <= start@.len() <= chars@.len(),
            forall|k: int| 0 <= k < i ==> start@[k] == chars@[k],
        decreases start@.len() - i,
    {
        if start[i] != chars[i] {
            assert(start@[i as int] != chars@.subrange(0, start@.len() as int)[i as int]);
            return None;
        }
        i = i + 1;
    }
    assert(start@ =~= chars@.subrange(0, start@.len() as int));
    assert(chars@.skip(start@.len() as int) =~= chars@.subrange(
        start@.len() as int,
        chars@.len() as int,
    ));
    Some(text_between(&chars, start.len(), chars.len()))
}

/// Whether no character straddles the end of the sixteen bytes behind `prefix`.
pub fn has_clean_cut(prefix: &str, file_name: &str) -> (r: bool)
    ensures
        r == cut_is_clean(prefix@, file_name@),
{
    match behind(prefix, file_name) {
        None => true,
        Some(suffix) => {
            let bytes: &[u8] = suffix.as_str().as_bytes();
            bytes.len() < 16 || suffix.as_str().is_char_boundary(16)
        },
    }
}

/// The timestamp behind `prefix` in a file name.
pub fn parse_backup_timestamp(prefix: &str, file_name: &str) -> (r: Option<Timestamp>)
    requires
        cut_is_clean(prefix@, file_name@),
    ensures
        r == stamp_in(prefix@, file_name@),
        r matches Some(at) ==> at.wf(),
{
    let suffix: String = match behind(prefix, file_name) {
        Some(suffix) => suffix,
        None => {
            return None;
        },
    };
    let bytes: &[u8] = suffix.as_str().as_bytes();
    if bytes.len() < 16 {
        return None;
    }
    let (timestamp, remainder) = suffix.as_str().split_at(16);
    let rest: &[u8] = remainder.as_bytes();
    if rest.len() > 0 && rest[0] != 0x2e {
        return None;
    }
    proof {
        encode_utf8_decode_utf8(timestamp@);
        assert(bytes@.take(16) =~= bytes@.subrange(0, 16));
        assert(rest@.len() > 0 ==> rest@[0] == bytes@[16]);
    }
    match read_moment(timestamp, "%Y%m%dT%H%M%SZ") {
        Some((secs, nanos)) => Some(Timestamp { secs, nanos }),
        None => None,
    }
}

/// Encoding two texts one after the other encodes their concatenation.
proof fn lemma_encode_concat(a: Seq<char>, b: Seq<char>)
    ensures
        encode_utf8(a + b) == encode_utf8(a) + encode_utf8(b),
    decreases a.len(),
{
    if a.len() == 0 {
        assert(a + b =~= b);
        assert(encode_utf8(a) + encode_utf8(b) =~= encode_utf8(b));
    } else {
        assert((a + b).drop_first() =~= a.drop_first() + b);
        lemma_encode_concat(a.drop_first(), b);
        assert(encode_utf8(a + b) =~= encode_utf8(a) + encode_utf8(b));
    }
}

/// A file whose name is the prefix, a timestamp, and nothing or a dot and more, is found to be of
/// that time.
pub proof fn lemma_stamp_is_found(prefix: Seq<char>, stamp: Seq<char>, rest: Seq<char>)
    requires
        is_stamp(stamp),
        rest.len() > 0 ==> rest[0] == '.',
    ensures
        cut_is_clean(prefix, prefix + stamp + rest),
        stamp_in(prefix, prefix + stamp + rest) == time_of_stamp(stamp),
{
    let name = prefix + stamp + rest;
    let suffix = stamp + rest;
    assert(name.skip(prefix.len() as int) =~= suffix);
    assert(prefix =~= name.subrange(0, prefix.len() as int));
    lemma_encode_concat(stamp, rest);
    let bytes = encode_utf8(suffix);
    assert(is_ascii_chars(stamp)) by {
        assert forall|i: int| 0 <= i < stamp.len() implies '\0' <= #[trigger] stamp[i]
            <= '\u{7f}' by {
            if i < 8 || 9 <= i < 15 {
                assert(is_digit(stamp[i]));
            }
        }
    }
    is_ascii_chars_encode_utf8(stamp);
    assert(bytes.take(16) =~= encode_utf8(stamp));
    encode_utf8_decode_utf8(stamp);
    encode_utf8_valid_utf8(suffix);
    if rest.len() == 0 {
        assert(encode_utf8(rest).len() == 0);
        is_char_boundary_start_end_of_seq(bytes);
    } else {
        let dot = seq!['.'];
        assert(rest =~= dot + rest.drop_first());
        lemma_encode_concat(dot, rest.drop_first());
        assert(is_ascii_chars(dot));
        is_ascii_chars_encode_utf8(dot);
        assert(encode_utf8(dot)[0] == dot[0] as u8);
        assert(bytes[16] == 0x2e);
        is_char_boundary_iff_not_is_continuation_byte(bytes, 16);
    }
}

/// The names of backups are ordered like the times of the backups, whatever follows the timestamps
/// in them.
pub proof fn law_names_are_ordered_like_times(
    prefix: Seq<char>,
    a: Seq<char>,
    rest_a: Seq<char>,
    b: Seq<char>,
    rest_b: Seq<char>,
)
    requires
        is_stamp(a),
        is_stamp(b),
        rest_a.len() > 0 ==> rest_a[0] == '.',
        rest_b.len() > 0 ==> rest_b[0] == '.',
        stamp_in(prefix, prefix + a + rest_a) is Some,
        stamp_in(prefix, prefix + b + rest_b) is Some,
    ensures
        ({
            let at_a = stamp_in(prefix, prefix + a + rest_a)->0;
            let at_b = stamp_in(prefix, prefix + b + rest_b)->0;
            &&& at_b.later(at_a) == lex_less(char_less(), a, b)
            &&& at_a == at_b ==> a == b
        }),
{
    lemma_stamp_is_found(prefix, a, rest_a);
    lemma_stamp_is_found(prefix, b, rest_b);
    lemma_stamp_is_in_range(a);
    lemma_stamp_is_in_range(b);
    law_stamps_are_ordered_like_times(a, b);
}

/// A backup to be written: the name of its top directory, and the path that it ends up at.
#[derive(Debug)]
pub struct BackupArtifact {
    pub base_name: String,
    pub final_path: FsPath,
}

/// Whether a name holds nothing that separates the components of a path.
pub open spec fn names_one_file(name: Seq<char>) -> bool {
    !name.contains('/') && !name.contains('\\')
}

/// What the names of the backups called `name` start with.
pub open spec fn name_prefix(name: Seq<char>) -> Seq<char> {
    name + "-"@
}

/// The name of a backup of the given second, without an extension.
pub open spec fn base_name_of(name: Seq<char>, secs: i64) -> Seq<char> {
    name_prefix(name) + moment_text(secs, "%Y%m%dT%H%M%SZ"@)
}

/// A backup's file name: its base name, and behind a dot the extension of its format.
pub open spec fn final_name_of(base_name: Seq<char>, format: CompressionFormat) -> Seq<char> {
    match extension_of(format) {
        Some(extension) => base_name + "."@ + extension,
        None => base_name,
    }
}

/// The directory of a backup: the target directory, or in it the directory of the local day.
pub open spec fn backup_dir(
    target_dir: Seq<PartView>,
    at: Timestamp,
    offset: Option<i32>,
) -> Seq<PartView> {
    match offset {
        None => target_dir,
        Some(ahead) => target_dir.push(
            PartView::Normal(moment_text(local_seconds(at, ahead as int) as i64, "%Y-%m-%d"@)),
        ),
    }
}

/// The path that a backup ends up at.
pub open spec fn backup_path(
    target_dir: Seq<PartView>,
    name: Seq<char>,
    format: CompressionFormat,
    at: Timestamp,
    offset: Option<i32>,
) -> Seq<PartView> {
    backup_dir(target_dir, at, offset).push(
        PartView::Normal(final_name_of(base_name_of(name, at.secs), format)),
    )
}

/// Whether, in the years 0 to 9999, the timestamp of a second has its digits in their places, and
/// they mean that second.
pub open spec fn stamp_tells(secs: i64) -> bool {
    YEAR_0 <= secs <= END_OF_YEAR_9999 ==> {
        let stamp = moment_text(secs, "%Y%m%dT%H%M%SZ"@);
        is_stamp(stamp) && stamp_reading(stamp) == Some((secs as int, 0int))
    }
}

/// Whether, in the years 0 to 9999, the label of a second's day has its digits in their places, and
/// they mean that day.
pub open spec fn label_tells(secs: i64) -> bool {
    YEAR_0 <= secs <= END_OF_YEAR_9999 ==> {
        let label = moment_text(secs, "%Y-%m-%d"@);
        is_day_label(label) && label_reading(label) == Some(secs as int / (DAY as int))
    }
}

/// In the file name of a backup the timestamp of the backup is found again.
pub proof fn law_name_gives_time_back(name: Seq<char>, secs: i64, format: CompressionFormat)
    requires
        YEAR_0 <= secs <= END_OF_YEAR_9999,
        stamp_tells(secs),
    ensures
        ({
            let file_name = final_name_of(base_name_of(name, secs), format);
            &&& cut_is_clean(name_prefix(name), file_name)
            &&& stamp_in(name_prefix(name), file_name) == Some(Timestamp { secs, nanos: 0 })
        }),
{
    let stamp = moment_text(secs, "%Y%m%dT%H%M%SZ"@);
    let rest = match extension_of(format) {
        Some(extension) => "."@ + extension,
        None => Seq::empty(),
    };
    reveal_strlit(".");
    lemma_stamp_is_found(name_prefix(name), stamp, rest);
    assert(final_name_of(base_name_of(name, secs), format) =~= name_prefix(name) + stamp + rest);
}

/// Names the backup to be written at the time `at`.
///
/// With an offset the backup goes into the directory of the day that a clock shows which is that
/// many seconds ahead of UTC. From the year 0 to the year 9999 the digits in the backup's name mean
/// the second, those of the directory mean the day, and the timestamp is found again in the name.
pub fn artifact_at(
    target_dir: &FsPath,
    name: &str,
    compression: CompressionFormat,
    at: &Timestamp,
    offset: Option<i32>,
) -> (r: BackupArtifact)
    requires
        at.wf(),
        names_one_file(name@),
        offset matches Some(ahead) ==> FIRST_SECOND <= at.secs + ahead <= LAST_SECOND,
    ensures
        r.base_name@ == base_name_of(name@, at.secs),
        r.final_path@ == backup_path(target_dir@, name@, compression, *at, offset),
        YEAR_0 <= at.secs <= END_OF_YEAR_9999 ==> {
            let file_name = final_name_of(base_name_of(name@, at.secs), compression);
            &&& cut_is_clean(name_prefix(name@), file_name)
            &&& stamp_in(name_prefix(name@), file_name) == Some(
                Timestamp { secs: at.secs, nanos: 0 },
            )
        },
        stamp_tells(at.secs),
        offset matches Some(ahead) ==> label_tells((at.secs + ahead) as i64),
{
    let stamp: String = write_moment(at.secs, "%Y%m%dT%H%M%SZ");
    let mut base_name: String = name.to_owned();
    base_name.append("-");
    base_name.append(stamp.as_str());
    let mut final_name: String = base_name.clone();
    match compression.extension() {
        Some(extension) => {
            final_name.append(".");
            final_name.append(extension);
        },
        None => {},
    }
    let dir: FsPath = match offset {
        None => target_dir.clone(),
        Some(ahead) => {
            let label: String = write_moment(at.secs + ahead as i64, "%Y-%m-%d");
            target_dir.join_name(label.as_str())
        },
    };
    proof {
        if YEAR_0 <= at.secs <= END_OF_YEAR_9999 {
            law_name_gives_time_back(name@, at.secs, compression);
        }
    }
    BackupArtifact { base_name, final_path: dir.join_name(final_name.as_str()) }
}

/// Names the backup to be written at the time `at`, in the directory of the local day if asked to.
pub fn build_artifact(
    target_dir: &FsPath,
    name: &str,
    compression: CompressionFormat,
    at: &Timestamp,
    day_directories: bool,
) -> (r: BackupArtifact)
    requires
        FIRST_SECOND + DAY <= at.secs <= LAST_SECOND - DAY,
        at.wf(),
        names_one_file(name@),
    ensures
        r.base_name@ == base_name_of(name@, at.secs),
        !day_directories ==> r.final_path@ == backup_path(
            target_dir@,
            name@,
            compression,
            *at,
            None,
        ),
        day_directories ==> exists|ahead: i32|
            -DAY < ahead < DAY && reports(at.secs, ahead) && label_tells((at.secs + ahead) as i64)
                && r.final_path@ == #[trigger] backup_path(
                target_dir@,
                name@,
                compression,
                *at,
                Some(ahead),
            ),
        YEAR_0 <= at.secs <= END_OF_YEAR_9999 ==> {
            let file_name = final_name_of(base_name_of(name@, at.secs), compression);
            &&& file_name_text(r.final_path@) == Some(file_name)
            &&& cut_is_clean(name_prefix(name@), file_name)
            &&& stamp_in(name_prefix(name@), file_name) == Some(
                Timestamp { secs: at.secs, nanos: 0 },
            )
        },
        stamp_tells(at.secs),
        day_directories && YEAR_0 + DAY <= at.secs <= END_OF_YEAR_9999 - DAY ==> (file_name_text(
            r.final_path@.drop_last(),
        ) matches Some(day) && is_day_label(day) && exists|ahead: i32|
            -DAY < ahead < DAY && reports(at.secs, ahead) && label_reading(day) == Some(
                #[trigger] local_day(*at, ahead as int),
            )),
{
    if day_directories {
        let ahead: i32 = local_offset(at.secs);
        let artifact: BackupArtifact = artifact_at(target_dir, name, compression, at, Some(ahead));
        proof {
            let dir = backup_dir(target_dir@, *at, Some(ahead));
            assert(artifact.final_path@.drop_last() =~= dir);
            assert(local_day(*at, ahead as int) == (at.secs + ahead) / (DAY as int));
        }
        artifact
    } else {
        artifact_at(target_dir, name, compression, at, None)
    }
}

/// A backup is called by its name, a dash, the timestamp whose digits mean its second, and the
/// extension of its format.
pub proof fn law_backup_is_called_by_its_second(
    target_dir: &FsPath,
    name: &str,
    compression: CompressionFormat,
    at: &Timestamp,
    day_directories: bool,
    r: BackupArtifact,
)
    requires
        call_ensures(build_artifact, (target_dir, name, compression, at, day_directories), r),
        YEAR_0 <= at.secs <= END_OF_YEAR_9999,
    ensures
        exists|stamp: Seq<char>|
            {
                let ending = match compression {
                    CompressionFormat::Uncompressed => ""@,
                    CompressionFormat::Zip => ".zip"@,
                    CompressionFormat::TarGz => ".tar.gz"@,
                    CompressionFormat::TarZst => ".tar.zst"@,
                };
                &&& #[trigger] is_stamp(stamp)
                &&& stamp_reading(stamp) == Some((at.secs as int, 0int))
                &&& r.base_name@ == name@ + "-"@ + stamp
                &&& r.final_path@.len() > 0
                &&& r.final_path@.last() == PartView::Normal(name@ + "-"@ + stamp + ending)
            },
        !day_directories ==> r.final_path@.drop_last() == target_dir@,
{
    let stamp = moment_text(at.secs, "%Y%m%dT%H%M%SZ"@);
    let base = name@ + "-"@ + stamp;
    reveal_strlit("");
    reveal_strlit(".");
    reveal_strlit("zip");
    reveal_strlit("tar.gz");
    reveal_strlit("tar.zst");
    reveal_strlit(".zip");
    reveal_strlit(".tar.gz");
    reveal_strlit(".tar.zst");
    assert(is_stamp(stamp));
    assert(base + ""@ =~= base);
    assert(base + "."@ + "zip"@ =~= base + ".zip"@);
    assert(base + "."@ + "tar.gz"@ =~= base + ".tar.gz"@);
    assert(base + "."@ + "tar.zst"@ =~= base + ".tar.zst"@);
    assert(r.base_name@ =~= base);
    if day_directories {
        let ahead = choose|ahead: i32|
            -DAY < ahead < DAY && reports(at.secs, ahead) && label_tells((at.secs + ahead) as i64)
                && r.final_path@ == #[trigger] backup_path(
                target_dir@,
                name@,
                compression,
                *at,
                Some(ahead),
            );
        assert(r.final_path@ == backup_path(target_dir@, name@, compression, *at, Some(ahead)));
    } else {
        assert(r.final_path@.drop_last() =~= target_dir@);
    }
}

/// The directory of a backup's day stands in the target directory and is labelled with the day that
/// local clocks show at the time of the backup, by what the machine reports for that second.
pub proof fn law_day_directory_is_that_of_the_local_day(
    target_dir: &FsPath,
    name: &str,
    compression: CompressionFormat,
    at: &Timestamp,
    r: BackupArtifact,
)
    requires
        call_ensures(build_artifact, (target_dir, name, compression, at, true), r),
        YEAR_0 + DAY <= at.secs <= END_OF_YEAR_9999 - DAY,
    ensures
        r.final_path@.len() == target_dir@.len() + 2,
        r.final_path@.take(target_dir@.len() as int) == target_dir@,
        exists|ahead: i32, label: Seq<char>|
            {
                &&& #[trigger] reports(at.secs, ahead)
                &&& r.final_path@[target_dir@.len() as int] == PartView::Normal(label)
                &&& #[trigger] is_day_label(label)
                &&& label_reading(label) matches Some(day) && day * 86_400 <= at.secs + ahead < (day
                    + 1) * 86_400
            },
{
    let ahead = choose|ahead: i32|
        -DAY < ahead < DAY && reports(at.secs, ahead) && label_tells((at.secs + ahead) as i64)
            && r.final_path@ == #[trigger] backup_path(
            target_dir@,
            name@,
            compression,
            *at,
            Some(ahead),
        );
    let path = backup_path(target_dir@, name@, compression, *at, Some(ahead));
    let label = moment_text((at.secs + ahead) as i64, "%Y-%m-%d"@);
    assert(r.final_path@ == path);
    assert(path.take(target_dir@.len() as int) =~= target_dir@);
    assert(reports(at.secs, ahead) && is_day_label(label));
}

/// Whether a directory is called like a day, so that it may hold the backups of that day.
pub fn is_day_directory(path: &FsPath) -> (r: bool)
    ensures
        r == (file_name_text(path@) matches Some(name) && is_day_label(name)),
{
    match path.file_name() {
        Some(name) => reads_as_day(&chars_of(name.as_str())),
        None => false,
    }
}

/// The name under which a backup is written until it is complete.
pub open spec fn partial_name(final_path: Seq<PartView>) -> Seq<char> {
    "."@ + (match file_name_text(final_path) {
        Some(text) => text,
        None => "backup"@,
    }) + ".partial"@
}

/// The path at which a backup is written until it is complete.
pub fn partial_path(final_path: &FsPath) -> (r: FsPath)
    ensures
        r@ == with_name(final_path@, partial_name(final_path@)),
{
    let file_name: String = match final_path.file_name() {
        Some(text) => text,
        None => "backup".to_owned(),
    };
    let mut name: String = ".".to_owned();
    name.append(file_name.as_str());
    name.append(".partial");
    final_path.with_file_name(name.as_str())
}

/// An unfinished backup stands beside the finished one, under another name.
pub proof fn law_unfinished_backup_stands_beside(final_path: Seq<PartView>)
    requires
        final_path.len() > 0,
        final_path.last().is_name(),
    ensures
        with_name(final_path, partial_name(final_path)).drop_last() == final_path.drop_last(),
        with_name(final_path, partial_name(final_path)) != final_path,
{
    let partial = with_name(final_path, partial_name(final_path));
    assert(partial.drop_last() =~= final_path.drop_last());
    reveal_strlit(".");
    reveal_strlit(".partial");
    if final_path.last() is Normal {
        assert(partial_name(final_path).len() > final_path.last()->Normal_0.len());
    }
    assert(partial.last() != final_path.last());
}

/// A file whose name starts with a dot, such as an unfinished backup or a staging directory, is
/// never taken for a backup whose name does not.
pub proof fn law_hidden_files_are_not_backups(name: Seq<char>, file_name: Seq<char>)
    requires
        name.len() > 0,
        name[0] != '.',
        file_name.len() > 0,
        file_name[0] == '.',
    ensures
        stamp_in(name_prefix(name), file_name) is None,
        cut_is_clean(name_prefix(name), file_name),
{
    let prefix = name_prefix(name);
    assert(prefix[0] == name[0]);
    if prefix.is_prefix_of(file_name) {
        assert(prefix[0] == file_name.subrange(0, prefix.len() as int)[0]);
    }
}

/// A file is a backup of the name before its timestamp exactly if nothing or a dot follows the
/// timestamp, and it is of the time that the digits mean.
pub proof fn law_backups_are_told_by_their_names(
    prefix: &str,
    file_name: &str,
    r: Option<Timestamp>,
    stamp: Seq<char>,
    rest: Seq<char>,
)
    requires
        call_ensures(parse_backup_timestamp, (prefix, file_name), r),
        is_stamp(stamp),
        file_name@ == prefix@ + stamp + rest,
    ensures
        rest.len() == 0 || rest[0] == '.' ==> match (r, stamp_reading(stamp)) {
            (Some(at), Some((secs, nanos))) => at.secs == secs && at.nanos == nanos,
            (None, None) => true,
            _ => false,
        },
        rest.len() > 0 && rest[0] != '.' ==> r is None,
{
    if rest.len() == 0 || rest[0] == '.' {
        lemma_stamp_is_found(prefix@, stamp, rest);
        if stamp_reading(stamp) is Some {
            lemma_stamp_is_in_range(stamp);
        }
    } else {
        let suffix = stamp + rest;
        assert(file_name@.skip(prefix@.len() as int) =~= suffix);
        let bytes = encode_utf8(suffix);
        lemma_encode_concat(stamp, rest);
        assert(is_ascii_chars(stamp)) by {
            assert forall|i: int| 0 <= i < stamp.len() implies '\0' <= #[trigger] stamp[i]
                <= '\u{7f}' by {
                if i < 8 || 9 <= i < 15 {
                    assert(is_digit(stamp[i]));
                }
            }
        }
        is_ascii_chars_encode_utf8(stamp);
        let first = seq![rest[0]];
        assert(rest =~= first + rest.drop_first());
        lemma_encode_concat(first, rest.drop_first());
        lemma_only_a_dot_is_a_dot(rest[0]);
        assert(bytes[16] == encode_utf8(first)[0]);
    }
}

/// No other character begins with the byte of a dot.
proof fn lemma_only_a_dot_is_a_dot(c: char)
    requires
        c != '.',
    ensures
        encode_utf8(seq![c]).len() > 0,
        encode_utf8(seq![c])[0] != 0x2e,
{
    let text = seq![c];
    let bytes = encode_utf8(text);
    encode_utf8_first_scalar(text);
    if bytes[0] == 0x2e {
        assert(0x2eu8 & 0x80 == 0 && 0x2eu8 & 0x7f == 0x2e) by (bit_vector);
        assert(c as u32 == 0x2e);
        assert('.' as u32 == 0x2e);
    }
}

/// A file whose name does not begin with the prefix is no backup, nor is one with too little behind
/// it.
pub proof fn law_other_files_are_no_backups(prefix: &str, file_name: &str, r: Option<Timestamp>)
    requires
        call_ensures(parse_backup_timestamp, (prefix, file_name), r),
        r is Some,
    ensures
        prefix@.is_prefix_of(file_name@),
        encode_utf8(file_name@.skip(prefix@.len() as int)).len() >= 16,
{
}

/// Until it is complete, a backup has a hidden name beside its final one.
pub proof fn law_unfinished_backups_are_hidden(final_path: &FsPath, r: FsPath, name: Seq<char>)
    requires
        call_ensures(partial_path, (final_path,), r),
        final_path@.len() > 0,
        final_path@.last() == PartView::Normal(name),
    ensures
        r@ == final_path@.drop_last() + seq![PartView::Normal("."@ + name + ".partial"@)],
{
    assert(r@ =~= final_path@.drop_last() + seq![PartView::Normal("."@ + name + ".partial"@)]);
}

/// A directory is one of a day exactly if it is called so.
pub proof fn law_day_directories_are_told_by_their_names(path: &FsPath, r: bool)
    requires
        call_ensures(is_day_directory, (path,), r),
    ensures
        r <==> path@.len() > 0 && (path@.last() matches PartView::Normal(label) && label.len() == 10
            && forall|i: int|
            0 <= i < 10 ==> (if i == 4 || i == 7 {
                #[trigger] label[i] == '-'
            } else {
                '0' <= label[i] <= '9'
            })),
{
    if path@.len() > 0 && path@.last() is Normal {
        law_labels_and_stamps_by_their_places(path@.last()->Normal_0);
    }
}

} // verus!
