//! How a backup is made.
use crate::artifact::names_one_file;
use crate::cli::{level_error, CompressionFormat};
use crate::path::{is_inside, FsPath, PartView};
use crate::retention::RetentionPolicy;
use vstd::prelude::*;

verus! {

/// All that a backup depends on.
#[derive(Debug, Clone)]
pub struct BackupConfig {
    pub source: FsPath,
    pub target_dir: FsPath,
    pub name: String,
    pub compression: CompressionFormat,
    pub compression_level: Option<i32>,
    pub retention: RetentionPolicy,
    pub exclude: Vec<String>,
    /// Whether backups go into a directory of the target directory for each local day.
    pub day_directories: bool,
    pub include_session_lock: bool,
    pub pre_command: Option<String>,
    pub post_command: Option<String>,
}

impl BackupConfig {
    /// The name can name a file, and the checkpoints of retention lie within a day.
    pub open spec fn wf(self) -> bool {
        &&& names_one_file(self.name@)
        &&& self.retention.wf()
    }
}

/// What came of a backup: where it is, how large, and which older ones went.
#[derive(Debug)]
pub struct BackupSummary {
    pub path: FsPath,
    pub bytes: u64,
    pub deleted: Vec<FsPath>,
}

/// What a [`BackupSummary`] says.
#[verifier::ext_equal]
pub struct SummaryView {
    pub path: Seq<PartView>,
    pub bytes: int,
    pub deleted: Seq<Seq<PartView>>,
}

impl View for BackupSummary {
    type V = SummaryView;

    open spec fn view(&self) -> SummaryView {
        SummaryView {
            path: self.path@,
            bytes: self.bytes as int,
            deleted: self.deleted@.map_values(|path: FsPath| path@),
        }
    }
}

/// `value`, or the bound that it lies beyond.
pub open spec fn clamped(value: int, low: int, high: int) -> int {
    if value < low {
        low
    } else if value > high {
        high
    } else {
        value
    }
}

/// The level of `flate2::Compression::default`, which is 6.
#[verifier::external_body]
fn default_gzip_level() -> (r: u32)
    ensures
        r == 6,
{
    flate2::Compression::default().level()
}

/// The level to compress a gzip stream with.
pub fn gzip_level(level: Option<i32>) -> (r: u32)
    ensures
        r == (match level {
            Some(value) => clamped(value as int, 0, 9),
            None => 6,
        }),
{
    match level {
        Some(value) => {
            if value < 0 {
                0
            } else if value > 9 {
                9
            } else {
                value as u32
            }
        },
        None => default_gzip_level(),
    }
}

/// The level to compress a zstd stream with.
pub fn zstd_level(level: Option<i32>) -> (r: i32)
    ensures
        r == (match level {
            Some(value) => clamped(value as int, 1, 22),
            None => 3,
        }),
{
    let value: i32 = level.unwrap_or(3);
    if value < 1 {
        1
    } else if value > 22 {
        22
    } else {
        value
    }
}

/// A level that suits the format reaches the compressor unchanged.
pub proof fn law_suitable_levels_stay(format: CompressionFormat, level: i32)
    requires
        level_error(format, level) is None,
    ensures
        format is TarGz ==> clamped(level as int, 0, 9) == level,
        format is TarZst ==> clamped(level as int, 1, 22) == level,
        format !is Uncompressed,
{
}

/// The target directory as the file system resolves it, or as it is where that fails.
pub open spec fn resolved_target(
    target_dir: Seq<PartView>,
    canonical: Option<Seq<PartView>>,
) -> Seq<PartView> {
    match canonical {
        Some(path) => path,
        None => target_dir,
    }
}

/// Refuses a target directory inside the world, with the directory as the file system resolves it.
pub fn ensure_target_is_not_inside_source(
    source: &FsPath,
    target_dir: &FsPath,
    canonical: Option<FsPath>,
) -> (r: Result<(), FsPath>)
    ensures
        ({
            let target = resolved_target(
                target_dir@,
                match canonical {
                    Some(path) => Some(path@),
                    None => None,
                },
            );
            match r {
                Ok(_) => !is_inside(target, source@),
                Err(path) => is_inside(target, source@) && path@ == target,
            }
        }),
{
    let target: FsPath = match canonical {
        Some(path) => path,
        None => target_dir.clone(),
    };
    if target.starts_with(source) {
        Err(target)
    } else {
        Ok(())
    }
}

/// The sum of some sizes.
pub open spec fn total(sizes: Seq<u64>) -> int
    decreases sizes.len(),
{
    if sizes.len() == 0 {
        0
    } else {
        total(sizes.drop_last()) + sizes.last()
    }
}

/// A part of some sizes sums up to no more than all.
proof fn lemma_total_grows(sizes: Seq<u64>, n: int)
    requires
        0 <= n <= sizes.len(),
    ensures
        0 <= total(sizes.take(n)) <= total(sizes),
    decreases sizes.len(),
{
    if n == sizes.len() {
        assert(sizes.take(n) =~= sizes);
        if n > 0 {
            lemma_total_grows(sizes.drop_last(), n - 1);
            assert(sizes.drop_last().take(n - 1) =~= sizes.drop_last());
        }
    } else {
        lemma_total_grows(sizes.drop_last(), n);
        assert(sizes.drop_last().take(n) =~= sizes.take(n));
    }
}

/// The size of a backup, given those of its files, if it can be held.
pub fn artifact_size(sizes: &[u64]) -> (r: Option<u64>)
    ensures
        match r {
            Some(sum) => sum == total(sizes@),
            None => total(sizes@) > u64::MAX,
        },
{
    let mut sum: u64 = 0;
    let mut i: usize = 0;
    while i < sizes.len()
        invariant
            i <= sizes@.len(),
            sum == total(sizes@.take(i as int)),
        decreases sizes@.len() - i,
    {
        proof {
            assert(sizes@.take(i + 1).drop_last() =~= sizes@.take(i as int));
            lemma_total_grows(sizes@, i + 1);
        }
        if sizes[i] > u64::MAX - sum {
            return None;
        }
        sum = sum + sizes[i];
        i = i + 1;
    }
    assert(sizes@.take(sizes@.len() as int) =~= sizes@);
    Some(sum)
}

/// The sizes of a backup's files add up: those of two parts come to what both come to together.
pub proof fn law_sizes_add_up(
    a: Seq<u64>,
    b: Seq<u64>,
    all: &[u64],
    r: Option<u64>,
    one: u64,
)
    requires
        call_ensures(artifact_size, (all,), r),
        all@ == a + b,
    ensures
        total(seq![one]) == one,
        total(a + b) == total(a) + total(b),
        r matches Some(sum) ==> sum == total(a) + total(b),
        r is None ==> total(a) + total(b) > u64::MAX,
{
    assert(seq![one].drop_last() =~= Seq::<u64>::empty());
    assert(total(seq![one].drop_last()) == 0);
    lemma_total_of_parts(a, b);
}

/// The sum over two parts is the sum of their sums.
proof fn lemma_total_of_parts(a: Seq<u64>, b: Seq<u64>)
    ensures
        total(a + b) == total(a) + total(b),
    decreases b.len(),
{
    if b.len() == 0 {
        assert(a + b =~= a);
    } else {
        lemma_total_of_parts(a, b.drop_last());
        assert((a + b).drop_last() =~= a + b.drop_last());
    }
}

/// A target directory is refused exactly if it is the world or lies somewhere below it, as the file
/// system resolves it.
pub proof fn law_only_targets_in_the_world_are_refused(
    source: &FsPath,
    target_dir: &FsPath,
    canonical: Option<FsPath>,
    r: Result<(), FsPath>,
)
    requires
        call_ensures(ensure_target_is_not_inside_source, (source, target_dir, canonical), r),
    ensures
        ({
            let target = match canonical {
                Some(path) => path@,
                None => target_dir@,
            };
            &&& r is Err <==> exists|rest: Seq<PartView>| target == #[trigger] (source@ + rest)
            &&& r matches Err(path) ==> path@ == target
        }),
{
    let target = match canonical {
        Some(path) => path@,
        None => target_dir@,
    };
    if is_inside(target, source@) {
        let rest = target.skip(source@.len() as int);
        assert(target =~= source@ + rest);
    }
    assert forall|rest: Seq<PartView>| target == #[trigger] (source@ + rest) implies is_inside(
        target,
        source@,
    ) by {
        assert(target.subrange(0, source@.len() as int) =~= source@);
    }
}

} // verus!
