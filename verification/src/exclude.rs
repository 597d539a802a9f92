//! Which files of a world stay out of a backup.
use crate::backup::BackupConfig;
use crate::path::{normalize_path, normalized, FsPath, PartView};
use crate::text::{replace_char, with_char_replaced};
use vstd::prelude::*;

verus! {

/// The globs on their way into a matcher.
#[verifier::external_type_specification]
#[verifier::external_body]
pub struct ExGlobSetBuilder(globset::GlobSetBuilder);

/// A matcher for some globs.
#[verifier::external_type_specification]
#[verifier::external_body]
pub struct ExGlobSet(globset::GlobSet);

/// The patterns that a builder holds, in order.
pub uninterp spec fn patterns_added(builder: globset::GlobSetBuilder) -> Seq<Seq<char>>;

/// The patterns that a matcher was built from, in order.
pub uninterp spec fn patterns_in(matcher: globset::GlobSet) -> Seq<Seq<char>>;

/// What `globset::Glob::new` finds wrong with a pattern, if anything.
pub uninterp spec fn glob_complaint(pattern: Seq<char>) -> Option<Seq<char>>;

/// Whether `globset::GlobSetBuilder::build` fails on some patterns.
pub uninterp spec fn build_fails(patterns: Seq<Seq<char>>) -> bool;

/// Whether a matcher that holds the pattern matches the path.
pub uninterp spec fn glob_matches(pattern: Seq<char>, path: Seq<char>) -> bool;

/// Whether a pattern holds nothing but characters that stand for themselves.
pub open spec fn is_literal(pattern: Seq<char>) -> bool {
    &&& pattern.len() > 0
    &&& forall|i: int|
        0 <= i < pattern.len() ==> {
            let c = #[trigger] pattern[i];
            c != '?' && c != '*' && c != '[' && c != ']' && c != '{' && c != '}' && c != ',' && c
                != '\\'
        }
}

/// Whether all patterns hold nothing but characters that stand for themselves.
pub open spec fn all_literal(patterns: Seq<Seq<char>>) -> bool {
    forall|k: int| 0 <= k < patterns.len() ==> is_literal(#[trigger] patterns[k])
}

/// Whether one of the patterns matches the path.
pub open spec fn any_matches(patterns: Seq<Seq<char>>, path: Seq<char>) -> bool {
    exists|k: int| 0 <= k < patterns.len() && glob_matches(#[trigger] patterns[k], path)
}

/// Whether each of the patterns whose characters stand for themselves matches the path that reads
/// the same, and no other.
pub open spec fn spell_out(patterns: Seq<Seq<char>>) -> bool {
    forall|k: int, path: Seq<char>|
        0 <= k < patterns.len() && is_literal(patterns[k]) && !path.contains('\\')
            ==> #[trigger] glob_matches(patterns[k], path) == (path == patterns[k])
}

/// `globset::GlobSetBuilder::new` holds no patterns.
pub assume_specification[ globset::GlobSetBuilder::new ]() -> (r: globset::GlobSetBuilder)
    ensures
        patterns_added(r) == Seq::<Seq<char>>::empty(),
;

/// `globset::Glob::new`, and `globset::GlobSetBuilder::add` of what it makes.
///
/// What is wrong with a pattern depends on the pattern alone, and nothing is wrong with one whose
/// characters stand for themselves. A pattern with nothing wrong is added behind the others.
///
/// A backslash escapes on some platforms and separates on others, so a pattern holds none.
#[verifier::external_body]
fn add_pattern(builder: &mut globset::GlobSetBuilder, pattern: &str) -> (r: Result<(), String>)
    requires
        !pattern@.contains('\\'),
    ensures
        glob_complaint(pattern@) == (match r {
            Ok(_) => None,
            Err(reason) => Some(reason@),
        }),
        is_literal(pattern@) ==> r is Ok,
        patterns_added(*final(builder)) == (match r {
            Ok(_) => patterns_added(*old(builder)).push(pattern@),
            Err(_) => patterns_added(*old(builder)),
        }),
{
    let glob = globset::Glob::new(pattern).map_err(|error| error.to_string())?;
    builder.add(glob);
    Ok(())
}

/// `globset::GlobSetBuilder::build`.
///
/// Whether it fails depends on the patterns alone, and it does not where all characters stand for
/// themselves. Which of several faults it tells of is not stated. Else the matcher is for these
/// patterns. A pattern whose characters stand for themselves matches the path that reads the same,
/// and no other.
#[verifier::external_body]
fn build_matcher(builder: &globset::GlobSetBuilder) -> (r: Result<globset::GlobSet, String>)
    ensures
        build_fails(patterns_added(*builder)) == (r is Err),
        all_literal(patterns_added(*builder)) ==> r is Ok,
        r matches Ok(matcher) ==> patterns_in(matcher) == patterns_added(*builder) && spell_out(
            patterns_in(matcher),
        ),
{
    builder.build().map_err(|error| error.to_string())
}

/// `globset::GlobSet::is_match`: whether one of the patterns matches.
///
/// Whether a pattern matches a path depends on the two texts alone.
///
/// A backslash in a path separates on some platforms only, so the path holds none.
#[verifier::external_body]
fn matcher_matches(matcher: &globset::GlobSet, path: &str) -> (r: bool)
    requires
        !path@.contains('\\'),
    ensures
        r == (exists|k: int|
            0 <= k < patterns_in(*matcher).len() && glob_matches(
                #[trigger] patterns_in(*matcher)[k],
                path@,
            )),
{
    matcher.is_match(path)
}

/// Why the files to leave out cannot be told.
#[derive(Debug)]
pub enum ExcludeError {
    /// A pattern is not a glob.
    InvalidPattern { pattern: String, reason: String },
    /// The patterns are globs, but make no matcher together.
    Unbuildable(String),
}

/// What an [`ExcludeError`] says.
pub enum ExcludeErrorView {
    InvalidPattern { pattern: Seq<char>, reason: Seq<char> },
    Unbuildable(Seq<char>),
}

impl View for ExcludeError {
    type V = ExcludeErrorView;

    open spec fn view(&self) -> ExcludeErrorView {
        match *self {
            ExcludeError::InvalidPattern { pattern, reason } => ExcludeErrorView::InvalidPattern {
                pattern: pattern@,
                reason: reason@,
            },
            ExcludeError::Unbuildable(reason) => ExcludeErrorView::Unbuildable(reason@),
        }
    }
}

/// The pattern as a glob: `/` alone separates.
pub open spec fn as_glob(pattern: Seq<char>) -> Seq<char> {
    replace_char(pattern, '\\', '/')
}

/// The globs that come without asking: the world's lock file, unless it is wanted.
pub open spec fn built_in_globs(include_session_lock: bool) -> Seq<Seq<char>> {
    if include_session_lock {
        Seq::empty()
    } else {
        seq!["session.lock"@]
    }
}

/// The globs that a configuration excludes by: the built-in ones, then its own.
pub open spec fn globs_of(include_session_lock: bool, exclude: Seq<String>) -> Seq<Seq<char>> {
    built_in_globs(include_session_lock) + exclude.map_values(|s: String| as_glob(s@))
}

/// Whether building a matcher of some globs can fail for the given reason.
///
/// Which of several faults is told of may change from one time to another.
pub closed spec fn building_says(globs: Seq<Seq<char>>, reason: Seq<char>) -> bool {
    exists|builder: globset::GlobSetBuilder, text: String|
        {
            &&& patterns_added(builder) == globs
            &&& text@ == reason
            &&& #[trigger] call_ensures(
                build_matcher,
                (&builder,),
                Err::<globset::GlobSet, String>(text),
            )
        }
}

/// Whether pattern `k` is the first that is not a glob.
pub open spec fn first_invalid(exclude: Seq<String>, k: int) -> bool {
    &&& 0 <= k < exclude.len()
    &&& glob_complaint(as_glob(exclude[k]@)) is Some
    &&& forall|j: int|
        0 <= j < k ==> glob_complaint(as_glob((#[trigger] exclude[j])@)) is None
}

/// Whether the patterns are refused with the given error.
pub open spec fn exclude_refused(
    include_session_lock: bool,
    exclude: Seq<String>,
    error: ExcludeErrorView,
) -> bool {
    match error {
        ExcludeErrorView::InvalidPattern { pattern, reason } => exists|k: int|
            #[trigger] first_invalid(exclude, k) && pattern == exclude[k]@ && glob_complaint(
                as_glob(pattern),
            ) == Some(reason),
        ExcludeErrorView::Unbuildable(reason) => {
            &&& all_globs(exclude)
            &&& build_fails(globs_of(include_session_lock, exclude))
            &&& building_says(globs_of(include_session_lock, exclude), reason)
        },
    }
}

/// Whether all patterns are globs.
pub open spec fn all_globs(exclude: Seq<String>) -> bool {
    forall|j: int|
        0 <= j < exclude.len() ==> glob_complaint(as_glob((#[trigger] exclude[j])@)) is None
}

/// The files to leave out of a backup.
#[derive(Debug)]
pub struct Exclusions {
    matcher: globset::GlobSet,
}

impl View for Exclusions {
    type V = Seq<Seq<char>>;

    closed spec fn view(&self) -> Seq<Seq<char>> {
        patterns_in(self.matcher)
    }
}

impl Exclusions {
    #[verifier::type_invariant]
    spec fn inv(&self) -> bool {
        spell_out(patterns_in(self.matcher))
    }
}

/// Whether a path, relative to the world, is left out.
pub open spec fn left_out(globs: Seq<Seq<char>>, relative: Seq<PartView>) -> bool {
    relative.len() > 0 && any_matches(globs, normalized(relative))
}

/// A path is matched if one of the patterns spells it out, and, where all patterns do no more than
/// that, only then.
pub proof fn lemma_spelled_out(patterns: Seq<Seq<char>>, path: Seq<char>)
    requires
        spell_out(patterns),
        !path.contains('\\'),
    ensures
        is_literal(path) && patterns.contains(path) ==> any_matches(patterns, path),
        all_literal(patterns) ==> any_matches(patterns, path) == patterns.contains(path),
{
    if patterns.contains(path) {
        let k = choose|k: int| 0 <= k < patterns.len() && patterns[k] == path;
        if is_literal(path) {
            assert(glob_matches(patterns[k], path));
        }
    }
    if all_literal(patterns) && any_matches(patterns, path) {
        let k = choose|k: int| 0 <= k < patterns.len() && glob_matches(#[trigger] patterns[k], path);
        assert(is_literal(patterns[k]));
    }
}

impl Exclusions {
    /// The files that a configuration leaves out.
    pub fn new(config: &BackupConfig) -> (r: Result<Exclusions, ExcludeError>)
        ensures
            match r {
                Ok(exclusions) => {
                    let globs = globs_of(config.include_session_lock, config.exclude@);
                    &&& exclusions@ == globs
                    &&& all_globs(config.exclude@)
                    &&& !build_fails(globs)
                    &&& spell_out(globs)
                },
                Err(error) => exclude_refused(
                    config.include_session_lock,
                    config.exclude@,
                    error@,
                ),
            },
            all_literal(globs_of(config.include_session_lock, config.exclude@)) ==> r is Ok,
    {
        let ghost built_in = built_in_globs(config.include_session_lock);
        let ghost own = config.exclude@.map_values(|s: String| as_glob(s@));
        let mut builder: globset::GlobSetBuilder = globset::GlobSetBuilder::new();
        if !config.include_session_lock {
            proof {
                reveal_strlit("session.lock");
            }
            let _ = add_pattern(&mut builder, "session.lock");
        }
        let mut i: usize = 0;
        assert(patterns_added(builder) =~= built_in + own.take(0));
        while i < config.exclude.len()
            invariant
                built_in == built_in_globs(config.include_session_lock),
                own == config.exclude@.map_values(|s: String| as_glob(s@)),
                i <= config.exclude@.len(),
                patterns_added(builder) == built_in + own.take(i as int),
                forall|j: int|
                    0 <= j < i ==> glob_complaint(as_glob((#[trigger] config.exclude@[j])@)) is None,
            decreases config.exclude@.len() - i,
        {
            let normalized_pattern: String = with_char_replaced(
                config.exclude[i].as_str(),
                '\\',
                '/',
            );
            assert(own[i as int] == normalized_pattern@);
            match add_pattern(&mut builder, normalized_pattern.as_str()) {
                Ok(_) => {
                    assert(own.take(i + 1) =~= own.take(i as int).push(own[i as int]));
                    assert((built_in + own.take(i as int)).push(own[i as int]) =~= built_in
                        + own.take(i + 1));
                },
                Err(reason) => {
                    proof {
                        assert(first_invalid(config.exclude@, i as int));
                        let globs = globs_of(config.include_session_lock, config.exclude@);
                        assert(globs[built_in.len() + i] == own[i as int]);
                    }
                    return Err(
                        ExcludeError::InvalidPattern {
                            pattern: config.exclude[i].clone(),
                            reason,
                        },
                    );
                },
            }
            i = i + 1;
        }
        assert(own.take(own.len() as int) =~= own);
        match build_matcher(&builder) {
            Ok(matcher) => Ok(Exclusions { matcher }),
            Err(reason) => Err(ExcludeError::Unbuildable(reason)),
        }
    }

    /// Whether a path, relative to the world, is left out. The world itself never is.
    ///
    /// A path that one of the globs spells out letter by letter always is.
    pub fn is_match(&self, relative_path: &FsPath) -> (r: bool)
        ensures
            r == left_out(self@, relative_path@),
            relative_path@.len() > 0 && is_literal(normalized(relative_path@)) && self@.contains(
                normalized(relative_path@),
            ) ==> r,
            relative_path@.len() > 0 && all_literal(self@) ==> r == self@.contains(
                normalized(relative_path@),
            ),
    {
        if relative_path.is_empty() {
            return false;
        }
        let text: String = normalize_path(relative_path);
        proof {
            use_type_invariant(self);
            lemma_spelled_out(self@, text@);
        }
        matcher_matches(&self.matcher, text.as_str())
    }
}

/// The files to leave out are told by the world's lock file, unless it is wanted, and by the patterns
/// given, in order, with a slash for each backslash.
pub proof fn law_globs_are_those_given(config: &BackupConfig, r: Exclusions)
    requires
        call_ensures(Exclusions::new, (config,), Ok::<Exclusions, ExcludeError>(r)),
    ensures
        ({
            let built_in: int = if config.include_session_lock {
                0
            } else {
                1
            };
            &&& r@.len() == built_in + config.exclude@.len()
            &&& !config.include_session_lock ==> r@[0] == "session.lock"@
            &&& forall|k: int, i: int|
                #![trigger r@[built_in + k], config.exclude@[k]@[i]]
                0 <= k < config.exclude@.len() && 0 <= i < config.exclude@[k]@.len() ==> {
                    &&& r@[built_in + k].len() == config.exclude@[k]@.len()
                    &&& r@[built_in + k][i] == (if config.exclude@[k]@[i] == '\\' {
                        '/'
                    } else {
                        config.exclude@[k]@[i]
                    })
                }
        }),
{
}

/// A path is left out exactly if one of the globs matches its text. One that is spelled out letter by
/// letter is left out, and the world itself never is.
pub proof fn law_left_out_by_globs(exclusions: &Exclusions, path: &FsPath, r: bool)
    requires
        call_ensures(Exclusions::is_match, (exclusions, path), r),
    ensures
        path@.len() == 0 ==> !r,
        path@.len() > 0 ==> (r <==> exists|k: int|
            0 <= k < exclusions@.len() && glob_matches(
                #[trigger] exclusions@[k],
                normalized(path@),
            )),
{
}

/// The patterns are refused exactly if one is no glob, or all are but make no matcher together. The
/// first that is none is named, as it was given, with what is wrong with it.
pub proof fn law_first_faulty_pattern_is_told(config: &BackupConfig, r: Result<Exclusions, ExcludeError>)
    requires
        call_ensures(Exclusions::new, (config,), r),
    ensures
        r matches Err(ExcludeError::InvalidPattern { pattern, reason }) ==> exists|k: int|
            {
                &&& 0 <= k < config.exclude@.len()
                &&& pattern@ == (#[trigger] config.exclude@[k])@
                &&& glob_complaint(as_glob(config.exclude@[k]@)) == Some(reason@)
                &&& forall|j: int|
                    0 <= j < k ==> glob_complaint(as_glob((#[trigger] config.exclude@[j])@)) is None
            },
        r is Ok || (r matches Err(ExcludeError::Unbuildable(_))) ==> forall|k: int|
            0 <= k < config.exclude@.len() ==> glob_complaint(
                as_glob((#[trigger] config.exclude@[k])@),
            ) is None,
{
    if let Err(ExcludeError::InvalidPattern { pattern, reason }) = r {
        let error = ExcludeErrorView::InvalidPattern { pattern: pattern@, reason: reason@ };
        assert(exclude_refused(config.include_session_lock, config.exclude@, error));
        let k = choose|k: int| #[trigger]
            first_invalid(config.exclude@, k) && pattern@ == config.exclude@[k]@ && glob_complaint(
                as_glob(pattern@),
            ) == Some(reason@);
        assert(config.exclude@[k]@ == pattern@);
    }
}

} // verus!
