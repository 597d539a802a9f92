//! What goes from the world into a snapshot, and from a snapshot into an archive.
use crate::exclude::{is_literal, left_out, Exclusions};
use crate::path::{
    is_anchored, is_inside, joined, law_text_of_an_entry, normalize_path, normalized, parent_path,
    part_text, path_text, FsPath, PartView,
};
use vstd::prelude::*;

verus! {

/// What kind of thing a directory entry is.
#[derive(Debug, Clone, Copy, PartialEq, Eq, Structural)]
pub enum EntryKind {
    Directory,
    Symlink,
    /// A file, or anything else that is copied like one.
    File,
}

/// Whether the walk through the world, once in a directory, goes on to an entry of it.
pub open spec fn is_visited(path: Seq<PartView>, source: Seq<PartView>, globs: Seq<Seq<char>>) -> bool {
    is_inside(path, source) ==> !left_out(globs, path.skip(source.len() as int))
}

/// Whether the walk through the world, once in a directory, goes on to an entry of it.
///
/// It never goes to a path that one of the globs spells out letter by letter. So it does not go to
/// the world's lock file where that is among the globs.
pub fn should_visit(path: &FsPath, source: &FsPath, exclusions: &Exclusions) -> (r: bool)
    ensures
        r == is_visited(path@, source@, exclusions@),
        ({
            let relative = path@.skip(source@.len() as int);
            is_inside(path@, source@) && relative.len() > 0 && is_literal(normalized(relative))
                && exclusions@.contains(normalized(relative)) ==> !r
        }),
        path@ == source@.push(PartView::Normal("session.lock"@)) && exclusions@.contains(
            "session.lock"@,
        ) ==> !r,
{
    proof {
        if path@ == source@.push(PartView::Normal("session.lock"@)) {
            lemma_session_lock_is_literal();
            assert(path@.take(source@.len() as int) =~= source@);
            assert(path@.skip(source@.len() as int) =~= seq![PartView::Normal("session.lock"@)]);
        }
    }
    match path.strip_prefix(source) {
        Some(relative) => !exclusions.is_match(&relative),
        None => true,
    }
}

/// Whether the walk through the world gets to a path: it goes on to each entry on the way there.
pub open spec fn is_reached(path: Seq<PartView>, source: Seq<PartView>, globs: Seq<Seq<char>>) -> bool {
    is_inside(path, source) ==> forall|n: int|
        source.len() <= n <= path.len() ==> is_visited(#[trigger] path.take(n), source, globs)
}

/// Whether the walk through the world gets to a path: it goes on to each entry on the way there.
pub fn walk_reaches(path: &FsPath, source: &FsPath, exclusions: &Exclusions) -> (r: bool)
    ensures
        r == is_reached(path@, source@, exclusions@),
        path@ == source@.push(PartView::Normal("session.lock"@)) && exclusions@.contains(
            "session.lock"@,
        ) ==> !r,
{
    assert(path@.take(path@.len() as int) =~= path@);
    if !should_visit(path, source, exclusions) {
        return false;
    }
    if path.strip_prefix(source).is_none() {
        return true;
    }
    let mut n: usize = source.parts.len();
    while n < path.parts.len()
        invariant
            is_inside(path@, source@),
            source@.len() <= n <= path@.len(),
            forall|k: int|
                source@.len() <= k < n ==> is_visited(
                    #[trigger] path@.take(k),
                    source@,
                    exclusions@,
                ),
        decreases path@.len() - n,
    {
        let before: FsPath = path.leading(n);
        if !should_visit(&before, source, exclusions) {
            return false;
        }
        n = n + 1;
    }
    true
}

/// The walk gets to the world itself. It gets to an entry of a directory if it gets to the directory
/// and goes on from there to the entry.
pub proof fn law_walk_goes_from_directory_to_entry(
    directory: Seq<PartView>,
    entry: PartView,
    source: Seq<PartView>,
    globs: Seq<Seq<char>>,
)
    requires
        is_inside(directory, source),
    ensures
        is_reached(source, source, globs),
        is_reached(directory.push(entry), source, globs) == (is_reached(directory, source, globs)
            && is_visited(directory.push(entry), source, globs)),
{
    let path = directory.push(entry);
    assert(source.take(source.len() as int) =~= source);
    assert(source.skip(source.len() as int).len() == 0);
    assert(path.take(path.len() as int) =~= path);
    assert(path.take(source.len() as int) =~= directory.take(source.len() as int));
    assert forall|n: int| source.len() <= n <= directory.len() implies #[trigger] path.take(n)
        == directory.take(n) by {
        assert(path.take(n) =~= directory.take(n));
    }
    assert forall|n: int| source.len() <= n <= directory.len() && is_reached(path, source, globs)
        implies is_visited(#[trigger] directory.take(n), source, globs) by {
        assert(path.take(n) == directory.take(n));
    }
}

/// The walk gets to nothing that is left out, and to nothing that lies in a directory that is.
pub proof fn law_walk_stays_out_of_what_is_left_out(
    path: Seq<PartView>,
    below: Seq<PartView>,
    source: Seq<PartView>,
    globs: Seq<Seq<char>>,
)
    requires
        is_inside(path, source),
        is_inside(below, path),
        left_out(globs, path.skip(source.len() as int)),
    ensures
        !is_reached(below, source, globs),
{
    assert(below.take(path.len() as int) =~= path);
    assert(below.take(source.len() as int) =~= path.take(source.len() as int));
    assert(!is_visited(below.take(path.len() as int), source, globs));
}

/// The world's own lock file, by its path relative to the world, is spelled out letter by letter.
pub proof fn lemma_session_lock_is_literal()
    ensures
        normalized(seq![PartView::Normal("session.lock"@)]) == "session.lock"@,
        is_literal("session.lock"@),
{
    let path = seq![PartView::Normal("session.lock"@)];
    reveal_strlit("session.lock");
    assert(path.drop_last() =~= Seq::<PartView>::empty());
    assert(path_text(path) =~= "session.lock"@) by {
        assert(path_text(path.drop_last()) =~= Seq::<char>::empty());
    }
    assert(normalized(path) =~= "session.lock"@);
}

/// Why an entry cannot be copied.
#[derive(Debug, Clone, Copy, PartialEq, Eq, Structural)]
pub enum SnapshotError {
    /// The entry does not lie in the world.
    OutsideSource,
    /// The entry is a symbolic link.
    Symlink,
}

/// What copying an entry takes.
#[derive(Debug)]
pub enum CopyPlan {
    /// Nothing: it is the world itself.
    Nothing,
    /// A directory is made.
    MakeDirectory(FsPath),
    /// A file is copied.
    CopyFile(FsPath),
}

/// What a [`CopyPlan`] says.
pub enum CopyPlanView {
    Nothing,
    MakeDirectory(Seq<PartView>),
    CopyFile(Seq<PartView>),
}

impl View for CopyPlan {
    type V = CopyPlanView;

    open spec fn view(&self) -> CopyPlanView {
        match *self {
            CopyPlan::Nothing => CopyPlanView::Nothing,
            CopyPlan::MakeDirectory(path) => CopyPlanView::MakeDirectory(path@),
            CopyPlan::CopyFile(path) => CopyPlanView::CopyFile(path@),
        }
    }
}

/// Where an entry of the world goes in the snapshot.
pub open spec fn destination(
    path: Seq<PartView>,
    source: Seq<PartView>,
    snapshot_root: Seq<PartView>,
) -> Seq<PartView> {
    joined(snapshot_root, path.skip(source.len() as int))
}

/// What copying an entry of the world into the snapshot takes.
pub open spec fn copy_plan(
    path: Seq<PartView>,
    kind: EntryKind,
    source: Seq<PartView>,
    snapshot_root: Seq<PartView>,
) -> Result<CopyPlanView, SnapshotError> {
    if !is_inside(path, source) {
        Err(SnapshotError::OutsideSource)
    } else if path == source {
        Ok(CopyPlanView::Nothing)
    } else {
        match kind {
            EntryKind::Symlink => Err(SnapshotError::Symlink),
            EntryKind::Directory => Ok(
                CopyPlanView::MakeDirectory(destination(path, source, snapshot_root)),
            ),
            EntryKind::File => Ok(CopyPlanView::CopyFile(destination(path, source, snapshot_root))),
        }
    }
}

/// What copying an entry of the world into the snapshot takes.
pub fn plan_copy(
    path: &FsPath,
    kind: EntryKind,
    source: &FsPath,
    snapshot_root: &FsPath,
) -> (r: Result<CopyPlan, SnapshotError>)
    ensures
        copy_plan(path@, kind, source@, snapshot_root@) == (match r {
            Ok(plan) => Ok(plan@),
            Err(error) => Err(error),
        }),
{
    let relative: FsPath = match path.strip_prefix(source) {
        Some(relative) => relative,
        None => {
            return Err(SnapshotError::OutsideSource);
        },
    };
    if relative.is_empty() {
        assert(path@ =~= source@) by {
            assert(path@.take(source@.len() as int) =~= path@);
        }
        return Ok(CopyPlan::Nothing);
    }
    let to: FsPath = snapshot_root.join(&relative);
    match kind {
        EntryKind::Symlink => Err(SnapshotError::Symlink),
        EntryKind::Directory => Ok(CopyPlan::MakeDirectory(to)),
        EntryKind::File => Ok(CopyPlan::CopyFile(to)),
    }
}

/// Whether a path is the source, or names of files and directories lead from the source to it.
pub open spec fn is_below(path: Seq<PartView>, source: Seq<PartView>) -> bool {
    &&& is_inside(path, source)
    &&& forall|i: int| source.len() <= i < path.len() ==> (#[trigger] path[i]).is_name()
}

/// The snapshot mirrors the world: an entry's path below the snapshot's root is its path below the
/// world.
pub proof fn law_snapshot_mirrors_source(
    path: Seq<PartView>,
    source: Seq<PartView>,
    snapshot_root: Seq<PartView>,
)
    requires
        is_below(path, source),
    ensures
        is_below(destination(path, source, snapshot_root), snapshot_root),
        destination(path, source, snapshot_root).skip(snapshot_root.len() as int) == path.skip(
            source.len() as int,
        ),
{
    let relative = path.skip(source.len() as int);
    if relative.len() > 0 {
        assert(relative[0] == path[source.len() as int]);
        assert(relative[0].is_name());
    }
    assert(!is_anchored(relative));
    let to = destination(path, source, snapshot_root);
    assert(to == snapshot_root + relative);
    assert(to.take(snapshot_root.len() as int) =~= snapshot_root);
    assert(to.skip(snapshot_root.len() as int) =~= relative);
    assert forall|i: int| snapshot_root.len() <= i < to.len() implies (#[trigger] to[i]).is_name() by {
        assert(to[i] == path[i - snapshot_root.len() + source.len()]);
    }
}

/// No two entries of the world end up at the same place.
pub proof fn law_snapshot_keeps_entries_apart(
    a: Seq<PartView>,
    b: Seq<PartView>,
    source: Seq<PartView>,
    snapshot_root: Seq<PartView>,
)
    requires
        is_below(a, source),
        is_below(b, source),
        destination(a, source, snapshot_root) == destination(b, source, snapshot_root),
    ensures
        a == b,
{
    law_snapshot_mirrors_source(a, source, snapshot_root);
    law_snapshot_mirrors_source(b, source, snapshot_root);
    assert(a =~= source + a.skip(source.len() as int)) by {
        assert(a.take(source.len() as int) =~= source);
    }
    assert(b =~= source + b.skip(source.len() as int)) by {
        assert(b.take(source.len() as int) =~= source);
    }
}

/// Why an entry of a snapshot cannot be named in an archive.
#[derive(Debug, Clone, Copy, PartialEq, Eq, Structural)]
pub enum ArchiveNameError {
    /// The snapshot's root has no parent.
    NoParent,
    /// The entry does not lie in the parent of the snapshot's root.
    Outside,
}

/// The name of an entry in an archive: its path from the parent of the snapshot's root on, with a
/// slash behind it if it is a directory.
pub open spec fn archive_name(
    path: Seq<PartView>,
    is_directory: bool,
    snapshot_root: Seq<PartView>,
) -> Result<Seq<char>, ArchiveNameError> {
    match parent_path(snapshot_root) {
        None => Err(ArchiveNameError::NoParent),
        Some(parent) => if !is_inside(path, parent) {
            Err(ArchiveNameError::Outside)
        } else {
            let name = normalized(path.skip(parent.len() as int));
            Ok(
                if is_directory {
                    name + "/"@
                } else {
                    name
                },
            )
        },
    }
}

/// The name of an entry of a snapshot in an archive.
pub fn name_in_archive(path: &FsPath, is_directory: bool, snapshot_root: &FsPath) -> (r: Result<
    String,
    ArchiveNameError,
>)
    ensures
        archive_name(path@, is_directory, snapshot_root@) == (match r {
            Ok(name) => Ok(name@),
            Err(error) => Err(error),
        }),
{
    let parent: FsPath = match snapshot_root.parent() {
        Some(parent) => parent,
        None => {
            return Err(ArchiveNameError::NoParent);
        },
    };
    match path.strip_prefix(&parent) {
        None => Err(ArchiveNameError::Outside),
        Some(relative) => {
            let mut name: String = normalize_path(&relative);
            if is_directory {
                name.append("/");
            }
            Ok(name)
        },
    }
}

/// The text of a path starts with the text of its first component.
proof fn lemma_text_starts_with_first(path: Seq<PartView>)
    requires
        path.len() > 0,
    ensures
        part_text(path[0]).is_prefix_of(path_text(path)),
    decreases path.len(),
{
    let first = part_text(path[0]);
    let before = path.drop_last();
    if before.len() == 0 {
        assert(path_text(before) =~= Seq::<char>::empty());
        assert(path_text(path) =~= first);
        assert(first.subrange(0, first.len() as int) =~= first);
    } else {
        lemma_text_starts_with_first(before);
        assert(before[0] == path[0]);
        let text = path_text(path);
        assert(text.subrange(0, first.len() as int) =~= path_text(before).subrange(
            0,
            first.len() as int,
        ));
    }
}

/// Everything in an archive is called by a name that starts with the name of the snapshot's root.
pub proof fn law_archive_names_start_with_base(
    path: Seq<PartView>,
    is_directory: bool,
    staging: Seq<PartView>,
    base_name: Seq<char>,
)
    requires
        is_inside(path, staging.push(PartView::Normal(base_name))),
        !base_name.contains('\\'),
    ensures
        archive_name(path, is_directory, staging.push(PartView::Normal(base_name))) is Ok,
        base_name.is_prefix_of(
            archive_name(path, is_directory, staging.push(PartView::Normal(base_name)))->Ok_0,
        ),
{
    let root = staging.push(PartView::Normal(base_name));
    assert(root.drop_last() =~= staging);
    assert(path.take(root.len() as int) =~= root);
    assert(path.take(staging.len() as int) =~= staging) by {
        assert(path.take(staging.len() as int) =~= root.take(staging.len() as int));
    }
    let relative = path.skip(staging.len() as int);
    assert(relative[0] == root[staging.len() as int]);
    lemma_text_starts_with_first(relative);
    let text = path_text(relative);
    let clean = normalized(relative);
    assert(clean.subrange(0, base_name.len() as int) =~= base_name) by {
        assert forall|i: int| 0 <= i < base_name.len() implies #[trigger] clean[i]
            == base_name[i] by {
            assert(text.subrange(0, base_name.len() as int)[i] == base_name[i]);
            assert(base_name.contains(base_name[i]));
        }
    }
    let name = archive_name(path, is_directory, root)->Ok_0;
    assert(name.subrange(0, base_name.len() as int) =~= base_name);
}

/// In an archive, the name of an entry is the name of its directory with the entry's own name behind
/// it. The name of a directory is that of a file with a slash behind it.
pub proof fn law_archive_names_follow_the_directories(
    path: Seq<PartView>,
    name: Seq<char>,
    snapshot_root: Seq<PartView>,
)
    requires
        is_inside(path, snapshot_root),
        parent_path(snapshot_root) is Some,
        forall|i: int| snapshot_root.len() - 1 <= i < path.len() ==> (#[trigger] path[i]).is_name(),
        !name.contains('\\'),
    ensures
        ({
            let directory = archive_name(path, true, snapshot_root);
            &&& directory is Ok
            &&& archive_name(path, false, snapshot_root) is Ok
            &&& directory->Ok_0 == archive_name(path, false, snapshot_root)->Ok_0 + seq!['/']
            &&& archive_name(path.push(PartView::Normal(name)), false, snapshot_root) is Ok
            &&& archive_name(path.push(PartView::Normal(name)), false, snapshot_root)->Ok_0
                == directory->Ok_0 + name
        }),
{
    let parent = snapshot_root.drop_last();
    let whole = path.push(PartView::Normal(name));
    reveal_strlit("/");
    assert("/"@ =~= seq!['/']);
    assert(path.take(snapshot_root.len() as int) =~= snapshot_root);
    assert(path.subrange(0, parent.len() as int) =~= parent) by {
        assert(path.subrange(0, parent.len() as int) =~= snapshot_root.take(parent.len() as int));
    }
    assert(whole.subrange(0, parent.len() as int) =~= parent);
    let relative = path.skip(parent.len() as int);
    assert(relative.len() > 0 && relative.last() == path.last());
    assert(path[path.len() - 1].is_name());
    assert(whole.skip(parent.len() as int) =~= relative.push(PartView::Normal(name)));
    law_text_of_an_entry(relative, name);
    assert(normalized(relative.push(PartView::Normal(name))) =~= normalized(relative) + "/"@ + name);
}

/// A regular entry of the world goes to its own place below the snapshot's root, as what it is. The
/// world itself takes nothing, a symbolic link is refused, and so is what lies elsewhere.
pub proof fn law_entries_go_to_their_own_place(
    path: &FsPath,
    kind: EntryKind,
    source: &FsPath,
    snapshot_root: &FsPath,
    r: Result<CopyPlan, SnapshotError>,
    relative: Seq<PartView>,
)
    requires
        call_ensures(plan_copy, (path, kind, source, snapshot_root), r),
        path@ == source@ + relative,
        forall|i: int| 0 <= i < relative.len() ==> (#[trigger] relative[i]).is_name(),
    ensures
        relative.len() == 0 ==> r matches Ok(CopyPlan::Nothing),
        relative.len() > 0 ==> match kind {
            EntryKind::Symlink => r == Err::<CopyPlan, SnapshotError>(SnapshotError::Symlink),
            EntryKind::Directory => r matches Ok(CopyPlan::MakeDirectory(to)) && to@
                == snapshot_root@ + relative,
            EntryKind::File => r matches Ok(CopyPlan::CopyFile(to)) && to@ == snapshot_root@
                + relative,
        },
{
    assert(path@.subrange(0, source@.len() as int) =~= source@);
    assert(path@.skip(source@.len() as int) =~= relative);
    if relative.len() == 0 {
        assert(path@ =~= source@);
    } else {
        assert(relative[0].is_name());
        assert(path@.len() != source@.len());
    }
}

/// The walk gets to a path of the world exactly if neither it nor a directory on the way there is left
/// out.
pub proof fn law_the_walk_gets_to_all_else(
    path: &FsPath,
    source: &FsPath,
    exclusions: &Exclusions,
    r: bool,
    relative: Seq<PartView>,
)
    requires
        call_ensures(walk_reaches, (path, source, exclusions), r),
        path@ == source@ + relative,
    ensures
        r <==> forall|n: int|
            0 < n <= relative.len() ==> !left_out(exclusions@, #[trigger] relative.take(n)),
{
    let base = source@.len() as int;
    assert(path@.subrange(0, base) =~= source@);
    assert forall|n: int| 0 <= n <= relative.len() implies path@.take(base + n).skip(base)
        == #[trigger] relative.take(n) && is_inside(path@.take(base + n), source@) by {
        assert(path@.take(base + n).skip(base) =~= relative.take(n));
        assert(path@.take(base + n).subrange(0, base) =~= source@);
    }
    if r {
        assert forall|n: int| 0 < n <= relative.len() implies !left_out(
            exclusions@,
            #[trigger] relative.take(n),
        ) by {
            assert(is_visited(path@.take(base + n), source@, exclusions@));
        }
    }
    if forall|n: int|
        0 < n <= relative.len() ==> !left_out(exclusions@, #[trigger] relative.take(n)) {
        assert forall|m: int| base <= m <= path@.len() implies is_visited(
            #[trigger] path@.take(m),
            source@,
            exclusions@,
        ) by {
            assert(path@.take(base + (m - base)).skip(base) == relative.take(m - base));
            if m > base {
                assert(!left_out(exclusions@, relative.take(m - base)));
            }
        }
    }
}

} // verus!
