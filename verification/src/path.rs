//! File system paths as sequences of components.
use crate::order::{byte_less, bytes_before, lemma_lex_order, lex_less, strict_total_order};
use crate::text::{replace_char, with_char_replaced};
use vstd::prelude::*;
use vstd::utf8::*;

verus! {

/// One component of a path.
///
/// A name that is valid Unicode is `Normal`. Any other name is `Opaque`: its bytes as the operating
/// system encodes them, and the text that stands for it where text is needed.
#[derive(Debug)]
pub enum PathPart {
    Prefix(String),
    RootDir,
    /// The root of whichever drive is current, where there are drives.
    DriveRoot,
    CurDir,
    ParentDir,
    Normal(String),
    Opaque { encoded: Vec<u8>, lossy: String },
}

/// What a [`PathPart`] holds.
pub enum PartView {
    Prefix(Seq<char>),
    RootDir,
    DriveRoot,
    CurDir,
    ParentDir,
    Normal(Seq<char>),
    Opaque { encoded: Seq<u8>, lossy: Seq<char> },
}

impl View for PathPart {
    type V = PartView;

    open spec fn view(&self) -> PartView {
        match *self {
            PathPart::Prefix(text) => PartView::Prefix(text@),
            PathPart::RootDir => PartView::RootDir,
            PathPart::DriveRoot => PartView::DriveRoot,
            PathPart::CurDir => PartView::CurDir,
            PathPart::ParentDir => PartView::ParentDir,
            PathPart::Normal(text) => PartView::Normal(text@),
            PathPart::Opaque { encoded, lossy } => PartView::Opaque {
                encoded: encoded@,
                lossy: lossy@,
            },
        }
    }
}

/// By what a component is ordered: first its kind, then its bytes.
pub struct PartKey {
    pub rank: int,
    pub bytes: Seq<u8>,
}

impl PartView {
    /// The component's place in the order of components.
    pub open spec fn key(self) -> PartKey {
        match self {
            PartView::Prefix(text) => PartKey { rank: 0, bytes: encode_utf8(text) },
            PartView::RootDir => PartKey { rank: 1, bytes: Seq::empty() },
            PartView::DriveRoot => PartKey { rank: 1, bytes: Seq::empty() },
            PartView::CurDir => PartKey { rank: 2, bytes: Seq::empty() },
            PartView::ParentDir => PartKey { rank: 3, bytes: Seq::empty() },
            PartView::Normal(text) => PartKey { rank: 4, bytes: encode_utf8(text) },
            PartView::Opaque { encoded, lossy } => PartKey { rank: 4, bytes: encoded },
        }
    }

    /// Whether the component is the name of a file or directory.
    pub open spec fn is_name(self) -> bool {
        self is Normal || self is Opaque
    }

    /// Whether the component is a prefix or a root.
    pub open spec fn is_start(self) -> bool {
        self is Prefix || self is RootDir || self is DriveRoot
    }
}

/// The order of components.
pub open spec fn part_less() -> spec_fn(PartKey, PartKey) -> bool {
    |a: PartKey, b: PartKey|
        a.rank < b.rank || (a.rank == b.rank && lex_less(byte_less(), a.bytes, b.bytes))
}

/// The keys of a path's components.
pub open spec fn path_keys(path: Seq<PartView>) -> Seq<PartKey> {
    path.map_values(|part: PartView| part.key())
}

/// Whether path `a` comes before path `b`, component by component.
pub open spec fn path_less(a: Seq<PartView>, b: Seq<PartView>) -> bool {
    lex_less(part_less(), path_keys(a), path_keys(b))
}

/// The order of components is a strict total order on their keys.
pub proof fn lemma_part_order()
    ensures
        strict_total_order(part_less()),
{
    let bytes = |a: Seq<u8>, b: Seq<u8>| lex_less(byte_less(), a, b);
    lemma_lex_order(byte_less());
    let less = part_less();
    assert forall|x: PartKey| !#[trigger] less(x, x) by {
        assert(!bytes(x.bytes, x.bytes));
    }
    assert forall|x: PartKey, y: PartKey, z: PartKey| #[trigger] less(x, y) && #[trigger] less(y, z)
        implies less(x, z) by {
        if x.rank == y.rank && y.rank == z.rank {
            assert(bytes(x.bytes, y.bytes) && bytes(y.bytes, z.bytes));
            assert(bytes(x.bytes, z.bytes));
        }
    }
    assert forall|x: PartKey, y: PartKey| x == y || #[trigger] less(x, y) || less(y, x) by {
        if x.rank == y.rank {
            assert(x.bytes == y.bytes || bytes(x.bytes, y.bytes) || bytes(y.bytes, x.bytes));
        }
    }
}

/// The order of paths is a strict total order on their keys.
pub proof fn lemma_path_order()
    ensures
        strict_total_order(|a: Seq<PartKey>, b: Seq<PartKey>| lex_less(part_less(), a, b)),
{
    lemma_part_order();
    lemma_lex_order(part_less());
}

impl PathPart {
    /// Whether two components are the same.
    pub fn same(&self, other: &PathPart) -> (r: bool)
        ensures
            r == (self@ == other@),
    {
        match (self, other) {
            (PathPart::Prefix(a), PathPart::Prefix(b)) => *a == *b,
            (PathPart::RootDir, PathPart::RootDir) => true,
            (PathPart::DriveRoot, PathPart::DriveRoot) => true,
            (PathPart::CurDir, PathPart::CurDir) => true,
            (PathPart::ParentDir, PathPart::ParentDir) => true,
            (PathPart::Normal(a), PathPart::Normal(b)) => *a == *b,
            (
                PathPart::Opaque { encoded: a, lossy: x },
                PathPart::Opaque { encoded: b, lossy: y },
            ) => same_bytes(a, b) && *x == *y,
            _ => false,
        }
    }

    /// Whether the component is the name of a file or directory.
    pub fn is_name(&self) -> (r: bool)
        ensures
            r == self@.is_name(),
    {
        match self {
            PathPart::Normal(_) | PathPart::Opaque { .. } => true,
            _ => false,
        }
    }

    fn rank(&self) -> (r: u8)
        ensures
            r as int == self@.key().rank,
    {
        match self {
            PathPart::Prefix(_) => 0,
            PathPart::RootDir => 1,
            PathPart::DriveRoot => 1,
            PathPart::CurDir => 2,
            PathPart::ParentDir => 3,
            PathPart::Normal(_) => 4,
            PathPart::Opaque { .. } => 4,
        }
    }

    /// Whether this component comes before `other`.
    fn before(&self, other: &PathPart) -> (r: bool)
        ensures
            r == part_less()(self@.key(), other@.key()),
    {
        let empty: Vec<u8> = Vec::new();
        let mine: &[u8] = match self {
            PathPart::Prefix(text) => text.as_str().as_bytes(),
            PathPart::Normal(text) => text.as_str().as_bytes(),
            PathPart::Opaque { encoded, .. } => encoded.as_slice(),
            _ => empty.as_slice(),
        };
        let theirs: &[u8] = match other {
            PathPart::Prefix(text) => text.as_str().as_bytes(),
            PathPart::Normal(text) => text.as_str().as_bytes(),
            PathPart::Opaque { encoded, .. } => encoded.as_slice(),
            _ => empty.as_slice(),
        };
        assert(mine@ =~= self@.key().bytes);
        assert(theirs@ =~= other@.key().bytes);
        let a: u8 = self.rank();
        let b: u8 = other.rank();
        a < b || (a == b && bytes_before(mine, theirs))
    }

    /// Whether the two components hold the same place in the order.
    fn level(&self, other: &PathPart) -> (r: bool)
        ensures
            r == (self@.key() == other@.key()),
    {
        proof {
            lemma_part_order();
            assert(part_less()(self@.key(), other@.key()) || part_less()(other@.key(), self@.key())
                || self@.key() == other@.key());
            assert(!part_less()(self@.key(), self@.key()));
        }
        !self.before(other) && !other.before(self)
    }
}

impl Clone for PathPart {
    fn clone(&self) -> (r: Self)
        ensures
            r@ == self@,
    {
        match self {
            PathPart::Prefix(text) => PathPart::Prefix(text.clone()),
            PathPart::RootDir => PathPart::RootDir,
            PathPart::DriveRoot => PathPart::DriveRoot,
            PathPart::CurDir => PathPart::CurDir,
            PathPart::ParentDir => PathPart::ParentDir,
            PathPart::Normal(text) => PathPart::Normal(text.clone()),
            PathPart::Opaque { encoded, lossy } => {
                let copy: Vec<u8> = encoded.clone();
                assert(copy@ =~= encoded@);
                PathPart::Opaque { encoded: copy, lossy: lossy.clone() }
            },
        }
    }
}

/// Whether two byte strings are the same.
fn same_bytes(a: &Vec<u8>, b: &Vec<u8>) -> (r: bool)
    ensures
        r == (a@ == b@),
{
    if a.len() != b.len() {
        return false;
    }
    let mut i: usize = 0;
    while i < a.len()
        invariant
            a@.len() == b@.len(),
            i <= a@.len(),
            forall|k: int| 0 <= k < i ==> a@[k] == b@[k],
        decreases a@.len() - i,
    {
        if a[i] != b[i] {
            return false;
        }
        i = i + 1;
    }
    assert(a@ =~= b@);
    true
}

/// A path: its components, in order.
#[derive(Debug)]
pub struct FsPath {
    pub parts: Vec<PathPart>,
}

impl View for FsPath {
    type V = Seq<PartView>;

    open spec fn view(&self) -> Seq<PartView> {
        self.parts@.map_values(|part: PathPart| part@)
    }
}

/// The last component's text, if it is a name that is valid Unicode.
pub open spec fn file_name_text(path: Seq<PartView>) -> Option<Seq<char>> {
    if path.len() > 0 && path.last() is Normal {
        Some(path.last()->Normal_0)
    } else {
        None
    }
}

/// The path without its last component; a root, a prefix and the empty path have none.
pub open spec fn parent_path(path: Seq<PartView>) -> Option<Seq<PartView>> {
    if path.len() == 0 || path.last().is_start() {
        None
    } else {
        Some(path.drop_last())
    }
}

/// The path with its file name, if it has one, replaced by `name`.
pub open spec fn with_name(path: Seq<PartView>, name: Seq<char>) -> Seq<PartView> {
    if path.len() > 0 && path.last().is_name() {
        path.drop_last().push(PartView::Normal(name))
    } else {
        path.push(PartView::Normal(name))
    }
}

/// Whether the path starts at a root or a prefix.
pub open spec fn is_anchored(path: Seq<PartView>) -> bool {
    path.len() > 0 && path[0].is_start()
}

/// Whether the path starts at the root, whatever drive is current.
///
/// A path with a prefix does so where the root follows the prefix.
pub open spec fn is_rooted(path: Seq<PartView>) -> bool {
    ||| path.len() > 0 && path[0] is RootDir
    ||| path.len() > 1 && path[0] is Prefix && path[1] is RootDir
}

/// `base` followed by `path`, or `path` alone where it is anchored.
///
/// The root of the current drive, in `path`, is that of the drive that `base` is on, if any.
/// A leading "here" of `path` is dropped where something stands before it.
pub open spec fn joined(base: Seq<PartView>, path: Seq<PartView>) -> Seq<PartView> {
    if path.len() > 0 && path[0] is DriveRoot && base.len() > 0 && base[0] is Prefix {
        seq![base[0], PartView::RootDir] + path.drop_first()
    } else if is_anchored(path) {
        path
    } else if base.len() > 0 && path.len() > 0 && path[0] is CurDir {
        base + path.drop_first()
    } else {
        base + path
    }
}

/// Whether the path begins with all components of `base`.
pub open spec fn is_inside(path: Seq<PartView>, base: Seq<PartView>) -> bool {
    base.is_prefix_of(path)
}

/// The text that stands for one component.
pub open spec fn part_text(part: PartView) -> Seq<char> {
    match part {
        PartView::Prefix(text) => text,
        PartView::RootDir => seq!['/'],
        PartView::DriveRoot => seq!['/'],
        PartView::CurDir => seq!['.'],
        PartView::ParentDir => seq!['.', '.'],
        PartView::Normal(text) => text,
        PartView::Opaque { encoded, lossy } => lossy,
    }
}

/// The path as text, with `/` between components.
pub open spec fn path_text(path: Seq<PartView>) -> Seq<char>
    decreases path.len(),
{
    if path.len() == 0 {
        Seq::empty()
    } else {
        let before = path.drop_last();
        if before.len() == 0 || before.last().is_start() {
            path_text(before) + part_text(path.last())
        } else {
            path_text(before) + seq!['/'] + part_text(path.last())
        }
    }
}

/// The path as text in which `/` alone separates: every backslash has become one.
pub open spec fn normalized(path: Seq<PartView>) -> Seq<char> {
    replace_char(path_text(path), '\\', '/')
}

/// A normalized path holds no backslash.
pub proof fn law_normalized_path_has_no_backslash(path: Seq<PartView>)
    ensures
        !normalized(path).contains('\\'),
{
}

/// A path that lies inside itself joined with a name: joining only goes deeper.
pub proof fn law_join_stays_inside(base: Seq<PartView>, path: Seq<PartView>)
    requires
        !is_anchored(path),
    ensures
        is_inside(joined(base, path), base),
{
    let whole = joined(base, path);
    assert(whole.take(base.len() as int) =~= base);
}

impl FsPath {
    /// Whether two paths are the same.
    pub fn same(&self, other: &FsPath) -> (r: bool)
        ensures
            r == (self@ == other@),
    {
        if self.parts.len() != other.parts.len() {
            assert(self@.len() != other@.len());
            return false;
        }
        let mut i: usize = 0;
        while i < self.parts.len()
            invariant
                self.parts@.len() == other.parts@.len(),
                i <= self.parts@.len(),
                forall|k: int| 0 <= k < i ==> self@[k] == other@[k],
            decreases self.parts@.len() - i,
        {
            if !self.parts[i].same(&other.parts[i]) {
                assert(self@[i as int] != other@[i as int]);
                return false;
            }
            assert(self@[i as int] == other@[i as int]);
            i = i + 1;
        }
        assert(self@ =~= other@);
        true
    }

    /// Whether this path comes before `other`.
    pub fn before(&self, other: &FsPath) -> (r: bool)
        ensures
            r == path_less(self@, other@),
    {
        let ghost a = path_keys(self@);
        let ghost b = path_keys(other@);
        let mut i: usize = 0;
        assert(a.skip(0) =~= a);
        assert(b.skip(0) =~= b);
        while i < self.parts.len() && i < other.parts.len() && self.parts[i].level(&other.parts[i])
            invariant
                a == path_keys(self@),
                b == path_keys(other@),
                i <= self.parts@.len(),
                i <= other.parts@.len(),
                lex_less(part_less(), a, b) == lex_less(
                    part_less(),
                    a.skip(i as int),
                    b.skip(i as int),
                ),
            decreases self.parts@.len() - i,
        {
            assert(a.skip(i as int)[0] == self.parts@[i as int]@.key());
            assert(b.skip(i as int)[0] == other.parts@[i as int]@.key());
            assert(a.skip(i as int).drop_first() =~= a.skip(i + 1));
            assert(b.skip(i as int).drop_first() =~= b.skip(i + 1));
            i = i + 1;
        }
        if i >= other.parts.len() {
            false
        } else if i >= self.parts.len() {
            true
        } else {
            assert(a.skip(i as int)[0] == self.parts@[i as int]@.key());
            assert(b.skip(i as int)[0] == other.parts@[i as int]@.key());
            self.parts[i].before(&other.parts[i])
        }
    }

    /// The last component's text, if it is a name that is valid Unicode.
    pub fn file_name(&self) -> (r: Option<String>)
        ensures
            file_name_text(self@) == (match r {
                Some(text) => Some(text@),
                None => None,
            }),
    {
        if self.parts.len() == 0 {
            return None;
        }
        assert(self@.last() == self.parts@.last()@);
        match &self.parts[self.parts.len() - 1] {
            PathPart::Normal(text) => Some(text.clone()),
            _ => None,
        }
    }

    /// The first `count` components.
    pub fn leading(&self, count: usize) -> (r: FsPath)
        requires
            count <= self@.len(),
        ensures
            r@ == self@.take(count as int),
    {
        let mut parts: Vec<PathPart> = Vec::new();
        let mut i: usize = 0;
        while i < count
            invariant
                i <= count <= self.parts@.len(),
                parts@.len() == i,
                forall|k: int| 0 <= k < i ==> (#[trigger] parts@[k])@ == self.parts@[k]@,
            decreases count - i,
        {
            parts.push(self.parts[i].clone());
            i = i + 1;
        }
        let path = FsPath { parts };
        assert(path@ =~= self@.take(count as int));
        path
    }

    /// The path without its last component.
    pub fn parent(&self) -> (r: Option<FsPath>)
        ensures
            parent_path(self@) == (match r {
                Some(path) => Some(path@),
                None => None,
            }),
    {
        let count: usize = self.parts.len();
        if count == 0 {
            return None;
        }
        assert(self@.last() == self.parts@.last()@);
        match &self.parts[count - 1] {
            PathPart::RootDir | PathPart::DriveRoot | PathPart::Prefix(_) => None,
            _ => {
                assert(self@.take(count - 1) =~= self@.drop_last());
                Some(self.leading(count - 1))
            },
        }
    }

    /// This path with the name `name` behind it.
    pub fn join_name(&self, name: &str) -> (r: FsPath)
        ensures
            r@ == self@.push(PartView::Normal(name@)),
    {
        assert(self@.take(self@.len() as int) =~= self@);
        let mut path: FsPath = self.leading(self.parts.len());
        let ghost before = path@;
        path.parts.push(PathPart::Normal(name.to_owned()));
        assert(path@ =~= before.push(PartView::Normal(name@)));
        path
    }

    /// This path with its file name replaced by `name`.
    pub fn with_file_name(&self, name: &str) -> (r: FsPath)
        ensures
            r@ == with_name(self@, name@),
    {
        let count: usize = self.parts.len();
        if count > 0 && self.parts[count - 1].is_name() {
            assert(self@.last() == self.parts@.last()@);
            assert(self@.take(count - 1) =~= self@.drop_last());
            self.leading(count - 1).join_name(name)
        } else {
            assert(count > 0 ==> self@.last() == self.parts@.last()@);
            self.join_name(name)
        }
    }

    /// Whether the path starts at the root.
    pub fn is_rooted(&self) -> (r: bool)
        ensures
            r == is_rooted(self@),
    {
        if self.parts.len() == 0 {
            return false;
        }
        assert(self@[0] == self.parts@[0]@);
        match &self.parts[0] {
            PathPart::RootDir => true,
            PathPart::Prefix(_) => {
                if self.parts.len() > 1 {
                    assert(self@[1] == self.parts@[1]@);
                    match &self.parts[1] {
                        PathPart::RootDir => true,
                        _ => false,
                    }
                } else {
                    false
                }
            },
            _ => false,
        }
    }

    /// Whether the path starts with a prefix.
    fn has_prefix(&self) -> (r: bool)
        ensures
            r == (self@.len() > 0 && self@[0] is Prefix),
    {
        if self.parts.len() == 0 {
            return false;
        }
        assert(self@[0] == self.parts@[0]@);
        match &self.parts[0] {
            PathPart::Prefix(_) => true,
            _ => false,
        }
    }

    /// This path followed by `path`.
    pub fn join(&self, path: &FsPath) -> (r: FsPath)
        ensures
            r@ == joined(self@, path@),
    {
        let mut from: usize = 0;
        assert(self@.take(self@.len() as int) =~= self@);
        let mut whole: FsPath = self.leading(self.parts.len());
        if path.parts.len() > 0 {
            assert(path@[0] == path.parts@[0]@);
            match &path.parts[0] {
                PathPart::RootDir | PathPart::Prefix(_) => {
                    return path.clone();
                },
                PathPart::DriveRoot => {
                    if !self.has_prefix() {
                        return path.clone();
                    }
                    whole = self.leading(1);
                    let ghost drive = whole@;
                    whole.parts.push(PathPart::RootDir);
                    assert(whole@ =~= drive.push(PartView::RootDir));
                    assert(whole@ =~= seq![self@[0], PartView::RootDir]);
                    from = 1;
                },
                PathPart::CurDir => {
                    if self.parts.len() > 0 {
                        from = 1;
                    }
                },
                _ => {},
            }
        }
        let ghost base = whole@;
        let mut i: usize = from;
        while i < path.parts.len()
            invariant
                from <= i <= path.parts@.len(),
                whole@ == base + path@.subrange(from as int, i as int),
            decreases path.parts@.len() - i,
        {
            let ghost before = whole@;
            whole.parts.push(path.parts[i].clone());
            proof {
                assert(whole@ =~= before.push(path@[i as int]));
                assert(path@.subrange(from as int, i + 1) =~= path@.subrange(
                    from as int,
                    i as int,
                ).push(path@[i as int]));
                assert(whole@ =~= base + path@.subrange(from as int, i + 1));
            }
            i = i + 1;
        }
        proof {
            if from == 1 {
                assert(path@.subrange(1, path@.len() as int) =~= path@.drop_first());
            } else {
                assert(path@.subrange(0, path@.len() as int) =~= path@);
            }
        }
        whole
    }

    /// Whether the path begins with all components of `base`.
    pub fn starts_with(&self, base: &FsPath) -> (r: bool)
        ensures
            r == is_inside(self@, base@),
    {
        if base.parts.len() > self.parts.len() {
            return false;
        }
        let mut i: usize = 0;
        while i < base.parts.len()
            invariant
                i <= base.parts@.len() <= self.parts@.len(),
                forall|k: int| 0 <= k < i ==> self@[k] == base@[k],
            decreases base.parts@.len() - i,
        {
            if !self.parts[i].same(&base.parts[i]) {
                assert(self@[i as int] != base@[i as int]);
                return false;
            }
            assert(self@[i as int] == base@[i as int]);
            i = i + 1;
        }
        assert(base@ =~= self@.take(base@.len() as int));
        true
    }

    /// The components behind `base`, if the path begins with it.
    pub fn strip_prefix(&self, base: &FsPath) -> (r: Option<FsPath>)
        ensures
            match r {
                Some(rest) => is_inside(self@, base@) && rest@ == self@.skip(base@.len() as int),
                None => !is_inside(self@, base@),
            },
    {
        if !self.starts_with(base) {
            return None;
        }
        let mut parts: Vec<PathPart> = Vec::new();
        let mut i: usize = base.parts.len();
        while i < self.parts.len()
            invariant
                base.parts@.len() <= i <= self.parts@.len(),
                parts@.len() == i - base.parts@.len(),
                forall|k: int|
                    0 <= k < parts@.len() ==> (#[trigger] parts@[k])@ == self.parts@[k
                        + base.parts@.len()]@,
            decreases self.parts@.len() - i,
        {
            parts.push(self.parts[i].clone());
            i = i + 1;
        }
        let rest = FsPath { parts };
        assert(rest@ =~= self@.skip(base@.len() as int));
        Some(rest)
    }

    /// Whether the path has no components.
    pub fn is_empty(&self) -> (r: bool)
        ensures
            r == (self@.len() == 0),
    {
        self.parts.len() == 0
    }

    /// The path as text.
    fn text(&self) -> (r: String)
        ensures
            r@ == path_text(self@),
    {
        let mut out: String = String::new();
        let mut i: usize = 0;
        let mut separate: bool = false;
        while i < self.parts.len()
            invariant
                i <= self.parts@.len(),
                out@ == path_text(self@.take(i as int)),
                separate == !(i == 0 || self@[i - 1].is_start()),
            decreases self.parts@.len() - i,
        {
            assert(self@[i as int] == self.parts@[i as int]@);
            assert(self@.take(i + 1).drop_last() =~= self@.take(i as int));
            let ghost start = out@;
            if separate {
                out.push('/');
                assert(out@ =~= start + seq!['/']);
            }
            let ghost so_far = out@;
            match &self.parts[i] {
                PathPart::Prefix(text) => {
                    out.append(text.as_str());
                    separate = false;
                },
                PathPart::RootDir | PathPart::DriveRoot => {
                    out.push('/');
                    assert(out@ =~= so_far + seq!['/']);
                    separate = false;
                },
                PathPart::CurDir => {
                    out.push('.');
                    assert(out@ =~= so_far + seq!['.']);
                    separate = true;
                },
                PathPart::ParentDir => {
                    out.push('.');
                    out.push('.');
                    assert(out@ =~= so_far + seq!['.', '.']);
                    separate = true;
                },
                PathPart::Normal(text) => {
                    out.append(text.as_str());
                    separate = true;
                },
                PathPart::Opaque { lossy, .. } => {
                    out.append(lossy.as_str());
                    separate = true;
                },
            }
            assert(out@ == so_far + part_text(self@[i as int]));
            i = i + 1;
        }
        assert(self@.take(self@.len() as int) =~= self@);
        out
    }
}

impl Clone for FsPath {
    fn clone(&self) -> (r: Self)
        ensures
            r@ == self@,
    {
        assert(self@.take(self@.len() as int) =~= self@);
        self.leading(self.parts.len())
    }
}

/// The path as text in which `/` alone separates components.
pub fn normalize_path(path: &FsPath) -> (r: String)
    ensures
        r@ == normalized(path@),
{
    let text: String = path.text();
    with_char_replaced(text.as_str(), '\\', '/')
}

/// A set of paths.
#[derive(Debug)]
pub struct PathSet {
    paths: Vec<FsPath>,
}

impl View for PathSet {
    type V = Set<Seq<PartView>>;

    closed spec fn view(&self) -> Set<Seq<PartView>> {
        self.listed().to_set()
    }
}

impl PathSet {
    /// The paths in the order in which they came.
    closed spec fn listed(&self) -> Seq<Seq<PartView>> {
        self.paths@.map_values(|path: FsPath| path@)
    }

    /// No path is held twice.
    pub closed spec fn wf(&self) -> bool {
        self.listed().no_duplicates()
    }

    /// The empty set.
    pub fn new() -> (r: PathSet)
        ensures
            r.wf(),
            r@ == Set::<Seq<PartView>>::empty(),
    {
        let set = PathSet { paths: Vec::new() };
        assert(set@ =~= Set::<Seq<PartView>>::empty());
        set
    }

    /// Whether the set holds a path.
    pub fn contains(&self, path: &FsPath) -> (r: bool)
        ensures
            r == self@.contains(path@),
    {
        let mut i: usize = 0;
        while i < self.paths.len()
            invariant
                i <= self.paths@.len(),
                forall|k: int| 0 <= k < i ==> self.listed()[k] != path@,
            decreases self.paths@.len() - i,
        {
            assert(self.listed()[i as int] == self.paths@[i as int]@);
            if self.paths[i].same(path) {
                assert(self.listed().contains(path@));
                return true;
            }
            i = i + 1;
        }
        assert(!self.listed().contains(path@));
        false
    }

    /// Puts a path into the set.
    pub fn insert(&mut self, path: &FsPath)
        requires
            old(self).wf(),
        ensures
            final(self).wf(),
            final(self)@ == old(self)@.insert(path@),
    {
        if self.contains(path) {
            assert(self@ =~= self@.insert(path@));
            return;
        }
        let ghost before = self.listed();
        self.paths.push(path.clone());
        assert(self.listed() =~= before.push(path@));
        assert(self@ =~= old(self)@.insert(path@)) by {
            assert forall|p: Seq<PartView>| self@.contains(p) == old(self)@.insert(path@).contains(
                p,
            ) by {
                if before.contains(p) {
                    let k = choose|k: int| 0 <= k < before.len() && before[k] == p;
                    assert(self.listed()[k] == p);
                }
                if p == path@ {
                    assert(self.listed()[before.len() as int] == p);
                }
                if self.listed().contains(p) {
                    let k = choose|k: int|
                        0 <= k < self.listed().len() && self.listed()[k] == p;
                    if k < before.len() {
                        assert(before[k] == p);
                    }
                }
            }
        }
    }

    /// How many paths the set holds.
    pub fn len(&self) -> (r: usize)
        requires
            self.wf(),
        ensures
            r == self@.len(),
    {
        proof {
            self.listed().unique_seq_to_set();
        }
        self.paths.len()
    }
}

/// Joining puts a relative path behind another, and taking it off again gives it back. An absolute
/// path stands for itself.
pub proof fn law_joining_and_stripping(
    base: &FsPath,
    path: &FsPath,
    whole: FsPath,
    rest: Option<FsPath>,
)
    requires
        call_ensures(FsPath::join, (base, path), whole),
        call_ensures(FsPath::strip_prefix, (&whole, base), rest),
    ensures
        path@.len() > 0 && path@[0] is RootDir ==> whole@ == path@,
        path@.len() > 0 && path@[0] is Prefix ==> whole@ == path@,
        path@.len() > 0 && path@[0].is_name() ==> whole@ == base@ + path@ && (rest matches Some(r)
            && r@ == path@),
{
    if path@.len() > 0 && path@[0].is_name() {
        assert(whole@.take(base@.len() as int) =~= base@);
        assert(whole@.subrange(0, base@.len() as int) =~= base@);
        assert(whole@.skip(base@.len() as int) =~= path@);
    }
}

/// A name is put behind a path and found there again, and the parent of what comes of it is the path.
pub proof fn law_names_are_found_again(
    base: &FsPath,
    name: &str,
    whole: FsPath,
    parent: Option<FsPath>,
    last: Option<String>,
    renamed: FsPath,
    other: &str,
)
    requires
        call_ensures(FsPath::join_name, (base, name), whole),
        call_ensures(FsPath::parent, (&whole,), parent),
        call_ensures(FsPath::file_name, (&whole,), last),
        call_ensures(FsPath::with_file_name, (&whole, other), renamed),
    ensures
        whole@ == base@ + seq![PartView::Normal(name@)],
        parent matches Some(path) && path@ == base@,
        last matches Some(text) && text@ == name@,
        renamed@ == base@ + seq![PartView::Normal(other@)],
{
    assert(whole@ =~= base@ + seq![PartView::Normal(name@)]);
    assert(whole@.drop_last() =~= base@);
    assert(renamed@ =~= base@ + seq![PartView::Normal(other@)]);
}

/// As a text, a name stands behind the path that it is in and a slash, and every backslash in it is
/// one too.
pub proof fn law_text_of_an_entry(path: Seq<PartView>, name: Seq<char>)
    requires
        path.len() > 0,
        path.last().is_name(),
        !name.contains('\\'),
    ensures
        normalized(path.push(PartView::Normal(name))) == normalized(path) + seq!['/'] + name,
        normalized(seq![PartView::Normal(name)]) == name,
{
    let whole = path.push(PartView::Normal(name));
    assert(whole.drop_last() =~= path);
    let single = seq![PartView::Normal(name)];
    assert(single.drop_last() =~= Seq::<PartView>::empty());
    assert(path_text(single.drop_last()) =~= Seq::<char>::empty());
    assert(path_text(single) =~= name);
    assert forall|i: int| 0 <= i < name.len() implies name[i] != '\\' by {
        assert(name.contains(name[i]));
    }
    assert(normalized(single) =~= name);
    assert(normalized(whole) =~= normalized(path) + seq!['/'] + name);
}

/// A path starts at the root if a root is its first component, or the second behind a prefix. One that
/// starts with a name, with "here" or "up", or at the root of whichever drive is current, does not.
/// "Here" in front of a path is left out where something stands before it.
pub proof fn law_roots_and_here(
    base: &FsPath,
    path: &FsPath,
    rooted: bool,
    whole: FsPath,
    rest: Seq<PartView>,
)
    requires
        call_ensures(FsPath::is_rooted, (path,), rooted),
        call_ensures(FsPath::join, (base, path), whole),
    ensures
        path@.len() > 0 && path@[0] is RootDir ==> rooted,
        path@.len() > 1 && path@[0] is Prefix && path@[1] is RootDir ==> rooted,
        path@.len() > 0 && (path@[0].is_name() || path@[0] is CurDir || path@[0] is ParentDir
            || path@[0] is DriveRoot) ==> !rooted,
        path@.len() == 0 ==> !rooted && whole@ == base@,
        base@.len() > 0 && path@ == seq![PartView::CurDir] + rest ==> whole@ == base@ + rest,
        path@.len() > 0 && path@[0] is ParentDir ==> whole@ == base@ + path@,
{
    if path@.len() == 0 {
        assert(base@ + path@ =~= base@);
    }
    if base@.len() > 0 && path@ == seq![PartView::CurDir] + rest {
        assert(path@[0] is CurDir);
        assert(path@.drop_first() =~= rest);
    }
}

} // verus!
