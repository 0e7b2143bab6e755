//! Paths as sequences of components.
//!
//! A path is identified by the sequence of its components, which is how the
//! standard library compares paths, finds prefixes and names the last entry.

use crate::text::same_text;
use vstd::prelude::*;

verus! {

/// One component of a path.
#[derive(Debug)]
pub enum Segment {
    /// A platform prefix such as a drive or a share, held as its text.
    Prefix(String),
    /// The root directory.
    RootDir,
    /// A reference to the current directory, `.`.
    CurDir,
    /// A reference to the parent directory, `..`.
    ParentDir,
    /// An ordinary name.
    Normal(String),
}

/// The mathematical value of a [`Segment`].
pub enum SegmentView {
    Prefix(Seq<char>),
    RootDir,
    CurDir,
    ParentDir,
    Normal(Seq<char>),
}

impl View for Segment {
    type V = SegmentView;

    open spec fn view(&self) -> SegmentView {
        match self {
            Segment::Prefix(s) => SegmentView::Prefix(s@),
            Segment::RootDir => SegmentView::RootDir,
            Segment::CurDir => SegmentView::CurDir,
            Segment::ParentDir => SegmentView::ParentDir,
            Segment::Normal(s) => SegmentView::Normal(s@),
        }
    }
}

/// The text of a component: `/` for the root, `.` and `..` for the current
/// and the parent directory, and else the text that the component holds.
pub open spec fn text_of(segment: SegmentView) -> Seq<char> {
    match segment {
        SegmentView::Prefix(s) => s,
        SegmentView::RootDir => seq!['/'],
        SegmentView::CurDir => seq!['.'],
        SegmentView::ParentDir => seq!['.', '.'],
        SegmentView::Normal(s) => s,
    }
}

impl Segment {
    /// The text of the component.
    pub fn text(&self) -> (r: &str)
        ensures
            r@ == text_of(self@),
    {
        proof {
            reveal_strlit("/");
            reveal_strlit(".");
            reveal_strlit("..");
            assert("/"@ =~= seq!['/']);
            assert("."@ =~= seq!['.']);
            assert(".."@ =~= seq!['.', '.']);
        }
        match self {
            Segment::Prefix(s) => s.as_str(),
            Segment::RootDir => "/",
            Segment::CurDir => ".",
            Segment::ParentDir => "..",
            Segment::Normal(s) => s.as_str(),
        }
    }

    /// Copies the segment.
    pub fn duplicate(&self) -> (r: Segment)
        ensures
            r@ == self@,
    {
        match self {
            Segment::Prefix(s) => Segment::Prefix(s.clone()),
            Segment::RootDir => Segment::RootDir,
            Segment::CurDir => Segment::CurDir,
            Segment::ParentDir => Segment::ParentDir,
            Segment::Normal(s) => Segment::Normal(s.clone()),
        }
    }

    /// Whether two segments are the same component.
    pub fn same(&self, other: &Segment) -> (r: bool)
        ensures
            r == (self@ == other@),
    {
        match self {
            Segment::Prefix(a) => match other {
                Segment::Prefix(b) => *a == *b,
                _ => false,
            },
            Segment::RootDir => match other {
                Segment::RootDir => true,
                _ => false,
            },
            Segment::CurDir => match other {
                Segment::CurDir => true,
                _ => false,
            },
            Segment::ParentDir => match other {
                Segment::ParentDir => true,
                _ => false,
            },
            Segment::Normal(a) => match other {
                Segment::Normal(b) => *a == *b,
                _ => false,
            },
        }
    }
}

/// A path, held as the sequence of its components.
#[derive(Debug)]
pub struct FsPath {
    pub segments: Vec<Segment>,
}

impl View for FsPath {
    type V = Seq<SegmentView>;

    open spec fn view(&self) -> Seq<SegmentView> {
        self.segments@.map_values(|s: Segment| s@)
    }
}

/// `base` is a prefix of `full`, component by component.
pub open spec fn is_prefix(base: Seq<SegmentView>, full: Seq<SegmentView>) -> bool {
    base.len() <= full.len() && full.subrange(0, base.len() as int) == base
}

/// The name of the last component, where it is an ordinary name.
pub open spec fn file_name_of(path: Seq<SegmentView>) -> Option<Seq<char>> {
    if path.len() == 0 {
        None
    } else {
        match path.last() {
            SegmentView::Normal(name) => Some(name),
            _ => None,
        }
    }
}

/// The path without its last component; `None` where the path is empty or
/// ends in a root or a prefix.
pub open spec fn parent_of(path: Seq<SegmentView>) -> Option<Seq<SegmentView>> {
    if path.len() == 0 {
        None
    } else {
        match path.last() {
            SegmentView::RootDir => None,
            SegmentView::Prefix(_) => None,
            _ => Some(path.drop_last()),
        }
    }
}

/// The index of the last `.` in `name`, or -1 where it has none.
pub open spec fn last_dot(name: Seq<char>) -> int
    decreases name.len(),
{
    if name.len() == 0 {
        -1
    } else if name.last() == '.' {
        name.len() - 1
    } else {
        last_dot(name.drop_last())
    }
}

/// The part of a file name before its extension: all of it where it holds no
/// `.` or only a leading one, else what stands before its last `.`.
pub open spec fn stem_of(name: Seq<char>) -> Seq<char> {
    if last_dot(name) <= 0 {
        name
    } else {
        name.subrange(0, last_dot(name))
    }
}

/// A file name with its extension replaced by `ext`, or removed where `ext`
/// is empty.
pub open spec fn renamed(name: Seq<char>, ext: Seq<char>) -> Seq<char> {
    if ext.len() == 0 {
        stem_of(name)
    } else {
        stem_of(name) + seq!['.'] + ext
    }
}

/// The components that a name stands for at the end of a path: `..` is the
/// parent directory, `.` is the current directory at the start of a path and
/// nothing elsewhere, the empty name is nothing, and any other text is an
/// ordinary name.
pub open spec fn name_segments(name: Seq<char>, first: bool) -> Seq<SegmentView> {
    if name == seq!['.', '.'] {
        seq![SegmentView::ParentDir]
    } else if name == seq!['.'] {
        if first {
            seq![SegmentView::CurDir]
        } else {
            Seq::empty()
        }
    } else if name.len() == 0 {
        Seq::empty()
    } else {
        seq![SegmentView::Normal(name)]
    }
}

/// A path with the extension of its file name replaced; a path without a
/// file name is left as it is.
pub open spec fn with_extension_of(path: Seq<SegmentView>, ext: Seq<char>) -> Seq<SegmentView> {
    match file_name_of(path) {
        Some(name) => path.drop_last() + name_segments(renamed(name, ext), path.len() == 1),
        None => path,
    }
}

/// No character of `text` separates path components.
pub open spec fn separator_free(text: Seq<char>) -> bool {
    forall|i: int| 0 <= i < text.len() ==> text[i] != '/' && text[i] != '\\'
}

/// `last_dot` is within the name, and is -1 exactly where no `.` occurs.
pub proof fn lemma_last_dot(name: Seq<char>)
    ensures
        -1 <= last_dot(name) < name.len(),
        last_dot(name) >= 0 ==> name[last_dot(name)] == '.',
        forall|i: int| last_dot(name) < i < name.len() ==> name[i] != '.',
    decreases name.len(),
{
    if name.len() > 0 && name.last() != '.' {
        lemma_last_dot(name.drop_last());
        assert forall|i: int| last_dot(name) < i < name.len() implies name[i] != '.' by {
            if i < name.len() - 1 {
                assert(name.drop_last()[i] == name[i]);
            }
        }
    }
}

/// The index of the last `.` of `name`, where it has one.
pub fn find_last_dot(name: &str) -> (r: Option<usize>)
    ensures
        match r {
            Some(k) => k == last_dot(name@),
            None => last_dot(name@) == -1,
        },
{
    let n = name.unicode_len();
    let mut i: usize = n;
    assert(name@.subrange(0, n as int) =~= name@);
    while i > 0
        invariant
            n == name@.len(),
            i <= n,
            last_dot(name@) == last_dot(name@.subrange(0, i as int)),
        decreases i,
    {
        let c = name.get_char(i - 1);
        let ghost head = name@.subrange(0, i as int);
        assert(head.last() == c);
        if c == '.' {
            return Some(i - 1);
        }
        assert(head.drop_last() =~= name@.subrange(0, i - 1));
        i -= 1;
    }
    assert(name@.subrange(0, 0).len() == 0);
    None
}

/// A file name with its extension replaced by `ext`, or removed where `ext`
/// is empty.
pub fn rename(name: &str, ext: &str) -> (r: String)
    ensures
        r@ == renamed(name@, ext@),
{
    proof {
        lemma_last_dot(name@);
        reveal_strlit(".");
    }
    let n = name.unicode_len();
    let stem: &str = match find_last_dot(name) {
        Some(k) => if k == 0 {
            name
        } else {
            name.substring_char(0, k)
        },
        None => name,
    };
    let mut r = String::from_str(stem);
    if ext.unicode_len() != 0 {
        r.append(".");
        r.append(ext);
        assert("."@ =~= seq!['.']);
    }
    r
}

/// Whether the path begins at a root: its first component is the root, or
/// a prefix that the root follows.
pub open spec fn is_absolute_of(path: Seq<SegmentView>) -> bool {
    path.len() > 0 && (path[0] is RootDir || (path[0] is Prefix && path.len() > 1
        && path[1] is RootDir))
}

/// `other` joined to `base`. A path that begins with a root or a prefix
/// replaces `base`; any other path is added to it, without a leading `.`
/// where `base` is not empty.
pub open spec fn joined(base: Seq<SegmentView>, other: Seq<SegmentView>) -> Seq<SegmentView> {
    if other.len() > 0 && (other[0] is RootDir || other[0] is Prefix) {
        other
    } else if base.len() == 0 {
        other
    } else if other.len() > 0 && other[0] is CurDir {
        base + other.drop_first()
    } else {
        base + other
    }
}

/// The path without its `.` components and with each `..` resolved against
/// the component before it; a `..` that has nothing before it, or only a
/// root or a prefix, is dropped.
pub open spec fn normalized(path: Seq<SegmentView>) -> Seq<SegmentView>
    decreases path.len(),
{
    if path.len() == 0 {
        Seq::empty()
    } else {
        let head = normalized(path.drop_last());
        match path.last() {
            SegmentView::CurDir => head,
            SegmentView::ParentDir => match parent_of(head) {
                Some(p) => p,
                None => head,
            },
            segment => head.push(segment),
        }
    }
}

/// The components of a path cleaned lexically, from left to right: a `.` is
/// dropped; a `..` takes away the ordinary name before it, is dropped behind
/// the root, and stays where nothing or another `..` or a prefix stands
/// before it; every other component stays.
pub open spec fn cleaned_parts(path: Seq<SegmentView>) -> Seq<SegmentView>
    decreases path.len(),
{
    if path.len() == 0 {
        Seq::empty()
    } else {
        let head = cleaned_parts(path.drop_last());
        match path.last() {
            SegmentView::CurDir => head,
            SegmentView::ParentDir => if head.len() > 0 && head.last() is Normal {
                head.drop_last()
            } else if head.len() > 0 && head.last() is RootDir {
                head
            } else {
                head.push(SegmentView::ParentDir)
            },
            segment => head.push(segment),
        }
    }
}

/// The path cleaned lexically, without a look at the file system: its
/// cleaned components, or `.` where none is left.
pub open spec fn cleaned(path: Seq<SegmentView>) -> Seq<SegmentView> {
    if cleaned_parts(path).len() == 0 {
        seq![SegmentView::CurDir]
    } else {
        cleaned_parts(path)
    }
}

/// The path begins with the root, and no root or prefix follows.
pub open spec fn rooted(path: Seq<SegmentView>) -> bool {
    &&& path.len() > 0
    &&& path[0] is RootDir
    &&& forall|i: int| 0 < i < path.len() ==> !(#[trigger] path[i] is RootDir) && !(path[i] is Prefix)
}

/// A path that begins with the root is, once cleaned, the root followed by
/// ordinary names and nothing else.
pub proof fn lemma_cleaned_rooted(path: Seq<SegmentView>)
    requires
        rooted(path),
    ensures
        cleaned(path) == cleaned_parts(path),
        cleaned(path).len() > 0,
        cleaned(path)[0] is RootDir,
        forall|i: int| 0 < i < cleaned(path).len() ==> #[trigger] cleaned(path)[i] is Normal,
    decreases path.len(),
{
    if path.len() > 1 {
        let rest = path.drop_last();
        assert(rooted(rest)) by {
            assert forall|i: int| 0 < i < rest.len() implies !(#[trigger] rest[i] is RootDir) && !(rest[i] is Prefix) by {
                assert(rest[i] == path[i]);
            }
        }
        lemma_cleaned_rooted(rest);
        assert(!(path[path.len() - 1] is RootDir) && !(path[path.len() - 1] is Prefix));
    } else {
        assert(path.drop_last().len() == 0);
        assert(cleaned_parts(path.drop_last()).len() == 0);
    }
}

/// A name that stands for one ordinary component on every platform: it is
/// not empty, is neither `.` nor `..`, holds no `/`, `\` or `:`, and does
/// not end in a `.` or a blank.
pub open spec fn portable_name(name: Seq<char>) -> bool {
    &&& name.len() > 0
    &&& name != seq!['.']
    &&& name != seq!['.', '.']
    &&& forall|i: int| 0 <= i < name.len() ==> name[i] != '/' && name[i] != '\\' && name[i] != ':'
    &&& name.last() != '.'
    &&& name.last() != ' '
}

/// A path whose components mean the same on every platform: it has no
/// prefix, a root or a `.` only as its first component, and portable names.
pub open spec fn portable(path: Seq<SegmentView>) -> bool {
    forall|i: int|
        0 <= i < path.len() ==> match #[trigger] path[i] {
            SegmentView::Prefix(_) => false,
            SegmentView::RootDir => i == 0,
            SegmentView::CurDir => i == 0,
            SegmentView::ParentDir => true,
            SegmentView::Normal(name) => portable_name(name),
        }
}

/// Whether a name stands for one ordinary component on every platform.
pub fn is_portable_name(name: &str) -> (r: bool)
    ensures
        r == portable_name(name@),
{
    proof {
        reveal_strlit(".");
        reveal_strlit("..");
        assert("."@ =~= seq!['.']);
        assert(".."@ =~= seq!['.', '.']);
    }
    let n = name.unicode_len();
    if n == 0 || same_text(name, ".") || same_text(name, "..") {
        return false;
    }
    let last = name.get_char(n - 1);
    if last == '.' || last == ' ' {
        return false;
    }
    let mut i: usize = 0;
    while i < n
        invariant
            n == name@.len(),
            i <= n,
            forall|k: int| 0 <= k < i ==> name@[k] != '/' && name@[k] != '\\' && name@[k] != ':',
        decreases n - i,
    {
        let c = name.get_char(i);
        if c == '/' || c == '\\' || c == ':' {
            return false;
        }
        i += 1;
    }
    true
}

impl FsPath {
    /// The empty path.
    pub fn new() -> (r: FsPath)
        ensures
            r@ == Seq::<SegmentView>::empty(),
    {
        let r = FsPath { segments: Vec::new() };
        assert(r@ =~= Seq::<SegmentView>::empty());
        r
    }

    /// The path made of the given components.
    pub fn from_segments(segments: Vec<Segment>) -> (r: FsPath)
        ensures
            r.segments == segments,
    {
        FsPath { segments }
    }

    /// The number of components.
    pub fn len(&self) -> (n: usize)
        ensures
            n == self@.len(),
    {
        self.segments.len()
    }

    /// Copies the path.
    pub fn duplicate(&self) -> (r: FsPath)
        ensures
            r@ == self@,
    {
        let mut segments: Vec<Segment> = Vec::new();
        let mut i: usize = 0;
        while i < self.segments.len()
            invariant
                i <= self.segments.len(),
                segments.len() == i,
                forall|k: int| 0 <= k < i ==> (#[trigger] segments[k])@ == self.segments[k]@,
            decreases self.segments.len() - i,
        {
            segments.push(self.segments[i].duplicate());
            i += 1;
        }
        let r = FsPath { segments };
        assert(r@ =~= self@);
        r
    }

    /// Whether two paths have the same components.
    pub fn same(&self, other: &FsPath) -> (r: bool)
        ensures
            r == (self@ == other@),
    {
        if self.segments.len() != other.segments.len() {
            assert(self@.len() != other@.len());
            return false;
        }
        let mut i: usize = 0;
        while i < self.segments.len()
            invariant
                i <= self.segments.len(),
                self.segments.len() == other.segments.len(),
                forall|k: int| 0 <= k < i ==> (#[trigger] self@[k]) == other@[k],
            decreases self.segments.len() - i,
        {
            if !self.segments[i].same(&other.segments[i]) {
                assert(self@[i as int] != other@[i as int]);
                return false;
            }
            i += 1;
        }
        assert(self@ =~= other@);
        true
    }

    /// Whether `base` is a prefix of this path, component by component.
    pub fn starts_with(&self, base: &FsPath) -> (r: bool)
        ensures
            r == is_prefix(base@, self@),
    {
        if base.segments.len() > self.segments.len() {
            return false;
        }
        let mut i: usize = 0;
        while i < base.segments.len()
            invariant
                i <= base.segments.len(),
                base.segments.len() <= self.segments.len(),
                forall|k: int| 0 <= k < i ==> (#[trigger] self@[k]) == base@[k],
            decreases base.segments.len() - i,
        {
            if !self.segments[i].same(&base.segments[i]) {
                assert(self@.subrange(0, base@.len() as int)[i as int] == self@[i as int]);
                return false;
            }
            i += 1;
        }
        assert(self@.subrange(0, base@.len() as int) =~= base@);
        true
    }

    /// The name of the last component, where it is an ordinary name.
    pub fn file_name(&self) -> (r: Option<String>)
        ensures
            match r {
                Some(name) => file_name_of(self@) == Some(name@),
                None => file_name_of(self@).is_none(),
            },
    {
        let n = self.segments.len();
        if n == 0 {
            return None;
        }
        match &self.segments[n - 1] {
            Segment::Normal(name) => Some(name.clone()),
            _ => None,
        }
    }

    /// The path without its last component; `None` where the path is empty
    /// or ends in a root or a prefix.
    pub fn parent(&self) -> (r: Option<FsPath>)
        ensures
            match r {
                Some(p) => parent_of(self@) == Some(p@),
                None => parent_of(self@).is_none(),
            },
    {
        let n = self.segments.len();
        if n == 0 {
            return None;
        }
        match &self.segments[n - 1] {
            Segment::RootDir => None,
            Segment::Prefix(_) => None,
            _ => {
                let mut segments: Vec<Segment> = Vec::new();
                let mut i: usize = 0;
                while i < n - 1
                    invariant
                        n == self.segments.len(),
                        n >= 1,
                        i <= n - 1,
                        segments.len() == i,
                        forall|k: int| 0 <= k < i ==> (#[trigger] segments[k])@ == self.segments[k]@,
                    decreases n - 1 - i,
                {
                    segments.push(self.segments[i].duplicate());
                    i += 1;
                }
                let p = FsPath { segments };
                assert(p@ =~= self@.drop_last());
                Some(p)
            },
        }
    }

    /// This path with the extension of its file name replaced by `ext`, or
    /// removed where `ext` is empty; a path without a file name is copied.
    pub fn with_extension(&self, ext: &str) -> (r: FsPath)
        requires
            separator_free(ext@),
        ensures
            r@ == with_extension_of(self@, ext@),
    {
        match self.file_name() {
            None => self.duplicate(),
            Some(name) => {
                let n = self.segments.len();
                let mut segments: Vec<Segment> = Vec::new();
                let mut i: usize = 0;
                while i < n - 1
                    invariant
                        n == self.segments.len(),
                        n >= 1,
                        i <= n - 1,
                        segments.len() == i,
                        forall|k: int| 0 <= k < i ==> (#[trigger] segments[k])@ == self.segments[k]@,
                    decreases n - 1 - i,
                {
                    segments.push(self.segments[i].duplicate());
                    i += 1;
                }
                let renamed = rename(name.as_str(), ext);
                proof {
                    reveal_strlit("..");
                    reveal_strlit(".");
                    assert(".."@ =~= seq!['.', '.']);
                    assert("."@ =~= seq!['.']);
                }
                let ghost head = segments@.map_values(|s: Segment| s@);
                assert(head =~= self@.drop_last());
                if same_text(renamed.as_str(), "..") {
                    segments.push(Segment::ParentDir);
                    assert(segments@.map_values(|s: Segment| s@) =~= head + seq![
                        SegmentView::ParentDir,
                    ]);
                } else if same_text(renamed.as_str(), ".") {
                    if n == 1 {
                        segments.push(Segment::CurDir);
                        assert(segments@.map_values(|s: Segment| s@) =~= head + seq![
                            SegmentView::CurDir,
                        ]);
                    } else {
                        assert(head =~= head + Seq::<SegmentView>::empty());
                    }
                } else if renamed.as_str().unicode_len() == 0 {
                    assert(head =~= head + Seq::<SegmentView>::empty());
                } else {
                    let ghost text = renamed@;
                    segments.push(Segment::Normal(renamed));
                    assert(segments@.map_values(|s: Segment| s@) =~= head + seq![
                        SegmentView::Normal(text),
                    ]);
                }
                FsPath { segments }
            },
        }
    }

    /// The path cleaned lexically, without a look at the file system.
    pub fn clean(&self) -> (r: FsPath)
        ensures
            r@ == cleaned(self@),
    {
        let mut segments: Vec<Segment> = Vec::new();
        let mut i: usize = 0;
        assert(self@.subrange(0, 0) =~= Seq::empty());
        assert(segments@.map_values(|s: Segment| s@) =~= Seq::<SegmentView>::empty());
        while i < self.segments.len()
            invariant
                i <= self.segments.len(),
                segments@.map_values(|s: Segment| s@) == cleaned_parts(self@.subrange(0, i as int)),
            decreases self.segments.len() - i,
        {
            let ghost before = segments@.map_values(|s: Segment| s@);
            let ghost next = self@.subrange(0, i + 1);
            assert(next.drop_last() =~= self@.subrange(0, i as int));
            assert(next.last() == self.segments[i as int]@);
            match &self.segments[i] {
                Segment::CurDir => {},
                Segment::ParentDir => {
                    let n = segments.len();
                    let pops = n > 0 && match &segments[n - 1] {
                        Segment::Normal(_) => true,
                        _ => false,
                    };
                    let stays = n > 0 && match &segments[n - 1] {
                        Segment::RootDir => true,
                        _ => false,
                    };
                    assert(n > 0 ==> before.last() == segments[n - 1]@);
                    if pops {
                        segments.pop();
                        assert(segments@.map_values(|s: Segment| s@) =~= before.drop_last());
                    } else if !stays {
                        segments.push(Segment::ParentDir);
                        assert(segments@.map_values(|s: Segment| s@) =~= before.push(
                            SegmentView::ParentDir,
                        ));
                    }
                },
                other => {
                    segments.push(other.duplicate());
                    assert(segments@.map_values(|s: Segment| s@) =~= before.push(
                        self.segments[i as int]@,
                    ));
                },
            }
            i += 1;
        }
        assert(self@.subrange(0, self@.len() as int) =~= self@);
        if segments.len() == 0 {
            segments.push(Segment::CurDir);
            assert(segments@.map_values(|s: Segment| s@) =~= seq![SegmentView::CurDir]);
        }
        FsPath { segments }
    }

    /// Whether the path begins at a root.
    pub fn is_absolute(&self) -> (r: bool)
        ensures
            r == is_absolute_of(self@),
    {
        if self.segments.len() == 0 {
            return false;
        }
        match &self.segments[0] {
            Segment::RootDir => true,
            Segment::Prefix(_) => {
                if self.segments.len() > 1 {
                    match &self.segments[1] {
                        Segment::RootDir => true,
                        _ => false,
                    }
                } else {
                    false
                }
            },
            _ => false,
        }
    }

    /// Whether the components of the path mean the same on every platform.
    pub fn is_portable(&self) -> (r: bool)
        ensures
            r == portable(self@),
    {
        let mut i: usize = 0;
        while i < self.segments.len()
            invariant
                i <= self.segments.len(),
                forall|k: int|
                    0 <= k < i ==> match #[trigger] self@[k] {
                        SegmentView::Prefix(_) => false,
                        SegmentView::RootDir => k == 0,
                        SegmentView::CurDir => k == 0,
                        SegmentView::ParentDir => true,
                        SegmentView::Normal(name) => portable_name(name),
                    },
            decreases self.segments.len() - i,
        {
            let ok = match &self.segments[i] {
                Segment::Prefix(_) => false,
                Segment::RootDir => i == 0,
                Segment::CurDir => i == 0,
                Segment::ParentDir => true,
                Segment::Normal(name) => is_portable_name(name.as_str()),
            };
            if !ok {
                assert(self@[i as int] == self.segments[i as int]@);
                return false;
            }
            i += 1;
        }
        true
    }

    /// `other` joined to this path.
    pub fn join(&self, other: &FsPath) -> (r: FsPath)
        ensures
            r@ == joined(self@, other@),
    {
        let n = other.segments.len();
        let mut from: usize = 0;
        if n > 0 {
            match &other.segments[0] {
                Segment::RootDir => {
                    return other.duplicate();
                },
                Segment::Prefix(_) => {
                    return other.duplicate();
                },
                Segment::CurDir => {
                    if self.segments.len() > 0 {
                        from = 1;
                    }
                },
                _ => {},
            }
        }
        if self.segments.len() == 0 {
            return other.duplicate();
        }
        let mut r = self.duplicate();
        let mut i: usize = from;
        assert(r@ =~= self@ + other@.subrange(from as int, i as int));
        while i < n
            invariant
                n == other.segments.len(),
                from <= i <= n,
                r@ == self@ + other@.subrange(from as int, i as int),
            decreases n - i,
        {
            let ghost before = r@;
            r.segments.push(other.segments[i].duplicate());
            assert(r@ =~= before.push(other@[i as int]));
            assert(other@.subrange(from as int, i + 1) =~= other@.subrange(from as int, i as int).push(
                other@[i as int],
            ));
            i += 1;
        }
        assert(other@.subrange(0, n as int) =~= other@);
        assert(n > 0 ==> other@.subrange(1, n as int) =~= other@.drop_first());
        r
    }

    /// This path with one more ordinary name at its end.
    pub fn join_name(&self, name: &String) -> (r: FsPath)
        ensures
            r@ == self@.push(SegmentView::Normal(name@)),
    {
        let mut r = self.duplicate();
        r.segments.push(Segment::Normal(name.clone()));
        assert(r@ =~= self@.push(SegmentView::Normal(name@)));
        r
    }
}

} // verus!
