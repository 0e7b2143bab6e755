//! Canonicalizing a path that may not exist.
//!
//! The path is first cleaned lexically. Then the nearest ancestor that
//! exists is canonicalized, and the components below it are added back. Resolving a path against the file system is the
//! caller's work: it resolves the candidate it is handed and reports what came
//! of it.

use crate::path::{cleaned, lemma_cleaned_rooted, rooted, FsPath, Segment, SegmentView};
use crate::text::push_char;
use vstd::prelude::*;

verus! {

/// What came of resolving a candidate against the file system.
#[derive(Debug)]
pub enum Probe {
    /// The candidate exists; this is its canonical path.
    Resolved(FsPath),
    /// The candidate does not exist.
    NotFound,
    /// Resolving failed for another reason.
    Failed,
}

/// The search for the nearest ancestor of a path that exists.
#[derive(Debug)]
pub struct AncestorSearch {
    path: FsPath,
    stripped: usize,
}

/// How a search goes on after a probe.
#[derive(Debug)]
pub enum SearchStep {
    /// The candidate does not exist: its parent is the next candidate.
    Continue(AncestorSearch),
    /// An ancestor exists: this is its canonical path with the components
    /// below it added back.
    Found(FsPath),
    /// Resolving failed; the failure is passed on.
    Failed,
    /// The candidate does not exist and has no parent to go on with.
    Exhausted,
}

/// The last `count` components of `path` are ordinary names.
pub open spec fn tail_is_names(path: Seq<SegmentView>, count: nat) -> bool {
    count <= path.len() && forall|i: int|
        path.len() - count <= i < path.len() ==> #[trigger] path[i] is Normal
}

/// The candidate of a search: the path without its last `stripped`
/// components.
pub open spec fn candidate_of(path: Seq<SegmentView>, stripped: nat) -> Seq<SegmentView> {
    path.subrange(0, path.len() - stripped)
}

/// The canonical path of an ancestor with the last `stripped` components of
/// `path` added back.
pub open spec fn rebuilt(ancestor: Seq<SegmentView>, path: Seq<SegmentView>, stripped: nat) -> Seq<SegmentView> {
    ancestor + path.subrange(path.len() - stripped, path.len() as int)
}

/// Whether a search that has set aside `stripped` components of `path` can
/// go on where its candidate does not exist: the candidate ends in an
/// ordinary name, which is set aside next.
pub open spec fn goes_on(path: Seq<SegmentView>, stripped: nat) -> bool {
    stripped < path.len() && path[path.len() - stripped - 1] is Normal
}

/// The search for an absolute path has nowhere to go only once the root
/// itself is its candidate: as long as more than the root is left, a
/// candidate that does not exist has a parent to go on with.
pub proof fn lemma_absolute_search_reaches_root(path: Seq<SegmentView>, stripped: nat)
    requires
        rooted(path),
        stripped + 1 < cleaned(path).len(),
    ensures
        goes_on(cleaned(path), stripped),
        tail_is_names(cleaned(path), stripped + 1),
{
    lemma_cleaned_rooted(path);
}

impl AncestorSearch {
    /// The path that is to be canonicalized.
    pub closed spec fn path(&self) -> Seq<SegmentView> {
        self.path@
    }

    /// How many components the search has set aside so far.
    pub closed spec fn stripped(&self) -> nat {
        self.stripped as nat
    }

    /// The components set aside are ordinary names of the path.
    pub open spec fn wf(&self) -> bool {
        tail_is_names(self.path(), self.stripped())
    }

    /// The path to resolve next.
    pub fn candidate(&self) -> (r: FsPath)
        requires
            self.wf(),
        ensures
            r@ == candidate_of(self.path(), self.stripped()),
    {
        let n = self.path.segments.len() - self.stripped;
        let mut segments: Vec<Segment> = Vec::new();
        let mut i: usize = 0;
        while i < n
            invariant
                n <= self.path.segments.len(),
                i <= n,
                segments.len() == i,
                forall|k: int| 0 <= k < i ==> (#[trigger] segments[k])@ == self.path.segments[k]@,
            decreases n - i,
        {
            segments.push(self.path.segments[i].duplicate());
            i += 1;
        }
        let r = FsPath::from_segments(segments);
        assert(r@ =~= candidate_of(self.path(), self.stripped()));
        r
    }

    /// Takes in what came of resolving the candidate. Where it exists, the
    /// search ends with its canonical path and the components that were set
    /// aside. Where it does not exist, its last component is set aside, if
    /// that is an ordinary name; if not, the search has nowhere to go.
    pub fn advance(self, probe: Probe) -> (r: SearchStep)
        requires
            self.wf(),
        ensures
            match probe {
                Probe::Resolved(c) => r matches SearchStep::Found(p) && p@ == rebuilt(
                    c@,
                    self.path(),
                    self.stripped(),
                ),
                Probe::Failed => r is Failed,
                Probe::NotFound => if goes_on(self.path(), self.stripped()) {
                    r matches SearchStep::Continue(next) && next.wf() && next.path() == self.path()
                        && next.stripped() == self.stripped() + 1
                } else {
                    r is Exhausted
                },
            },
    {
        let len = self.path.segments.len();
        match probe {
            Probe::Resolved(c) => {
                let mut segments = c.segments;
                let ghost ancestor = segments@.map_values(|s: Segment| s@);
                let mut i: usize = len - self.stripped;
                assert(ancestor + self.path@.subrange(len - self.stripped, i as int) =~= ancestor);
                while i < len
                    invariant
                        len == self.path.segments.len(),
                        len == self.path@.len(),
                        self.stripped <= len,
                        len - self.stripped <= i <= len,
                        segments@.map_values(|s: Segment| s@) == ancestor + self.path@.subrange(
                            len - self.stripped,
                            i as int,
                        ),
                    decreases len - i,
                {
                    let ghost before = segments@.map_values(|s: Segment| s@);
                    segments.push(self.path.segments[i].duplicate());
                    assert(segments@.map_values(|s: Segment| s@) =~= before.push(self.path@[i as int]));
                    assert(self.path@.subrange(len - self.stripped, i + 1) =~= self.path@.subrange(
                        len - self.stripped,
                        i as int,
                    ).push(self.path@[i as int]));
                    i += 1;
                }
                SearchStep::Found(FsPath::from_segments(segments))
            },
            Probe::Failed => SearchStep::Failed,
            Probe::NotFound => {
                if self.stripped < len {
                    match &self.path.segments[len - self.stripped - 1] {
                        Segment::Normal(_) => {
                            let next = AncestorSearch {
                                path: self.path,
                                stripped: self.stripped + 1,
                            };
                            SearchStep::Continue(next)
                        },
                        _ => SearchStep::Exhausted,
                    }
                } else {
                    SearchStep::Exhausted
                }
            },
        }
    }
}

/// Begins the search for the canonical form of a path that may not exist.
/// The path is cleaned lexically first, so that no `.` and no `..` behind a
/// name is left in it; the first candidate is the cleaned path itself.
pub fn canonicalize_path_maybe_not_exists(path: FsPath) -> (r: AncestorSearch)
    ensures
        r.wf(),
        r.path() == cleaned(path@),
        r.stripped() == 0,
{
    AncestorSearch { path: path.clean(), stripped: 0 }
}

/// The kind of prefix with which a canonical path of Windows begins.
#[derive(Debug)]
pub enum PrefixKind {
    /// A verbatim prefix with a device, `\\?\device`.
    Verbatim(String),
    /// A verbatim prefix with a server and a share, `\\?\UNC\server\share`.
    VerbatimUNC(String, String),
    /// A verbatim prefix with a drive letter, `\\?\C:`.
    VerbatimDisk(u8),
    /// Any other prefix, or none.
    Other,
}

/// The mathematical value of a [`PrefixKind`].
pub enum PrefixKindView {
    Verbatim(Seq<char>),
    VerbatimUNC(Seq<char>, Seq<char>),
    VerbatimDisk(u8),
    Other,
}

impl View for PrefixKind {
    type V = PrefixKindView;

    open spec fn view(&self) -> PrefixKindView {
        match self {
            PrefixKind::Verbatim(device) => PrefixKindView::Verbatim(device@),
            PrefixKind::VerbatimUNC(server, share) => PrefixKindView::VerbatimUNC(server@, share@),
            PrefixKind::VerbatimDisk(letter) => PrefixKindView::VerbatimDisk(*letter),
            PrefixKind::Other => PrefixKindView::Other,
        }
    }
}

/// A path without its verbatim prefix: the text that stands in the prefix's
/// place, and the components that follow it.
#[derive(Debug)]
pub struct Stripped {
    pub head: String,
    pub rest: Vec<Segment>,
}

/// The text that stands in the place of a verbatim prefix: `\\device\` for
/// a device, `\\server\share\` for a server and a share, and the letter with
/// a colon for a drive.
pub open spec fn stripped_head(prefix: PrefixKindView) -> Seq<char> {
    match prefix {
        PrefixKindView::Verbatim(device) => seq!['\\', '\\'] + device + seq!['\\'],
        PrefixKindView::VerbatimUNC(server, share) => seq!['\\', '\\'] + server + seq!['\\'] + share
            + seq!['\\'],
        PrefixKindView::VerbatimDisk(letter) => seq![letter as char, ':'],
        PrefixKindView::Other => Seq::empty(),
    }
}

/// The components without the root.
pub open spec fn without_root(rest: Seq<SegmentView>) -> Seq<SegmentView>
    decreases rest.len(),
{
    if rest.len() == 0 {
        Seq::empty()
    } else if rest.last() is RootDir {
        without_root(rest.drop_last())
    } else {
        without_root(rest.drop_last()).push(rest.last())
    }
}

/// The components that follow the text of a stripped prefix: all of them
/// behind a drive, and all but the root behind a device or a share, whose
/// text ends in the separator already.
pub open spec fn stripped_rest(prefix: PrefixKindView, rest: Seq<SegmentView>) -> Seq<SegmentView> {
    if prefix is VerbatimDisk {
        rest
    } else {
        without_root(rest)
    }
}

/// Strips the verbatim prefix from a canonical path of Windows. `prefix` is
/// the kind of the path's prefix and `rest` the components behind it. A path
/// with another prefix, or with none, is left as it is.
pub fn strip_unc_prefix(prefix: &PrefixKind, rest: &[Segment]) -> (r: Option<Stripped>)
    ensures
        r is None <==> prefix is Other,
        r matches Some(s) ==> s.head@ == stripped_head(prefix@) && s.rest@.map_values(|x: Segment| x@)
            == stripped_rest(prefix@, rest@.map_values(|x: Segment| x@)),
{
    proof {
        reveal_strlit("\\\\");
        reveal_strlit("\\");
        assert("\\\\"@ =~= seq!['\\', '\\']);
        assert("\\"@ =~= seq!['\\']);
    }
    let ghost given = rest@.map_values(|x: Segment| x@);
    let (head, keep_root) = match prefix {
        PrefixKind::Verbatim(device) => {
            let mut head = String::from_str("\\\\");
            head.append(device.as_str());
            head.append("\\");
            (head, false)
        },
        PrefixKind::VerbatimUNC(server, share) => {
            let mut head = String::from_str("\\\\");
            head.append(server.as_str());
            head.append("\\");
            head.append(share.as_str());
            head.append("\\");
            (head, false)
        },
        PrefixKind::VerbatimDisk(letter) => {
            let mut head = String::new();
            push_char(&mut head, *letter as char);
            push_char(&mut head, ':');
            assert(head@ =~= seq![*letter as char, ':']);
            (head, true)
        },
        PrefixKind::Other => {
            return None;
        },
    };
    let mut kept: Vec<Segment> = Vec::new();
    let mut i: usize = 0;
    assert(given.subrange(0, 0) =~= Seq::empty());
    assert(kept@.map_values(|x: Segment| x@) =~= Seq::<SegmentView>::empty());
    while i < rest.len()
        invariant
            i <= rest.len(),
            given == rest@.map_values(|x: Segment| x@),
            keep_root ==> kept@.map_values(|x: Segment| x@) == given.subrange(0, i as int),
            !keep_root ==> kept@.map_values(|x: Segment| x@) == without_root(given.subrange(0, i as int)),
        decreases rest.len() - i,
    {
        let ghost before = kept@.map_values(|x: Segment| x@);
        let ghost next = given.subrange(0, i + 1);
        assert(next.drop_last() =~= given.subrange(0, i as int));
        assert(next.last() == rest@[i as int]@);
        let is_root = match &rest[i] {
            Segment::RootDir => true,
            _ => false,
        };
        if keep_root || !is_root {
            kept.push(rest[i].duplicate());
            assert(kept@.map_values(|x: Segment| x@) =~= before.push(rest@[i as int]@));
            assert(next =~= given.subrange(0, i as int).push(rest@[i as int]@));
        }
        i += 1;
    }
    assert(given.subrange(0, given.len() as int) =~= given);
    Some(Stripped { head, rest: kept })
}

} // verus!
