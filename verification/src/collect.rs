//! A collector of files that prunes whole directories.
//!
//! A walk visits the entries below a root in pre-order. Each entry is judged
//! by itself: it is skipped, collected, descended into, or pruned, which
//! leaves out all that lies below it. The judgement rests on the entry's
//! canonical path: entries under an ignored path are left out, and so are,
//! where asked for, directories named `.git` and `node_modules`, unless such
//! a directory is itself the root of the walk.

use crate::path::{file_name_of, is_prefix, FsPath, SegmentView};
use crate::text::{lowercase_of, same_text, to_lowercase};
use vstd::prelude::*;

verus! {

/// An entry that a walk came upon.
#[derive(Debug)]
pub struct WalkEntry {
    /// How far below the root the entry lies; the root itself is at depth 0.
    pub depth: usize,
    /// The path by which the walk reached the entry.
    pub path: FsPath,
    /// Whether the entry is a directory.
    pub is_dir: bool,
    /// The canonical path of the entry, where it could be resolved.
    pub canonical: Option<FsPath>,
}

/// What a walk yields: an entry, or the report that something at some depth
/// could not be read.
#[derive(Debug)]
pub enum WalkItem {
    Unreadable { depth: usize },
    Entry(WalkEntry),
}

/// The mathematical value of a [`WalkEntry`].
pub struct WalkEntryView {
    pub depth: nat,
    pub path: Seq<SegmentView>,
    pub is_dir: bool,
    pub canonical: Option<Seq<SegmentView>>,
}

/// The mathematical value of a [`WalkItem`].
pub enum WalkItemView {
    Unreadable { depth: nat },
    Entry(WalkEntryView),
}

/// The mathematical value of an optional path.
pub open spec fn path_view(path: Option<FsPath>) -> Option<Seq<SegmentView>> {
    match path {
        Some(p) => Some(p@),
        None => None,
    }
}

impl View for WalkEntry {
    type V = WalkEntryView;

    open spec fn view(&self) -> WalkEntryView {
        WalkEntryView {
            depth: self.depth as nat,
            path: self.path@,
            is_dir: self.is_dir,
            canonical: path_view(self.canonical),
        }
    }
}

impl View for WalkItem {
    type V = WalkItemView;

    open spec fn view(&self) -> WalkItemView {
        match self {
            WalkItem::Unreadable { depth } => WalkItemView::Unreadable { depth: *depth as nat },
            WalkItem::Entry(e) => WalkItemView::Entry(e@),
        }
    }
}

impl WalkItem {
    /// How far below the root the item lies.
    pub fn depth(&self) -> (d: usize)
        ensures
            d == depth_of(self@),
    {
        match self {
            WalkItem::Unreadable { depth } => *depth,
            WalkItem::Entry(e) => e.depth,
        }
    }
}

/// What is done with an entry.
#[derive(Debug)]
pub enum Visit {
    /// The entry is left out.
    Skip,
    /// The entry is a directory that is left out with all that lies below it.
    Prune,
    /// The entry is a directory whose entries are visited.
    Descend,
    /// The entry is a file, collected under its canonical path.
    Collect(FsPath),
}

/// The mathematical value of a [`Visit`].
pub enum VisitView {
    Skip,
    Prune,
    Descend,
    Collect(Seq<SegmentView>),
}

impl View for Visit {
    type V = VisitView;

    open spec fn view(&self) -> VisitView {
        match self {
            Visit::Skip => VisitView::Skip,
            Visit::Prune => VisitView::Prune,
            Visit::Descend => VisitView::Descend,
            Visit::Collect(p) => VisitView::Collect(p@),
        }
    }
}

/// The rules of a collector: the ignored paths and the two flags.
pub struct CollectorView {
    pub ignore: Seq<Seq<SegmentView>>,
    pub ignore_git_folder: bool,
    pub ignore_node_modules: bool,
}

/// The name `.git`.
pub open spec fn git_name() -> Seq<char> {
    seq!['.', 'g', 'i', 't']
}

/// The name `node_modules`.
pub open spec fn node_modules_name() -> Seq<char> {
    seq!['n', 'o', 'd', 'e', '_', 'm', 'o', 'd', 'u', 'l', 'e', 's']
}

/// Whether a directory with the lowercase name `lower` is left out under the
/// two flags.
pub open spec fn default_ignored(lower: Seq<char>, ignore_git_folder: bool, ignore_node_modules: bool) -> bool {
    (ignore_node_modules && lower == node_modules_name()) || (ignore_git_folder && lower
        == git_name())
}

/// Whether some ignored path is a prefix of `canonical`.
pub open spec fn ignored(ignore: Seq<Seq<SegmentView>>, canonical: Seq<SegmentView>) -> bool {
    exists|i: int| 0 <= i < ignore.len() && is_prefix(#[trigger] ignore[i], canonical)
}

/// Whether the directory at `canonical` is left out for its name: its
/// lowercase name is one that the flags leave out, and it is not the root of
/// the walk.
pub open spec fn pruned_by_name(config: CollectorView, root: Seq<SegmentView>, canonical: Seq<SegmentView>) -> bool {
    match file_name_of(canonical) {
        Some(name) => canonical != root && default_ignored(
            lowercase_of(name),
            config.ignore_git_folder,
            config.ignore_node_modules,
        ),
        None => false,
    }
}

/// Whether the predicate is asked about the item: only about a file whose
/// canonical path was resolved and is not under an ignored path.
pub open spec fn consults_filter(config: CollectorView, item: WalkItemView) -> bool {
    match item {
        WalkItemView::Unreadable { .. } => false,
        WalkItemView::Entry(e) => match e.canonical {
            Some(c) => !e.is_dir && !ignored(config.ignore, c),
            None => false,
        },
    }
}

/// What is done with an item of a walk from `root`, where `accepted` is the
/// predicate's answer for the item's path.
pub open spec fn decision_of(config: CollectorView, root: Seq<SegmentView>, item: WalkItemView, accepted: bool) -> VisitView {
    match item {
        WalkItemView::Unreadable { .. } => VisitView::Skip,
        WalkItemView::Entry(e) => match e.canonical {
            None => if e.is_dir {
                VisitView::Prune
            } else {
                VisitView::Skip
            },
            Some(c) => if ignored(config.ignore, c) {
                if e.is_dir {
                    VisitView::Prune
                } else {
                    VisitView::Skip
                }
            } else if e.is_dir {
                if pruned_by_name(config, root, c) {
                    VisitView::Prune
                } else {
                    VisitView::Descend
                }
            } else if accepted {
                VisitView::Collect(c)
            } else {
                VisitView::Skip
            },
        },
    }
}

/// How far below the root an item lies.
pub open spec fn depth_of(item: WalkItemView) -> nat {
    match item {
        WalkItemView::Unreadable { depth } => depth,
        WalkItemView::Entry(e) => e.depth,
    }
}

/// The mathematical value of a listing.
pub open spec fn listing_view(items: Seq<WalkItem>) -> Seq<WalkItemView> {
    items.map_values(|i: WalkItem| i@)
}

/// Item `k` of a pre-order listing lies below item `j`: all items after `j`
/// up to `k` are deeper than `j`.
pub open spec fn covers(items: Seq<WalkItemView>, j: int, k: int) -> bool {
    0 <= j < k < items.len() && forall|m: int|
        j < m <= k ==> depth_of(#[trigger] items[m]) > depth_of(items[j])
}

/// Whether the item is a directory that is pruned. The predicate has no say
/// in it.
pub open spec fn prunes(config: CollectorView, root: Seq<SegmentView>, item: WalkItemView) -> bool {
    decision_of(config, root, item, false) is Prune
}

/// Whether the walk reaches item `k`: it lies below no pruned directory.
pub open spec fn reached(config: CollectorView, root: Seq<SegmentView>, items: Seq<WalkItemView>, k: int) -> bool {
    forall|j: int| #[trigger] covers(items, j, k) ==> !prunes(config, root, items[j])
}

/// The paths collected from the first `n` items of a listing, in the order of
/// the listing: the canonical paths of the files that the walk reaches, that
/// lie under no ignored path and that the predicate accepts. `verdicts[k]` is
/// the predicate's answer for item `k`.
pub open spec fn collected(
    config: CollectorView,
    root: Seq<SegmentView>,
    items: Seq<WalkItemView>,
    verdicts: Seq<bool>,
    n: nat,
) -> Seq<Seq<SegmentView>>
    decreases n,
{
    if n == 0 {
        Seq::empty()
    } else {
        let before = collected(config, root, items, verdicts, (n - 1) as nat);
        let k = n - 1;
        if reached(config, root, items, k) {
            match decision_of(config, root, items[k], verdicts[k]) {
                VisitView::Collect(c) => before.push(c),
                _ => before,
            }
        } else {
            before
        }
    }
}

/// The paths among `paths` that were resolved, in their order.
pub open spec fn resolved(paths: Seq<Option<FsPath>>) -> Seq<Seq<SegmentView>>
    decreases paths.len(),
{
    if paths.len() == 0 {
        Seq::empty()
    } else {
        match paths.last() {
            Some(p) => resolved(paths.drop_last()).push(p@),
            None => resolved(paths.drop_last()),
        }
    }
}

/// The mathematical value of a sequence of paths.
pub open spec fn paths_view(paths: Seq<FsPath>) -> Seq<Seq<SegmentView>> {
    paths.map_values(|p: FsPath| p@)
}

/// Whether a directory with the lowercase name `lower` is left out under the
/// two flags.
pub fn is_default_ignored(lower: &str, ignore_git_folder: bool, ignore_node_modules: bool) -> (r: bool)
    ensures
        r == default_ignored(lower@, ignore_git_folder, ignore_node_modules),
{
    proof {
        reveal_strlit("node_modules");
        reveal_strlit(".git");
        assert("node_modules"@ =~= node_modules_name());
        assert(".git"@ =~= git_name());
    }
    (ignore_node_modules && same_text(lower, "node_modules")) || (ignore_git_folder && same_text(
        lower,
        ".git",
    ))
}

/// Collects the files that a predicate accepts, leaving out what lies under
/// an ignored path and, where asked to, under `.git` and `node_modules`.
pub struct FileCollector<TFilter: Fn(&FsPath) -> bool> {
    canonicalized_ignore: Vec<FsPath>,
    file_filter: TFilter,
    ignore_git_folder: bool,
    ignore_node_modules: bool,
}

impl<TFilter: Fn(&FsPath) -> bool> View for FileCollector<TFilter> {
    type V = CollectorView;

    closed spec fn view(&self) -> CollectorView {
        CollectorView {
            ignore: paths_view(self.canonicalized_ignore@),
            ignore_git_folder: self.ignore_git_folder,
            ignore_node_modules: self.ignore_node_modules,
        }
    }
}

impl<TFilter: Fn(&FsPath) -> bool> FileCollector<TFilter> {
    /// The predicate of the collector.
    pub closed spec fn filter(&self) -> TFilter {
        self.file_filter
    }

    /// The predicate can be asked about every path.
    pub open spec fn wf(&self) -> bool {
        forall|p: &FsPath| #[trigger] call_requires(self.filter(), (p,))
    }

    /// A collector with the given predicate that ignores no path and has
    /// both flags off.
    pub fn new(file_filter: TFilter) -> (r: Self)
        requires
            forall|p: &FsPath| call_requires(file_filter, (p,)),
        ensures
            r.wf(),
            r.filter() == file_filter,
            r@ == (CollectorView {
                ignore: Seq::empty(),
                ignore_git_folder: false,
                ignore_node_modules: false,
            }),
    {
        let r = Self {
            canonicalized_ignore: Vec::new(),
            file_filter,
            ignore_git_folder: false,
            ignore_node_modules: false,
        };
        assert(r@.ignore =~= Seq::empty());
        r
    }

    /// Adds the canonical paths of the paths to ignore. `paths` holds, for
    /// each path to ignore, its canonical path where it could be resolved;
    /// those that could not be are left out.
    pub fn add_ignore_paths(self, paths: &[Option<FsPath>]) -> (r: Self)
        ensures
            self.wf() ==> r.wf(),
            r.filter() == self.filter(),
            r@ == (CollectorView { ignore: self@.ignore + resolved(paths@), ..self@ }),
    {
        let mut r = self;
        let mut i: usize = 0;
        assert(paths@.subrange(0, 0) =~= Seq::empty());
        assert(self@.ignore + resolved(paths@.subrange(0, 0)) =~= self@.ignore);
        while i < paths.len()
            invariant
                i <= paths.len(),
                r.filter() == self.filter(),
                r@ == (CollectorView {
                    ignore: self@.ignore + resolved(paths@.subrange(0, i as int)),
                    ..self@
                }),
            decreases paths.len() - i,
        {
            let ghost head = paths@.subrange(0, i as int);
            let ghost next = paths@.subrange(0, i + 1);
            assert(next.drop_last() =~= head);
            assert(next.last() == paths@[i as int]);
            match &paths[i] {
                Some(p) => {
                    let ghost before = r@.ignore;
                    r.canonicalized_ignore.push(p.duplicate());
                    assert(r@.ignore =~= before.push(p@));
                    assert(self@.ignore + resolved(next) =~= (self@.ignore + resolved(head)).push(
                        p@,
                    ));
                },
                None => {},
            }
            i += 1;
        }
        assert(paths@.subrange(0, paths@.len() as int) =~= paths@);
        r
    }

    /// Leaves out the directories named `node_modules`.
    pub fn ignore_node_modules(self) -> (r: Self)
        ensures
            self.wf() ==> r.wf(),
            r.filter() == self.filter(),
            r@ == (CollectorView { ignore_node_modules: true, ..self@ }),
    {
        let r = Self {
            canonicalized_ignore: self.canonicalized_ignore,
            file_filter: self.file_filter,
            ignore_git_folder: self.ignore_git_folder,
            ignore_node_modules: true,
        };
        assert(r.filter() == self.filter());
        r
    }

    /// Leaves out the directories named `.git`.
    pub fn ignore_git_folder(self) -> (r: Self)
        ensures
            self.wf() ==> r.wf(),
            r.filter() == self.filter(),
            r@ == (CollectorView { ignore_git_folder: true, ..self@ }),
    {
        let r = Self {
            canonicalized_ignore: self.canonicalized_ignore,
            file_filter: self.file_filter,
            ignore_git_folder: true,
            ignore_node_modules: self.ignore_node_modules,
        };
        assert(r.filter() == self.filter());
        r
    }

    /// Whether some ignored path is a prefix of `canonical`.
    pub fn is_ignored(&self, canonical: &FsPath) -> (r: bool)
        ensures
            r == ignored(self@.ignore, canonical@),
    {
        let mut i: usize = 0;
        while i < self.canonicalized_ignore.len()
            invariant
                i <= self.canonicalized_ignore.len(),
                forall|k: int| 0 <= k < i ==> !is_prefix(#[trigger] self@.ignore[k], canonical@),
            decreases self.canonicalized_ignore.len() - i,
        {
            if canonical.starts_with(&self.canonicalized_ignore[i]) {
                assert(is_prefix(self@.ignore[i as int], canonical@));
                return true;
            }
            i += 1;
        }
        false
    }

    /// Whether the directory at `canonical` is left out for its name in a
    /// walk from `root`.
    pub fn is_pruned_by_name(&self, root: &FsPath, canonical: &FsPath) -> (r: bool)
        ensures
            r == pruned_by_name(self@, root@, canonical@),
    {
        match canonical.file_name() {
            Some(name) => {
                let lower = to_lowercase(name.as_str());
                let named = is_default_ignored(
                    lower.as_str(),
                    self.ignore_git_folder,
                    self.ignore_node_modules,
                );
                named && !root.same(canonical)
            },
            None => false,
        }
    }
}

/// What a collector finds out about an item before it asks its predicate.
enum Judgement {
    /// The predicate has no say: the visit is decided.
    Decided(Visit),
    /// The item is a file with the given canonical path, collected if the
    /// predicate accepts it.
    Ask(FsPath),
}

impl<TFilter: Fn(&FsPath) -> bool> FileCollector<TFilter> {
    /// `accepted` is an answer of the predicate for the item's path, where
    /// the predicate is asked about the item.
    pub open spec fn answers_for(&self, item: WalkItem, accepted: bool) -> bool {
        match item {
            WalkItem::Entry(e) => consults_filter(self@, item@) ==> call_ensures(
                self.filter(),
                (&e.path,),
                accepted,
            ),
            WalkItem::Unreadable { .. } => true,
        }
    }

    /// `verdicts[k]` is an answer of the predicate for each item `k` that a
    /// walk from `root` reaches and asks the predicate about.
    pub open spec fn verdicts_hold(&self, root: Seq<SegmentView>, items: Seq<WalkItem>, verdicts: Seq<bool>) -> bool {
        &&& verdicts.len() == items.len()
        &&& forall|k: int|
            0 <= k < items.len() && reached(self@, root, listing_view(items), k)
                ==> #[trigger] self.answers_for(items[k], verdicts[k])
    }

    fn judge(&self, root: &FsPath, item: &WalkItem) -> (r: Judgement)
        ensures
            match r {
                Judgement::Decided(v) => !consults_filter(self@, item@) && forall|accepted: bool|
                    v@ == #[trigger] decision_of(self@, root@, item@, accepted),
                Judgement::Ask(c) => consults_filter(self@, item@) && (item@ matches WalkItemView::Entry(e)
                    && e.canonical == Some(c@)),
            },
    {
        match item {
            WalkItem::Unreadable { .. } => Judgement::Decided(Visit::Skip),
            WalkItem::Entry(e) => match &e.canonical {
                None => if e.is_dir {
                    Judgement::Decided(Visit::Prune)
                } else {
                    Judgement::Decided(Visit::Skip)
                },
                Some(c) => if self.is_ignored(c) {
                    if e.is_dir {
                        Judgement::Decided(Visit::Prune)
                    } else {
                        Judgement::Decided(Visit::Skip)
                    }
                } else if e.is_dir {
                    if self.is_pruned_by_name(root, c) {
                        Judgement::Decided(Visit::Prune)
                    } else {
                        Judgement::Decided(Visit::Descend)
                    }
                } else {
                    Judgement::Ask(c.duplicate())
                },
            },
        }
    }

    /// What is done with an item of a walk from `root`, where `accepted` is
    /// the predicate's answer for the item's path.
    pub fn visit_with(&self, root: &FsPath, item: &WalkItem, accepted: bool) -> (r: Visit)
        ensures
            r@ == decision_of(self@, root@, item@, accepted),
    {
        match self.judge(root, item) {
            Judgement::Decided(v) => v,
            Judgement::Ask(c) => if accepted {
                Visit::Collect(c)
            } else {
                Visit::Skip
            },
        }
    }

    fn visit_traced(&self, root: &FsPath, item: &WalkItem) -> (r: (Visit, Ghost<bool>))
        requires
            self.wf(),
        ensures
            r.0@ == decision_of(self@, root@, item@, r.1@),
            self.answers_for(*item, r.1@),
    {
        match self.judge(root, item) {
            Judgement::Decided(v) => (v, Ghost(false)),
            Judgement::Ask(c) => match item {
                WalkItem::Entry(e) => {
                    assert(call_requires(self.filter(), (&e.path,)));
                    let accepted = (self.file_filter)(&e.path);
                    if accepted {
                        (Visit::Collect(c), Ghost(accepted))
                    } else {
                        (Visit::Skip, Ghost(accepted))
                    }
                },
                WalkItem::Unreadable { .. } => (Visit::Skip, Ghost(false)),
            },
        }
    }

    /// What is done with an item of a walk from `root`. The predicate is
    /// asked only about a file that was resolved and lies under no ignored
    /// path, and about the path by which the walk reached it.
    pub fn visit(&self, root: &FsPath, item: &WalkItem) -> (r: Visit)
        requires
            self.wf(),
        ensures
            exists|accepted: bool|
                self.answers_for(*item, accepted) && r@ == #[trigger] decision_of(
                    self@,
                    root@,
                    item@,
                    accepted,
                ),
    {
        let (v, accepted) = self.visit_traced(root, item);
        assert(self.answers_for(*item, accepted@) && v@ == decision_of(
            self@,
            root@,
            item@,
            accepted@,
        ));
        v
    }
}

/// What is collected rests on the predicate's answers for the files that the
/// walk reaches and asks the predicate about, and on no other answer.
pub proof fn lemma_collected_rests_on_answers(
    config: CollectorView,
    root: Seq<SegmentView>,
    items: Seq<WalkItemView>,
    v1: Seq<bool>,
    v2: Seq<bool>,
    n: nat,
)
    requires
        forall|k: int|
            0 <= k < n && reached(config, root, items, k) && consults_filter(config, #[trigger] items[k])
                ==> v1[k] == v2[k],
    ensures
        collected(config, root, items, v1, n) == collected(config, root, items, v2, n),
    decreases n,
{
    if n > 0 {
        lemma_collected_rests_on_answers(config, root, items, v1, v2, (n - 1) as nat);
    }
}

/// Items that the walk does not reach add nothing.
proof fn lemma_unreached_add_nothing(
    config: CollectorView,
    root: Seq<SegmentView>,
    items: Seq<WalkItemView>,
    verdicts: Seq<bool>,
    a: nat,
    b: nat,
)
    requires
        a <= b,
        forall|k: int| a <= k < b ==> !reached(config, root, items, k),
    ensures
        collected(config, root, items, verdicts, b) == collected(config, root, items, verdicts, a),
    decreases b,
{
    if a < b {
        lemma_unreached_add_nothing(config, root, items, verdicts, a, (b - 1) as nat);
    }
}

/// After an item that is reached and not pruned, the walk reaches the next.
proof fn lemma_reaches_next(config: CollectorView, root: Seq<SegmentView>, items: Seq<WalkItemView>, i: int)
    requires
        0 <= i,
        i + 1 < items.len(),
        reached(config, root, items, i),
        !prunes(config, root, items[i]),
    ensures
        reached(config, root, items, i + 1),
{
    assert forall|j: int| #[trigger] covers(items, j, i + 1) implies !prunes(config, root, items[j]) by {
        if j < i {
            assert(covers(items, j, i));
        }
    }
}

/// The walk reaches nothing that lies below a pruned directory.
proof fn lemma_pruned_below(config: CollectorView, root: Seq<SegmentView>, items: Seq<WalkItemView>, start: int, k: int)
    requires
        0 <= start < k < items.len(),
        prunes(config, root, items[start]),
        forall|m: int| start < m <= k ==> depth_of(#[trigger] items[m]) > depth_of(items[start]),
    ensures
        !reached(config, root, items, k),
{
    assert(covers(items, start, k));
}

/// After a pruned directory, the walk reaches the first item that is no
/// deeper than the directory.
proof fn lemma_reaches_after_pruned(
    config: CollectorView,
    root: Seq<SegmentView>,
    items: Seq<WalkItemView>,
    start: int,
    i: int,
)
    requires
        0 <= start < i < items.len(),
        reached(config, root, items, start),
        forall|m: int| start < m < i ==> depth_of(#[trigger] items[m]) > depth_of(items[start]),
        depth_of(items[i]) <= depth_of(items[start]),
    ensures
        reached(config, root, items, i),
{
    assert forall|j: int| #[trigger] covers(items, j, i) implies !prunes(config, root, items[j]) by {
        if j < start {
            assert(covers(items, j, start));
        } else if j > start {
            assert(depth_of(items[j]) > depth_of(items[start]));
            assert(depth_of(items[i]) > depth_of(items[j]));
        } else {
            assert(depth_of(items[i]) > depth_of(items[start]));
        }
    }
}

impl<TFilter: Fn(&FsPath) -> bool> FileCollector<TFilter> {
    /// Collects from the listing of a walk from `root`: the items that the
    /// walk yields where nothing is pruned, in pre-order, each with its
    /// depth. The result holds, in the order of the listing, the canonical
    /// path of each file that lies below no pruned directory, lies under no
    /// ignored path, and that the predicate accepted. A path that two items
    /// resolve to comes twice.
    pub fn collect_listing(&self, root: &FsPath, items: &[WalkItem]) -> (r: Vec<FsPath>)
        requires
            self.wf(),
        ensures
            exists|verdicts: Seq<bool>| #[trigger]
                self.verdicts_hold(root@, items@, verdicts) && paths_view(r@) == collected(
                    self@,
                    root@,
                    listing_view(items@),
                    verdicts,
                    items@.len(),
                ),
    {
        let ghost view = listing_view(items@);
        let mut out: Vec<FsPath> = Vec::new();
        let ghost mut verdicts: Seq<bool> = Seq::new(items@.len(), |k: int| false);
        let mut i: usize = 0;
        assert(paths_view(out@) =~= Seq::empty());
        assert(reached(self@, root@, view, 0)) by {
            assert forall|j: int| #[trigger] covers(view, j, 0) implies !prunes(self@, root@, view[j]) by {}
        }
        while i < items.len()
            invariant
                self.wf(),
                view == listing_view(items@),
                i <= items.len(),
                verdicts.len() == items.len(),
                i < items.len() ==> reached(self@, root@, view, i as int),
                forall|k: int|
                    0 <= k < i && reached(self@, root@, view, k) ==> #[trigger] self.answers_for(
                        items@[k],
                        verdicts[k],
                    ),
                paths_view(out@) == collected(self@, root@, view, verdicts, i as nat),
            decreases items.len() - i,
        {
            let ghost start = i as int;
            let ghost before = verdicts;
            let (visit, accepted) = self.visit_traced(root, &items[i]);
            let depth = items[i].depth();
            proof {
                verdicts = before.update(start, accepted@);
                lemma_collected_rests_on_answers(self@, root@, view, before, verdicts, i as nat);
                assert(view[start] == items@[start]@);
            }
            match visit {
                Visit::Collect(c) => {
                    let ghost paths = paths_view(out@);
                    out.push(c);
                    assert(paths_view(out@) =~= paths.push(c@));
                    i += 1;
                    proof {
                        if i < items.len() {
                            lemma_reaches_next(self@, root@, view, start);
                        }
                    }
                },
                Visit::Prune => {
                    i += 1;
                    while i < items.len() && items[i].depth() > depth
                        invariant
                            view == listing_view(items@),
                            start < i <= items.len(),
                            depth == depth_of(view[start]),
                            forall|m: int|
                                start < m < i ==> depth_of(#[trigger] view[m]) > depth_of(
                                    view[start],
                                ),
                        decreases items.len() - i,
                    {
                        assert(view[i as int] == items@[i as int]@);
                        i += 1;
                    }
                    proof {
                        assert forall|k: int| start < k < i implies !reached(
                            self@,
                            root@,
                            view,
                            k,
                        ) by {
                            lemma_pruned_below(self@, root@, view, start, k);
                        }
                        lemma_unreached_add_nothing(
                            self@,
                            root@,
                            view,
                            verdicts,
                            (start + 1) as nat,
                            i as nat,
                        );
                        if i < items.len() {
                            assert(view[i as int] == items@[i as int]@);
                            lemma_reaches_after_pruned(self@, root@, view, start, i as int);
                        }
                    }
                },
                _ => {
                    i += 1;
                    proof {
                        if i < items.len() {
                            lemma_reaches_next(self@, root@, view, start);
                        }
                    }
                },
            }
        }
        assert(self.verdicts_hold(root@, items@, verdicts));
        out
    }
}

/// The paths without repeats: each path once, where it first occurs.
pub open spec fn without_repeats(paths: Seq<Seq<SegmentView>>) -> Seq<Seq<SegmentView>>
    decreases paths.len(),
{
    if paths.len() == 0 {
        Seq::empty()
    } else {
        let head = without_repeats(paths.drop_last());
        if head.contains(paths.last()) {
            head
        } else {
            head.push(paths.last())
        }
    }
}

/// What is left without repeats is a set written down in order: no path
/// occurs twice in it, and it holds the very paths that were given.
pub proof fn lemma_without_repeats_is_a_set(paths: Seq<Seq<SegmentView>>)
    ensures
        without_repeats(paths).no_duplicates(),
        forall|p: Seq<SegmentView>| without_repeats(paths).contains(p) <==> paths.contains(p),
        without_repeats(paths).len() <= paths.len(),
    decreases paths.len(),
{
    if paths.len() > 0 {
        let head = without_repeats(paths.drop_last());
        let last = paths.last();
        lemma_without_repeats_is_a_set(paths.drop_last());
        let now = without_repeats(paths);
        assert forall|p: Seq<SegmentView>| now.contains(p) <==> paths.contains(p) by {
            let rest = paths.drop_last();
            assert(head.contains(p) <==> rest.contains(p));
            if now.contains(p) {
                let i = choose|i: int| 0 <= i < now.len() && now[i] == p;
                if i < head.len() {
                    assert(head[i] == p);
                    assert(head.contains(p));
                    assert(rest.contains(p));
                    let j = choose|j: int| 0 <= j < rest.len() && rest[j] == p;
                    assert(paths[j] == p);
                } else {
                    assert(p == last);
                    assert(paths[paths.len() - 1] == p);
                }
            }
            if paths.contains(p) {
                let j = choose|j: int| 0 <= j < paths.len() && paths[j] == p;
                if j < paths.len() - 1 {
                    assert(rest[j] == p);
                    assert(rest.contains(p));
                    assert(head.contains(p));
                    let i = choose|i: int| 0 <= i < head.len() && head[i] == p;
                    assert(now[i] == p);
                } else if head.contains(last) {
                    let i = choose|i: int| 0 <= i < head.len() && head[i] == last;
                    assert(now[i] == p);
                } else {
                    assert(now[now.len() - 1] == p);
                }
            }
        }
        if !head.contains(last) {
            assert forall|i: int, j: int| 0 <= i < now.len() && 0 <= j < now.len() && i != j implies now[i]
                != now[j] by {
                if i == now.len() - 1 && j < head.len() {
                    assert(head[j] == now[j]);
                } else if j == now.len() - 1 && i < head.len() {
                    assert(head[i] == now[i]);
                } else {
                    assert(head[i] == now[i] && head[j] == now[j]);
                }
            }
        }
    }
}

/// The paths without repeats: each path once, where it first occurs.
pub fn drop_repeats(paths: &[FsPath]) -> (r: Vec<FsPath>)
    ensures
        paths_view(r@) == without_repeats(paths_view(paths@)),
{
    let ghost given = paths_view(paths@);
    let mut out: Vec<FsPath> = Vec::new();
    let mut i: usize = 0;
    assert(paths_view(out@) =~= without_repeats(given.subrange(0, 0)));
    while i < paths.len()
        invariant
            i <= paths.len(),
            given == paths_view(paths@),
            paths_view(out@) == without_repeats(given.subrange(0, i as int)),
        decreases paths.len() - i,
    {
        let ghost kept = paths_view(out@);
        let mut seen = false;
        let mut j: usize = 0;
        while j < out.len() && !seen
            invariant
                j <= out.len(),
                i < paths.len(),
                kept == paths_view(out@),
                given == paths_view(paths@),
                seen ==> kept.contains(given[i as int]),
                !seen ==> forall|k: int| 0 <= k < j ==> kept[k] != given[i as int],
            decreases out.len() - j + (if seen { 0int } else { 1int }),
        {
            if out[j].same(&paths[i]) {
                assert(kept[j as int] == given[i as int]);
                seen = true;
            } else {
                j += 1;
            }
        }
        proof {
            let next = given.subrange(0, i + 1);
            assert(next.drop_last() =~= given.subrange(0, i as int));
            assert(next.last() == given[i as int]);
        }
        if !seen {
            out.push(paths[i].duplicate());
            assert(paths_view(out@) =~= kept.push(given[i as int]));
        }
        i += 1;
    }
    assert(given.subrange(0, given.len() as int) =~= given);
    out
}

/// A root that was asked for, with what a walk from it yields.
#[derive(Debug)]
pub struct WalkedRoot {
    /// The canonical path of the root, where it could be resolved.
    pub canonical: Option<FsPath>,
    /// The listing of the walk from the root: the items that the walk yields
    /// where nothing is pruned, in pre-order, each with its depth.
    pub items: Vec<WalkItem>,
}

/// The paths collected from the first `n` roots, root after root. A root
/// that could not be resolved adds nothing. `verdicts[r][k]` is the
/// predicate's answer for item `k` of root `r`.
pub open spec fn collected_roots(
    config: CollectorView,
    roots: Seq<WalkedRoot>,
    verdicts: Seq<Seq<bool>>,
    n: nat,
) -> Seq<Seq<SegmentView>>
    decreases n,
{
    if n == 0 {
        Seq::empty()
    } else {
        let before = collected_roots(config, roots, verdicts, (n - 1) as nat);
        let root = roots[n - 1];
        match root.canonical {
            Some(c) => before + collected(
                config,
                c@,
                listing_view(root.items@),
                verdicts[n - 1],
                root.items@.len(),
            ),
            None => before,
        }
    }
}

/// The roots to walk: those asked for, or the current directory where none
/// is asked for.
pub open spec fn roots_or_current_of(files: Seq<Seq<SegmentView>>) -> Seq<Seq<SegmentView>> {
    if files.len() == 0 {
        seq![seq![SegmentView::CurDir]]
    } else {
        files
    }
}

/// The roots to walk: those asked for, or the current directory where none
/// is asked for.
pub fn roots_or_current(files: Vec<FsPath>) -> (r: Vec<FsPath>)
    ensures
        paths_view(r@) == roots_or_current_of(paths_view(files@)),
{
    if files.len() == 0 {
        let mut segments: Vec<crate::path::Segment> = Vec::new();
        segments.push(crate::path::Segment::CurDir);
        let current = FsPath::from_segments(segments);
        assert(current@ =~= seq![SegmentView::CurDir]);
        let mut r: Vec<FsPath> = Vec::new();
        r.push(current);
        assert(paths_view(r@) =~= seq![seq![SegmentView::CurDir]]);
        r
    } else {
        files
    }
}

/// What is collected from the first `n` roots rests on the answers for those
/// roots alone.
proof fn lemma_collected_roots_rests_on_prefix(
    config: CollectorView,
    roots: Seq<WalkedRoot>,
    v1: Seq<Seq<bool>>,
    v2: Seq<Seq<bool>>,
    n: nat,
)
    requires
        forall|k: int| 0 <= k < n ==> v1[k] == v2[k],
    ensures
        collected_roots(config, roots, v1, n) == collected_roots(config, roots, v2, n),
    decreases n,
{
    if n > 0 {
        lemma_collected_roots_rests_on_prefix(config, roots, v1, v2, (n - 1) as nat);
    }
}

impl<TFilter: Fn(&FsPath) -> bool> FileCollector<TFilter> {
    /// `verdicts[r]` holds answers of the predicate for the walk from each
    /// root `r` that was resolved.
    pub open spec fn root_verdicts_hold(&self, roots: Seq<WalkedRoot>, verdicts: Seq<Seq<bool>>) -> bool {
        &&& verdicts.len() == roots.len()
        &&& forall|r: int|
            0 <= r < roots.len() ==> (#[trigger] roots[r].canonical matches Some(c)
                ==> self.verdicts_hold(c@, roots[r].items@, verdicts[r]))
    }

    /// Collects the files below the given roots. A root that could not be
    /// resolved is passed over. The result is a set, written down in the
    /// order in which the files are first met, root after root: it holds what
    /// [`FileCollector::collect_listing`] collects from the listing of each
    /// root, and holds no path twice, also where a file lies below two of
    /// the roots. The collector itself is left as it is.
    pub fn collect_files(&self, roots: &[WalkedRoot]) -> (r: Vec<FsPath>)
        requires
            self.wf(),
        ensures
            exists|verdicts: Seq<Seq<bool>>| #[trigger]
                self.root_verdicts_hold(roots@, verdicts) && paths_view(r@) == without_repeats(
                    collected_roots(self@, roots@, verdicts, roots@.len()),
                ),
            paths_view(r@).no_duplicates(),
    {
        let mut out: Vec<FsPath> = Vec::new();
        let ghost mut verdicts: Seq<Seq<bool>> = Seq::empty();
        let mut i: usize = 0;
        assert(paths_view(out@) =~= Seq::empty());
        while i < roots.len()
            invariant
                self.wf(),
                i <= roots.len(),
                verdicts.len() == i,
                forall|r: int|
                    0 <= r < i ==> (#[trigger] roots@[r].canonical matches Some(c)
                        ==> self.verdicts_hold(c@, roots@[r].items@, verdicts[r])),
                paths_view(out@) == collected_roots(self@, roots@, verdicts, i as nat),
            decreases roots.len() - i,
        {
            let ghost before = verdicts;
            let ghost paths = paths_view(out@);
            match &roots[i].canonical {
                Some(c) => {
                    let mut found = self.collect_listing(c, roots[i].items.as_slice());
                    let ghost answers = choose|answers: Seq<bool>| #[trigger]
                        self.verdicts_hold(c@, roots@[i as int].items@, answers) && paths_view(
                            found@,
                        ) == collected(
                            self@,
                            c@,
                            listing_view(roots@[i as int].items@),
                            answers,
                            roots@[i as int].items@.len(),
                        );
                    let ghost more = paths_view(found@);
                    out.append(&mut found);
                    proof {
                        verdicts = before.push(answers);
                        assert(paths_view(out@) =~= paths + more);
                    }
                },
                None => {
                    proof {
                        verdicts = before.push(Seq::empty());
                    }
                },
            }
            proof {
                lemma_collected_roots_rests_on_prefix(self@, roots@, before, verdicts, i as nat);
            }
            i += 1;
        }
        assert(self.root_verdicts_hold(roots@, verdicts));
        let distinct = drop_repeats(out.as_slice());
        proof {
            lemma_without_repeats_is_a_set(paths_view(out@));
        }
        distinct
    }
}

/// The predicate has a say only where it is asked: about a file that was
/// resolved and lies under no ignored path. Of every other item, and so of
/// every directory, the same is done whatever the predicate would answer.
pub proof fn lemma_filter_decides_files_only(config: CollectorView, root: Seq<SegmentView>, item: WalkItemView)
    requires
        !consults_filter(config, item),
    ensures
        decision_of(config, root, item, true) == decision_of(config, root, item, false),
        !(decision_of(config, root, item, true) is Collect),
{
}

/// A directory that is itself the root of the walk is never left out for its
/// name: unless it lies under an ignored path, the walk descends into it.
pub proof fn lemma_root_opts_out(config: CollectorView, root: Seq<SegmentView>, entry: WalkEntryView, accepted: bool)
    requires
        entry.is_dir,
        entry.canonical == Some(root),
        !ignored(config.ignore, root),
    ensures
        !pruned_by_name(config, root, root),
        decision_of(config, root, WalkItemView::Entry(entry), accepted) == VisitView::Descend,
{
}

/// With both flags off no directory is left out for its name.
pub proof fn lemma_flags_off_prune_no_name(config: CollectorView, root: Seq<SegmentView>, canonical: Seq<SegmentView>)
    requires
        !config.ignore_git_folder,
        !config.ignore_node_modules,
    ensures
        !pruned_by_name(config, root, canonical),
{
}

/// What is collected is exactly the files that the walk reaches, that lie
/// under no ignored path and that the predicate accepted: a path is among
/// the collected ones if and only if it is the canonical path of such an
/// item.
pub proof fn lemma_collected_exactly(
    config: CollectorView,
    root: Seq<SegmentView>,
    items: Seq<WalkItemView>,
    verdicts: Seq<bool>,
    n: nat,
    path: Seq<SegmentView>,
)
    ensures
        collected(config, root, items, verdicts, n).contains(path) <==> exists|k: int|
            0 <= k < n && reached(config, root, items, k) && #[trigger] decision_of(
                config,
                root,
                items[k],
                verdicts[k],
            ) == VisitView::Collect(path),
        collected(config, root, items, verdicts, n).contains(path) ==> !ignored(config.ignore, path),
    decreases n,
{
    if n > 0 {
        let before = collected(config, root, items, verdicts, (n - 1) as nat);
        let now = collected(config, root, items, verdicts, n);
        let k = n - 1;
        lemma_collected_exactly(config, root, items, verdicts, (n - 1) as nat, path);
        let last = decision_of(config, root, items[k], verdicts[k]);
        if reached(config, root, items, k) && last is Collect {
            let c = last->Collect_0;
            assert(now == before.push(c));
            assert(now.last() == c);
            if now.contains(path) {
                let i = choose|i: int| 0 <= i < now.len() && now[i] == path;
                if i < before.len() {
                    assert(before[i] == path);
                    assert(before.contains(path));
                }
            }
            if before.contains(path) {
                let i = choose|i: int| 0 <= i < before.len() && before[i] == path;
                assert(now[i] == path);
            }
        }
    }
}

} // verus!
