//! Turning what is to be included into module specifiers.
//!
//! What is to be included is given as text: the URL of a remote module, the
//! URL of a file, or a path. A path that is a directory stands for the files
//! collected below it, whose specifiers come in sorted order.

use crate::collect::{
    collected_roots, paths_view, resolved, without_repeats, CollectorView, FileCollector, WalkedRoot,
};
use crate::path::{is_absolute_of, joined, normalized, portable, FsPath, Segment, SegmentView};
use crate::resolve::normalize_path;
use crate::text::{begins_with, lowercase_of, starts_with, to_lowercase};
use std::path::{Component, PathBuf};
use vstd::prelude::*;
use vstd::utf8::encode_utf8;

verus! {

/// What an entry of the includes is, by its text.
#[derive(Clone, Copy, Debug, PartialEq, Eq, Structural)]
pub enum IncludeKind {
    /// The URL of a remote module: it begins with `http://` or `https://`.
    Remote,
    /// The URL of a file: it begins with `file://`.
    FileUrl,
    /// A path.
    Path,
}

/// The text `http://`.
pub open spec fn http_scheme() -> Seq<char> {
    seq!['h', 't', 't', 'p', ':', '/', '/']
}

/// The text `https://`.
pub open spec fn https_scheme() -> Seq<char> {
    seq!['h', 't', 't', 'p', 's', ':', '/', '/']
}

/// The text `file://`.
pub open spec fn file_scheme() -> Seq<char> {
    seq!['f', 'i', 'l', 'e', ':', '/', '/']
}

/// What an entry is whose text in lower case is `lower`.
pub open spec fn include_kind_of(lower: Seq<char>) -> IncludeKind {
    if begins_with(lower, http_scheme()) || begins_with(lower, https_scheme()) {
        IncludeKind::Remote
    } else if begins_with(lower, file_scheme()) {
        IncludeKind::FileUrl
    } else {
        IncludeKind::Path
    }
}

/// What an entry is whose text in lower case is `lower`.
pub fn include_kind(lower: &str) -> (r: IncludeKind)
    ensures
        r == include_kind_of(lower@),
{
    proof {
        reveal_strlit("http://");
        reveal_strlit("https://");
        reveal_strlit("file://");
        assert("http://"@ =~= http_scheme());
        assert("https://"@ =~= https_scheme());
        assert("file://"@ =~= file_scheme());
    }
    if starts_with(lower, "http://") || starts_with(lower, "https://") {
        IncludeKind::Remote
    } else if starts_with(lower, "file://") {
        IncludeKind::FileUrl
    } else {
        IncludeKind::Path
    }
}

/// What an entry of the includes is. The scheme is told in any case of its
/// letters.
pub fn classify_include(text: &str) -> (r: IncludeKind)
    ensures
        r == include_kind_of(lowercase_of(text@)),
{
    let lower = to_lowercase(text);
    include_kind(lower.as_str())
}

/// `a` comes before `b`, or is `b`, in the order of their bytes.
pub open spec fn lex_le(a: Seq<u8>, b: Seq<u8>) -> bool
    decreases a.len(),
{
    if a.len() == 0 {
        true
    } else if b.len() == 0 {
        false
    } else if a[0] != b[0] {
        a[0] < b[0]
    } else {
        lex_le(a.drop_first(), b.drop_first())
    }
}

/// The order of specifiers: that of the bytes of their text.
pub open spec fn text_le(a: Seq<char>, b: Seq<char>) -> bool {
    lex_le(encode_utf8(a), encode_utf8(b))
}

/// Each specifier comes before the next, or is the same.
pub open spec fn sorted(texts: Seq<Seq<char>>) -> bool {
    forall|i: int| 0 <= i < texts.len() - 1 ==> text_le(#[trigger] texts[i], texts[i + 1])
}

/// The mathematical value of a sequence of texts.
pub open spec fn texts_view(texts: Seq<String>) -> Seq<Seq<char>> {
    texts.map_values(|t: String| t@)
}

/// Of two texts one comes before the other, or they are the same in the
/// order.
pub proof fn lemma_lex_le_total(a: Seq<u8>, b: Seq<u8>)
    ensures
        lex_le(a, b) || lex_le(b, a),
    decreases a.len(),
{
    if a.len() > 0 && b.len() > 0 && a[0] == b[0] {
        lemma_lex_le_total(a.drop_first(), b.drop_first());
    }
}

/// The order of texts passes on: what comes before a text comes before all
/// that the text comes before.
pub proof fn lemma_lex_le_transitive(a: Seq<u8>, b: Seq<u8>, c: Seq<u8>)
    requires
        lex_le(a, b),
        lex_le(b, c),
    ensures
        lex_le(a, c),
    decreases a.len(),
{
    if a.len() > 0 && b.len() > 0 && c.len() > 0 && a[0] == b[0] && b[0] == c[0] {
        lemma_lex_le_transitive(a.drop_first(), b.drop_first(), c.drop_first());
    }
}

/// In sorted specifiers each comes before all that follow it, not only
/// before the next.
pub proof fn lemma_sorted_throughout(texts: Seq<Seq<char>>, i: int, j: int)
    requires
        sorted(texts),
        0 <= i <= j < texts.len(),
    ensures
        text_le(texts[i], texts[j]),
    decreases j - i,
{
    if i == j {
        lemma_lex_le_total(encode_utf8(texts[i]), encode_utf8(texts[i]));
    } else {
        lemma_sorted_throughout(texts, i, j - 1);
        lemma_lex_le_transitive(
            encode_utf8(texts[i]),
            encode_utf8(texts[j - 1]),
            encode_utf8(texts[j]),
        );
    }
}

/// Whether `a` comes before `b`, or is `b`, in the order of their bytes.
pub fn comes_first(a: &str, b: &str) -> (r: bool)
    ensures
        r == text_le(a@, b@),
{
    let x = a.as_bytes();
    let y = b.as_bytes();
    let mut i: usize = 0;
    assert(x@.skip(0) =~= x@);
    assert(y@.skip(0) =~= y@);
    while i < x.len() && i < y.len() && x[i] == y[i]
        invariant
            i <= x@.len(),
            i <= y@.len(),
            lex_le(x@, y@) == lex_le(x@.skip(i as int), y@.skip(i as int)),
        decreases x@.len() - i,
    {
        assert(x@.skip(i as int).drop_first() =~= x@.skip(i + 1));
        assert(y@.skip(i as int).drop_first() =~= y@.skip(i + 1));
        i += 1;
    }
    if i == x.len() {
        true
    } else if i == y.len() {
        false
    } else {
        x[i] < y[i]
    }
}

/// Sorts specifiers by the order of their bytes. The result holds what was
/// given, each as often as it was given.
pub fn sort_specifiers(texts: Vec<String>) -> (r: Vec<String>)
    ensures
        sorted(texts_view(r@)),
        texts_view(r@).to_multiset() == texts_view(texts@).to_multiset(),
{
    let mut out: Vec<String> = Vec::new();
    let mut i: usize = 0;
    assert(texts_view(out@) =~= Seq::empty());
    assert(texts_view(texts@.subrange(0, 0)) =~= Seq::empty());
    while i < texts.len()
        invariant
            i <= texts.len(),
            sorted(texts_view(out@)),
            texts_view(out@).to_multiset() == texts_view(texts@.subrange(0, i as int)).to_multiset(),
        decreases texts.len() - i,
    {
        let text = texts[i].clone();
        let mut j: usize = out.len();
        while j > 0 && !comes_first(out[j - 1].as_str(), text.as_str())
            invariant
                j <= out.len(),
                forall|k: int| j <= k < out.len() ==> text_le(text@, #[trigger] texts_view(out@)[k]),
            decreases j,
        {
            proof {
                lemma_lex_le_total(encode_utf8(out@[j - 1]@), encode_utf8(text@));
            }
            j -= 1;
        }
        let ghost before = texts_view(out@);
        out.insert(j, text);
        proof {
            let after = texts_view(out@);
            assert(after =~= before.insert(j as int, text@));
            assert forall|k: int| 0 <= k < after.len() - 1 implies text_le(
                #[trigger] after[k],
                after[k + 1],
            ) by {
                if k + 1 < j {
                    assert(after[k] == before[k] && after[k + 1] == before[k + 1]);
                } else if k + 1 == j {
                    assert(after[k] == before[j - 1]);
                } else if k == j {
                    assert(after[k + 1] == before[k]);
                } else {
                    assert(after[k] == before[k - 1] && after[k + 1] == before[k]);
                }
            }
            let head = texts@.subrange(0, i as int);
            let next = texts@.subrange(0, i + 1);
            assert(text@ == texts@[i as int]@);
            assert(texts_view(next) =~= texts_view(head).insert(i as int, text@));
            vstd::seq_lib::to_multiset_insert(before, j as int, text@);
            vstd::seq_lib::to_multiset_insert(texts_view(head), i as int, text@);
        }
        i += 1;
    }
    assert(texts@.subrange(0, texts@.len() as int) =~= texts@);
    out
}

/// The error of the `url` crate's parser.
#[verifier::external_type_specification]
#[verifier::external_body]
pub struct ExParseError(url::ParseError);

/// The URL that a text parses to, as the text of the URL; `None` where the
/// text is no absolute URL.
pub uninterp spec fn url_of(text: Seq<char>) -> Option<Seq<char>>;

/// The text of the `file` URL that stands for an absolute path.
pub uninterp spec fn file_url_of(path: Seq<SegmentView>) -> Seq<char>;

/// `url::Url::parse`, with the URL handed back as its text. Nothing is
/// proved of it: whether a text parses, and to which URL, is taken to rest on
/// the text alone, and is named `url_of`.
#[verifier::external_body]
fn parse_url(text: &str) -> (r: Result<String, url::ParseError>)
    ensures
        match r {
            Ok(url) => url_of(text@) == Some(url@),
            Err(_) => url_of(text@) is None,
        },
{
    url::Url::parse(text).map(String::from)
}

/// `url::Url::from_file_path`, with the URL handed back as its text. It
/// fails on a path that is not absolute. Of a portable path that it accepts,
/// the URL is taken to rest on the components alone, and is named
/// `file_url_of`. Which absolute paths it accepts differs from one platform
/// to the next, so nothing says when it succeeds.
#[verifier::external_body]
fn file_url(path: &FsPath) -> (r: Option<String>)
    ensures
        portable(path@) ==> (r matches Some(url) ==> is_absolute_of(path@) && url@ == file_url_of(
            path@,
        )),
{
    let given: PathBuf = path.segments.iter().map(Segment::text).collect();
    url::Url::from_file_path(given).ok().map(String::from)
}

/// `url::Url::to_file_path` of the URL with the given text. What path a
/// `file` URL stands for differs from one platform to the next, so nothing
/// is promised of the result.
#[verifier::external_body]
fn url_file_path(url: &str) -> (r: Option<FsPath>) {
    let path = url::Url::parse(url).ok()?.to_file_path().ok()?;
    let segments = path.components().map(|c| match c {
        Component::Prefix(p) => Segment::Prefix(p.as_os_str().to_string_lossy().into_owned()),
        Component::RootDir => Segment::RootDir,
        Component::CurDir => Segment::CurDir,
        Component::ParentDir => Segment::ParentDir,
        Component::Normal(n) => Segment::Normal(n.to_string_lossy().into_owned()),
    });
    Some(FsPath { segments: segments.collect() })
}

/// Why something could not be turned into a specifier.
#[derive(Clone, Copy, Debug, PartialEq, Eq, Structural)]
pub enum SpecifierError {
    /// The text is no absolute URL.
    InvalidUrl,
    /// The URL stands for no file path.
    NotAFilePath,
    /// The path has no `file` URL, as a path that is not absolute.
    NotAbsolute,
}

/// What an entry of the includes stands for.
#[derive(Debug)]
pub enum IncludeTarget {
    /// A remote module, with the text of its URL.
    Remote(String),
    /// A file or a directory, with its normalized path.
    Local(FsPath),
}

/// The URL that a text parses to, as the text of the URL.
pub fn parse_specifier(text: &str) -> (r: Result<String, SpecifierError>)
    ensures
        match r {
            Ok(url) => url_of(text@) == Some(url@),
            Err(e) => e == SpecifierError::InvalidUrl && url_of(text@) is None,
        },
{
    match parse_url(text) {
        Ok(url) => Ok(url),
        Err(_) => Err(SpecifierError::InvalidUrl),
    }
}

/// The text of the `file` URL of a path. It fails on a path that is not
/// absolute.
pub fn specifier_of_file(path: &FsPath) -> (r: Result<String, SpecifierError>)
    ensures
        r matches Err(e) ==> e == SpecifierError::NotAbsolute,
        portable(path@) ==> (r matches Ok(url) ==> is_absolute_of(path@) && url@ == file_url_of(
            path@,
        )),
{
    match file_url(path) {
        Some(url) => Ok(url),
        None => Err(SpecifierError::NotAbsolute),
    }
}

/// What the path that the URL of a file stands for is taken as: the path,
/// normalized; where the URL stands for no path, that is the failure.
pub fn local_target(found: Option<FsPath>) -> (r: Result<IncludeTarget, SpecifierError>)
    ensures
        match found {
            Some(p) => r matches Ok(IncludeTarget::Local(q)) && (portable(p@) ==> q@ == normalized(p@)),
            None => r == Err::<IncludeTarget, SpecifierError>(SpecifierError::NotAFilePath),
        },
{
    match found {
        Some(p) => Ok(IncludeTarget::Local(normalize_path(&p))),
        None => Err(SpecifierError::NotAFilePath),
    }
}

/// What an entry of the includes stands for. The entry is given twice: as
/// its `text`, and as the `path` that the text reads as. A remote URL stands
/// for itself. The URL of a file stands for the file's path, as
/// [`local_target`] takes it, and a path for itself joined to `root` and
/// normalized.
pub fn resolve_include(root: &FsPath, text: &str, path: &FsPath) -> (r: Result<
    IncludeTarget,
    SpecifierError,
>)
    ensures
        match include_kind_of(lowercase_of(text@)) {
            IncludeKind::Remote => match url_of(text@) {
                Some(url) => r matches Ok(IncludeTarget::Remote(u)) && u@ == url,
                None => r == Err::<IncludeTarget, SpecifierError>(SpecifierError::InvalidUrl),
            },
            IncludeKind::FileUrl => match url_of(text@) {
                Some(_) => r matches Ok(IncludeTarget::Local(_)) || r == Err::<
                    IncludeTarget,
                    SpecifierError,
                >(SpecifierError::NotAFilePath),
                None => r == Err::<IncludeTarget, SpecifierError>(SpecifierError::InvalidUrl),
            },
            IncludeKind::Path => r matches Ok(IncludeTarget::Local(p)) && (portable(
                joined(root@, path@),
            ) ==> p@ == normalized(joined(root@, path@))),
        },
{
    match classify_include(text) {
        IncludeKind::Remote => match parse_specifier(text) {
            Ok(url) => Ok(IncludeTarget::Remote(url)),
            Err(e) => Err(e),
        },
        IncludeKind::FileUrl => match parse_specifier(text) {
            Ok(url) => local_target(url_file_path(url.as_str())),
            Err(e) => Err(e),
        },
        IncludeKind::Path => Ok(IncludeTarget::Local(normalize_path(&root.join(path)))),
    }
}

/// The texts of what is to be included: those given, or the root where none
/// is given.
pub open spec fn includes_or_root_of(given: Seq<Seq<char>>, root: Seq<char>) -> Seq<Seq<char>> {
    if given.len() == 0 {
        seq![root]
    } else {
        given
    }
}

/// The texts of what is to be included: those given, or the root where none
/// is given.
pub fn includes_or_root(given: Vec<String>, root: &str) -> (r: Vec<String>)
    ensures
        texts_view(r@) == includes_or_root_of(texts_view(given@), root@),
{
    if given.len() == 0 {
        let mut r: Vec<String> = Vec::new();
        r.push(String::from_str(root));
        assert(texts_view(r@) =~= seq![root@]);
        r
    } else {
        given
    }
}

/// The collector with which the files below an included directory are
/// collected: it ignores the excluded paths, and always leaves out the
/// directories named `.git` and `node_modules`. `exclude` holds, for each
/// excluded path, its canonical path where it could be resolved.
pub fn specifier_collector<TFilter: Fn(&FsPath) -> bool>(
    predicate: TFilter,
    exclude: &[Option<FsPath>],
) -> (r: FileCollector<TFilter>)
    requires
        forall|p: &FsPath| call_requires(predicate, (p,)),
    ensures
        r.wf(),
        r.filter() == predicate,
        r@ == (CollectorView {
            ignore: resolved(exclude@),
            ignore_git_folder: true,
            ignore_node_modules: true,
        }),
{
    let r = FileCollector::new(predicate).add_ignore_paths(
        exclude,
    ).ignore_git_folder().ignore_node_modules();
    assert(Seq::<Seq<SegmentView>>::empty() + resolved(exclude@) =~= resolved(exclude@));
    r
}

/// What an entry of the includes was found to be.
#[derive(Debug)]
pub enum PreparedInclude {
    /// A remote module, with the text of its URL.
    Remote(String),
    /// A directory, with the files collected below it.
    Directory(Vec<FsPath>),
    /// A file.
    File(FsPath),
}

/// All the paths are portable.
pub open spec fn all_portable(files: Seq<Seq<SegmentView>>) -> bool {
    forall|i: int| 0 <= i < files.len() ==> portable(#[trigger] files[i])
}

/// The `file` URLs of the paths, in the order of the paths.
pub open spec fn file_urls_of(files: Seq<Seq<SegmentView>>) -> Seq<Seq<char>> {
    files.map_values(|p: Seq<SegmentView>| file_url_of(p))
}

/// `urls` are the specifiers of the files of a directory: one for each
/// file, in sorted order, and, where the paths are portable, the `file` URLs
/// of the files.
pub open spec fn directory_specifiers(files: Seq<Seq<SegmentView>>, urls: Seq<Seq<char>>) -> bool {
    &&& urls.len() == files.len()
    &&& sorted(urls)
    &&& all_portable(files) ==> urls.to_multiset() == file_urls_of(files).to_multiset()
}

/// Every file was given a URL.
pub open spec fn all_found(urls: Seq<Option<String>>) -> bool {
    forall|i: int| 0 <= i < urls.len() ==> #[trigger] urls[i] is Some
}

/// The URLs that the files were given, in the order of the files.
pub open spec fn found_texts(urls: Seq<Option<String>>) -> Seq<Seq<char>> {
    urls.map_values(
        |u: Option<String>|
            match u {
                Some(t) => t@,
                None => Seq::empty(),
            },
    )
}

/// The specifiers of a directory, from what came of giving each of its files
/// a URL: a file without a URL is the failure; else the URLs come in sorted
/// order, each as often as it was given.
pub fn directory_block(urls: Vec<Option<String>>) -> (r: Result<Vec<String>, SpecifierError>)
    ensures
        r is Err <==> !all_found(urls@),
        r matches Err(e) ==> e == SpecifierError::NotAbsolute,
        r matches Ok(block) ==> sorted(texts_view(block@)) && texts_view(block@).to_multiset()
            == found_texts(urls@).to_multiset(),
{
    let mut texts: Vec<String> = Vec::new();
    let mut i: usize = 0;
    assert(texts_view(texts@) =~= found_texts(urls@.subrange(0, 0)));
    while i < urls.len()
        invariant
            i <= urls.len(),
            forall|k: int| 0 <= k < i ==> #[trigger] urls@[k] is Some,
            texts_view(texts@) == found_texts(urls@.subrange(0, i as int)),
        decreases urls.len() - i,
    {
        let ghost before = texts_view(texts@);
        match &urls[i] {
            Some(url) => {
                texts.push(url.clone());
                assert(texts_view(texts@) =~= before.push(url@));
                assert(found_texts(urls@.subrange(0, i + 1)) =~= found_texts(
                    urls@.subrange(0, i as int),
                ).push(url@));
            },
            None => {
                assert(!(urls@[i as int] is Some));
                return Err(SpecifierError::NotAbsolute);
            },
        }
        i += 1;
    }
    assert(urls@.subrange(0, urls@.len() as int) =~= urls@);
    Ok(sort_specifiers(texts))
}

/// The specifiers of the files collected below a directory, in sorted order.
/// It fails where a file has no `file` URL; of no files, the result is no
/// specifiers.
pub fn specifiers_of_directory(files: &[FsPath]) -> (r: Result<Vec<String>, SpecifierError>)
    ensures
        files@.len() == 0 ==> r is Ok,
        r matches Err(e) ==> e == SpecifierError::NotAbsolute,
        r matches Ok(urls) ==> directory_specifiers(paths_view(files@), texts_view(urls@)),
{
    let mut urls: Vec<Option<String>> = Vec::new();
    let mut i: usize = 0;
    while i < files.len()
        invariant
            i <= files.len(),
            urls.len() == i,
            forall|k: int|
                0 <= k < i && portable(files@[k]@) ==> (#[trigger] urls@[k] matches Some(u) ==> u@
                    == file_url_of(files@[k]@)),
        decreases files.len() - i,
    {
        let url = file_url(&files[i]);
        urls.push(url);
        i += 1;
    }
    let ghost given = urls@;
    let r = directory_block(urls);
    proof {
        if r is Ok {
            let block = r->Ok_0;
            let paths = paths_view(files@);
            vstd::seq_lib::to_multiset_len(found_texts(given));
            vstd::seq_lib::to_multiset_len(texts_view(block@));
            if all_portable(paths) {
                assert forall|k: int| 0 <= k < paths.len() implies found_texts(given)[k] == file_urls_of(
                    paths,
                )[k] by {
                    assert(portable(paths[k]));
                    assert(given[k] is Some);
                }
                assert(found_texts(given) =~= file_urls_of(paths));
            }
        }
    }
    r
}

/// The specifiers of the files below the given roots: the files that the
/// collector collects there, each once, as their `file` URLs in sorted
/// order. It fails where a collected file has no `file` URL, and so never
/// where there is no root.
pub fn specifiers_below<TFilter: Fn(&FsPath) -> bool>(
    collector: &FileCollector<TFilter>,
    roots: &[WalkedRoot],
) -> (r: Result<Vec<String>, SpecifierError>)
    requires
        collector.wf(),
    ensures
        roots@.len() == 0 ==> r is Ok,
        r matches Err(e) ==> e == SpecifierError::NotAbsolute,
        exists|verdicts: Seq<Seq<bool>>| #[trigger]
            collector.root_verdicts_hold(roots@, verdicts) && (r matches Ok(urls)
                ==> directory_specifiers(
                without_repeats(collected_roots(collector@, roots@, verdicts, roots@.len())),
                texts_view(urls@),
            )),
{
    let files = collector.collect_files(roots);
    specifiers_of_directory(files.as_slice())
}

/// `out` are the specifiers of `targets`, entry after entry: a remote module
/// gives its URL, a file its `file` URL, and a directory the specifiers of
/// its files in sorted order.
pub open spec fn prepared_from(targets: Seq<PreparedInclude>, out: Seq<Seq<char>>) -> bool
    decreases targets.len(),
{
    if targets.len() == 0 {
        out.len() == 0
    } else {
        exists|k: int|
            0 <= k <= out.len() && prepared_from(targets.drop_last(), out.subrange(0, k))
                && #[trigger] last_prepared(targets.last(), out.subrange(k, out.len() as int))
    }
}

/// `urls` are the specifiers of one entry.
pub open spec fn last_prepared(target: PreparedInclude, urls: Seq<Seq<char>>) -> bool {
    match target {
        PreparedInclude::Remote(url) => urls == seq![url@],
        PreparedInclude::File(path) => urls.len() == 1 && (portable(path@) ==> urls[0] == file_url_of(
            path@,
        )),
        PreparedInclude::Directory(files) => directory_specifiers(paths_view(files@), urls),
    }
}

/// No entry needs the URL of a file: each is a remote module or a directory
/// without files.
pub open spec fn needs_no_file_url(targets: Seq<PreparedInclude>) -> bool {
    forall|i: int|
        0 <= i < targets.len() ==> (#[trigger] targets[i] is Remote || (
        targets[i] matches PreparedInclude::Directory(f) && f@.len() == 0))
}

/// The specifiers of what is to be included, entry after entry. It fails
/// with the first path that has no `file` URL, and so never where no entry
/// needs one.
pub fn collect_specifiers(targets: &[PreparedInclude]) -> (r: Result<Vec<String>, SpecifierError>)
    ensures
        needs_no_file_url(targets@) ==> r is Ok,
        r matches Err(e) ==> e == SpecifierError::NotAbsolute,
        r matches Ok(prepared) ==> prepared_from(targets@, texts_view(prepared@)),
{
    let mut prepared: Vec<String> = Vec::new();
    let mut i: usize = 0;
    assert(texts_view(prepared@).len() == 0);
    assert(targets@.subrange(0, 0).len() == 0);
    while i < targets.len()
        invariant
            i <= targets.len(),
            prepared_from(targets@.subrange(0, i as int), texts_view(prepared@)),
        decreases targets.len() - i,
    {
        let ghost before = texts_view(prepared@);
        let ghost head = targets@.subrange(0, i as int);
        let ghost next = targets@.subrange(0, i + 1);
        assert(next.drop_last() =~= head);
        assert(next.last() == targets@[i as int]);
        match &targets[i] {
            PreparedInclude::Remote(url) => {
                prepared.push(url.clone());
                assert(texts_view(prepared@) =~= before + seq![url@]);
                assert(texts_view(prepared@).subrange(
                    before.len() as int,
                    texts_view(prepared@).len() as int,
                ) =~= seq![url@]);
            },
            PreparedInclude::File(path) => match specifier_of_file(path) {
                Ok(url) => {
                    prepared.push(url);
                    assert(texts_view(prepared@) =~= before + seq![url@]);
                    assert(texts_view(prepared@).subrange(
                        before.len() as int,
                        texts_view(prepared@).len() as int,
                    ) =~= seq![url@]);
                },
                Err(e) => {
                    assert(!(targets@[i as int] is Remote));
                    return Err(e);
                },
            },
            PreparedInclude::Directory(files) => match specifiers_of_directory(files.as_slice()) {
                Ok(mut urls) => {
                    let ghost more = texts_view(urls@);
                    prepared.append(&mut urls);
                    assert(texts_view(prepared@) =~= before + more);
                    assert(texts_view(prepared@).subrange(
                        before.len() as int,
                        texts_view(prepared@).len() as int,
                    ) =~= more);
                },
                Err(e) => {
                    assert(!(targets@[i as int] is Remote));
                    return Err(e);
                },
            },
        }
        proof {
            let now = texts_view(prepared@);
            let k = before.len() as int;
            assert(now.subrange(0, k) =~= before);
            assert(last_prepared(targets@[i as int], now.subrange(k, now.len() as int)));
            assert(prepared_from(next.drop_last(), now.subrange(0, k)));
            assert(last_prepared(next.last(), now.subrange(k, now.len() as int)));
            assert(prepared_from(next, now));
        }
        i += 1;
    }
    assert(targets@.subrange(0, targets@.len() as int) =~= targets@);
    Ok(prepared)
}

} // verus!
