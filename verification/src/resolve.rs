//! Normalizing a path and resolving it against the current directory.

use crate::path::{is_absolute_of, joined, normalized, portable, FsPath, Segment, SegmentView};
use std::borrow::Cow;
use std::path::{Component, PathBuf};
use vstd::prelude::*;

verus! {

/// `deno_path_util::normalize_path`: the path without its `.` components
/// and with each `..` resolved against the component before it. The claim is
/// made of portable paths only: of other paths the outcome differs from one
/// platform to the next.
#[verifier::external_body]
fn normalize_outside(path: &FsPath) -> (r: FsPath)
    ensures
        portable(path@) ==> r@ == normalized(path@),
{
    let given: PathBuf = path.segments.iter().map(Segment::text).collect();
    let normal = deno_path_util::normalize_path(Cow::Owned(given));
    let segments = normal.components().map(|c| match c {
        Component::Prefix(p) => Segment::Prefix(p.as_os_str().to_string_lossy().into_owned()),
        Component::RootDir => Segment::RootDir,
        Component::CurDir => Segment::CurDir,
        Component::ParentDir => Segment::ParentDir,
        Component::Normal(n) => Segment::Normal(n.to_string_lossy().into_owned()),
    });
    FsPath { segments: segments.collect() }
}

/// The path without its `.` components and with each `..` resolved against
/// the component before it. This is stated of portable paths; of others
/// nothing is.
pub fn normalize_path(path: &FsPath) -> (r: FsPath)
    ensures
        portable(path@) ==> r@ == normalized(path@),
{
    normalize_outside(path)
}

/// Why a path could not be resolved against the current directory.
#[derive(Clone, Copy, Debug, PartialEq, Eq, Structural)]
pub enum ResolveError {
    /// The path is relative, and the current directory is not known.
    NoCurrentDir,
}

/// The path that `path` stands for: itself where it is absolute, else
/// joined to the current directory.
pub open spec fn resolved_of(path: Seq<SegmentView>, cwd: Seq<SegmentView>) -> Seq<SegmentView> {
    if is_absolute_of(path) {
        path
    } else {
        joined(cwd, path)
    }
}

/// Resolves a path against the current directory and normalizes it. `cwd`
/// is the current directory, where it could be found out. The path cannot be
/// resolved if and only if it is relative and the current directory is not
/// known.
pub fn resolve_from_cwd(path: &FsPath, cwd: Option<&FsPath>) -> (r: Result<FsPath, ResolveError>)
    ensures
        r is Err <==> !is_absolute_of(path@) && cwd is None,
        r matches Err(e) ==> e == ResolveError::NoCurrentDir,
        r matches Ok(p) ==> (match cwd {
            Some(c) => portable(resolved_of(path@, c@)) ==> p@ == normalized(resolved_of(path@, c@)),
            None => portable(path@) ==> p@ == normalized(path@),
        }),
{
    if path.is_absolute() {
        Ok(normalize_path(path))
    } else {
        match cwd {
            Some(c) => Ok(normalize_path(&c.join(path))),
            None => Err(ResolveError::NoCurrentDir),
        }
    }
}

} // verus!
