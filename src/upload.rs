//! Checks on the names of uploaded files.

use vstd::prelude::*;

use std::path::{Component, Path};

verus! {

/// The kind of one component of a filesystem path.
#[derive(Debug, Clone, Copy, PartialEq, Eq, Structural)]
pub enum PathComponent {
    Prefix,
    RootDir,
    CurDir,
    ParentDir,
    Normal,
}

/// The kinds of the components that std's path parser finds in a path.
pub uninterp spec fn path_components(path: Seq<char>) -> Seq<PathComponent>;

/// Relies on `std::path::Path::components`: the kinds of the components, in
/// order, depending on the path text alone.
#[verifier::external_body]
fn component_kinds(path: &str) -> (r: Vec<PathComponent>)
    ensures
        r@ == path_components(path@),
{
    Path::new(path).components().map(|c| match c {
        Component::Prefix(_) => PathComponent::Prefix,
        Component::RootDir => PathComponent::RootDir,
        Component::CurDir => PathComponent::CurDir,
        Component::ParentDir => PathComponent::ParentDir,
        Component::Normal(_) => PathComponent::Normal,
    }).collect()
}

/// A path may name an upload target when it has exactly one component and
/// that component is a plain name (no root, `.` or `..`), so it cannot leave
/// the upload directory.
pub open spec fn safe_upload_path(parts: Seq<PathComponent>) -> bool {
    parts.len() == 1 && parts[0] == PathComponent::Normal
}

/// Whether `path` consists of exactly one plain name.
pub fn path_is_valid(path: &str) -> (r: bool)
    ensures
        r == safe_upload_path(path_components(path@)),
{
    let parts = component_kinds(path);
    parts.len() == 1 && parts[0] == PathComponent::Normal
}

} // verus!
