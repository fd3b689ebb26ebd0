//! Naming of sealed archives. A sealed archive of a document is stored as
//! `{date}_{institution}_{name}_{page}.cocoon` in a target directory; the
//! document's own extension is not part of that name and must be supplied
//! again when the archive is opened.

use vstd::prelude::*;
use crate::catalog::{join_path, joined};
use crate::codec::{render, render_spec, renderable, OptDoc, RenderError};
use crate::text::string_of;

verus! {

/// The extension of sealed archives.
pub open spec fn archive_extension() -> Seq<char> {
    seq!['c', 'o', 'c', 'o', 'o', 'n']
}

/// The ways that storing or opening an archive fails.
#[derive(Clone, Copy, Debug, PartialEq, Eq, Structural)]
pub enum ArchiveError {
    /// The declared identity lacks a date, an institution or a name.
    IncompleteIdentity,
    /// The source document could not be opened or fully read.
    SourceReadError,
    /// The archive could not be written to the target directory.
    TargetWriteError,
    /// The key is wrong or the archive is corrupted.
    AuthError,
}

impl ArchiveError {
    pub fn from_render(e: RenderError) -> (r: ArchiveError)
        ensures
            r == ArchiveError::IncompleteIdentity,
    {
        match e {
            RenderError::IncompleteIdentity => ArchiveError::IncompleteIdentity,
        }
    }
}

fn archive_ext() -> (r: String)
    ensures
        r@ == archive_extension(),
{
    let v = vec!['c', 'o', 'c', 'o', 'o', 'n'];
    assert(v@ =~= archive_extension());
    string_of(&v)
}

/// The canonical archive name of a document declared as `declared`: its
/// rendering with the archive extension; the page defaults to `1`.
pub fn archive_file_name(declared: &OptDoc) -> (r: Result<String, ArchiveError>)
    ensures
        r is Ok <==> renderable(declared@),
        r matches Ok(s) ==> s@ == render_spec(declared@, archive_extension()),
        r matches Err(e) ==> e == ArchiveError::IncompleteIdentity,
{
    let ext = archive_ext();
    match render(declared, ext.as_str()) {
        Ok(s) => Ok(s),
        Err(e) => Err(ArchiveError::from_render(e)),
    }
}

/// Where the archive of a document declared as `declared` is written in
/// `target_dir`.
pub fn archive_path(target_dir: &str, declared: &OptDoc) -> (r: Result<String, ArchiveError>)
    ensures
        r is Ok <==> renderable(declared@),
        r matches Ok(p) ==> p@ == joined(target_dir@, render_spec(declared@, archive_extension())),
        r matches Err(e) ==> e == ArchiveError::IncompleteIdentity,
{
    match archive_file_name(declared) {
        Ok(name) => Ok(join_path(target_dir, name.as_str())),
        Err(e) => Err(e),
    }
}

} // verus!
