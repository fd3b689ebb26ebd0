//! The catalog: path-level classification of files, the extension
//! allow-list, and the listing of a directory's documents.

use vstd::prelude::*;
use crate::codec::{
    is_normalized_name, lower_extension, name_extension, normalized_name, opt_view,
    parse_file_name, parse_spec, stem_of, OptDoc,
};
use crate::text::{chars_of, same_chars};

verus! {

// ---------------------------------------------------------------- paths

/// The last component of path `p`, as `Path::file_name` gives it.
pub uninterp spec fn file_name_of(p: Seq<char>) -> Option<Seq<char>>;

/// Path `dir` with `name` pushed onto it, as `Path::join` gives it.
pub uninterp spec fn joined(dir: Seq<char>, name: Seq<char>) -> Seq<char>;

/// Relies on std::path::Path::file_name: the last normal component of the
/// path, or none when the path ends in `..` or is a root or empty.
#[verifier::external_body]
pub(crate) fn path_file_name(path: &str) -> (r: Option<String>)
    ensures
        opt_view(r) == file_name_of(path@),
{
    std::path::Path::new(path).file_name().map(|n| n.to_string_lossy().into_owned())
}

/// Relies on std::path::Path::join: `dir` extended by `name`.
#[verifier::external_body]
pub(crate) fn join_path(dir: &str, name: &str) -> (r: String)
    ensures
        r@ == joined(dir@, name@),
{
    std::path::Path::new(dir).join(name).to_string_lossy().into_owned()
}

/// The lower-cased extension of the file that `path` names; empty when it
/// has none.
pub fn extension(path: &str) -> (r: String)
    ensures
        r@ == match file_name_of(path@) {
            Some(n) => lower_extension(n),
            None => seq![],
        },
{
    match path_file_name(path) {
        Some(n) => name_extension(n.as_str()),
        None => String::new(),
    }
}

/// Whether the file that `path` names is normalized: its name is the
/// canonical name of its own identity. Reads nothing from disk.
pub fn is_normalized(path: &str) -> (r: bool)
    ensures
        r == match file_name_of(path@) {
            Some(n) => normalized_name(n),
            None => false,
        },
{
    match path_file_name(path) {
        Some(n) => is_normalized_name(n.as_str()),
        None => false,
    }
}

impl OptDoc {
    /// The identity that the stem of the file named by `filename` decodes
    /// to; the whole path is decoded when it names no file.
    pub fn new(filename: &str) -> (r: OptDoc)
        ensures
            r@ == parse_spec(
                match file_name_of(filename@) {
                    Some(n) => stem_of(n),
                    None => filename@,
                },
            ),
    {
        match path_file_name(filename) {
            Some(n) => parse_file_name(n.as_str()),
            None => OptDoc::parse(filename),
        }
    }
}

// ---------------------------------------------------------------- allow-list

/// The lower-cased extensions of documents: `pdf`, `jpg`, `png`, and
/// `cocoon` (sealed archives) when `archives` is set.
pub open spec fn allowed_extension(e: Seq<char>, archives: bool) -> bool {
    ||| e == seq!['p', 'd', 'f']
    ||| e == seq!['j', 'p', 'g']
    ||| e == seq!['p', 'n', 'g']
    ||| archives && e == seq!['c', 'o', 'c', 'o', 'o', 'n']
}

/// A file name is listed when its lower-cased extension is allowed; a name
/// without an extension never is.
pub open spec fn is_listed(n: Seq<char>, archives: bool) -> bool {
    allowed_extension(lower_extension(n), archives)
}

/// Whether file name `name` is a document of the catalog.
pub fn is_document_name(name: &str, archives: bool) -> (r: bool)
    ensures
        r == is_listed(name@, archives),
{
    let e = name_extension(name);
    let v = chars_of(e.as_str());
    let pdf = vec!['p', 'd', 'f'];
    let jpg = vec!['j', 'p', 'g'];
    let png = vec!['p', 'n', 'g'];
    let cocoon = vec!['c', 'o', 'c', 'o', 'o', 'n'];
    assert(pdf@ =~= seq!['p', 'd', 'f']);
    assert(jpg@ =~= seq!['j', 'p', 'g']);
    assert(png@ =~= seq!['p', 'n', 'g']);
    assert(cocoon@ =~= seq!['c', 'o', 'c', 'o', 'o', 'n']);
    same_chars(&v, &pdf) || same_chars(&v, &jpg) || same_chars(&v, &png) || (archives
        && same_chars(&v, &cocoon))
}

// ---------------------------------------------------------------- listing

pub open spec fn views(v: Seq<String>) -> Seq<Seq<char>> {
    v.map_values(|s: String| s@)
}

/// The listed names among `names[0..i]`, in their order.
pub open spec fn selected(names: Seq<String>, archives: bool, i: int) -> Seq<Seq<char>>
    decreases i,
{
    if i <= 0 {
        seq![]
    } else if is_listed(names[i - 1]@, archives) {
        selected(names, archives, i - 1).push(names[i - 1]@)
    } else {
        selected(names, archives, i - 1)
    }
}

/// The documents of a directory listing: none when the directory does not
/// exist (`None`), else the listed names in the order given.
pub open spec fn listed(listing: Option<Vec<String>>, archives: bool) -> Seq<Seq<char>> {
    match listing {
        Some(names) => selected(names@, archives, names@.len() as int),
        None => seq![],
    }
}

/// The document names of a directory, given the names of its regular files
/// (`None` when the directory does not exist, which lists nothing).
pub fn list_files(listing: &Option<Vec<String>>, archives: bool) -> (r: Vec<String>)
    ensures
        views(r@) == listed(*listing, archives),
{
    let mut out: Vec<String> = Vec::new();
    match listing {
        None => {
            assert(views(out@) =~= seq![]);
        },
        Some(names) => {
            let mut i: usize = 0;
            while i < names.len()
                invariant
                    i <= names.len(),
                    views(out@) == selected(names@, archives, i as int),
                decreases names.len() - i,
            {
                if is_document_name(names[i].as_str(), archives) {
                    let s = names[i].clone();
                    assert(views(out@.push(s)) =~= views(out@).push(s@));
                    out.push(s);
                }
                i += 1;
            }
        },
    }
    out
}

// ---------------------------------------------------------------- documents

/// One entry of a catalog: where the file is, what its name decodes to, and
/// whether the name is normalized.
#[derive(Clone, Debug, PartialEq, Eq)]
pub struct Document {
    pub path: String,
    pub identity: OptDoc,
    pub normalized: bool,
}

/// The entry for file `name` of directory `dir`.
pub fn document_of(dir: &str, name: &str) -> (r: Document)
    ensures
        r.path@ == joined(dir@, name@),
        r.identity@ == parse_spec(stem_of(name@)),
        r.normalized == normalized_name(name@),
{
    Document {
        path: join_path(dir, name),
        identity: parse_file_name(name),
        normalized: is_normalized_name(name),
    }
}

/// The catalog of directory `dir` given the names of its regular files
/// (`None` when it does not exist): one entry per listed name, in order.
pub fn read_docs(dir: &str, listing: &Option<Vec<String>>, archives: bool) -> (r: Vec<Document>)
    ensures
        r@.len() == listed(*listing, archives).len(),
        forall|i: int|
            0 <= i < r@.len() ==> {
                let n = #[trigger] listed(*listing, archives)[i];
                &&& r@[i].path@ == joined(dir@, n)
                &&& r@[i].identity@ == parse_spec(stem_of(n))
                &&& r@[i].normalized == normalized_name(n)
            },
{
    let names = list_files(listing, archives);
    let mut out: Vec<Document> = Vec::new();
    let mut i: usize = 0;
    while i < names.len()
        invariant
            i <= names.len(),
            views(names@) == listed(*listing, archives),
            out@.len() == i,
            forall|j: int|
                0 <= j < i ==> {
                    let n = #[trigger] views(names@)[j];
                    &&& out@[j].path@ == joined(dir@, n)
                    &&& out@[j].identity@ == parse_spec(stem_of(n))
                    &&& out@[j].normalized == normalized_name(n)
                },
        decreases names.len() - i,
    {
        let d = document_of(dir, names[i].as_str());
        out.push(d);
        i += 1;
    }
    out
}

/// Which documents a listing shows.
#[derive(Clone, Copy, Debug, PartialEq, Eq, Structural)]
pub enum Filter {
    All,
    Normalized,
    Unnormalized,
}

impl Default for Filter {
    fn default() -> (r: Filter)
        ensures
            r == Filter::All,
    {
        Filter::All
    }
}

impl Filter {
    pub fn matches(&self, doc: &Document) -> (r: bool)
        ensures
            r == match *self {
                Filter::All => true,
                Filter::Normalized => doc.normalized,
                Filter::Unnormalized => !doc.normalized,
            },
    {
        match self {
            Filter::All => true,
            Filter::Normalized => doc.normalized,
            Filter::Unnormalized => !doc.normalized,
        }
    }
}

} // verus!
