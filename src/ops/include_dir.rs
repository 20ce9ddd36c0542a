//! Include directories: the ordered roots against which relative paths are resolved.

use vstd::prelude::*;
use crate::error::Error;
use crate::text::{chars_of, first_index, first_index_of, lemma_first_index_bounds, push_str, replace, replace_all, slice_of, string_of};
use crate::util::{archive_filename, book_filename, slug, xhtml_path_id};

verus! {

/// `rel` joined onto `base` as `Path::join` does for `/`-separated paths:
/// an absolute `rel` replaces `base`.
pub open spec fn join_path(base: Seq<char>, rel: Seq<char>) -> Seq<char> {
    if rel.len() > 0 && rel[0] == '/' {
        rel
    } else if base.len() == 0 {
        rel
    } else if base.last() == '/' {
        base + rel
    } else {
        base + seq!['/'] + rel
    }
}

/// Joins `rel` onto `base`.
pub fn join(base: &str, rel: &str) -> (r: String)
    ensures
        r@ == join_path(base@, rel@),
{
    let b = chars_of(base);
    let rc = chars_of(rel);
    if rc.len() > 0 && rc[0] == '/' {
        return string_of(&rc);
    }
    if b.len() == 0 {
        return string_of(&rc);
    }
    let mut out = b;
    if out[out.len() - 1] != '/' {
        out.push('/');
    }
    crate::text::push_all(&mut out, &rc);
    string_of(&out)
}

/// Relies on `Path::is_file`: whether a regular file stands at `p` now.
/// What is on disk may change at any time, so nothing is promised of the answer.
#[verifier::external_body]
pub(crate) fn is_regular_file(p: &str) -> (r: bool) {
    std::path::Path::new(p).is_file()
}

/// Relies on `Path::canonicalize`: the absolute form of `p` with every link
/// resolved, where `p` exists. It depends on the disk, so nothing is promised.
#[verifier::external_body]
pub(crate) fn canonical_path(p: &str) -> (r: Option<String>) {
    std::path::Path::new(p).canonicalize().ok().map(|c| c.to_string_lossy().into_owned())
}

/// A directory that relative paths are resolved against, in textual form
/// `"path"` (unnamed) or `"name=path"` (named). `dir` holds the directory as
/// the user wrote it and as an absolute path.
#[derive(Debug, Hash, PartialEq, Eq, PartialOrd, Ord)]
pub enum IncludeDirectory {
    /// An unnamed include directory, acting transparently.
    Unnamed {
        /// Directory as written, and its path.
        dir: (String, String),
    },
    /// A named include directory, whose files are packed under its name.
    Named {
        /// The directory's name.
        name: String,
        /// Directory as written, and its path.
        dir: (String, String),
    },
}

impl IncludeDirectory {
    /// The directory's `(as written, path)` pair.
    pub open spec fn dir_of(&self) -> (String, String) {
        match self {
            IncludeDirectory::Unnamed { dir } => *dir,
            IncludeDirectory::Named { dir, .. } => *dir,
        }
    }

    /// The archive name of a file `f` found in this directory.
    pub open spec fn packed_name_of(&self, f: Seq<char>) -> Seq<char> {
        match self {
            IncludeDirectory::Unnamed { .. } => archive_filename(f),
            IncludeDirectory::Named { name, .. } => replace_all(
                join_path(name@, archive_filename(f)),
                seq!['\\'],
                seq!['/'],
            ),
        }
    }

    /// The manifest id of a file `f` found in this directory.
    pub open spec fn packed_id_of(&self, f: Seq<char>) -> Seq<char> {
        match self {
            IncludeDirectory::Unnamed { .. } => slug(f),
            IncludeDirectory::Named { name, .. } => name@ + "--"@ + slug(f),
        }
    }

    /// A copy of this directory.
    pub fn duplicate(&self) -> (r: IncludeDirectory)
        ensures
            r == *self,
    {
        match self {
            IncludeDirectory::Unnamed { dir } => IncludeDirectory::Unnamed {
                dir: (dir.0.clone(), dir.1.clone()),
            },
            IncludeDirectory::Named { name, dir } => IncludeDirectory::Named {
                name: name.clone(),
                dir: (dir.0.clone(), dir.1.clone()),
            },
        }
    }

    /// Get the name of the include directory as the user wrote it.
    pub fn directory_name(&self) -> (r: &str)
        ensures
            r@ == self.dir_of().0@,
    {
        match self {
            IncludeDirectory::Named { dir, .. } => dir.0.as_str(),
            IncludeDirectory::Unnamed { dir } => dir.0.as_str(),
        }
    }

    /// Get the packed filename for the file at `f`: `book_filename(f)`, under
    /// the directory's name for a named directory. The separator is always `/`.
    pub fn packed_name(&self, f: &str) -> (r: String)
        ensures
            r@ == self.packed_name_of(f@),
    {
        match self {
            IncludeDirectory::Named { name, .. } => {
                let joined = join(name.as_str(), book_filename(f).as_str());
                let backslash = vec!['\\'];
                let slash = vec!['/'];
                assert(backslash@ =~= seq!['\\']);
                assert(slash@ =~= seq!['/']);
                string_of(&replace(&chars_of(joined.as_str()), &backslash, &slash))
            },
            IncludeDirectory::Unnamed { .. } => book_filename(f),
        }
    }

    /// Get the (X)HTML ID of the file at `f`: `xhtml_path_id(f)`, prefixed by
    /// the directory's name and `--` for a named directory.
    pub fn packed_id(&self, f: &str) -> (r: String)
        ensures
            r@ == self.packed_id_of(f@),
    {
        match self {
            IncludeDirectory::Named { name, .. } => {
                let mut out = chars_of(name.as_str());
                push_str(&mut out, "--");
                push_str(&mut out, xhtml_path_id(f).as_str());
                string_of(&out)
            },
            IncludeDirectory::Unnamed { .. } => xhtml_path_id(f),
        }
    }

    /// Resolve the path of `relpath` in this directory, or `None` if nothing
    /// or no regular file stands there.
    pub fn resolve(&self, relpath: &str) -> (r: Option<String>)
        ensures
            r is Some ==> r->0@ == join_path(self.dir_of().1@, relpath@),
    {
        let root = match self {
            IncludeDirectory::Named { dir, .. } => dir.1.as_str(),
            IncludeDirectory::Unnamed { dir } => dir.1.as_str(),
        };
        let abspath = join(root, relpath);
        if is_regular_file(abspath.as_str()) {
            Some(abspath)
        } else {
            None
        }
    }

    /// The textual form: `name=path` or `path`, with the path as written.
    pub fn to_text(&self) -> (r: String)
        ensures
            r@ == match self {
                IncludeDirectory::Named { name, dir } => name@ + "="@ + dir.0@,
                IncludeDirectory::Unnamed { dir } => dir.0@,
            },
    {
        match self {
            IncludeDirectory::Named { name, dir } => {
                let mut out = chars_of(name.as_str());
                push_str(&mut out, "=");
                push_str(&mut out, dir.0.as_str());
                string_of(&out)
            },
            IncludeDirectory::Unnamed { dir } => dir.0.clone(),
        }
    }

    /// Splits a specifier at its first `=` into the name, if any, and the path.
    pub fn split_specifier(s: &str) -> (r: (Option<String>, String))
        ensures
            ({
                let i = first_index_of(s@, '=', 0);
                if i == -1 {
                    r.0 is None && r.1@ == s@
                } else {
                    r.0 is Some && r.0->0@ == s@.subrange(0, i) && r.1@ == s@.subrange(
                        i + 1,
                        s@.len() as int,
                    )
                }
            }),
    {
        let c = chars_of(s);
        proof { lemma_first_index_bounds(c@, '=', 0); }
        let len = c.len();
        match first_index(&c, '=') {
            Some(i) => (Some(string_of(&slice_of(&c, 0, i))), string_of(&slice_of(&c, i + 1, len))),
            None => (None, string_of(&c)),
        }
    }

    /// Builds a directory from its name, its path as written, the canonical
    /// form of that path (`None` where it could not be found) and whether a
    /// regular file stands there.
    pub fn from_canonical(name: Option<String>, written: String, canonical: Option<String>, is_file: bool) -> (r: Result<IncludeDirectory, Error>)
        ensures
            canonical is None ==> r == Err::<IncludeDirectory, Error>(Error::Parse {
                tp: "directory",
                wher: "include directory",
                more: Some("not found"),
            }),
            canonical is Some && is_file ==> r == Err::<IncludeDirectory, Error>(Error::WrongFileState {
                what: "a directory",
                path: written,
            }),
            canonical is Some && !is_file ==> r is Ok && r->Ok_0.dir_of() == (written, canonical->0)
                && match name {
                    Some(n) => r->Ok_0 == IncludeDirectory::Named { name: n, dir: (written, canonical->0) },
                    None => r->Ok_0 == IncludeDirectory::Unnamed { dir: (written, canonical->0) },
                },
    {
        match canonical {
            None => Err(Error::Parse { tp: "directory", wher: "include directory", more: Some("not found") }),
            Some(c) => {
                if is_file {
                    Err(Error::WrongFileState { what: "a directory", path: written })
                } else {
                    match name {
                        Some(n) => Ok(IncludeDirectory::Named { name: n, dir: (written, c) }),
                        None => Ok(IncludeDirectory::Unnamed { dir: (written, c) }),
                    }
                }
            },
        }
    }

    /// Parses a specifier `"[name=]path"`, where the path must be an existing directory.
    pub fn parse_specifier(s: &str) -> (r: Result<IncludeDirectory, Error>)
        ensures
            r is Ok ==> ({
                let i = first_index_of(s@, '=', 0);
                if i == -1 {
                    r->Ok_0 is Unnamed && r->Ok_0.dir_of().0@ == s@
                } else {
                    r->Ok_0 is Named && r->Ok_0->Named_name@ == s@.subrange(0, i)
                        && r->Ok_0.dir_of().0@ == s@.subrange(i + 1, s@.len() as int)
                }
            }),
            r is Err ==> r->Err_0 is Parse || r->Err_0 is WrongFileState,
    {
        let (name, written) = IncludeDirectory::split_specifier(s);
        let canonical = canonical_path(written.as_str());
        let is_file = match &canonical {
            Some(c) => is_regular_file(c.as_str()),
            None => false,
        };
        IncludeDirectory::from_canonical(name, written, canonical, is_file)
    }
}

impl Clone for IncludeDirectory {
    fn clone(&self) -> (r: IncludeDirectory)
        ensures
            r == *self,
    {
        self.duplicate()
    }
}

impl std::str::FromStr for IncludeDirectory {
    type Err = Error;

    fn from_str(s: &str) -> Result<IncludeDirectory, Error> {
        IncludeDirectory::parse_specifier(s)
    }
}

} // verus!
