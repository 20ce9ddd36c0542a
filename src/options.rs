//! The configuration of a run, and the checks on its command-line values.

use vstd::prelude::*;
use crate::ops::IncludeDirectory;
use crate::ops::include_dir::{canonical_path, is_regular_file};
use crate::text::{chars_of, last_index, last_index_of, lemma_last_index_bounds, push_str, slice_of, string_of};

verus! {

/// The configuration of a run. Every option is handed on to each function on
/// its own; nothing reads this bundle but the program around the library.
#[derive(Clone, Debug, PartialEq, Eq, Hash)]
pub struct Options {
    /// The descriptor file, as written and as a path; `None` for standard input.
    pub source_file: Option<(String, String)>,
    /// The include directories, the descriptor's own directory first.
    pub include_directories: Vec<IncludeDirectory>,
    /// The book to write, as written and as a path; `None` for standard output.
    pub output_file: Option<(String, String)>,
    /// Whether to print more information.
    pub verbose: bool,
    /// The separator between key and value in descriptor lines.
    pub separator: String,
    /// Whether dates may also be given as RFC 2822 or as a timestamp with an offset.
    pub free_date: bool,
}

/// The position of the last separator of a path written with `/` or, failing
/// that, with `\`.
pub open spec fn last_separator(s: Seq<char>) -> int {
    let a = last_index_of(s, '/', s.len() as int);
    if a != -1 {
        a
    } else {
        last_index_of(s, '\\', s.len() as int)
    }
}

impl Options {
    /// Accepts any separator but the empty one.
    pub fn separator_validator(s: String) -> (r: Result<(), String>)
        ensures
            s@.len() == 0 ==> r is Err && r->Err_0@ == "Separator empty"@,
            s@.len() != 0 ==> r is Ok,
    {
        if s.as_str().is_empty() {
            Err(string_of(&chars_of("Separator empty")))
        } else {
            Ok(())
        }
    }

    /// Accepts an include directory specifier that parses; else the message of its error.
    pub fn include_dir_validator(s: String) -> (r: Result<(), String>)
        ensures
            r is Err ==> exists|e: crate::error::Error| (e is Parse || e is WrongFileState)
                && r->Err_0@ == crate::error::message_of(e),
    {
        match IncludeDirectory::parse_specifier(s.as_str()) {
            Ok(_) => Ok(()),
            Err(e) => Err(e.message()),
        }
    }

    /// Accepts `-` (standard input) or the path of an existing regular file.
    pub fn source_file_validator(s: String) -> (r: Result<(), String>)
        ensures
            s@ == "-"@ ==> r is Ok,
            r is Err ==> r->Err_0@ == "Source file \""@ + s@ + "\" not found"@
                || r->Err_0@ == "Source file \""@ + s@ + "\" not actualy a file"@,
    {
        if crate::text::same_chars(&chars_of(s.as_str()), &chars_of("-")) {
            return Ok(());
        }
        let found = match canonical_path(s.as_str()) {
            Some(c) => Some(is_regular_file(c.as_str())),
            None => None,
        };
        match found {
            None => {
                let mut m = chars_of("Source file \"");
                push_str(&mut m, s.as_str());
                push_str(&mut m, "\" not found");
                Err(string_of(&m))
            },
            Some(true) => Ok(()),
            Some(false) => {
                let mut m = chars_of("Source file \"");
                push_str(&mut m, s.as_str());
                push_str(&mut m, "\" not actualy a file");
                Err(string_of(&m))
            },
        }
    }

    /// A file name argument: `-` stands for none.
    pub fn optional_fname_arg(s: &str) -> (r: Option<&str>)
        ensures
            s@ == "-"@ ==> r is None,
            s@ != "-"@ ==> r is Some && r->0@ == s@,
    {
        if crate::text::same_chars(&chars_of(s), &chars_of("-")) {
            None
        } else {
            Some(s)
        }
    }

    /// The include directory that a descriptor's own location gives: the
    /// directory part of its path, or the current directory for standard
    /// input and for a bare file name.
    pub fn source_root(source: Option<&str>) -> (r: IncludeDirectory)
        ensures
            r is Unnamed,
            source is Some && last_separator(source->0@) != -1 ==> r.dir_of().0@ == source->0@.subrange(
                0,
                last_separator(source->0@) + 1,
            ) && r.dir_of().1@ == source->0@.subrange(0, last_separator(source->0@)),
            !(source is Some && last_separator(source->0@) != -1) ==> r.dir_of().0@ == ""@
                && r.dir_of().1@ == "."@,
    {
        if let Some(src) = source {
            let c = chars_of(src);
            proof {
                lemma_last_index_bounds(c@, '/', c@.len() as int);
                lemma_last_index_bounds(c@, '\\', c@.len() as int);
            }
            let found = match last_index(&c, '/') {
                Some(i) => Some(i),
                None => last_index(&c, '\\'),
            };
            if let Some(i) = found {
                return IncludeDirectory::Unnamed {
                    dir: (string_of(&slice_of(&c, 0, i + 1)), string_of(&slice_of(&c, 0, i))),
                };
            }
        }
        IncludeDirectory::Unnamed {
            dir: (string_of(&chars_of("")), string_of(&chars_of("."))),
        }
    }
}

} // verus!
