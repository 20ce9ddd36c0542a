//! The ways in which assembling a book can fail.

use vstd::prelude::*;
use crate::text::{chars_of, decimal, decimal_of, push_all, push_str, push_utf8, string_of};
use crate::util::{upper_first, uppercase_first};

verus! {

/// All the ways in which assembling a book can fail.
#[derive(Debug, Clone, Hash, PartialEq, Eq)]
pub enum Error {
    /// An I/O operation on a named stream failed.
    Io {
        /// The stream the operation regards.
        desc: &'static str,
        /// The failed operation, lower-case and imperative ("create", "open").
        op: &'static str,
        /// Additional data.
        more: Option<&'static str>,
    },
    /// Something failed to parse.
    Parse {
        /// What failed to parse ("URL", "datetime").
        tp: &'static str,
        /// Where the parsed value would have gone.
        wher: &'static str,
        /// Additional data.
        more: Option<&'static str>,
    },
    /// A referenced file exists under no include directory.
    FileNotFound {
        /// What referenced the file.
        who: &'static str,
        /// The file that should exist.
        path: String,
    },
    /// A path is of the wrong kind.
    WrongFileState {
        /// What the path is not.
        what: &'static str,
        /// The path.
        path: String,
    },
    /// An exclusive or required group of book elements occurs the wrong number of times.
    WrongElementAmount {
        /// The group's name.
        element: &'static str,
        /// The observed amount.
        actual: usize,
        /// How the amount should relate to `bound`.
        relation: &'static str,
        /// The amount it should relate to.
        bound: usize,
    },
    /// A required book element is missing.
    RequiredElementMissing(&'static str),
}

/// The optional ": detail" part of a message.
pub open spec fn detail_of(more: Option<&'static str>) -> Seq<char> {
    match more {
        Some(m) => ": "@ + m@,
        None => seq![],
    }
}

/// The verb of an I/O operation without its final 'e', so that "-ing" can follow.
pub open spec fn continuous_stem(op: Seq<char>) -> Seq<char> {
    if op.len() > 0 && op.last() == 'e' {
        op.drop_last()
    } else {
        op
    }
}

/// The human-readable message of an error, newline included.
pub open spec fn message_of(e: Error) -> Seq<char> {
    match e {
        Error::Io { desc, op, more } => upper_first(continuous_stem(op@)) + "ing "@ + desc@
            + " failed"@ + detail_of(more) + ".\n"@,
        Error::Parse { tp, wher, more } => "Failed to parse "@ + tp@ + " for "@ + wher@
            + detail_of(more) + ".\n"@,
        Error::FileNotFound { who, path } => "File "@ + path@ + " for "@ + who@
            + " not found.\n"@,
        Error::WrongFileState { what, path } => "File "@ + path@ + " is not "@ + what@ + ".\n"@,
        Error::WrongElementAmount { element, actual, relation, bound } => "Wrong amount of "@
            + element@ + " elements: "@ + decimal_of(actual as nat) + ", must be "@ + relation@
            + " "@ + decimal_of(bound as nat) + ".\n"@,
        Error::RequiredElementMissing(element) => "Required element "@ + element@
            + " not specified.\n"@,
    }
}

/// The process exit value that reports an error.
pub open spec fn exit_value_of(e: Error) -> i32 {
    match e {
        Error::Io { .. } => 1,
        Error::Parse { .. } => 2,
        Error::FileNotFound { .. } => 3,
        Error::WrongFileState { .. } => 4,
        Error::WrongElementAmount { .. } => 5,
        Error::RequiredElementMissing(..) => 6,
    }
}

fn push_detail(out: &mut Vec<char>, more: Option<&'static str>)
    ensures
        final(out)@ == old(out)@ + detail_of(more),
{
    if let Some(m) = more {
        push_str(out, ": ");
        push_str(out, m);
    } else {
        assert(old(out)@ + detail_of(more) =~= old(out)@);
    }
}

impl Error {
    /// The error's message, as `print_error` writes it.
    pub fn message(&self) -> (r: String)
        ensures
            r@ == message_of(*self),
    {
        let mut out: Vec<char> = Vec::new();
        match self {
            Error::Io { desc, op, more } => {
                let opc = chars_of(op);
                let stem = if opc.len() > 0 && opc[opc.len() - 1] == 'e' {
                    crate::text::slice_of(&opc, 0, opc.len() - 1)
                } else {
                    opc
                };
                assert(stem@ == continuous_stem(op@)) by {
                    if op@.len() > 0 && op@.last() == 'e' {
                        assert(stem@ =~= op@.drop_last());
                    }
                }
                let up = uppercase_first(string_of(&stem).as_str());
                push_str(&mut out, up.as_str());
                push_str(&mut out, "ing ");
                push_str(&mut out, desc);
                push_str(&mut out, " failed");
                push_detail(&mut out, *more);
                push_str(&mut out, ".\n");
            },
            Error::Parse { tp, wher, more } => {
                push_str(&mut out, "Failed to parse ");
                push_str(&mut out, tp);
                push_str(&mut out, " for ");
                push_str(&mut out, wher);
                push_detail(&mut out, *more);
                push_str(&mut out, ".\n");
            },
            Error::FileNotFound { who, path } => {
                push_str(&mut out, "File ");
                push_str(&mut out, path.as_str());
                push_str(&mut out, " for ");
                push_str(&mut out, who);
                push_str(&mut out, " not found.\n");
            },
            Error::WrongFileState { what, path } => {
                push_str(&mut out, "File ");
                push_str(&mut out, path.as_str());
                push_str(&mut out, " is not ");
                push_str(&mut out, what);
                push_str(&mut out, ".\n");
            },
            Error::WrongElementAmount { element, actual, relation, bound } => {
                push_str(&mut out, "Wrong amount of ");
                push_str(&mut out, element);
                push_str(&mut out, " elements: ");
                push_all(&mut out, &decimal(*actual));
                push_str(&mut out, ", must be ");
                push_str(&mut out, relation);
                push_str(&mut out, " ");
                push_all(&mut out, &decimal(*bound));
                push_str(&mut out, ".\n");
            },
            Error::RequiredElementMissing(element) => {
                push_str(&mut out, "Required element ");
                push_str(&mut out, element);
                push_str(&mut out, " not specified.\n");
            },
        }
        string_of(&out)
    }

    /// Write the error message to the specified output stream.
    pub fn print_error(&self, err_out: &mut Vec<u8>)
        ensures
            final(err_out)@ == old(err_out)@ + vstd::utf8::encode_utf8(message_of(*self)),
    {
        let m = self.message();
        push_utf8(err_out, &chars_of(m.as_str()));
    }

    /// Get the executable exit value from an `Error` instance.
    pub fn exit_value(&self) -> (r: i32)
        ensures
            r == exit_value_of(*self),
            1 <= r <= 6,
    {
        match self {
            Error::Io { .. } => 1,
            Error::Parse { .. } => 2,
            Error::FileNotFound { .. } => 3,
            Error::WrongFileState { .. } => 4,
            Error::WrongElementAmount { .. } => 5,
            Error::RequiredElementMissing(..) => 6,
        }
    }
}

} // verus!
