//! The loose elements that a book is assembled from.

use vstd::prelude::*;
use crate::error::Error;
use crate::text::{chars_of, find, find_from, push_str, same_chars, slice_of, string_of, trim_chars, trimmed};
use crate::util::{parsed_url_of, WebAddress};

verus! {

/// A moment with a fixed offset from UTC, held as its RFC 3339 rendering,
/// which is all that a book reads of it.
#[derive(Clone, Debug, PartialEq, Eq, Hash)]
pub struct Timestamp {
    /// The RFC 3339 rendering, as `chrono::DateTime::to_rfc3339` writes it.
    pub rfc3339: String,
}

/// What `chrono::DateTime::parse_from_rfc3339` makes of a text, rendered back
/// with `to_rfc3339`.
pub uninterp spec fn rfc3339_of(s: Seq<char>) -> Option<Seq<char>>;

/// What `chrono::DateTime::parse_from_rfc2822` makes of a text, rendered with `to_rfc3339`.
pub uninterp spec fn rfc2822_of(s: Seq<char>) -> Option<Seq<char>>;

/// What `chrono::DateTime::parse_from_str` with the format `%s%:z` (seconds
/// since the epoch and an offset) makes of a text, rendered with `to_rfc3339`.
pub uninterp spec fn epoch_offset_of(s: Seq<char>) -> Option<Seq<char>>;

/// Relies on `chrono::DateTime::parse_from_rfc3339` and `DateTime::to_rfc3339`.
#[verifier::external_body]
fn parse_rfc3339_text(s: &str) -> (r: Option<String>)
    ensures
        match r {
            Some(d) => rfc3339_of(s@) == Some(d@),
            None => rfc3339_of(s@) is None,
        },
{
    chrono::DateTime::parse_from_rfc3339(s).ok().map(|d| d.to_rfc3339())
}

/// Relies on `chrono::DateTime::parse_from_rfc2822` and `DateTime::to_rfc3339`.
#[verifier::external_body]
fn parse_rfc2822_text(s: &str) -> (r: Option<String>)
    ensures
        match r {
            Some(d) => rfc2822_of(s@) == Some(d@),
            None => rfc2822_of(s@) is None,
        },
{
    chrono::DateTime::parse_from_rfc2822(s).ok().map(|d| d.to_rfc3339())
}

/// Relies on `chrono::DateTime::parse_from_str(s, "%s%:z")` and `DateTime::to_rfc3339`.
#[verifier::external_body]
fn parse_epoch_offset_text(s: &str) -> (r: Option<String>)
    ensures
        match r {
            Some(d) => epoch_offset_of(s@) == Some(d@),
            None => epoch_offset_of(s@) is None,
        },
{
    chrono::DateTime::parse_from_str(s, "%s%:z").ok().map(|d| d.to_rfc3339())
}

/// The RFC 3339 rendering of the moment that a date text gives: RFC 3339, or,
/// where `free` is set, also RFC 2822 or seconds since the epoch with an offset.
pub open spec fn date_of(s: Seq<char>, free: bool) -> Option<Seq<char>> {
    match rfc3339_of(s) {
        Some(d) => Some(d),
        None => if free {
            match rfc2822_of(s) {
                Some(d) => Some(d),
                None => epoch_offset_of(s),
            }
        } else {
            None
        },
    }
}

/// The error for a date that does not parse.
pub open spec fn date_error(free: bool) -> Error {
    Error::Parse {
        tp: "datetime",
        wher: "book element",
        more: Some(if free { "not RFC3339, RFC2822, nor Unix timestamp w/timezone" } else { "not RFC3339" }),
    }
}

/// The error for a URL that does not parse.
pub open spec fn url_error() -> Error {
    Error::Parse { tp: "URL", wher: "book element", more: None }
}

impl Timestamp {
    /// Parses an RFC 3339 date, such as `2017-02-08T15:30:18+01:00`.
    pub fn parse_rfc3339(s: &str) -> (r: Option<Timestamp>)
        ensures
            match rfc3339_of(s@) {
                Some(d) => r is Some && r->0.rfc3339@ == d,
                None => r is None,
            },
    {
        match parse_rfc3339_text(s) {
            Some(d) => Some(Timestamp { rfc3339: d }),
            None => None,
        }
    }

    /// A copy of this moment.
    pub fn duplicate(&self) -> (r: Timestamp)
        ensures
            r == *self,
    {
        Timestamp { rfc3339: self.rfc3339.clone() }
    }
}

/// A single loose element of a book, as a descriptor line gives it.
#[derive(Clone, Debug, PartialEq, Eq, Hash)]
pub enum BookElement {
    /// The book's title. Required, at most once.
    Name(String),
    /// A content file, in reading order.
    Content(String),
    /// Content given as a string of HTML.
    StringContent(String),
    /// An image file, wrapped in a page of its own.
    ImageContent(String),
    /// An image on the network, wrapped in a page of its own.
    NetworkImageContent(WebAddress),
    /// The cover image file. At most one of it and `NetworkCover`.
    Cover(String),
    /// The cover image on the network.
    NetworkCover(WebAddress),
    /// An auxiliary file, packed but kept out of the reading order.
    Include(String),
    /// An auxiliary resource on the network.
    NetworkInclude(WebAddress),
    /// A file holding the book's description. At most one description element.
    Description(String),
    /// The book's description as a string.
    StringDescription(String),
    /// The book's description on the network.
    NetworkDescription(WebAddress),
    /// The book's author. Required, at most once.
    Author(String),
    /// The book's date. Required, at most once.
    Date(Timestamp),
    /// The book's language. Required, at most once.
    Language(String),
}

/// The descriptor key of an element.
pub open spec fn element_name(e: BookElement) -> &'static str {
    match e {
        BookElement::Name(_) => "Name",
        BookElement::Content(_) => "Content",
        BookElement::StringContent(_) => "String-Content",
        BookElement::ImageContent(_) => "Image-Content",
        BookElement::NetworkImageContent(_) => "Network-Image-Content",
        BookElement::Cover(_) => "Cover",
        BookElement::NetworkCover(_) => "Network-Cover",
        BookElement::Include(_) => "Include",
        BookElement::NetworkInclude(_) => "Network-Include",
        BookElement::Description(_) => "Description",
        BookElement::StringDescription(_) => "String-Description",
        BookElement::NetworkDescription(_) => "Network-Description",
        BookElement::Author(_) => "Author",
        BookElement::Date(_) => "Date",
        BookElement::Language(_) => "Language",
    }
}

impl BookElement {
    /// The element's descriptor key, such as `"Network-Image-Content"`.
    pub fn name(&self) -> (r: &'static str)
        ensures
            r == element_name(*self),
    {
        match self {
            BookElement::Name(_) => "Name",
            BookElement::Content(_) => "Content",
            BookElement::StringContent(_) => "String-Content",
            BookElement::ImageContent(_) => "Image-Content",
            BookElement::NetworkImageContent(_) => "Network-Image-Content",
            BookElement::Cover(_) => "Cover",
            BookElement::NetworkCover(_) => "Network-Cover",
            BookElement::Include(_) => "Include",
            BookElement::NetworkInclude(_) => "Network-Include",
            BookElement::Description(_) => "Description",
            BookElement::StringDescription(_) => "String-Description",
            BookElement::NetworkDescription(_) => "Network-Description",
            BookElement::Author(_) => "Author",
            BookElement::Date(_) => "Date",
            BookElement::Language(_) => "Language",
        }
    }
}

impl View for BookElement {
    /// The element's key, its text (a path, a string, a URL's serialisation or
    /// a date's RFC 3339 rendering) and, for a URL, its last path segment.
    type V = (Seq<char>, Seq<char>, Seq<char>);

    open spec fn view(&self) -> (Seq<char>, Seq<char>, Seq<char>) {
        match self {
            BookElement::NetworkImageContent(u) | BookElement::NetworkCover(u)
            | BookElement::NetworkInclude(u) | BookElement::NetworkDescription(u) => (
                element_name(*self)@,
                u.text@,
                u.last_segment@,
            ),
            BookElement::Date(d) => (element_name(*self)@, d.rfc3339@, seq![]),
            BookElement::Name(s) | BookElement::Content(s) | BookElement::StringContent(s)
            | BookElement::ImageContent(s) | BookElement::Cover(s) | BookElement::Include(s)
            | BookElement::Description(s) | BookElement::StringDescription(s)
            | BookElement::Author(s) | BookElement::Language(s) => (element_name(*self)@, s@, seq![]),
        }
    }
}

/// The key and the content of a descriptor line: the trimmed parts before and
/// after the first separator. `None` for a line without a separator, or whose
/// one-byte separator ends it.
pub open spec fn line_parts(line: Seq<char>, sep: Seq<char>) -> Option<(Seq<char>, Seq<char>)> {
    let l = trimmed(line);
    let i = find_from(l, sep, 0);
    if i == -1 {
        None
    } else if i + 1 == l.len() && (l[i] as u32) < 128 {
        None
    } else {
        Some((trimmed(l.subrange(0, i)), trimmed(l.subrange(i + sep.len(), l.len() as int))))
    }
}

/// The keys whose content is taken as it stands.
pub open spec fn is_text_key(k: Seq<char>) -> bool {
    k == "Name"@ || k == "Content"@ || k == "String-Content"@ || k == "Image-Content"@
        || k == "Cover"@ || k == "Include"@ || k == "Description"@ || k == "String-Description"@
        || k == "Author"@ || k == "Language"@
}

/// The keys whose content is a URL.
pub open spec fn is_url_key(k: Seq<char>) -> bool {
    k == "Network-Image-Content"@ || k == "Network-Cover"@ || k == "Network-Include"@
        || k == "Network-Description"@
}

/// The element that a key and content give, in the form of `BookElement`'s view.
pub open spec fn keyed_element(key: Seq<char>, ctnt: Seq<char>, free: bool) -> Result<Option<(Seq<char>, Seq<char>, Seq<char>)>, Error> {
    if is_text_key(key) {
        Ok(Some((key, ctnt, seq![])))
    } else if is_url_key(key) {
        match parsed_url_of(ctnt) {
            Some((t, Some(seg))) => Ok(Some((key, t, seg))),
            _ => Err(url_error()),
        }
    } else if key == "Date"@ {
        match date_of(ctnt, free) {
            Some(d) => Ok(Some((key, d, seq![]))),
            None => Err(date_error(free)),
        }
    } else {
        Ok(None)
    }
}

/// The element that a descriptor line describes: none for a line without a
/// separator or with an unknown key.
pub open spec fn line_element(line: Seq<char>, sep: Seq<char>, free: bool) -> Result<Option<(Seq<char>, Seq<char>, Seq<char>)>, Error> {
    match line_parts(line, sep) {
        None => Ok(None),
        Some((key, ctnt)) => keyed_element(key, ctnt, free),
    }
}

/// Whether `r` is the outcome that `m` describes.
pub open spec fn element_outcome(r: Result<Option<BookElement>, Error>, m: Result<Option<(Seq<char>, Seq<char>, Seq<char>)>, Error>) -> bool {
    match m {
        Ok(Some(v)) => r is Ok && r->Ok_0 is Some && r->Ok_0->0@ == v,
        Ok(None) => r is Ok && r->Ok_0 is None,
        Err(e) => r == Err::<Option<BookElement>, Error>(e),
    }
}

fn key_is(key: &Vec<char>, lit: &str) -> (r: bool)
    ensures
        r == (key@ == lit@),
{
    same_chars(key, &chars_of(lit))
}

impl BookElement {
    /// The element as a descriptor line would give it: `Key: text`, with a
    /// URL's serialisation and a date's RFC 3339 rendering as the text.
    pub fn to_text(&self) -> (r: String)
        ensures
            r@ == self@.0 + ": "@ + self@.1,
    {
        let mut out = chars_of(self.name());
        push_str(&mut out, ": ");
        match self {
            BookElement::NetworkImageContent(u) | BookElement::NetworkCover(u)
            | BookElement::NetworkInclude(u) | BookElement::NetworkDescription(u) => {
                push_str(&mut out, u.text.as_str());
            },
            BookElement::Date(d) => {
                push_str(&mut out, d.rfc3339.as_str());
            },
            BookElement::Name(s) | BookElement::Content(s) | BookElement::StringContent(s)
            | BookElement::ImageContent(s) | BookElement::Cover(s) | BookElement::Include(s)
            | BookElement::Description(s) | BookElement::StringDescription(s)
            | BookElement::Author(s) | BookElement::Language(s) => {
                push_str(&mut out, s.as_str());
            },
        }
        string_of(&out)
    }

    fn parse_datetime(data: &str, free_date: bool) -> (r: Result<Timestamp, Error>)
        ensures
            match date_of(data@, free_date) {
                Some(d) => r is Ok && r->Ok_0.rfc3339@ == d,
                None => r == Err::<Timestamp, Error>(date_error(free_date)),
            },
    {
        match parse_rfc3339_text(data) {
            Some(d) => {
                return Ok(Timestamp { rfc3339: d });
            },
            None => {},
        }
        if free_date {
            match parse_rfc2822_text(data) {
                Some(d) => {
                    return Ok(Timestamp { rfc3339: d });
                },
                None => {},
            }
            match parse_epoch_offset_text(data) {
                Some(d) => Ok(Timestamp { rfc3339: d }),
                None => Err(Error::Parse {
                    tp: "datetime",
                    wher: "book element",
                    more: Some("not RFC3339, RFC2822, nor Unix timestamp w/timezone"),
                }),
            }
        } else {
            Err(Error::Parse { tp: "datetime", wher: "book element", more: Some("not RFC3339") })
        }
    }

    fn parse_url(data: &str) -> (r: Result<WebAddress, Error>)
        ensures
            match parsed_url_of(data@) {
                Some((t, Some(seg))) => r is Ok && r->Ok_0.text@ == t && r->Ok_0.last_segment@ == seg,
                _ => r == Err::<WebAddress, Error>(url_error()),
            },
    {
        match WebAddress::parse(data) {
            Some(u) => Ok(u),
            None => Err(Error::Parse { tp: "URL", wher: "book element", more: None }),
        }
    }

    fn from_key(key: &Vec<char>, ctnt: String, free_date: bool) -> (r: Result<Option<BookElement>, Error>)
        ensures
            element_outcome(r, keyed_element(key@, ctnt@, free_date)),
    {
        if key_is(key, "Name") {
            Ok(Some(BookElement::Name(ctnt)))
        } else if key_is(key, "Content") {
            Ok(Some(BookElement::Content(ctnt)))
        } else if key_is(key, "String-Content") {
            Ok(Some(BookElement::StringContent(ctnt)))
        } else if key_is(key, "Image-Content") {
            Ok(Some(BookElement::ImageContent(ctnt)))
        } else if key_is(key, "Cover") {
            Ok(Some(BookElement::Cover(ctnt)))
        } else if key_is(key, "Include") {
            Ok(Some(BookElement::Include(ctnt)))
        } else if key_is(key, "Description") {
            Ok(Some(BookElement::Description(ctnt)))
        } else if key_is(key, "String-Description") {
            Ok(Some(BookElement::StringDescription(ctnt)))
        } else if key_is(key, "Author") {
            Ok(Some(BookElement::Author(ctnt)))
        } else if key_is(key, "Language") {
            Ok(Some(BookElement::Language(ctnt)))
        } else if key_is(key, "Network-Image-Content") {
            match BookElement::parse_url(ctnt.as_str()) {
                Ok(u) => Ok(Some(BookElement::NetworkImageContent(u))),
                Err(e) => Err(e),
            }
        } else if key_is(key, "Network-Cover") {
            match BookElement::parse_url(ctnt.as_str()) {
                Ok(u) => Ok(Some(BookElement::NetworkCover(u))),
                Err(e) => Err(e),
            }
        } else if key_is(key, "Network-Include") {
            match BookElement::parse_url(ctnt.as_str()) {
                Ok(u) => Ok(Some(BookElement::NetworkInclude(u))),
                Err(e) => Err(e),
            }
        } else if key_is(key, "Network-Description") {
            match BookElement::parse_url(ctnt.as_str()) {
                Ok(u) => Ok(Some(BookElement::NetworkDescription(u))),
                Err(e) => Err(e),
            }
        } else if key_is(key, "Date") {
            match BookElement::parse_datetime(ctnt.as_str(), free_date) {
                Ok(d) => Ok(Some(BookElement::Date(d))),
                Err(e) => Err(e),
            }
        } else {
            Ok(None)
        }
    }

    /// Parse a descriptor line `Key<separator>Value` into the element it
    /// describes: see `line_element`. Lines without a separator and unknown
    /// keys describe nothing; a URL or a date that does not parse is an error.
    pub fn parse(line: &str, separator: &str, free_date: bool) -> (r: Result<Option<BookElement>, Error>)
        requires
            separator@.len() > 0,
        ensures
            element_outcome(r, line_element(line@, separator@, free_date)),
    {
        let l = trim_chars(&chars_of(line));
        let sep = chars_of(separator);
        let len = l.len();
        match find(&l, &sep) {
            None => Ok(None),
            Some(i) => {
                if i + 1 == len && (l[i] as u32) < 128 {
                    return Ok(None);
                }
                let key = trim_chars(&slice_of(&l, 0, i));
                let ctnt = string_of(&trim_chars(&slice_of(&l, i + sep.len(), len)));
                BookElement::from_key(&key, ctnt, free_date)
            },
        }
    }
}

} // verus!
