//! The book model: aggregation of loose elements, resolution of its files
//! against include directories, and the text of the package documents.

use vstd::prelude::*;
use crate::error::Error;
use crate::text::{chars_of, decimal, decimal_of, push_all, push_str, string_of};
use crate::util::{archive_filename, book_filename, segment_slug, slug, xhtml_path_id, xhtml_url_id, WebAddress};
use super::element::{BookElement, Timestamp};
use super::include_dir::{join_path, IncludeDirectory};
use super::find_file;
use crate::text::push_utf8;
use vstd::utf8::encode_utf8;

verus! {

/// Where the bytes of a packed item come from.
#[derive(Clone, Debug, PartialEq, Eq, Hash)]
pub enum EPubContentType {
    /// A file, by its path.
    File(String),
    /// A resource on the network.
    Network(WebAddress),
    /// A string, wrapped in a page where it stands as a document of its own.
    Raw(String),
}

impl EPubContentType {
    /// A copy of this source.
    pub fn duplicate(&self) -> (r: EPubContentType)
        ensures
            r == *self,
    {
        match self {
            EPubContentType::File(p) => EPubContentType::File(p.clone()),
            EPubContentType::Network(u) => EPubContentType::Network(u.duplicate()),
            EPubContentType::Raw(s) => EPubContentType::Raw(s.clone()),
        }
    }
}

/// A copy of an item.
pub fn duplicate_data(d: &EPubData) -> (r: EPubData)
    ensures
        r == *d,
{
    (d.0.clone(), d.1.clone(), d.2.duplicate())
}

/// An (ID, filename, data) triple: a single item of an ePub.
pub type EPubData = (String, String, EPubContentType);

/// The mathematical form of an `EPubContentType`.
pub enum Source {
    File(Seq<char>),
    Network(WebAddress),
    Raw(Seq<char>),
}

impl View for EPubContentType {
    type V = Source;

    open spec fn view(&self) -> Source {
        match self {
            EPubContentType::File(p) => Source::File(p@),
            EPubContentType::Network(u) => Source::Network(*u),
            EPubContentType::Raw(s) => Source::Raw(s@),
        }
    }
}

/// The mathematical form of an `EPubData`: id, archive filename and source.
pub type Entry = (Seq<char>, Seq<char>, Source);

pub open spec fn entry_view(d: EPubData) -> Entry {
    (d.0@, d.1@, d.2@)
}

pub open spec fn entries_view(v: Seq<EPubData>) -> Seq<Entry> {
    v.map_values(|d: EPubData| entry_view(d))
}

pub open spec fn option_entry_view(d: Option<EPubData>) -> Option<Entry> {
    match d {
        Some(x) => Some(entry_view(x)),
        None => None,
    }
}

pub open spec fn option_source_view(d: Option<EPubContentType>) -> Option<Source> {
    match d {
        Some(x) => Some(x@),
        None => None,
    }
}

pub open spec fn option_text_view(d: Option<String>) -> Option<Seq<char>> {
    match d {
        Some(x) => Some(x@),
        None => None,
    }
}

/// What has been gathered from a prefix of the elements.
pub struct Gathered {
    pub name: Option<Seq<char>>,
    pub author: Option<Seq<char>>,
    pub date: Option<Seq<char>>,
    pub language: Option<Seq<char>>,
    pub cover: Option<Entry>,
    pub description: Option<Source>,
    pub content: Seq<Entry>,
    pub non_content: Seq<Entry>,
}

/// The mathematical form of a book, all but its UUID.
pub struct BookModel {
    pub name: Seq<char>,
    pub author: Seq<char>,
    /// The RFC 3339 rendering of the date.
    pub date: Seq<char>,
    pub language: Seq<char>,
    pub cover: Option<Entry>,
    pub description: Option<Source>,
    pub content: Seq<Entry>,
    pub non_content: Seq<Entry>,
}

/// The error for an exclusive group of elements that occurs a second time.
pub open spec fn duplicate_error(group: &'static str) -> Error {
    Error::WrongElementAmount { element: group, actual: 2, relation: "exactly", bound: 1 }
}

/// The page that shows an image with the archive filename `f`.
pub open spec fn image_page(f: Seq<char>) -> Seq<char> {
    "<center><img src=\""@ + f + "\" alt=\""@ + f + "\"></img></center>"@
}

/// `prefix`, the decimal form of `i`, and `suffix`.
pub open spec fn numbered(prefix: Seq<char>, i: nat, suffix: Seq<char>) -> Seq<char> {
    prefix + decimal_of(i) + suffix
}

/// `prefix` followed by the decimal form of `i`.
pub open spec fn numbered_id(prefix: Seq<char>, i: nat) -> Seq<char> {
    prefix + decimal_of(i)
}

pub open spec fn file_entry(p: Seq<char>) -> Entry {
    (slug(p), archive_filename(p), Source::File(p))
}

pub open spec fn no_gathering() -> Gathered {
    Gathered {
        name: None,
        author: None,
        date: None,
        language: None,
        cover: None,
        description: None,
        content: seq![],
        non_content: seq![],
    }
}

pub open spec fn description_group() -> &'static str {
    "Description, String-Description, and Network-Description"
}

pub open spec fn cover_group() -> &'static str {
    "Cover and Network-Cover"
}

/// Takes in the element `e`, the `i`-th (from zero).
pub open spec fn gather_step(g: Gathered, i: nat, e: BookElement) -> Result<Gathered, Error> {
    match e {
        BookElement::Name(n) => if g.name is Some {
            Err(duplicate_error("Name"))
        } else {
            Ok(Gathered { name: Some(n@), ..g })
        },
        BookElement::Author(a) => if g.author is Some {
            Err(duplicate_error("Author"))
        } else {
            Ok(Gathered { author: Some(a@), ..g })
        },
        BookElement::Date(d) => if g.date is Some {
            Err(duplicate_error("Date"))
        } else {
            Ok(Gathered { date: Some(d.rfc3339@), ..g })
        },
        BookElement::Language(l) => if g.language is Some {
            Err(duplicate_error("Language"))
        } else {
            Ok(Gathered { language: Some(l@), ..g })
        },
        BookElement::Content(c) => Ok(Gathered { content: g.content.push(file_entry(c@)), ..g }),
        BookElement::StringContent(c) => Ok(Gathered {
            content: g.content.push((
                numbered_id("string-content-"@, i),
                numbered("string-data-"@, i, ".html"@),
                Source::Raw(c@),
            )),
            ..g
        }),
        BookElement::ImageContent(c) => Ok(Gathered {
            non_content: g.non_content.push(file_entry(c@)),
            content: g.content.push((
                numbered_id("image-content-"@, i),
                numbered("image-data-"@, i, ".html"@),
                Source::Raw(image_page(archive_filename(c@))),
            )),
            ..g
        }),
        BookElement::NetworkImageContent(u) => Ok(Gathered {
            non_content: g.non_content.push(
                (segment_slug(u.last_segment@), u.last_segment@, Source::Network(u)),
            ),
            content: g.content.push((
                numbered_id("network-image-content-"@, i),
                numbered("network-image-data-"@, i, ".html"@),
                Source::Raw(image_page(u.last_segment@)),
            )),
            ..g
        }),
        BookElement::Cover(c) => if g.cover is Some {
            Err(duplicate_error(cover_group()))
        } else {
            Ok(Gathered {
                non_content: g.non_content.push(file_entry(c@)),
                cover: Some((
                    numbered_id("cover-content-"@, i),
                    numbered("cover-data-"@, i, ".html"@),
                    Source::Raw(image_page(archive_filename(c@))),
                )),
                ..g
            })
        },
        BookElement::NetworkCover(u) => if g.cover is Some {
            Err(duplicate_error(cover_group()))
        } else {
            Ok(Gathered {
                non_content: g.non_content.push((
                    "network-cover-"@ + segment_slug(u.last_segment@),
                    u.last_segment@,
                    Source::Network(u),
                )),
                cover: Some((
                    numbered_id("network-cover-content-"@, i),
                    numbered("network-cover-data-"@, i, ".html"@),
                    Source::Raw(image_page(u.last_segment@)),
                )),
                ..g
            })
        },
        BookElement::Include(c) => Ok(Gathered { non_content: g.non_content.push(file_entry(c@)), ..g }),
        BookElement::NetworkInclude(u) => Ok(Gathered {
            non_content: g.non_content.push(
                (segment_slug(u.last_segment@), u.last_segment@, Source::Network(u)),
            ),
            ..g
        }),
        BookElement::Description(c) => if g.description is Some {
            Err(duplicate_error(description_group()))
        } else {
            Ok(Gathered { description: Some(Source::File(c@)), ..g })
        },
        BookElement::StringDescription(c) => if g.description is Some {
            Err(duplicate_error(description_group()))
        } else {
            Ok(Gathered { description: Some(Source::Raw(c@)), ..g })
        },
        BookElement::NetworkDescription(u) => if g.description is Some {
            Err(duplicate_error(description_group()))
        } else {
            Ok(Gathered { description: Some(Source::Network(u)), ..g })
        },
    }
}

/// Takes in the elements in order, stopping at the first error.
pub open spec fn gather(elems: Seq<BookElement>) -> Result<Gathered, Error>
    decreases elems.len(),
{
    if elems.len() == 0 {
        Ok(no_gathering())
    } else {
        match gather(elems.drop_last()) {
            Err(e) => Err(e),
            Ok(g) => gather_step(g, (elems.len() - 1) as nat, elems.last()),
        }
    }
}

/// Checks that the required elements are there, in the order Name, Author, Date, Language.
pub open spec fn finish(g: Gathered) -> Result<BookModel, Error> {
    if g.name is None {
        Err(Error::RequiredElementMissing("Name"))
    } else if g.author is None {
        Err(Error::RequiredElementMissing("Author"))
    } else if g.date is None {
        Err(Error::RequiredElementMissing("Date"))
    } else if g.language is None {
        Err(Error::RequiredElementMissing("Language"))
    } else {
        Ok(BookModel {
            name: g.name->0,
            author: g.author->0,
            date: g.date->0,
            language: g.language->0,
            cover: g.cover,
            description: g.description,
            content: g.content,
            non_content: g.non_content,
        })
    }
}

/// The book that a sequence of elements makes, or the first error.
pub open spec fn aggregate(elems: Seq<BookElement>) -> Result<BookModel, Error> {
    match gather(elems) {
        Err(e) => Err(e),
        Ok(g) => finish(g),
    }
}

/// Once gathering a prefix fails, gathering any longer prefix fails alike.
pub proof fn lemma_gather_error_persists(s: Seq<BookElement>, k: int, n: int)
    requires
        0 <= k <= n <= s.len(),
        gather(s.subrange(0, k)) is Err,
    ensures
        gather(s.subrange(0, n)) == gather(s.subrange(0, k)),
    decreases n - k,
{
    if n > k {
        lemma_gather_error_persists(s, k, n - 1);
        assert(s.subrange(0, n).drop_last() =~= s.subrange(0, n - 1));
    }
}

/// Whether `c` is a lower-case hexadecimal digit.
pub open spec fn is_lower_hex(c: char) -> bool {
    ('0' <= c && c <= '9') || ('a' <= c && c <= 'f')
}

/// Whether `s` is a UUID in hyphenated form: 36 characters, lower-case
/// hexadecimal digits with dashes at positions 8, 13, 18 and 23.
pub open spec fn is_hyphenated_uuid(s: Seq<char>) -> bool {
    s.len() == 36 && forall|i: int| 0 <= i < 36 ==> if i == 8 || i == 13 || i == 18 || i == 23 {
        #[trigger] s[i] == '-'
    } else {
        is_lower_hex(s[i])
    }
}

/// Relies on `uuid::Uuid::new_v4` and the `Display` of `Uuid::hyphenated`: a
/// fresh random UUID, rendered as lower-case hexadecimal groups of 8, 4, 4, 4
/// and 12 digits joined by dashes. Nothing is promised of its value.
#[verifier::external_body]
pub(crate) fn fresh_uuid() -> (r: String)
    ensures
        is_hyphenated_uuid(r@),
{
    uuid::Uuid::new_v4().hyphenated().to_string()
}

/// The executable state of aggregation.
struct Gathering {
    name: Option<String>,
    author: Option<String>,
    date: Option<Timestamp>,
    language: Option<String>,
    cover: Option<EPubData>,
    description: Option<EPubContentType>,
    content: Vec<EPubData>,
    non_content: Vec<EPubData>,
}

impl View for Gathering {
    type V = Gathered;

    closed spec fn view(&self) -> Gathered {
        Gathered {
            name: option_text_view(self.name),
            author: option_text_view(self.author),
            date: match self.date {
                Some(d) => Some(d.rfc3339@),
                None => None,
            },
            language: option_text_view(self.language),
            cover: option_entry_view(self.cover),
            description: option_source_view(self.description),
            content: entries_view(self.content@),
            non_content: entries_view(self.non_content@),
        }
    }
}

fn numbered_text(prefix: &str, i: usize, suffix: &str) -> (r: String)
    ensures
        r@ == numbered(prefix@, i as nat, suffix@),
{
    let mut out = chars_of(prefix);
    push_all(&mut out, &decimal(i));
    push_str(&mut out, suffix);
    string_of(&out)
}

fn numbered_id_text(prefix: &str, i: usize) -> (r: String)
    ensures
        r@ == numbered_id(prefix@, i as nat),
{
    let mut out = chars_of(prefix);
    push_all(&mut out, &decimal(i));
    string_of(&out)
}

fn image_page_text(f: &str) -> (r: String)
    ensures
        r@ == image_page(f@),
{
    let mut out = chars_of("<center><img src=\"");
    push_str(&mut out, f);
    push_str(&mut out, "\" alt=\"");
    push_str(&mut out, f);
    push_str(&mut out, "\"></img></center>");
    string_of(&out)
}

fn file_data(p: &String) -> (r: EPubData)
    ensures
        entry_view(r) == file_entry(p@),
{
    (xhtml_path_id(p.as_str()), book_filename(p.as_str()), EPubContentType::File(p.clone()))
}

fn push_entry(v: &mut Vec<EPubData>, d: EPubData)
    ensures
        entries_view(final(v)@) == entries_view(old(v)@).push(entry_view(d)),
{
    v.push(d);
    assert(entries_view(v@) =~= entries_view(old(v)@).push(entry_view(d)));
}

impl EPubBook {
    /// Stores `newval` in a slot that may hold one value: an error naming the
    /// group `name` where the slot is taken already.
    pub fn handle_essential_element<T>(el: Option<T>, newval: T, name: &'static str) -> (r: Result<Option<T>, Error>)
        ensures
            el is Some ==> r == Err::<Option<T>, Error>(duplicate_error(name)),
            el is None ==> r == Ok::<Option<T>, Error>(Some(newval)),
    {
        if el.is_some() {
            Err(Error::WrongElementAmount { element: name, actual: 2, relation: "exactly", bound: 1 })
        } else {
            Ok(Some(newval))
        }
    }

    /// The value of a required slot, or an error naming the missing element.
    pub fn require_essential_element<T>(el: Option<T>, name: &'static str) -> (r: Result<T, Error>)
        ensures
            el is Some ==> r == Ok::<T, Error>(el->0),
            el is None ==> r == Err::<T, Error>(Error::RequiredElementMissing(name)),
    {
        match el {
            Some(v) => Ok(v),
            None => Err(Error::RequiredElementMissing(name)),
        }
    }
}

fn gather_one(g: &mut Gathering, i: usize, e: &BookElement) -> (r: Result<(), Error>)
    ensures
        match gather_step(old(g)@, i as nat, *e) {
            Ok(n) => r is Ok && final(g)@ == n,
            Err(err) => r == Err::<(), Error>(err),
        },
{
    match e {
        BookElement::Name(n) => {
            match EPubBook::handle_essential_element(g.name.take(), n.clone(), "Name") {
                Ok(v) => {
                    g.name = v;
                },
                Err(err) => {
                    return Err(err);
                },
            }
        },
        BookElement::Author(a) => {
            match EPubBook::handle_essential_element(g.author.take(), a.clone(), "Author") {
                Ok(v) => {
                    g.author = v;
                },
                Err(err) => {
                    return Err(err);
                },
            }
        },
        BookElement::Date(d) => {
            match EPubBook::handle_essential_element(g.date.take(), d.duplicate(), "Date") {
                Ok(v) => {
                    g.date = v;
                },
                Err(err) => {
                    return Err(err);
                },
            }
        },
        BookElement::Language(l) => {
            match EPubBook::handle_essential_element(g.language.take(), l.clone(), "Language") {
                Ok(v) => {
                    g.language = v;
                },
                Err(err) => {
                    return Err(err);
                },
            }
        },
        BookElement::Content(c) => {
            push_entry(&mut g.content, file_data(c));
        },
        BookElement::StringContent(c) => {
            push_entry(&mut g.content, (
                numbered_id_text("string-content-", i),
                numbered_text("string-data-", i, ".html"),
                EPubContentType::Raw(c.clone()),
            ));
        },
        BookElement::ImageContent(c) => {
            let d = file_data(c);
            let page = image_page_text(d.1.as_str());
            push_entry(&mut g.non_content, d);
            push_entry(&mut g.content, (
                numbered_id_text("image-content-", i),
                numbered_text("image-data-", i, ".html"),
                EPubContentType::Raw(page),
            ));
        },
        BookElement::NetworkImageContent(u) => {
            let page = image_page_text(u.last_segment.as_str());
            push_entry(&mut g.non_content, (
                xhtml_url_id(u),
                u.last_segment.clone(),
                EPubContentType::Network(u.duplicate()),
            ));
            push_entry(&mut g.content, (
                numbered_id_text("network-image-content-", i),
                numbered_text("network-image-data-", i, ".html"),
                EPubContentType::Raw(page),
            ));
        },
        BookElement::Cover(c) => {
            let d = file_data(c);
            let page = image_page_text(d.1.as_str());
            let d = match EPubBook::handle_essential_element(g.cover.take(), d, "Cover and Network-Cover") {
                Ok(v) => v,
                Err(err) => {
                    return Err(err);
                },
            };
            match d {
                Some(d) => push_entry(&mut g.non_content, d),
                None => {},
            }
            g.cover = Some((
                numbered_id_text("cover-content-", i),
                numbered_text("cover-data-", i, ".html"),
                EPubContentType::Raw(page),
            ));
        },
        BookElement::NetworkCover(u) => {
            let mut id = chars_of("network-cover-");
            push_str(&mut id, xhtml_url_id(u).as_str());
            let d = (string_of(&id), u.last_segment.clone(), EPubContentType::Network(u.duplicate()));
            let page = image_page_text(u.last_segment.as_str());
            let d = match EPubBook::handle_essential_element(g.cover.take(), d, "Cover and Network-Cover") {
                Ok(v) => v,
                Err(err) => {
                    return Err(err);
                },
            };
            match d {
                Some(d) => push_entry(&mut g.non_content, d),
                None => {},
            }
            g.cover = Some((
                numbered_id_text("network-cover-content-", i),
                numbered_text("network-cover-data-", i, ".html"),
                EPubContentType::Raw(page),
            ));
        },
        BookElement::Include(c) => {
            push_entry(&mut g.non_content, file_data(c));
        },
        BookElement::NetworkInclude(u) => {
            push_entry(&mut g.non_content, (
                xhtml_url_id(u),
                u.last_segment.clone(),
                EPubContentType::Network(u.duplicate()),
            ));
        },
        BookElement::Description(c) => {
            match EPubBook::handle_essential_element(
                g.description.take(),
                EPubContentType::File(c.clone()),
                "Description, String-Description, and Network-Description",
            ) {
                Ok(v) => {
                    g.description = v;
                },
                Err(err) => {
                    return Err(err);
                },
            }
        },
        BookElement::StringDescription(c) => {
            match EPubBook::handle_essential_element(
                g.description.take(),
                EPubContentType::Raw(c.clone()),
                "Description, String-Description, and Network-Description",
            ) {
                Ok(v) => {
                    g.description = v;
                },
                Err(err) => {
                    return Err(err);
                },
            }
        },
        BookElement::NetworkDescription(u) => {
            match EPubBook::handle_essential_element(
                g.description.take(),
                EPubContentType::Network(u.duplicate()),
                "Description, String-Description, and Network-Description",
            ) {
                Ok(v) => {
                    g.description = v;
                },
                Err(err) => {
                    return Err(err);
                },
            }
        },
    }
    Ok(())
}

/// A full ePub book, bundled together.
#[derive(Clone, Debug, PartialEq, Eq, Hash)]
pub struct EPubBook {
    /// The book's title.
    pub name: String,
    /// The book's author.
    pub author: String,
    /// The book's authoring or publishing date.
    pub date: Timestamp,
    /// The language of the book.
    pub language: String,
    /// The page that shows the cover image, if any.
    pub cover: Option<EPubData>,
    /// The description of the book, if any.
    pub description: Option<EPubContentType>,
    /// The documents of the reading order, in order.
    pub content: Vec<EPubData>,
    /// Packed items kept out of the reading order.
    pub non_content: Vec<EPubData>,
    /// The book's UUID, hyphenated.
    pub uuid: String,
}

impl View for EPubBook {
    type V = BookModel;

    open spec fn view(&self) -> BookModel {
        BookModel {
            name: self.name@,
            author: self.author@,
            date: self.date.rfc3339@,
            language: self.language@,
            cover: option_entry_view(self.cover),
            description: option_source_view(self.description),
            content: entries_view(self.content@),
            non_content: entries_view(self.non_content@),
        }
    }
}

impl EPubBook {
    /// Construct a book from loose elements, in order: see `aggregate`. The
    /// book gets a fresh random UUID.
    pub fn from_elements(elems: Vec<BookElement>) -> (r: Result<EPubBook, Error>)
        ensures
            match aggregate(elems@) {
                Ok(m) => r is Ok && r->Ok_0@ == m,
                Err(e) => r == Err::<EPubBook, Error>(e),
            },
            r is Ok ==> is_hyphenated_uuid(r->Ok_0.uuid@),
    {
        let mut g = Gathering {
            name: None,
            author: None,
            date: None,
            language: None,
            cover: None,
            description: None,
            content: Vec::new(),
            non_content: Vec::new(),
        };
        assert(g@.content =~= seq![]);
        assert(g@.non_content =~= seq![]);
        assert(elems@.subrange(0, 0) =~= seq![]);
        let mut i: usize = 0;
        while i < elems.len()
            invariant
                i <= elems@.len(),
                gather(elems@.subrange(0, i as int)) == Ok::<Gathered, Error>(g@),
            decreases elems@.len() - i,
        {
            assert(elems@.subrange(0, i + 1).drop_last() =~= elems@.subrange(0, i as int));
            let step = gather_one(&mut g, i, &elems[i]);
            if let Err(e) = step {
                proof { lemma_gather_error_persists(elems@, i + 1, elems@.len() as int); }
                assert(elems@.subrange(0, elems@.len() as int) =~= elems@);
                return Err(e);
            }
            i = i + 1;
        }
        assert(elems@.subrange(0, elems@.len() as int) =~= elems@);
        let name = EPubBook::require_essential_element(g.name, "Name")?;
        let author = EPubBook::require_essential_element(g.author, "Author")?;
        let date = EPubBook::require_essential_element(g.date, "Date")?;
        let language = EPubBook::require_essential_element(g.language, "Language")?;
        Ok(EPubBook {
            name,
            author,
            date,
            language,
            cover: g.cover,
            description: g.description,
            content: g.content,
            non_content: g.non_content,
            uuid: fresh_uuid(),
        })
    }
}

/// The file at `p`, found under `root`: its id, archive filename and absolute path.
pub open spec fn resolved_entry(root: IncludeDirectory, p: Seq<char>) -> Entry {
    (root.packed_id_of(p), root.packed_name_of(p), Source::File(join_path(root.dir_of().1@, p)))
}

/// The line that the verbose log holds for the file at `p` found in the
/// directory written `dir_name`.
pub open spec fn log_line(p: Seq<char>, dir_name: Seq<char>, who: &'static str) -> Seq<u8> {
    encode_utf8("Normalised "@ + p + " to "@ + dir_name + p + " for "@ + who@ + ".\n"@)
}

/// `new` is `old` with its file, if any, resolved under `roots[i]`.
pub open spec fn entry_under(roots: Seq<IncludeDirectory>, old: Entry, new: Entry, i: int) -> bool {
    match old.2 {
        Source::File(p) => 0 <= i < roots.len() && new == resolved_entry(roots[i], p),
        _ => new == old,
    }
}

/// The log of resolving `old` under `roots[i]`: a line for a file, nothing otherwise.
pub open spec fn entry_log(roots: Seq<IncludeDirectory>, old: Entry, i: int, who: &'static str) -> Seq<u8> {
    match old.2 {
        Source::File(p) => log_line(p, roots[i].dir_of().0@, who),
        _ => seq![],
    }
}

/// `news` is `olds` with the file of the `k`-th item resolved under `roots[idx[k]]`.
pub open spec fn entries_under(roots: Seq<IncludeDirectory>, olds: Seq<Entry>, news: Seq<Entry>, idx: Seq<int>) -> bool {
    olds.len() == news.len() && idx.len() == olds.len()
        && forall|k: int| 0 <= k < olds.len() ==> entry_under(roots, #[trigger] olds[k], news[k], idx[k])
}

/// The log of resolving each of `olds` under `roots[idx[k]]`, in order.
pub open spec fn entries_log(roots: Seq<IncludeDirectory>, olds: Seq<Entry>, idx: Seq<int>, who: &'static str) -> Seq<u8>
    decreases olds.len(),
{
    if olds.len() == 0 {
        seq![]
    } else {
        entries_log(roots, olds.drop_last(), idx.drop_last(), who) + entry_log(roots, olds.last(), idx.last(), who)
    }
}

/// Whether one of `es` is held in a file.
pub open spec fn holds_file(es: Seq<Entry>) -> bool {
    exists|k: int| 0 <= k < es.len() && (#[trigger] es[k]).2 is File
}

/// Whether `e` reports that the file of one of `es` was not found, for `who`.
pub open spec fn reports_missing(es: Seq<Entry>, who: &'static str, e: Error) -> bool {
    exists|k: int| 0 <= k < es.len() && (#[trigger] es[k]).2 is File && e is FileNotFound
        && e->FileNotFound_who == who && e->FileNotFound_path@ == es[k].2->File_0
}

/// Whether a book holds any file: its cover page, description, content or other items.
pub open spec fn book_holds_file(m: BookModel) -> bool {
    (m.cover is Some && (m.cover->0).2 is File) || (m.description is Some && m.description->0 is File)
        || holds_file(m.content) || holds_file(m.non_content)
}

/// Whether `e` reports that one of the book's files was not found, naming its role and path.
pub open spec fn reports_missing_file(m: BookModel, e: Error) -> bool {
    (m.cover is Some && reports_missing(seq![m.cover->0], "Cover", e))
        || (match m.description {
            Some(Source::File(p)) => e is FileNotFound && e->FileNotFound_who == "Description"
                && e->FileNotFound_path@ == p,
            _ => false,
        })
        || reports_missing(m.content, "Content, Image or Include", e)
        || reports_missing(m.non_content, "Content, Image or Include", e)
}

/// `new` is the book `old` with the cover's file resolved under `roots[ci]`, a
/// file description under `roots[di]`, and the content and other items under
/// the directories that `cidx` and `nidx` pick.
pub open spec fn book_under(roots: Seq<IncludeDirectory>, old: BookModel, new: BookModel, ci: int, di: int, cidx: Seq<int>, nidx: Seq<int>) -> bool {
    &&& new.name == old.name && new.author == old.author && new.date == old.date && new.language == old.language
    &&& match old.cover {
        Some(c) => new.cover is Some && entry_under(roots, c, new.cover->0, ci),
        None => new.cover is None,
    }
    &&& match old.description {
        Some(Source::File(p)) => 0 <= di < roots.len() && new.description == Some(Source::File(join_path(roots[di].dir_of().1@, p))),
        _ => new.description == old.description,
    }
    &&& entries_under(roots, old.content, new.content, cidx)
    &&& entries_under(roots, old.non_content, new.non_content, nidx)
}

/// The log of resolving the book's files, in the order cover, description, content, other items.
pub open spec fn book_log(roots: Seq<IncludeDirectory>, old: BookModel, ci: int, di: int, cidx: Seq<int>, nidx: Seq<int>) -> Seq<u8> {
    (match old.cover {
        Some(c) => entry_log(roots, c, ci, "Cover"),
        None => seq![],
    }) + (match old.description {
        Some(Source::File(p)) => log_line(p, roots[di].dir_of().0@, "Description"),
        _ => seq![],
    }) + entries_log(roots, old.content, cidx, "Content, Image or Include")
        + entries_log(roots, old.non_content, nidx, "Content, Image or Include")
}

/// Finds the include directory for the file at `file` and its absolute path,
/// writing a line to `verb_out` where `verbose` is set.
pub fn normalise_path<'a>(relroots: &'a [IncludeDirectory], file: &String, who: &'static str, verbose: bool, verb_out: &mut Vec<u8>) -> (r: Result<(&'a IncludeDirectory, String), Error>)
    ensures
        r is Ok ==> exists|i: int| 0 <= i < relroots@.len() && *r->Ok_0.0 == relroots@[i]
            && r->Ok_0.1@ == join_path(relroots@[i].dir_of().1@, file@),
        r is Ok && verbose ==> final(verb_out)@ == old(verb_out)@ + log_line(file@, r->Ok_0.0.dir_of().0@, who),
        r is Err ==> r->Err_0 == (Error::FileNotFound { who, path: *file }),
        r is Err || !verbose ==> final(verb_out)@ == old(verb_out)@,
{
    match find_file(file.as_str(), relroots) {
        Some(root) => match root.resolve(file.as_str()) {
            Some(abs) => {
                if verbose {
                    let mut line = chars_of("Normalised ");
                    push_str(&mut line, file.as_str());
                    push_str(&mut line, " to ");
                    push_str(&mut line, root.directory_name());
                    push_str(&mut line, file.as_str());
                    push_str(&mut line, " for ");
                    push_str(&mut line, who);
                    push_str(&mut line, ".\n");
                    push_utf8(verb_out, &line);
                }
                Ok((root, abs))
            },
            None => Err(Error::FileNotFound { who, path: file.clone() }),
        },
        None => Err(Error::FileNotFound { who, path: file.clone() }),
    }
}

fn normalise_entry(relroots: &[IncludeDirectory], d: &EPubData, who: &'static str, verbose: bool, verb_out: &mut Vec<u8>) -> (r: (Result<EPubData, Error>, Ghost<int>))
    ensures
        r.0 is Ok ==> entry_under(relroots@, entry_view(*d), entry_view(r.0->Ok_0), r.1@),
        r.0 is Ok && verbose ==> final(verb_out)@ == old(verb_out)@ + entry_log(relroots@, entry_view(*d), r.1@, who),
        r.0 is Err ==> d.2 is File && r.0->Err_0 == (Error::FileNotFound { who, path: d.2->File_0 }),
        !(d.2 is File) ==> r.0 == Ok::<EPubData, Error>(*d),
        r.0 is Err || !verbose || !(d.2 is File) ==> final(verb_out)@ == old(verb_out)@,
{
    match &d.2 {
        EPubContentType::File(p) => {
            match normalise_path(relroots, p, who, verbose, verb_out) {
                Ok((root, abs)) => {
                    let ghost i = choose|i: int| 0 <= i < relroots@.len() && *root == relroots@[i]
                        && abs@ == join_path(relroots@[i].dir_of().1@, p@);
                    let n = (root.packed_id(p.as_str()), root.packed_name(p.as_str()), EPubContentType::File(abs));
                    (Ok(n), Ghost(i))
                },
                Err(e) => (Err(e), Ghost(0)),
            }
        },
        _ => {
            let n = duplicate_data(d);
            assert(entry_log(relroots@, entry_view(*d), 0, who) =~= Seq::<u8>::empty());
            assert(old(verb_out)@ + Seq::<u8>::empty() =~= old(verb_out)@);
            (Ok(n), Ghost(0))
        },
    }
}

fn normalise_all(relroots: &[IncludeDirectory], v: &Vec<EPubData>, who: &'static str, verbose: bool, verb_out: &mut Vec<u8>) -> (r: (Result<Vec<EPubData>, Error>, Ghost<Seq<int>>))
    ensures
        r.0 is Ok ==> entries_under(relroots@, entries_view(v@), entries_view(r.0->Ok_0@), r.1@),
        r.0 is Ok && verbose ==> final(verb_out)@ == old(verb_out)@ + entries_log(relroots@, entries_view(v@), r.1@, who),
        r.0 is Err ==> reports_missing(entries_view(v@), who, r.0->Err_0),
        !holds_file(entries_view(v@)) ==> r.0 is Ok && entries_view(r.0->Ok_0@) == entries_view(v@),
        !verbose || !holds_file(entries_view(v@)) ==> final(verb_out)@ == old(verb_out)@,
{
    let ghost olds = entries_view(v@);
    let mut out: Vec<EPubData> = Vec::new();
    let ghost mut idx: Seq<int> = seq![];
    let mut i: usize = 0;
    assert(olds.subrange(0, 0) =~= Seq::<Entry>::empty());
    while i < v.len()
        invariant
            i <= v@.len(),
            olds == entries_view(v@),
            out@.len() == i,
            idx.len() == i,
            entries_under(relroots@, olds.subrange(0, i as int), entries_view(out@), idx),
            verbose ==> verb_out@ == old(verb_out)@ + entries_log(relroots@, olds.subrange(0, i as int), idx, who),
            !holds_file(olds) ==> entries_view(out@) == olds.subrange(0, i as int),
            !verbose || !holds_file(olds) ==> verb_out@ == old(verb_out)@,
        decreases v@.len() - i,
    {
        let ghost before_out = entries_view(out@);
        let ghost before_log = verb_out@;
        let (res, j) = normalise_entry(relroots, &v[i], who, verbose, verb_out);
        match res {
            Ok(d) => {
                out.push(d);
                proof {
                    let sub = olds.subrange(0, i + 1);
                    let nidx = idx.push(j@);
                    assert(entries_view(out@) =~= before_out.push(entry_view(d)));
                    assert(sub.drop_last() =~= olds.subrange(0, i as int));
                    assert(nidx.drop_last() =~= idx);
                    assert(sub.last() == olds[i as int]);
                    assert(olds[i as int] == entry_view(v@[i as int]));
                    assert(entries_under(relroots@, sub, entries_view(out@), nidx)) by {
                        assert forall|k: int| 0 <= k < sub.len() implies entry_under(relroots@, #[trigger] sub[k], entries_view(out@)[k], nidx[k]) by {
                            if k < i {
                                assert(sub[k] == olds.subrange(0, i as int)[k]);
                            }
                        }
                    }
                    if !holds_file(olds) {
                        assert(!(olds[i as int].2 is File));
                        assert(entries_view(out@) =~= olds.subrange(0, i + 1));
                    }
                    idx = nidx;
                }
            },
            Err(e) => {
                assert(olds[i as int] == entry_view(v@[i as int]));
                assert(reports_missing(olds, who, e)) by {
                    assert(olds[i as int].2 is File);
                }
                return (Err(e), Ghost(idx));
            },
        }
        i = i + 1;
    }
    assert(olds.subrange(0, i as int) =~= olds);
    (Ok(out), Ghost(idx))
}

impl EPubBook {
    /// Resolve every file of the book against the include directories, in
    /// order: the cover, the description, the content and then the other
    /// items. Each file takes the id, archive filename and absolute path that
    /// its include directory gives it, and where `verbose` is set a line
    /// `Normalised p to <directory>p for <role>.` goes to `verb_out`. The
    /// first file that no directory holds fails with `FileNotFound`, naming
    /// its role and path; the book is then left as it was.
    pub fn normalise_paths(&mut self, relroot: &[IncludeDirectory], verbose: bool, verb_out: &mut Vec<u8>) -> (r: Result<(), Error>)
        ensures
            final(self).name == old(self).name,
            final(self).author == old(self).author,
            final(self).date == old(self).date,
            final(self).language == old(self).language,
            final(self).uuid == old(self).uuid,
            r is Ok ==> exists|ci: int, di: int, cidx: Seq<int>, nidx: Seq<int>|
                #[trigger] book_under(relroot@, old(self)@, final(self)@, ci, di, cidx, nidx)
                && (verbose ==> final(verb_out)@ == old(verb_out)@ + book_log(relroot@, old(self)@, ci, di, cidx, nidx)),
            r is Err ==> *final(self) == *old(self) && reports_missing_file(old(self)@, r->Err_0),
            !book_holds_file(old(self)@) ==> r is Ok && final(self)@ == old(self)@,
            !verbose || !book_holds_file(old(self)@) ==> final(verb_out)@ == old(verb_out)@,
    {
        let ghost old_log = verb_out@;
        let ghost m = self@;
        let ghost mut ci: int = 0;
        let ghost mut di: int = 0;
        let cover = match &self.cover {
            Some(d) => match normalise_entry(relroot, d, "Cover", verbose, verb_out) {
                (Ok(n), i) => {
                    proof {
                        ci = i@;
                    }
                    Some(n)
                },
                (Err(e), _) => {
                    assert(reports_missing(seq![m.cover->0], "Cover", e)) by {
                        assert(seq![m.cover->0][0] == m.cover->0);
                    }
                    return Err(e);
                },
            },
            None => None,
        };
        let description = match &self.description {
            Some(EPubContentType::File(p)) => match normalise_path(relroot, p, "Description", verbose, verb_out) {
                Ok((root, abs)) => {
                    proof {
                        di = choose|i: int| 0 <= i < relroot@.len() && *root == relroot@[i]
                            && abs@ == join_path(relroot@[i].dir_of().1@, p@);
                    }
                    Some(EPubContentType::File(abs))
                },
                Err(e) => {
                    return Err(e);
                },
            },
            Some(other) => Some(other.duplicate()),
            None => None,
        };
        let (content, cidx) = match normalise_all(relroot, &self.content, "Content, Image or Include", verbose, verb_out) {
            (Ok(v), idx) => (v, idx),
            (Err(e), _) => {
                return Err(e);
            },
        };
        let (non_content, nidx) = match normalise_all(relroot, &self.non_content, "Content, Image or Include", verbose, verb_out) {
            (Ok(v), idx) => (v, idx),
            (Err(e), _) => {
                return Err(e);
            },
        };
        self.cover = cover;
        self.description = description;
        self.content = content;
        self.non_content = non_content;
        proof {
            assert(book_under(relroot@, m, self@, ci, di, cidx@, nidx@));
            if verbose {
                assert(verb_out@ =~= old_log + book_log(relroot@, m, ci, di, cidx@, nidx@));
            }
            if !book_holds_file(m) {
                assert(self@.content =~= m.content);
                assert(self@.non_content =~= m.non_content);
                assert(self@ == m);
            }
        }
        Ok(())
    }
}

} // verus!
