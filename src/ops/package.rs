//! The generated documents of the package: the content table (`content.opf`),
//! the table of contents (`toc.ncx`), and which items carry payload.

use vstd::prelude::*;
use crate::text::{chars_of, decimal, decimal_of, push_all, push_str, push_utf8, same_chars, string_of};
use vstd::utf8::encode_utf8;
use super::book::{
    duplicate_data, entries_view, entry_view, option_text_view, BookModel, EPubBook,
    EPubContentType, EPubData, Entry, Source,
};
use super::{find_title, strings_view, title_of};
use super::book::{fresh_uuid, is_hyphenated_uuid};
use crate::error::Error;
use crate::util::{wrapped_page, write_string_content};

verus! {

/// What `mime_guess` guesses as the media type of a file name, by its extension.
pub uninterp spec fn mime_of(fname: Seq<char>) -> Option<Seq<char>>;

/// Relies on `mime_guess::from_path(..).first()`: the first media type that
/// the extension of `fname` is known by, if any. The guess depends on the name alone.
#[verifier::external_body]
fn guess_mime(fname: &str) -> (r: Option<String>)
    ensures
        match r {
            Some(m) => mime_of(fname@) == Some(m@),
            None => mime_of(fname@) is None,
        },
{
    mime_guess::from_path(fname).first().map(|m| m.to_string())
}

/// The media type written for a file name: the guess, with `text/html`
/// replaced by `application/xhtml+xml`, and `text/plain` where nothing is known.
pub open spec fn media_type(fname: Seq<char>) -> Seq<char> {
    match mime_of(fname) {
        None => "text/plain"@,
        Some(m) => if m == "text/html"@ {
            "application/xhtml+xml"@
        } else {
            m
        },
    }
}

/// The media type of the file name `fname`: see `media_type`.
pub fn guess_type(fname: &str) -> (r: String)
    ensures
        r@ == media_type(fname@),
{
    match guess_mime(fname) {
        None => string_of(&chars_of("text/plain")),
        Some(m) => {
            let html = chars_of("text/html");
            if same_chars(&chars_of(m.as_str()), &html) {
                string_of(&chars_of("application/xhtml+xml"))
            } else {
                m
            }
        },
    }
}

/// The key that an item is told apart by: its id (0) or its archive filename (1).
pub open spec fn key_of(e: Entry, key: int) -> Seq<char> {
    if key == 0 {
        e.0
    } else {
        e.1
    }
}

/// The items of `es` whose key is neither in `seen` nor on an earlier item, in order.
pub open spec fn dedup_by(es: Seq<Entry>, key: int, seen: Seq<Seq<char>>) -> Seq<Entry>
    decreases es.len(),
{
    if es.len() == 0 {
        seq![]
    } else if seen.contains(key_of(es[0], key)) {
        dedup_by(es.drop_first(), key, seen)
    } else {
        seq![es[0]] + dedup_by(es.drop_first(), key, seen.push(key_of(es[0], key)))
    }
}

/// Every item of a book, in order: the cover, the content, the rest.
pub open spec fn all_entries(m: BookModel) -> Seq<Entry> {
    match m.cover {
        Some(c) => seq![c] + m.content + m.non_content,
        None => m.content + m.non_content,
    }
}

fn all_data(book: &EPubBook) -> (r: Vec<EPubData>)
    ensures
        entries_view(r@) == all_entries(book@),
{
    let mut r: Vec<EPubData> = Vec::new();
    match &book.cover {
        Some(c) => r.push(duplicate_data(c)),
        None => {},
    }
    let ghost start = entries_view(r@);
    let mut i: usize = 0;
    while i < book.content.len()
        invariant
            i <= book.content@.len(),
            entries_view(r@) == start + entries_view(book.content@).subrange(0, i as int),
        decreases book.content@.len() - i,
    {
        let ghost before_r = entries_view(r@);
        r.push(duplicate_data(&book.content[i]));
        assert(entries_view(r@) =~= before_r.push(entry_view(book.content@[i as int])));
        i = i + 1;
        assert(entries_view(book.content@).subrange(0, i as int) =~= entries_view(book.content@).subrange(
            0,
            i - 1,
        ).push(entry_view(book.content@[i - 1])));
        assert(entries_view(r@) =~= start + entries_view(book.content@).subrange(0, i as int));
    }
    let ghost mid = entries_view(r@);
    let mut j: usize = 0;
    while j < book.non_content.len()
        invariant
            j <= book.non_content@.len(),
            entries_view(r@) == mid + entries_view(book.non_content@).subrange(0, j as int),
        decreases book.non_content@.len() - j,
    {
        let ghost before_r = entries_view(r@);
        r.push(duplicate_data(&book.non_content[j]));
        assert(entries_view(r@) =~= before_r.push(entry_view(book.non_content@[j as int])));
        j = j + 1;
        assert(entries_view(book.non_content@).subrange(0, j as int) =~= entries_view(book.non_content@).subrange(
            0,
            j - 1,
        ).push(entry_view(book.non_content@[j - 1])));
        assert(entries_view(r@) =~= mid + entries_view(book.non_content@).subrange(0, j as int));
    }
    assert(entries_view(book.content@).subrange(0, i as int) =~= entries_view(book.content@));
    assert(entries_view(book.non_content@).subrange(0, j as int) =~= entries_view(book.non_content@));
    assert(entries_view(r@) =~= all_entries(book@));
    r
}

fn spine_data(book: &EPubBook) -> (r: Vec<EPubData>)
    ensures
        entries_view(r@) == spine_candidates(book@),
{
    let mut r: Vec<EPubData> = Vec::new();
    match &book.cover {
        Some(c) => r.push(duplicate_data(c)),
        None => {},
    }
    let ghost start = entries_view(r@);
    let mut i: usize = 0;
    while i < book.content.len()
        invariant
            i <= book.content@.len(),
            entries_view(r@) == start + entries_view(book.content@).subrange(0, i as int),
        decreases book.content@.len() - i,
    {
        let ghost before_r = entries_view(r@);
        r.push(duplicate_data(&book.content[i]));
        assert(entries_view(r@) =~= before_r.push(entry_view(book.content@[i as int])));
        i = i + 1;
        assert(entries_view(book.content@).subrange(0, i as int) =~= entries_view(book.content@).subrange(
            0,
            i - 1,
        ).push(entry_view(book.content@[i - 1])));
        assert(entries_view(r@) =~= start + entries_view(book.content@).subrange(0, i as int));
    }
    assert(entries_view(book.content@).subrange(0, i as int) =~= entries_view(book.content@));
    assert(entries_view(r@) =~= spine_candidates(book@));
    r
}

fn seen_contains(seen: &Vec<Vec<char>>, x: &Vec<char>) -> (r: bool)
    ensures
        r == seen@.map_values(|v: Vec<char>| v@).contains(x@),
{
    let ghost sv = seen@.map_values(|v: Vec<char>| v@);
    let mut i: usize = 0;
    while i < seen.len()
        invariant
            i <= seen@.len(),
            sv == seen@.map_values(|v: Vec<char>| v@),
            forall|k: int| 0 <= k < i ==> sv[k] != x@,
        decreases seen@.len() - i,
    {
        if same_chars(&seen[i], x) {
            assert(sv[i as int] == x@);
            return true;
        }
        i = i + 1;
    }
    false
}

/// The items of `v` with a key seen on no earlier item: see `dedup_by`.
fn dedup_data(v: &Vec<EPubData>, key: usize) -> (r: Vec<EPubData>)
    requires
        key <= 1,
    ensures
        entries_view(r@) == dedup_by(entries_view(v@), key as int, seq![]),
{
    let ghost es = entries_view(v@);
    let mut r: Vec<EPubData> = Vec::new();
    let mut seen: Vec<Vec<char>> = Vec::new();
    let mut i: usize = 0;
    assert(es.subrange(0, es.len() as int) =~= es);
    assert(seen@.map_values(|v: Vec<char>| v@) =~= Seq::<Seq<char>>::empty());
    while i < v.len()
        invariant
            i <= v@.len(),
            key <= 1,
            es == entries_view(v@),
            entries_view(r@) + dedup_by(es.subrange(i as int, es.len() as int), key as int, seen@.map_values(|v: Vec<char>| v@))
                == dedup_by(es, key as int, seq![]),
        decreases v@.len() - i,
    {
        let ghost rest = es.subrange(i as int, es.len() as int);
        assert(rest.drop_first() =~= es.subrange(i + 1, es.len() as int));
        assert(rest[0] == entry_view(v@[i as int]));
        let k: Vec<char> = if key == 0 {
            chars_of(v[i].0.as_str())
        } else {
            chars_of(v[i].1.as_str())
        };
        assert(k@ == key_of(rest[0], key as int));
        let ghost before = seen@.map_values(|v: Vec<char>| v@);
        if !seen_contains(&seen, &k) {
            let ghost before_r = entries_view(r@);
            seen.push(k);
            assert(seen@.map_values(|v: Vec<char>| v@) =~= before.push(key_of(rest[0], key as int)));
            r.push(duplicate_data(&v[i]));
            assert(entries_view(r@) =~= before_r.push(rest[0]));
            let ghost tail = dedup_by(rest.drop_first(), key as int, before.push(key_of(rest[0], key as int)));
            assert(before_r + (seq![rest[0]] + tail) =~= before_r.push(rest[0]) + tail);
        }
        i = i + 1;
    }
    assert(es.subrange(i as int, es.len() as int) =~= Seq::<Entry>::empty());
    assert(entries_view(r@) + Seq::<Entry>::empty() =~= entries_view(r@));
    r
}

/// The opening of the content table, up to the metadata.
pub open spec fn content_table_header() -> Seq<char> {
    "<?xml version=\"1.0\" encoding=\"UTF-8\"?>\n<package xmlns=\"http://www.idpf.org/2007/opf\" unique-identifier=\"uuid\" version=\"2.0\">\n  <metadata xmlns:dc=\"http://purl.org/dc/elements/1.1/\" xmlns:opf=\"http://www.idpf.org/2007/opf\">\n"@
}

/// The line that points the metadata at the cover, if any.
pub open spec fn cover_meta(c: Option<Entry>) -> Seq<char> {
    match c {
        Some(e) => "    <meta name=\"cover\" content=\""@ + e.0 + "\" />\n"@,
        None => seq![],
    }
}

/// The metadata of the content table before the description.
pub open spec fn metadata_text(m: BookModel, uuid: Seq<char>) -> Seq<char> {
    content_table_header() + "    <dc:title>"@ + m.name + "</dc:title>\n"@
        + "    <dc:creator opf:role=\"aut\">"@ + m.author + "</dc:creator>\n"@
        + "    <dc:identifier id=\"uuid\" opf:scheme=\"uuid\">"@ + uuid + "</dc:identifier>\n"@
        + "    <dc:date>"@ + m.date + "</dc:date>\n"@
        + "    <dc:language>"@ + m.language + "</dc:language>\n"@ + cover_meta(m.cover)
}

/// The description element: a string description is written with a line
/// break after it; a file or network description as the bytes `fetched`.
pub open spec fn description_bytes(d: Option<Source>, fetched: Seq<u8>) -> Seq<u8> {
    match d {
        None => seq![],
        Some(s) => encode_utf8("    <dc:description>\n"@) + match s {
            Source::Raw(text) => encode_utf8(text + "\n"@),
            _ => fetched,
        } + encode_utf8("    </dc:description>\n"@),
    }
}

/// One line of the manifest (kind 0) or of the spine (kind 1).
pub open spec fn entry_line(e: Entry, kind: int) -> Seq<char> {
    if kind == 0 {
        "    <item href=\""@ + e.1 + "\" id=\""@ + e.0 + "\" media-type=\""@ + media_type(e.1)
            + "\" />\n"@
    } else {
        "    <itemref idref=\""@ + e.0 + "\" />\n"@
    }
}

/// The lines of `es`, in order.
pub open spec fn entry_lines(es: Seq<Entry>, kind: int) -> Seq<char>
    decreases es.len(),
{
    if es.len() == 0 {
        seq![]
    } else {
        entry_lines(es.drop_last(), kind) + entry_line(es.last(), kind)
    }
}

/// The guide's reference to the cover, if any.
pub open spec fn guide_cover(c: Option<Entry>) -> Seq<char> {
    match c {
        Some(e) => "    <reference xmlns=\"http://www.idpf.org/2007/opf\" href=\""@ + e.1 + "\" title=\""@
            + e.0 + "\" type=\"cover\" />\n"@,
        None => seq![],
    }
}

/// The items that may stand in the reading order: the cover page, then the content.
pub open spec fn spine_candidates(m: BookModel) -> Seq<Entry> {
    match m.cover {
        Some(c) => seq![c] + m.content,
        None => m.content,
    }
}

/// The items of the spine: the cover page and the content, in order, the first of each id.
pub open spec fn spine_entries(m: BookModel) -> Seq<Entry> {
    dedup_by(spine_candidates(m), 0, seq![])
}

/// The items of the manifest: every item of the book, the first of each id.
pub open spec fn manifest_entries(m: BookModel) -> Seq<Entry> {
    dedup_by(all_entries(m), 0, seq![])
}

/// The items whose payload is written: every item, the first of each archive filename.
pub open spec fn payload_entries(m: BookModel) -> Seq<Entry> {
    dedup_by(all_entries(m), 1, seq![])
}

/// The content table after the description: manifest, spine and guide.
pub open spec fn manifest_text(m: BookModel) -> Seq<char> {
    "  </metadata>\n  <manifest>\n    <item href=\"toc.ncx\" id=\"toc\" media-type=\"application/x-dtbncx+xml\"/>\n"@
        + entry_lines(manifest_entries(m), 0) + "  </manifest>\n  <spine toc=\"toc\">\n"@
        + entry_lines(spine_entries(m), 1) + "  </spine>\n  <guide>\n"@ + guide_cover(m.cover)
        + "    <reference href=\"toc.ncx\" title=\"Table of Contents\" type=\"toc\" />\n  </guide>\n</package>\n"@
}

/// The bytes of `content.opf`.
pub open spec fn content_table_bytes(m: BookModel, uuid: Seq<char>, fetched: Seq<u8>) -> Seq<u8> {
    encode_utf8(metadata_text(m, uuid)) + description_bytes(m.description, fetched) + encode_utf8(
        manifest_text(m),
    )
}

/// One entry of the table of contents.
pub struct NavPoint {
    pub id: Seq<char>,
    pub order: nat,
    pub title: Seq<char>,
    pub src: Seq<char>,
}

/// The entries of the table of contents for the first `n` content items,
/// where `titles[k]` is the title found for item `k` and `ids[k]` the id of its entry.
pub open spec fn nav_points(content: Seq<Entry>, titles: Seq<Option<Seq<char>>>, ids: Seq<Seq<char>>, n: int) -> Seq<NavPoint>
    decreases n,
{
    if n <= 0 {
        seq![]
    } else {
        let prev = nav_points(content, titles, ids, n - 1);
        match titles[n - 1] {
            Some(t) => prev.push(NavPoint { id: ids[n - 1], order: prev.len() + 1, title: t, src: content[n - 1].1 }),
            None => prev,
        }
    }
}

pub open spec fn nav_point_text(p: NavPoint) -> Seq<char> {
    "    <navPoint id=\""@ + p.id + "\" playOrder=\""@ + decimal_of(p.order) + "\">\n      <navLabel>\n        <text>"@
        + p.title + "</text>\n      </navLabel>\n      <content src=\""@ + p.src + "\"/>\n    </navPoint>\n"@
}

pub open spec fn nav_points_text(ps: Seq<NavPoint>) -> Seq<char>
    decreases ps.len(),
{
    if ps.len() == 0 {
        seq![]
    } else {
        nav_points_text(ps.drop_last()) + nav_point_text(ps.last())
    }
}

/// The text of `toc.ncx`.
pub open spec fn toc_text(m: BookModel, uuid: Seq<char>, titles: Seq<Option<Seq<char>>>, ids: Seq<Seq<char>>) -> Seq<char> {
    "<?xml version='1.0' encoding='utf-8'?>\n<ncx xmlns=\"http://www.daisy.org/z3986/2005/ncx/\" version=\"2005-1\" xml:lang=\""@
        + m.language + "\">\n  <head>\n    <meta content=\""@ + uuid
        + "\" name=\"dtb:uid\"/>\n    <meta content=\"2\" name=\"dtb:depth\"/>\n  </head>\n  <docTitle>\n    <text>"@
        + m.name + "</text>\n  </docTitle>\n  <navMap>\n"@
        + nav_points_text(nav_points(m.content, titles, ids, m.content.len() as int))
        + "  </navMap>\n</ncx>\n"@
}

pub open spec fn titles_view(titles: Seq<Option<String>>) -> Seq<Option<Seq<char>>> {
    titles.map_values(|t: Option<String>| match t {
        Some(s) => Some(s@),
        None => None,
    })
}

pub open spec fn texts_view(v: Seq<String>) -> Seq<Seq<char>> {
    v.map_values(|s: String| s@)
}

fn push_entry_lines(out: &mut Vec<char>, v: &Vec<EPubData>, kind: usize)
    requires
        kind <= 1,
    ensures
        final(out)@ == old(out)@ + entry_lines(entries_view(v@), kind as int),
{
    let ghost es = entries_view(v@);
    let mut i: usize = 0;
    assert(es.subrange(0, 0) =~= Seq::<Entry>::empty());
    while i < v.len()
        invariant
            i <= v@.len(),
            kind <= 1,
            es == entries_view(v@),
            out@ == old(out)@ + entry_lines(es.subrange(0, i as int), kind as int),
        decreases v@.len() - i,
    {
        let ghost before = out@;
        let d = &v[i];
        if kind == 0 {
            push_str(out, "    <item href=\"");
            push_str(out, d.1.as_str());
            push_str(out, "\" id=\"");
            push_str(out, d.0.as_str());
            push_str(out, "\" media-type=\"");
            push_str(out, guess_type(d.1.as_str()).as_str());
            push_str(out, "\" />\n");
        } else {
            push_str(out, "    <itemref idref=\"");
            push_str(out, d.0.as_str());
            push_str(out, "\" />\n");
        }
        assert(out@ =~= before + entry_line(es[i as int], kind as int));
        assert(es.subrange(0, i + 1).drop_last() =~= es.subrange(0, i as int));
        i = i + 1;
    }
    assert(es.subrange(0, i as int) =~= es);
}

impl EPubBook {
    /// The bytes of `content.opf`: metadata, manifest, spine and guide. A
    /// description held in a file or on the network is written as
    /// `description_payload`, the bytes fetched for it.
    pub fn content_table(&self, description_payload: &Vec<u8>) -> (r: Vec<u8>)
        ensures
            r@ == content_table_bytes(self@, self.uuid@, description_payload@),
    {
        let mut head: Vec<char> = chars_of("<?xml version=\"1.0\" encoding=\"UTF-8\"?>\n<package xmlns=\"http://www.idpf.org/2007/opf\" unique-identifier=\"uuid\" version=\"2.0\">\n  <metadata xmlns:dc=\"http://purl.org/dc/elements/1.1/\" xmlns:opf=\"http://www.idpf.org/2007/opf\">\n");
        push_str(&mut head, "    <dc:title>");
        push_str(&mut head, self.name.as_str());
        push_str(&mut head, "</dc:title>\n");
        push_str(&mut head, "    <dc:creator opf:role=\"aut\">");
        push_str(&mut head, self.author.as_str());
        push_str(&mut head, "</dc:creator>\n");
        push_str(&mut head, "    <dc:identifier id=\"uuid\" opf:scheme=\"uuid\">");
        push_str(&mut head, self.uuid.as_str());
        push_str(&mut head, "</dc:identifier>\n");
        push_str(&mut head, "    <dc:date>");
        push_str(&mut head, self.date.rfc3339.as_str());
        push_str(&mut head, "</dc:date>\n");
        push_str(&mut head, "    <dc:language>");
        push_str(&mut head, self.language.as_str());
        push_str(&mut head, "</dc:language>\n");
        let ghost plain = head@;
        match &self.cover {
            Some(c) => {
                push_str(&mut head, "    <meta name=\"cover\" content=\"");
                push_str(&mut head, c.0.as_str());
                push_str(&mut head, "\" />\n");
            },
            None => {},
        }
        assert(head@ =~= metadata_text(self@, self.uuid@));
        let mut r: Vec<u8> = Vec::new();
        push_utf8(&mut r, &head);
        let ghost after_head = r@;
        match &self.description {
            Some(d) => {
                push_utf8(&mut r, &chars_of("    <dc:description>\n"));
                match d {
                    EPubContentType::Raw(s) => {
                        let mut text = chars_of(s.as_str());
                        push_str(&mut text, "\n");
                        push_utf8(&mut r, &text);
                    },
                    _ => {
                        let mut i: usize = 0;
                        let ghost before = r@;
                        while i < description_payload.len()
                            invariant
                                i <= description_payload@.len(),
                                r@ == before + description_payload@.subrange(0, i as int),
                            decreases description_payload@.len() - i,
                        {
                            r.push(description_payload[i]);
                            i = i + 1;
                            assert(r@ =~= before + description_payload@.subrange(0, i as int));
                        }
                        assert(description_payload@.subrange(0, i as int) =~= description_payload@);
                    },
                }
                push_utf8(&mut r, &chars_of("    </dc:description>\n"));
            },
            None => {},
        }
        assert(r@ =~= after_head + description_bytes(self@.description, description_payload@));
        let ghost after_description = r@;
        let mut tail: Vec<char> = chars_of("  </metadata>\n  <manifest>\n    <item href=\"toc.ncx\" id=\"toc\" media-type=\"application/x-dtbncx+xml\"/>\n");
        let manifest = dedup_data(&all_data(self), 0);
        push_entry_lines(&mut tail, &manifest, 0);
        push_str(&mut tail, "  </manifest>\n  <spine toc=\"toc\">\n");
        let spine = dedup_data(&spine_data(self), 0);
        push_entry_lines(&mut tail, &spine, 1);
        push_str(&mut tail, "  </spine>\n  <guide>\n");
        match &self.cover {
            Some(c) => {
                push_str(&mut tail, "    <reference xmlns=\"http://www.idpf.org/2007/opf\" href=\"");
                push_str(&mut tail, c.1.as_str());
                push_str(&mut tail, "\" title=\"");
                push_str(&mut tail, c.0.as_str());
                push_str(&mut tail, "\" type=\"cover\" />\n");
            },
            None => {},
        }
        push_str(&mut tail, "    <reference href=\"toc.ncx\" title=\"Table of Contents\" type=\"toc\" />\n  </guide>\n</package>\n");
        assert(tail@ =~= manifest_text(self@));
        push_utf8(&mut r, &tail);
        r
    }

    /// The items whose payload goes into the archive: every item, cover first,
    /// then the content and the rest, keeping the first of each archive filename.
    pub fn payload_items(&self) -> (r: Vec<EPubData>)
        ensures
            entries_view(r@) == payload_entries(self@),
    {
        dedup_data(&all_data(self), 1)
    }

    /// The text of `toc.ncx`, where `titles[k]` is the title found for the
    /// `k`-th content item; each entry gets a fresh random id.
    pub fn table_of_contents(&self, titles: &Vec<Option<String>>) -> (r: String)
        requires
            titles@.len() == self.content@.len(),
        ensures
            exists|ids: Seq<Seq<char>>| ids.len() == self.content@.len()
                && (forall|i: int| 0 <= i < ids.len() ==> is_hyphenated_uuid(#[trigger] ids[i]))
                && r@ == toc_text(self@, self.uuid@, titles_view(titles@), ids),
    {
        let mut ids: Vec<String> = Vec::new();
        let mut k: usize = 0;
        while k < self.content.len()
            invariant
                k <= self.content@.len(),
                ids@.len() == k,
                forall|i: int| 0 <= i < k ==> is_hyphenated_uuid(#[trigger] ids@[i]@),
            decreases self.content@.len() - k,
        {
            ids.push(fresh_uuid());
            k = k + 1;
        }
        let r = self.table_of_contents_with(titles, &ids);
        assert(forall|i: int| 0 <= i < texts_view(ids@).len() ==> is_hyphenated_uuid(#[trigger] texts_view(ids@)[i]));
        r
    }

    /// The text of `toc.ncx`, where `titles[k]` is the title found for the
    /// `k`-th content item and `nav_ids[k]` the id of its entry.
    pub fn table_of_contents_with(&self, titles: &Vec<Option<String>>, nav_ids: &Vec<String>) -> (r: String)
        requires
            titles@.len() == self.content@.len(),
            nav_ids@.len() == self.content@.len(),
        ensures
            r@ == toc_text(self@, self.uuid@, titles_view(titles@), texts_view(nav_ids@)),
    {
        let ghost content = self@.content;
        let ghost tv = titles_view(titles@);
        let ghost iv = texts_view(nav_ids@);
        let mut out: Vec<char> = chars_of("<?xml version='1.0' encoding='utf-8'?>\n<ncx xmlns=\"http://www.daisy.org/z3986/2005/ncx/\" version=\"2005-1\" xml:lang=\"");
        push_str(&mut out, self.language.as_str());
        push_str(&mut out, "\">\n  <head>\n    <meta content=\"");
        push_str(&mut out, self.uuid.as_str());
        push_str(&mut out, "\" name=\"dtb:uid\"/>\n    <meta content=\"2\" name=\"dtb:depth\"/>\n  </head>\n  <docTitle>\n    <text>");
        push_str(&mut out, self.name.as_str());
        push_str(&mut out, "</text>\n  </docTitle>\n  <navMap>\n");
        let ghost head = out@;
        let mut count: usize = 0;
        let mut k: usize = 0;
        while k < self.content.len()
            invariant
                k <= self.content@.len(),
                titles@.len() == self.content@.len(),
                nav_ids@.len() == self.content@.len(),
                content == self@.content,
                tv == titles_view(titles@),
                iv == texts_view(nav_ids@),
                count == nav_points(content, tv, iv, k as int).len(),
                count <= k,
                out@ == head + nav_points_text(nav_points(content, tv, iv, k as int)),
            decreases self.content@.len() - k,
        {
            let ghost prev = nav_points(content, tv, iv, k as int);
            match &titles[k] {
                Some(t) => {
                    count = count + 1;
                    let ghost p = NavPoint { id: iv[k as int], order: count as nat, title: t@, src: content[k as int].1 };
                    push_str(&mut out, "    <navPoint id=\"");
                    push_str(&mut out, nav_ids[k].as_str());
                    push_str(&mut out, "\" playOrder=\"");
                    push_all(&mut out, &decimal(count));
                    push_str(&mut out, "\">\n      <navLabel>\n        <text>");
                    push_str(&mut out, t.as_str());
                    push_str(&mut out, "</text>\n      </navLabel>\n      <content src=\"");
                    push_str(&mut out, self.content[k].1.as_str());
                    push_str(&mut out, "\"/>\n    </navPoint>\n");
                    assert(tv[k as int] == Some(t@));
                    assert(nav_points(content, tv, iv, k + 1) == prev.push(p));
                    assert(prev.push(p).drop_last() =~= prev);
                    assert(out@ =~= head + nav_points_text(prev.push(p)));
                },
                None => {
                    assert(tv[k as int] is None);
                },
            }
            k = k + 1;
        }
        push_str(&mut out, "  </navMap>\n</ncx>\n");
        string_of(&out)
    }
}

/// The title of a content item with source `s`, where `file_text` is the text
/// of its file: see `content_title`.
pub open spec fn title_for(s: Source, file_text: Seq<char>, string_toc: bool) -> Option<Seq<char>> {
    match s {
        Source::File(_) => title_of(file_text),
        Source::Raw(text) => if string_toc {
            title_of(text)
        } else {
            None
        },
        Source::Network(_) => None,
    }
}

/// The titles of the content items, `texts[k]` being the text of the `k`-th one's file.
pub open spec fn content_titles(content: Seq<Entry>, texts: Seq<Seq<char>>, string_toc: bool) -> Seq<Option<Seq<char>>> {
    Seq::new(content.len(), |k: int| title_for(content[k].2, texts[k], string_toc))
}

/// The title that the table of contents shows for a content item, given the
/// text of its file where it has one: the first title marker of a file, or
/// of a string where `string_toc` is set; none for anything else.
pub fn content_title(source: &EPubContentType, file_text: &str, string_toc: bool) -> (r: Option<String>)
    ensures
        option_text_view(r) == title_for(source@, file_text@, string_toc),
{
    match source {
        EPubContentType::File(_) => find_title(file_text),
        EPubContentType::Raw(s) => if string_toc { find_title(s.as_str()) } else { None },
        EPubContentType::Network(_) => None,
    }
}

/// How many of the first `n` content items have a title.
pub open spec fn titled_count(titles: Seq<Option<Seq<char>>>, n: int) -> nat
    decreases n,
{
    if n <= 0 {
        0
    } else {
        titled_count(titles, n - 1) + if titles[n - 1] is Some {
            1nat
        } else {
            0nat
        }
    }
}

/// The table of contents holds exactly one entry for each content item with a
/// title, in order, and none for the others; the play orders count 1, 2, 3, ...
pub proof fn lemma_nav_points_numbered(content: Seq<Entry>, titles: Seq<Option<Seq<char>>>, ids: Seq<Seq<char>>, n: int)
    requires
        0 <= n <= titles.len(),
        n <= content.len(),
        n <= ids.len(),
    ensures
        nav_points(content, titles, ids, n).len() == titled_count(titles, n),
        forall|j: int| 0 <= j < nav_points(content, titles, ids, n).len()
            ==> (#[trigger] nav_points(content, titles, ids, n)[j]).order == j + 1,
        forall|k: int| 0 <= k < n && (#[trigger] titles[k]) is Some
            ==> nav_points(content, titles, ids, n)[titled_count(titles, k) as int] == (NavPoint {
                id: ids[k],
                order: titled_count(titles, k) + 1,
                title: titles[k]->0,
                src: content[k].1,
            }),
    decreases n,
{
    if n > 0 {
        lemma_nav_points_numbered(content, titles, ids, n - 1);
        let prev = nav_points(content, titles, ids, n - 1);
        let cur = nav_points(content, titles, ids, n);
        assert forall|k: int| 0 <= k < n && (#[trigger] titles[k]) is Some implies cur[titled_count(titles, k) as int] == (NavPoint {
            id: ids[k],
            order: titled_count(titles, k) + 1,
            title: titles[k]->0,
            src: content[k].1,
        }) by {
            if k < n - 1 {
                lemma_titled_count_grows(titles, k, n - 1);
                assert(cur[titled_count(titles, k) as int] == prev[titled_count(titles, k) as int]);
            }
        }
    }
}

proof fn lemma_titled_count_grows(titles: Seq<Option<Seq<char>>>, k: int, m: int)
    requires
        0 <= k < m <= titles.len(),
    ensures
        titled_count(titles, k) + (if titles[k] is Some { 1int } else { 0int }) <= titled_count(titles, m),
    decreases m - k,
{
    if m > k + 1 {
        lemma_titled_count_grows(titles, k, m - 1);
    }
}

/// Distinct keys of `dedup_by`: none in `seen`, no two alike.
proof fn lemma_dedup_distinct(es: Seq<Entry>, key: int, seen: Seq<Seq<char>>)
    ensures
        forall|j: int| 0 <= j < dedup_by(es, key, seen).len()
            ==> !seen.contains(key_of(#[trigger] dedup_by(es, key, seen)[j], key)),
        forall|a: int, b: int| 0 <= a < b < dedup_by(es, key, seen).len()
            ==> key_of(#[trigger] dedup_by(es, key, seen)[a], key) != key_of(#[trigger] dedup_by(es, key, seen)[b], key),
    decreases es.len(),
{
    if es.len() > 0 {
        let rest = es.drop_first();
        if seen.contains(key_of(es[0], key)) {
            lemma_dedup_distinct(rest, key, seen);
            assert(dedup_by(es, key, seen) == dedup_by(rest, key, seen));
        } else {
            let s2 = seen.push(key_of(es[0], key));
            lemma_dedup_distinct(rest, key, s2);
            let d = dedup_by(es, key, seen);
            let t = dedup_by(rest, key, s2);
            assert(d == seq![es[0]] + t);
            assert forall|j: int| 0 <= j < d.len() implies !seen.contains(key_of(#[trigger] d[j], key)) by {
                if j > 0 {
                    assert(d[j] == t[j - 1]);
                    assert(!s2.contains(key_of(t[j - 1], key)));
                    if seen.contains(key_of(t[j - 1], key)) {
                        let w = choose|w: int| 0 <= w < seen.len() && seen[w] == key_of(t[j - 1], key);
                        assert(s2[w] == seen[w]);
                    }
                }
            }
            assert forall|a: int, b: int| 0 <= a < b < d.len() implies key_of(#[trigger] d[a], key) != key_of(#[trigger] d[b], key) by {
                assert(d[b] == t[b - 1]);
                if a == 0 {
                    assert(s2[seen.len() as int] == key_of(es[0], key));
                    assert(!s2.contains(key_of(t[b - 1], key)));
                } else {
                    assert(d[a] == t[a - 1]);
                }
            }
        }
    }
}

/// Every item of `es` whose key is not in `seen` has its key among the items of `dedup_by`.
proof fn lemma_dedup_covers(es: Seq<Entry>, key: int, seen: Seq<Seq<char>>, i: int)
    requires
        0 <= i < es.len(),
        !seen.contains(key_of(es[i], key)),
    ensures
        exists|j: int| 0 <= j < dedup_by(es, key, seen).len()
            && key_of(#[trigger] dedup_by(es, key, seen)[j], key) == key_of(es[i], key),
    decreases es.len(),
{
    let rest = es.drop_first();
    let d = dedup_by(es, key, seen);
    if seen.contains(key_of(es[0], key)) {
        assert(i != 0);
        assert(rest[i - 1] == es[i]);
        lemma_dedup_covers(rest, key, seen, i - 1);
    } else {
        let s2 = seen.push(key_of(es[0], key));
        let t = dedup_by(rest, key, s2);
        assert(d == seq![es[0]] + t);
        if key_of(es[i], key) == key_of(es[0], key) {
            assert(key_of(d[0], key) == key_of(es[i], key));
        } else {
            assert(i != 0);
            assert(rest[i - 1] == es[i]);
            if s2.contains(key_of(es[i], key)) {
                let w = choose|w: int| 0 <= w < s2.len() && s2[w] == key_of(es[i], key);
                if w < seen.len() {
                    assert(seen[w] == s2[w]);
                }
            }
            lemma_dedup_covers(rest, key, s2, i - 1);
            let j = choose|j: int| 0 <= j < t.len() && key_of(#[trigger] t[j], key) == key_of(es[i], key);
            assert(d[j + 1] == t[j]);
        }
    }
}

/// Every content item's archive filename is written exactly once among the payloads.
pub proof fn lemma_content_written_once(m: BookModel, k: int)
    requires
        0 <= k < m.content.len(),
    ensures
        exists|j: int| 0 <= j < payload_entries(m).len() && (#[trigger] payload_entries(m)[j]).1 == m.content[k].1,
        forall|a: int, b: int| 0 <= a < payload_entries(m).len() && 0 <= b < payload_entries(m).len()
            && (#[trigger] payload_entries(m)[a]).1 == m.content[k].1 && (#[trigger] payload_entries(m)[b]).1 == m.content[k].1
            ==> a == b,
{
    let all = all_entries(m);
    let idx = match m.cover {
        Some(_) => k + 1,
        None => k,
    };
    assert(all[idx] == m.content[k]);
    let empty = Seq::<Seq<char>>::empty();
    assert(!empty.contains(key_of(all[idx], 1)));
    lemma_dedup_covers(all, 1, empty, idx);
    lemma_dedup_distinct(all, 1, empty);
    let p = payload_entries(m);
    assert forall|a: int, b: int| 0 <= a < p.len() && 0 <= b < p.len()
        && (#[trigger] p[a]).1 == m.content[k].1 && (#[trigger] p[b]).1 == m.content[k].1 implies a == b by {
        if a < b {
            assert(key_of(p[a], 1) != key_of(p[b], 1));
        } else if b < a {
            assert(key_of(p[b], 1) != key_of(p[a], 1));
        }
    }
}

/// Every content item's id appears exactly once in the spine, also where
/// several items share an id; the cover page, where there is one, leads it.
pub proof fn lemma_content_in_spine_once(m: BookModel, k: int)
    requires
        0 <= k < m.content.len(),
    ensures
        exists|j: int| 0 <= j < spine_entries(m).len() && (#[trigger] spine_entries(m)[j]).0 == m.content[k].0,
        forall|a: int, b: int| 0 <= a < spine_entries(m).len() && 0 <= b < spine_entries(m).len()
            && (#[trigger] spine_entries(m)[a]).0 == m.content[k].0 && (#[trigger] spine_entries(m)[b]).0 == m.content[k].0
            ==> a == b,
        m.cover is Some ==> spine_entries(m).len() > 0 && spine_entries(m)[0] == m.cover->0,
{
    let all = spine_candidates(m);
    let idx = match m.cover {
        Some(_) => k + 1,
        None => k,
    };
    assert(all[idx] == m.content[k]);
    let empty = Seq::<Seq<char>>::empty();
    assert(!empty.contains(key_of(all[idx], 0)));
    lemma_dedup_covers(all, 0, empty, idx);
    lemma_dedup_distinct(all, 0, empty);
    let p = spine_entries(m);
    assert forall|a: int, b: int| 0 <= a < p.len() && 0 <= b < p.len()
        && (#[trigger] p[a]).0 == m.content[k].0 && (#[trigger] p[b]).0 == m.content[k].0 implies a == b by {
        if a < b {
            assert(key_of(p[a], 0) != key_of(p[b], 0));
        } else if b < a {
            assert(key_of(p[b], 0) != key_of(p[a], 0));
        }
    }
    if m.cover is Some {
        assert(!empty.contains(key_of(all[0], 0)));
        assert(p == seq![all[0]] + dedup_by(all.drop_first(), 0, empty.push(key_of(all[0], 0))));
    }
}

/// The ZIP archive that `zip::ZipWriter` writes of these members, in order,
/// each with default options and a fixed modification time; `None` where it fails.
pub uninterp spec fn zip_of(members: Seq<(Seq<char>, Seq<u8>)>) -> Option<Seq<u8>>;

pub open spec fn members_view(members: Seq<(String, Vec<u8>)>) -> Seq<(Seq<char>, Seq<u8>)> {
    members.map_values(|m: (String, Vec<u8>)| (m.0@, m.1@))
}

/// Relies on `zip::ZipWriter` over an in-memory cursor: `start_file` and
/// `write_all` for each member, then `finish`.
#[verifier::external_body]
fn zip_members(members: &Vec<(String, Vec<u8>)>) -> (r: Option<Vec<u8>>)
    ensures
        match r {
            Some(b) => zip_of(members_view(members@)) == Some(b@),
            None => zip_of(members_view(members@)) is None,
        },
{
    let mut w = zip::ZipWriter::new(std::io::Cursor::new(Vec::new()));
    let options = zip::write::SimpleFileOptions::default().last_modified_time(zip::DateTime::default());
    for (name, bytes) in members {
        w.start_file(name.as_str(), options).ok()?;
        std::io::Write::write_all(&mut w, bytes).ok()?;
    }
    w.finish().ok().map(|c| c.into_inner())
}

/// The container file, which points at the content table.
pub open spec fn container_text() -> Seq<char> {
    "<?xml version=\"1.0\"?>\n<container version=\"1.0\" xmlns=\"urn:oasis:names:tc:opendocument:xmlns:container\">\n  <rootfiles>\n    <rootfile full-path=\"content.opf\" media-type=\"application/oebps-package+xml\"/>\n  </rootfiles>\n</container>\n"@
}

/// The bytes written for an item: a string wrapped in a page, else the bytes fetched for it.
pub open spec fn payload_bytes(e: Entry, fetched: Seq<u8>) -> Seq<u8> {
    match e.2 {
        Source::Raw(s) => encode_utf8(wrapped_page(s)),
        _ => fetched,
    }
}

/// The archive members for the payload items `ps`, `fetched[k]` being the bytes fetched for `ps[k]`.
pub open spec fn payload_members(ps: Seq<Entry>, fetched: Seq<Seq<u8>>) -> Seq<(Seq<char>, Seq<u8>)> {
    Seq::new(ps.len(), |k: int| (ps[k].1, payload_bytes(ps[k], fetched[k])))
}

/// The members of the archive, in order: `mimetype`, the container, the
/// content table, the table of contents `toc`, and then the payloads.
pub open spec fn archive_members(m: BookModel, uuid: Seq<char>, description: Seq<u8>, toc: Seq<char>, fetched: Seq<Seq<u8>>) -> Seq<(Seq<char>, Seq<u8>)> {
    seq![
        ("mimetype"@, encode_utf8("application/epub+zip"@)),
        ("META-INF/container.xml"@, encode_utf8(container_text())),
        ("content.opf"@, content_table_bytes(m, uuid, description)),
        ("toc.ncx"@, encode_utf8(toc)),
    ] + payload_members(payload_entries(m), fetched)
}

/// What writing the archive gives: the ZIP of its members, or the error for a failed write.
pub open spec fn archive_outcome(members: Seq<(Seq<char>, Seq<u8>)>) -> Result<Seq<u8>, Error> {
    match zip_of(members) {
        Some(b) => Ok(b),
        None => Err(Error::Io { desc: "ePub", op: "write", more: Some("archive") }),
    }
}

pub open spec fn bytes_view(v: Seq<Vec<u8>>) -> Seq<Seq<u8>> {
    v.map_values(|b: Vec<u8>| b@)
}

pub open spec fn result_view(r: Result<Vec<u8>, Error>) -> Result<Seq<u8>, Error> {
    match r {
        Ok(b) => Ok(b@),
        Err(e) => Err(e),
    }
}

/// The archive that writing a book gives, for the entry ids `ids` of its table
/// of contents: see `write_zip_ext`.
pub open spec fn book_archive(m: BookModel, uuid: Seq<char>, string_toc: bool, texts: Seq<Seq<char>>, description: Seq<u8>, fetched: Seq<Seq<u8>>, ids: Seq<Seq<char>>) -> Result<Seq<u8>, Error> {
    archive_outcome(archive_members(m, uuid, description, toc_text(m, uuid, content_titles(m.content, texts, string_toc), ids), fetched))
}

fn utf8_of(s: &str) -> (r: Vec<u8>)
    ensures
        r@ == encode_utf8(s@),
{
    let mut r: Vec<u8> = Vec::new();
    push_utf8(&mut r, &chars_of(s));
    assert(r@ =~= encode_utf8(s@));
    r
}

fn copy_bytes(b: &Vec<u8>) -> (r: Vec<u8>)
    ensures
        r@ == b@,
{
    let mut r: Vec<u8> = Vec::new();
    let mut i: usize = 0;
    while i < b.len()
        invariant
            i <= b@.len(),
            r@ == b@.subrange(0, i as int),
        decreases b@.len() - i,
    {
        r.push(b[i]);
        i = i + 1;
        assert(r@ =~= b@.subrange(0, i as int));
    }
    r
}

impl EPubBook {
    /// The members of the archive, given the text of the table of contents,
    /// the bytes fetched for a file or network description, and the bytes
    /// fetched for each payload item (`fetched[k]` for the `k`-th of
    /// `payload_items`; those of strings are not read).
    pub fn archive_members(&self, toc: &String, description_payload: &Vec<u8>, fetched: &Vec<Vec<u8>>) -> (r: Vec<(String, Vec<u8>)>)
        requires
            fetched@.len() == payload_entries(self@).len(),
        ensures
            members_view(r@) == archive_members(self@, self.uuid@, description_payload@, toc@, bytes_view(fetched@)),
    {
        let ghost fv = bytes_view(fetched@);
        let mut r: Vec<(String, Vec<u8>)> = Vec::new();
        r.push((string_of(&chars_of("mimetype")), utf8_of("application/epub+zip")));
        r.push((string_of(&chars_of("META-INF/container.xml")), utf8_of("<?xml version=\"1.0\"?>\n<container version=\"1.0\" xmlns=\"urn:oasis:names:tc:opendocument:xmlns:container\">\n  <rootfiles>\n    <rootfile full-path=\"content.opf\" media-type=\"application/oebps-package+xml\"/>\n  </rootfiles>\n</container>\n")));
        r.push((string_of(&chars_of("content.opf")), self.content_table(description_payload)));
        r.push((string_of(&chars_of("toc.ncx")), utf8_of(toc.as_str())));
        let ghost head = members_view(r@);
        assert(head =~= archive_members(self@, self.uuid@, description_payload@, toc@, fv).subrange(0, 4));
        let items = self.payload_items();
        let ghost ps = payload_entries(self@);
        let mut k: usize = 0;
        while k < items.len()
            invariant
                k <= items@.len(),
                entries_view(items@) == ps,
                ps == payload_entries(self@),
                fetched@.len() == ps.len(),
                fv == bytes_view(fetched@),
                members_view(r@) == head + payload_members(ps, fv).subrange(0, k as int),
            decreases items@.len() - k,
        {
            let ghost before = members_view(r@);
            let bytes = match &items[k].2 {
                EPubContentType::Raw(s) => {
                    let mut page: Vec<u8> = Vec::new();
                    let _ = write_string_content(&mut page, s.as_str());
                    page
                },
                _ => copy_bytes(&fetched[k]),
            };
            assert(entry_view(items@[k as int]) == ps[k as int]);
            assert(bytes@ == payload_bytes(ps[k as int], fv[k as int]));
            r.push((items[k].1.clone(), bytes));
            assert(members_view(r@) =~= before.push((ps[k as int].1, payload_bytes(ps[k as int], fv[k as int]))));
            k = k + 1;
            assert(payload_members(ps, fv).subrange(0, k as int) =~= payload_members(ps, fv).subrange(0, k - 1).push(
                (ps[k - 1].1, payload_bytes(ps[k - 1], fv[k - 1])),
            ));
        }
        assert(payload_members(ps, fv).subrange(0, k as int) =~= payload_members(ps, fv));
        assert(members_view(r@) =~= archive_members(self@, self.uuid@, description_payload@, toc@, fv));
        r
    }

    /// Write the book as an ePub archive: the table of contents takes the
    /// titles of the content files (`content_texts[k]` is the text of the
    /// `k`-th content item's file) and, where `string_toc` is set, of the
    /// string content, each entry with a fresh UUID. See `archive_members`
    /// for the other arguments. The result is the ZIP of the members, or an
    /// I/O error where the ZIP writer fails.
    pub fn write_zip_ext(&self, string_toc: bool, content_texts: &Vec<String>, description_payload: &Vec<u8>, fetched: &Vec<Vec<u8>>) -> (r: Result<Vec<u8>, Error>)
        requires
            content_texts@.len() == self.content@.len(),
            fetched@.len() == payload_entries(self@).len(),
        ensures
            exists|ids: Seq<Seq<char>>| ids.len() == self.content@.len()
                && (forall|i: int| 0 <= i < ids.len() ==> is_hyphenated_uuid(#[trigger] ids[i]))
                && result_view(r) == #[trigger] book_archive(self@, self.uuid@, string_toc,
                    strings_view(content_texts@), description_payload@, bytes_view(fetched@), ids),
    {
        let ghost want = content_titles(self@.content, strings_view(content_texts@), string_toc);
        let mut titles: Vec<Option<String>> = Vec::new();
        let mut k: usize = 0;
        while k < self.content.len()
            invariant
                k <= self.content@.len(),
                content_texts@.len() == self.content@.len(),
                titles@.len() == k,
                want == content_titles(self@.content, strings_view(content_texts@), string_toc),
                titles_view(titles@) == want.subrange(0, k as int),
            decreases self.content@.len() - k,
        {
            let ghost before = titles_view(titles@);
            let title = content_title(&self.content[k].2, content_texts[k].as_str(), string_toc);
            assert(entry_view(self.content@[k as int]).2 == self@.content[k as int].2);
            titles.push(title);
            assert(titles_view(titles@) =~= before.push(option_text_view(title)));
            k = k + 1;
            assert(want.subrange(0, k as int) =~= want.subrange(0, k - 1).push(want[k - 1]));
        }
        assert(want.subrange(0, k as int) =~= want);
        let toc = self.table_of_contents(&titles);
        let ghost ids = choose|ids: Seq<Seq<char>>| ids.len() == self.content@.len()
            && (forall|i: int| 0 <= i < ids.len() ==> is_hyphenated_uuid(#[trigger] ids[i]))
            && toc@ == toc_text(self@, self.uuid@, titles_view(titles@), ids);
        let members = self.archive_members(&toc, description_payload, fetched);
        let r = match zip_members(&members) {
            Some(b) => Ok(b),
            None => Err(Error::Io { desc: "ePub", op: "write", more: Some("archive") }),
        };
        assert(result_view(r) == book_archive(self@, self.uuid@, string_toc,
            strings_view(content_texts@), description_payload@, bytes_view(fetched@), ids));
        r
    }

    /// `write_zip_ext` without titles from string content.
    pub fn write_zip(&self, content_texts: &Vec<String>, description_payload: &Vec<u8>, fetched: &Vec<Vec<u8>>) -> (r: Result<Vec<u8>, Error>)
        requires
            content_texts@.len() == self.content@.len(),
            fetched@.len() == payload_entries(self@).len(),
        ensures
            exists|ids: Seq<Seq<char>>| ids.len() == self.content@.len()
                && (forall|i: int| 0 <= i < ids.len() ==> is_hyphenated_uuid(#[trigger] ids[i]))
                && result_view(r) == #[trigger] book_archive(self@, self.uuid@, false,
                    strings_view(content_texts@), description_payload@, bytes_view(fetched@), ids),
    {
        self.write_zip_ext(false, content_texts, description_payload, fetched)
    }
}

} // verus!
