//! The work of assembling a book: include directories, title markers, and
//! the book model itself.

use vstd::prelude::*;
use crate::error::Error;
use crate::text::{chars_of, first_index, first_index_of, lemma_first_index_bounds, occurs_at, slice_of, string_of};

mod book;
mod element;
pub(crate) mod include_dir;
pub mod laws;
pub mod package;

pub use self::book::{
    aggregate, BookModel, EPubBook, EPubContentType, EPubData, Entry, Gathered, Source,
};
pub use self::package::{content_title, guess_type, media_type, NavPoint};
pub use self::element::{element_name, line_element, BookElement, Timestamp};
pub use self::include_dir::{join, join_path, IncludeDirectory};

verus! {

/// Index of the first `true` in `present`, if any.
pub open spec fn first_true(present: Seq<bool>) -> Option<int> {
    if exists|i: int| 0 <= i < present.len() && present[i] {
        Some(choose|i: int| 0 <= i < present.len() && present[i] && forall|j: int| 0 <= j < i ==> !present[j])
    } else {
        None
    }
}

/// Picks the include directory for a file, given for each directory, in order,
/// whether the file was found there: the first one where it was.
pub fn pick_directory<'a>(include_order: &'a [IncludeDirectory], present: &Vec<bool>) -> (r: Option<&'a IncludeDirectory>)
    requires
        present@.len() == include_order@.len(),
    ensures
        r is None <==> forall|i: int| 0 <= i < present@.len() ==> !present@[i],
        r is Some ==> exists|i: int| 0 <= i < present@.len() && present@[i]
            && (forall|j: int| 0 <= j < i ==> !present@[j]) && *r->0 == include_order@[i],
{
    let mut i: usize = 0;
    while i < present.len()
        invariant
            i <= present@.len(),
            present@.len() == include_order@.len(),
            forall|j: int| 0 <= j < i ==> !present@[j],
        decreases present@.len() - i,
    {
        if present[i] {
            return Some(&include_order[i]);
        }
        i = i + 1;
    }
    None
}

/// Find the include directory that holds the file at `file`: the first one, in
/// order, under which a regular file stands at that path, or `None`.
pub fn find_file<'a>(file: &str, include_order: &'a [IncludeDirectory]) -> (r: Option<&'a IncludeDirectory>)
    ensures
        r is Some ==> exists|i: int| 0 <= i < include_order@.len() && *r->0 == include_order@[i],
{
    let mut present: Vec<bool> = Vec::new();
    let mut i: usize = 0;
    while i < include_order.len()
        invariant
            i <= include_order@.len(),
            present@.len() == i,
        decreases include_order@.len() - i,
    {
        present.push(include_order[i].resolve(file).is_some());
        i = i + 1;
    }
    pick_directory(include_order, &present)
}

/// The opening of a title marker, up to its opening quote.
pub open spec fn title_open() -> Seq<char> {
    "<!-- ePub title: \""@
}

/// The close of a title marker, from its closing quote.
pub open spec fn title_close() -> Seq<char> {
    "\" -->"@
}

/// The title of a marker `<!-- ePub title: "X" -->` that starts at `p` in `s`,
/// where X is a non-empty run without `"` or line break.
pub open spec fn title_at(s: Seq<char>, p: int) -> Option<Seq<char>> {
    let start = p + title_open().len();
    let q = crate::text::first_index_of(s, '"', start);
    if occurs_at(s, title_open(), p) && q > start && occurs_at(s, title_close(), q)
        && (forall|k: int| start <= k < q ==> s[k] != '\n') {
        Some(s.subrange(start, q))
    } else {
        None
    }
}

/// The title of the first marker that starts at or after `p`.
pub open spec fn first_title_from(s: Seq<char>, p: int) -> Option<Seq<char>>
    decreases s.len() - p,
{
    if p < 0 || p >= s.len() {
        None
    } else {
        match title_at(s, p) {
            Some(t) => Some(t),
            None => first_title_from(s, p + 1),
        }
    }
}

/// The title of the first title marker in `s`, if any.
pub open spec fn title_of(s: Seq<char>) -> Option<Seq<char>> {
    first_title_from(s, 0)
}

fn title_at_exec(s: &Vec<char>, p: usize) -> (r: Option<Vec<char>>)
    requires
        p < s@.len(),
    ensures
        r is None <==> title_at(s@, p as int) is None,
        r is Some ==> r->0@ == title_at(s@, p as int)->0,
{
    let open = chars_of("<!-- ePub title: \"");
    let close = chars_of("\" -->");
    let len = s.len();
    if !crate::text::matches_at(s, &open, p) {
        return None;
    }
    let start = p + open.len();
    let rest = slice_of(s, start, len);
    proof { crate::text::lemma_first_index_bounds(rest@, '"', 0); }
    let q = match first_index(&rest, '"') {
        Some(k) => start + k,
        None => {
            proof { lemma_first_index_shift(s@, rest@, '"', start as int); }
            return None;
        },
    };
    proof { lemma_first_index_shift(s@, rest@, '"', start as int); }
    if q <= start || !crate::text::matches_at(s, &close, q) {
        return None;
    }
    let mut k: usize = start;
    while k < q
        invariant
            start <= k <= q,
            q < s@.len(),
            start == p + title_open().len(),
            q == crate::text::first_index_of(s@, '"', start as int),
            occurs_at(s@, title_open(), p as int),
            occurs_at(s@, title_close(), q as int),
            forall|j: int| start <= j < k ==> s@[j] != '\n',
        decreases q - k,
    {
        if s[k] == '\n' {
            return None;
        }
        k = k + 1;
    }
    Some(slice_of(s, start, q))
}

proof fn lemma_first_index_shift(s: Seq<char>, rest: Seq<char>, c: char, start: int)
    requires
        0 <= start <= s.len(),
        rest == s.subrange(start, s.len() as int),
    ensures
        crate::text::first_index_of(rest, c, 0) == -1 ==> crate::text::first_index_of(s, c, start) == -1,
        crate::text::first_index_of(rest, c, 0) != -1 ==> crate::text::first_index_of(s, c, start)
            == start + crate::text::first_index_of(rest, c, 0),
{
    lemma_first_index_shift_from(s, rest, c, start, 0);
}

proof fn lemma_first_index_shift_from(s: Seq<char>, rest: Seq<char>, c: char, start: int, k: int)
    requires
        0 <= start <= s.len(),
        0 <= k <= rest.len(),
        rest == s.subrange(start, s.len() as int),
    ensures
        crate::text::first_index_of(rest, c, k) == -1 ==> crate::text::first_index_of(s, c, start + k) == -1,
        crate::text::first_index_of(rest, c, k) != -1 ==> crate::text::first_index_of(s, c, start + k)
            == start + crate::text::first_index_of(rest, c, k),
    decreases rest.len() - k,
{
    if k < rest.len() && rest[k] != c {
        lemma_first_index_shift_from(s, rest, c, start, k + 1);
    }
}

/// Find the title of the first ePub title marker in `text`: a line holding
/// `<!-- ePub title: "TOC_NAME" -->`, where `TOC_NAME` is a non-empty run
/// without the `"` character.
pub fn find_title(text: &str) -> (r: Option<String>)
    ensures
        r is None <==> title_of(text@) is None,
        r is Some ==> r->0@ == title_of(text@)->0,
{
    let s = chars_of(text);
    let mut p: usize = 0;
    while p < s.len()
        invariant
            p <= s@.len(),
            s@ == text@,
            title_of(s@) == first_title_from(s@, p as int),
        decreases s@.len() - p,
    {
        match title_at_exec(&s, p) {
            Some(t) => {
                return Some(string_of(&t));
            },
            None => {},
        }
        p = p + 1;
    }
    None
}

/// The texts of a sequence of strings.
pub open spec fn strings_view(v: Seq<String>) -> Seq<Seq<char>> {
    v.map_values(|l: String| l@)
}

/// The views of a sequence of elements.
pub open spec fn elements_view(v: Seq<BookElement>) -> Seq<(Seq<char>, Seq<char>, Seq<char>)> {
    v.map_values(|e: BookElement| e@)
}

/// `l` without one carriage return at its end.
pub open spec fn strip_cr(l: Seq<char>) -> Seq<char> {
    if l.len() > 0 && l.last() == '\r' {
        l.drop_last()
    } else {
        l
    }
}

/// The lines of `s` from position `start` on, as `BufRead::lines` yields
/// them: split at line feeds, each without a final carriage return, with no
/// empty line after a final line feed.
pub open spec fn lines_from(s: Seq<char>, start: int) -> Seq<Seq<char>>
    decreases s.len() - start,
{
    if start < 0 || start >= s.len() {
        seq![]
    } else {
        let i = first_index_of(s, '\n', start);
        if i == -1 {
            seq![strip_cr(s.subrange(start, s.len() as int))]
        } else if i < start || i >= s.len() {
            seq![]
        } else {
            seq![strip_cr(s.subrange(start, i))] + lines_from(s, i + 1)
        }
    }
}

/// The views of the elements that `lines` describe, in order, or the error of the first bad line.
pub open spec fn descriptor_elements(lines: Seq<Seq<char>>, sep: Seq<char>, free: bool) -> Result<Seq<(Seq<char>, Seq<char>, Seq<char>)>, Error>
    decreases lines.len(),
{
    if lines.len() == 0 {
        Ok(seq![])
    } else {
        match descriptor_elements(lines.drop_last(), sep, free) {
            Err(e) => Err(e),
            Ok(es) => match line_element(lines.last(), sep, free) {
                Err(e) => Err(e),
                Ok(None) => Ok(es),
                Ok(Some(m)) => Ok(es.push(m)),
            },
        }
    }
}

proof fn lemma_descriptor_error_persists(lines: Seq<Seq<char>>, sep: Seq<char>, free: bool, k: int, n: int)
    requires
        0 <= k <= n <= lines.len(),
        descriptor_elements(lines.subrange(0, k), sep, free) is Err,
    ensures
        descriptor_elements(lines.subrange(0, n), sep, free) == descriptor_elements(lines.subrange(0, k), sep, free),
    decreases n - k,
{
    if n > k {
        lemma_descriptor_error_persists(lines, sep, free, k, n - 1);
        assert(lines.subrange(0, n).drop_last() =~= lines.subrange(0, n - 1));
    }
}

fn split_lines(text: &str) -> (r: Vec<String>)
    ensures
        strings_view(r@) == lines_from(text@, 0),
{
    let s = chars_of(text);
    let len = s.len();
    let mut r: Vec<String> = Vec::new();
    let mut start: usize = 0;
    while start < len
        invariant
            start <= len,
            len == s@.len(),
            s@ == text@,
            strings_view(r@) + lines_from(s@, start as int) == lines_from(s@, 0),
        decreases len - start,
    {
        let ghost before = strings_view(r@);
        let rest = slice_of(&s, start, len);
        proof {
            lemma_first_index_bounds(rest@, '\n', 0);
            lemma_first_index_shift(s@, rest@, '\n', start as int);
        }
        let end: usize = match first_index(&rest, '\n') {
            Some(k) => start + k,
            None => len,
        };
        let mut line = slice_of(&s, start, end);
        let ghost raw = line@;
        if line.len() > 0 && line[line.len() - 1] == '\r' {
            line.pop();
            assert(line@ =~= raw.drop_last());
        }
        r.push(string_of(&line));
        assert(strings_view(r@) =~= before.push(strip_cr(raw)));
        if end == len {
            assert(lines_from(s@, start as int) == seq![strip_cr(raw)]);
            assert(lines_from(s@, len as int) =~= Seq::<Seq<char>>::empty());
            assert(before.push(strip_cr(raw)) =~= before + seq![strip_cr(raw)]);
            start = len;
        } else {
            assert(lines_from(s@, start as int) == seq![strip_cr(raw)] + lines_from(s@, end + 1));
            assert(before + (seq![strip_cr(raw)] + lines_from(s@, end + 1)) =~= before.push(strip_cr(raw)) + lines_from(s@, end + 1));
            start = end + 1;
        }
    }
    assert(lines_from(s@, start as int) =~= Seq::<Seq<char>>::empty());
    assert(strings_view(r@) + Seq::<Seq<char>>::empty() =~= strings_view(r@));
    r
}

/// Parse a whole descriptor with the given separator and date rigidness,
/// stopping at the first error: see `descriptor_elements`.
pub fn parse_descriptor(text: &str, separator: &str, free_date: bool) -> (r: Result<Vec<BookElement>, Error>)
    requires
        separator@.len() > 0,
    ensures
        match descriptor_elements(lines_from(text@, 0), separator@, free_date) {
            Ok(es) => r is Ok && elements_view(r->Ok_0@) == es,
            Err(e) => r == Err::<Vec<BookElement>, Error>(e),
        },
{
    let lines = split_lines(text);
    let ghost lv = strings_view(lines@);
    let mut out: Vec<BookElement> = Vec::new();
    let mut i: usize = 0;
    assert(lv.subrange(0, 0) =~= Seq::<Seq<char>>::empty());
    assert(elements_view(out@) =~= Seq::<(Seq<char>, Seq<char>, Seq<char>)>::empty());
    while i < lines.len()
        invariant
            i <= lines@.len(),
            separator@.len() > 0,
            lv == strings_view(lines@),
            lv == lines_from(text@, 0),
            descriptor_elements(lv.subrange(0, i as int), separator@, free_date)
                == Ok::<Seq<(Seq<char>, Seq<char>, Seq<char>)>, Error>(elements_view(out@)),
        decreases lines@.len() - i,
    {
        assert(lv.subrange(0, i + 1).drop_last() =~= lv.subrange(0, i as int));
        assert(lv.subrange(0, i + 1).last() == lines@[i as int]@);
        let ghost before = elements_view(out@);
        match BookElement::parse(lines[i].as_str(), separator, free_date) {
            Err(e) => {
                assert(line_element(lv.subrange(0, i + 1).last(), separator@, free_date) == Err::<Option<(Seq<char>, Seq<char>, Seq<char>)>, Error>(e));
                assert(descriptor_elements(lv.subrange(0, i + 1), separator@, free_date) == Err::<Seq<(Seq<char>, Seq<char>, Seq<char>)>, Error>(e));
                proof { lemma_descriptor_error_persists(lv, separator@, free_date, i + 1, lv.len() as int); }
                assert(lv.subrange(0, lv.len() as int) =~= lv);
                return Err(e);
            },
            Ok(None) => {},
            Ok(Some(el)) => {
                out.push(el);
                assert(elements_view(out@) =~= before.push(el@));
            },
        }
        i = i + 1;
    }
    assert(lv.subrange(0, lv.len() as int) =~= lv);
    Ok(out)
}

} // verus!
