//! Naming of archive members and other small text utilities.

use vstd::prelude::*;
use crate::error::Error;
use crate::text::{
    chars_of, first_index, first_index_of, last_index, last_index_of, lemma_first_index_bounds,
    lemma_last_index_bounds, push_all, push_str, push_utf8, replace, replace_all, same_chars,
    slice_of, string_of,
};

verus! {

/// What the case mapping of `str::to_uppercase` makes of one character.
pub uninterp spec fn upper_of(c: char) -> Seq<char>;

/// Relies on `char::to_uppercase`: the upper-case form of `c`, which may be several characters.
#[verifier::external_body]
fn upper_chars(c: char) -> (r: Vec<char>)
    ensures
        r@ == upper_of(c),
{
    c.to_uppercase().collect()
}

/// `s` with its first character upper-cased.
pub open spec fn upper_first(s: Seq<char>) -> Seq<char> {
    if s.len() == 0 {
        s
    } else {
        upper_of(s[0]) + s.drop_first()
    }
}

/// Upper-cases the first character of `s`.
pub fn uppercase_first(s: &str) -> (r: String)
    ensures
        r@ == upper_first(s@),
{
    let c = chars_of(s);
    if c.len() == 0 {
        return string_of(&c);
    }
    let mut out = upper_chars(c[0]);
    let rest = slice_of(&c, 1, c.len());
    push_all(&mut out, &rest);
    assert(rest@ =~= s@.drop_first());
    string_of(&out)
}

/// Start of the final segment of a `/`-separated path.
pub open spec fn segment_start(p: Seq<char>) -> int {
    last_index_of(p, '/', p.len() as int) + 1
}

/// Whether the final segment of `p` names a file: it is neither empty, `.` nor `..`.
pub open spec fn has_file_name(p: Seq<char>) -> bool {
    let seg = p.subrange(segment_start(p), p.len() as int);
    seg.len() != 0 && seg != seq!['.'] && seg != seq!['.', '.']
}

/// Position of the dot that starts the extension: the last dot of the final
/// segment, when that segment names a file and the dot is not its first character.
pub open spec fn extension_dot(p: Seq<char>) -> int {
    last_index_of(p, '.', p.len() as int)
}

pub open spec fn has_extension(p: Seq<char>) -> bool {
    has_file_name(p) && extension_dot(p) > segment_start(p)
}

/// `p` without its extension (and without the dot before it).
pub open spec fn strip_extension(p: Seq<char>) -> Seq<char> {
    if has_extension(p) {
        p.subrange(0, extension_dot(p))
    } else {
        p
    }
}

/// The extension of `p`, without the dot.
pub open spec fn extension_of(p: Seq<char>) -> Option<Seq<char>> {
    if has_extension(p) {
        Some(p.subrange(extension_dot(p) + 1, p.len() as int))
    } else {
        None
    }
}

/// The `/`-separated segments of `s` from position `start` on; a final `/`
/// leaves an empty last segment.
pub open spec fn segments_from(s: Seq<char>, start: int) -> Seq<Seq<char>>
    decreases s.len() + 1 - start,
{
    if start < 0 || start > s.len() {
        seq![]
    } else {
        let i = first_index_of(s, '/', start);
        if i == -1 {
            seq![s.subrange(start, s.len() as int)]
        } else if i < start || i >= s.len() {
            seq![]
        } else {
            seq![s.subrange(start, i)] + segments_from(s, i + 1)
        }
    }
}

/// The segments of a path after resolving it: `.` segments are dropped, and
/// a `..` segment removes itself and the segment before it, if any.
pub open spec fn resolve_segments(segs: Seq<Seq<char>>) -> Seq<Seq<char>>
    decreases segs.len(),
{
    if segs.len() == 0 {
        seq![]
    } else {
        let st = resolve_segments(segs.drop_last());
        let x = segs.last();
        if x == seq!['.'] {
            st
        } else if x == seq!['.', '.'] {
            if st.len() > 0 {
                st.drop_last()
            } else {
                st
            }
        } else {
            st.push(x)
        }
    }
}

/// The segments joined with dashes.
pub open spec fn join_dashes(st: Seq<Seq<char>>) -> Seq<char>
    decreases st.len(),
{
    if st.len() == 0 {
        seq![]
    } else if st.len() == 1 {
        st[0]
    } else {
        join_dashes(st.drop_last()) + seq!['-'] + st.last()
    }
}

/// The identifier derived from a path: the extension is stripped, backslashes
/// become slashes, `./` and `dir/../` segments are resolved away, and the
/// remaining segments are joined with dashes.
pub open spec fn slug(p: Seq<char>) -> Seq<char> {
    let s0 = replace_all(strip_extension(p), seq!['\u{FFFD}'], seq![]);
    let s1 = replace_all(s0, seq!['\\'], seq!['/']);
    join_dashes(resolve_segments(segments_from(s1, 0)))
}

/// The name of a path's file inside the archive: its slug, followed by a dot
/// and the path's extension where it has one.
pub open spec fn archive_filename(p: Seq<char>) -> Seq<char> {
    match extension_of(p) {
        Some(e) => slug(p) + seq!['.'] + e,
        None => slug(p),
    }
}

pub open spec fn chars_views(v: Seq<Vec<char>>) -> Seq<Seq<char>> {
    v.map_values(|x: Vec<char>| x@)
}

proof fn lemma_first_index_shift(s: Seq<char>, rest: Seq<char>, c: char, start: int, k: int)
    requires
        0 <= start <= s.len(),
        0 <= k <= rest.len(),
        rest == s.subrange(start, s.len() as int),
    ensures
        first_index_of(rest, c, k) == -1 ==> first_index_of(s, c, start + k) == -1,
        first_index_of(rest, c, k) != -1 ==> first_index_of(s, c, start + k) == start + first_index_of(rest, c, k),
    decreases rest.len() - k,
{
    if k < rest.len() && rest[k] != c {
        lemma_first_index_shift(s, rest, c, start, k + 1);
    }
}

fn split_segments(s: &Vec<char>) -> (r: Vec<Vec<char>>)
    ensures
        chars_views(r@) == segments_from(s@, 0),
{
    let len = s.len();
    let mut r: Vec<Vec<char>> = Vec::new();
    let mut start: usize = 0;
    let mut done = false;
    while !done
        invariant
            start <= len,
            len == s@.len(),
            !done ==> chars_views(r@) + segments_from(s@, start as int) == segments_from(s@, 0),
            done ==> chars_views(r@) == segments_from(s@, 0),
        decreases (if done { 0 } else { len + 2 - start }),
    {
        let ghost before = chars_views(r@);
        let rest = slice_of(s, start, len);
        proof {
            lemma_first_index_bounds(rest@, '/', 0);
            lemma_first_index_shift(s@, rest@, '/', start as int, 0);
        }
        match first_index(&rest, '/') {
            Some(k) => {
                let seg = slice_of(s, start, start + k);
                r.push(seg);
                assert(chars_views(r@) =~= before.push(seg@));
                assert(before + (seq![seg@] + segments_from(s@, start + k + 1)) =~= before.push(seg@) + segments_from(s@, start + k + 1));
                start = start + k + 1;
            },
            None => {
                let seg = slice_of(s, start, len);
                r.push(seg);
                assert(chars_views(r@) =~= before.push(seg@));
                assert(before + seq![seg@] =~= before.push(seg@));
                done = true;
            },
        }
    }
    r
}

fn resolve_segment_list(segs: &Vec<Vec<char>>) -> (r: Vec<Vec<char>>)
    ensures
        chars_views(r@) == resolve_segments(chars_views(segs@)),
{
    let ghost sv = chars_views(segs@);
    let dot = vec!['.'];
    let dots = vec!['.', '.'];
    assert(dot@ =~= seq!['.']);
    assert(dots@ =~= seq!['.', '.']);
    let mut st: Vec<Vec<char>> = Vec::new();
    let mut i: usize = 0;
    assert(sv.subrange(0, 0) =~= Seq::<Seq<char>>::empty());
    assert(chars_views(st@) =~= Seq::<Seq<char>>::empty());
    while i < segs.len()
        invariant
            i <= segs@.len(),
            sv == chars_views(segs@),
            dot@ == seq!['.'],
            dots@ == seq!['.', '.'],
            chars_views(st@) == resolve_segments(sv.subrange(0, i as int)),
        decreases segs@.len() - i,
    {
        let ghost before = chars_views(st@);
        assert(sv.subrange(0, i + 1).drop_last() =~= sv.subrange(0, i as int));
        assert(sv.subrange(0, i + 1).last() == segs@[i as int]@);
        if same_chars(&segs[i], &dot) {
        } else if same_chars(&segs[i], &dots) {
            if st.len() > 0 {
                let _ = st.pop();
                assert(chars_views(st@) =~= before.drop_last());
            }
        } else {
            st.push(slice_of(&segs[i], 0, segs[i].len()));
            assert(segs@[i as int]@.subrange(0, segs@[i as int]@.len() as int) =~= segs@[i as int]@);
            assert(chars_views(st@) =~= before.push(segs@[i as int]@));
        }
        i = i + 1;
    }
    assert(sv.subrange(0, i as int) =~= sv);
    st
}

fn join_with_dashes(st: &Vec<Vec<char>>) -> (r: Vec<char>)
    ensures
        r@ == join_dashes(chars_views(st@)),
{
    let ghost sv = chars_views(st@);
    let mut out: Vec<char> = Vec::new();
    let mut i: usize = 0;
    assert(sv.subrange(0, 0) =~= Seq::<Seq<char>>::empty());
    while i < st.len()
        invariant
            i <= st@.len(),
            sv == chars_views(st@),
            out@ == join_dashes(sv.subrange(0, i as int)),
        decreases st@.len() - i,
    {
        let ghost sub = sv.subrange(0, i + 1);
        assert(sub.drop_last() =~= sv.subrange(0, i as int));
        assert(sub.last() == st@[i as int]@);
        if i > 0 {
            out.push('-');
        } else {
            assert(out@ =~= Seq::<char>::empty());
            assert(sub[0] == st@[0]@);
        }
        push_all(&mut out, &st[i]);
        if i == 0 {
            assert(out@ =~= sub[0]);
        }
        i = i + 1;
    }
    assert(sv.subrange(0, i as int) =~= sv);
    out
}

/// The identifier derived from a URL's final path segment: the part before its first dot.
pub open spec fn segment_slug(seg: Seq<char>) -> Seq<char> {
    let d = first_index_of(seg, '.', 0);
    if d == -1 {
        seg
    } else {
        seg.subrange(0, d)
    }
}

fn has_file_name_exec(p: &Vec<char>) -> (r: (bool, usize))
    ensures
        r.0 == has_file_name(p@),
        r.1 == segment_start(p@),
{
    proof { lemma_last_index_bounds(p@, '/', p@.len() as int); }
    let len = p.len();
    let start: usize = match last_index(p, '/') {
        Some(i) => i + 1,
        None => 0,
    };
    let n = p.len() - start;
    let seg = Ghost(p@.subrange(start as int, p@.len() as int));
    let named = if n == 0 {
        false
    } else if n == 1 {
        assert(seg@.len() == 1 && seg@[0] == p@[start as int]);
        assert(p@[start as int] == '.' ==> seg@ =~= seq!['.']);
        p[start] != '.'
    } else if n == 2 {
        assert(seg@.len() == 2 && seg@[0] == p@[start as int] && seg@[1] == p@[start + 1]);
        assert(p@[start as int] == '.' && p@[start + 1] == '.' ==> seg@ =~= seq!['.', '.']);
        !(p[start] == '.' && p[start + 1] == '.')
    } else {
        true
    };
    (named, start)
}

/// Splits `p` into `strip_extension(p)` and `extension_of(p)`.
fn split_extension(p: &Vec<char>) -> (r: (Vec<char>, Option<Vec<char>>))
    ensures
        r.0@ == strip_extension(p@),
        r.1 is None <==> extension_of(p@) is None,
        r.1 is Some ==> r.1->0@ == extension_of(p@)->0,
{
    proof { lemma_last_index_bounds(p@, '.', p@.len() as int); }
    let len = p.len();
    let (named, start) = has_file_name_exec(p);
    if named {
        if let Some(d) = last_index(p, '.') {
            if d > start {
                return (slice_of(p, 0, d), Some(slice_of(p, d + 1, p.len())));
            }
        }
    }
    (slice_of(p, 0, p.len()), None)
}

fn slug_chars(p: &Vec<char>) -> (r: Vec<char>)
    ensures
        r@ == slug(p@),
{
    let (stem, _) = split_extension(p);
    let replacement = vec!['\u{FFFD}'];
    let backslash = vec!['\\'];
    let slash = vec!['/'];
    let nothing: Vec<char> = Vec::new();
    assert(replacement@ =~= seq!['\u{FFFD}']);
    assert(backslash@ =~= seq!['\\']);
    assert(slash@ =~= seq!['/']);
    assert(nothing@ =~= seq![]);
    let s0 = replace(&stem, &replacement, &nothing);
    let s1 = replace(&s0, &backslash, &slash);
    join_with_dashes(&resolve_segment_list(&split_segments(&s1)))
}

fn archive_filename_chars(p: &Vec<char>) -> (r: Vec<char>)
    ensures
        r@ == archive_filename(p@),
{
    let mut id = slug_chars(p);
    let (_, ext) = split_extension(p);
    match ext {
        None => id,
        Some(e) => {
            id.push('.');
            push_all(&mut id, &e);
            id
        },
    }
}

/// Get the (X)HTML ID from a path: see `slug`.
pub fn xhtml_path_id(p: &str) -> (r: String)
    ensures
        r@ == slug(p@),
{
    string_of(&slug_chars(&chars_of(p)))
}

/// Get the filename to use inside the archive for the file at a path: see `archive_filename`.
pub fn book_filename(p: &str) -> (r: String)
    ensures
        r@ == archive_filename(p@),
{
    string_of(&archive_filename_chars(&chars_of(p)))
}

/// Get the (X)HTML ID from a URL: the part of its final path segment before the first dot.
pub fn xhtml_url_id(url: &WebAddress) -> (r: String)
    ensures
        r@ == segment_slug(url.last_segment@),
{
    let seg = chars_of(url.last_segment.as_str());
    proof { lemma_first_index_bounds(seg@, '.', 0); }
    match first_index(&seg, '.') {
        Some(d) => string_of(&slice_of(&seg, 0, d)),
        None => string_of(&seg),
    }
}

/// What `url::Url::parse` makes of a text: `None` where it is not a URL, else
/// the URL's serialisation and the last of its path segments, where it has a path.
pub uninterp spec fn parsed_url_of(s: Seq<char>) -> Option<(Seq<char>, Option<Seq<char>>)>;

/// Relies on `url::Url::parse`, `Url::as_str` and `Url::path_segments`: whether `s`
/// is an absolute URL, its serialisation and the last of its path segments.
#[verifier::external_body]
fn parse_url_parts(s: &str) -> (r: Option<(String, Option<String>)>)
    ensures
        match r {
            None => parsed_url_of(s@) is None,
            Some((t, seg)) => parsed_url_of(s@) == Some((t@,
                match seg { Some(x) => Some(x@), None => None::<Seq<char>> })),
        },
{
    url::Url::parse(s).ok().map(|u| {
        let seg = u.path_segments().and_then(|mut p| p.next_back()).map(|x| x.to_string());
        (u.as_str().to_string(), seg)
    })
}

/// An absolute URL with a path, as the parts of it that a book reads.
#[derive(Clone, Debug, PartialEq, Eq, Hash)]
pub struct WebAddress {
    /// The URL's serialisation.
    pub text: String,
    /// The last segment of its path.
    pub last_segment: String,
}

impl WebAddress {
    /// Parses an absolute URL whose path has segments; `None` for anything else.
    pub fn parse(s: &str) -> (r: Option<WebAddress>)
        ensures
            match parsed_url_of(s@) {
                Some((t, Some(seg))) => r is Some && r->0.text@ == t && r->0.last_segment@ == seg,
                _ => r is None,
            },
    {
        match parse_url_parts(s) {
            Some((text, Some(last_segment))) => Some(WebAddress { text, last_segment }),
            _ => None,
        }
    }

    /// A copy of this address.
    pub fn duplicate(&self) -> (r: WebAddress)
        ensures
            r == *self,
    {
        WebAddress { text: self.text.clone(), last_segment: self.last_segment.clone() }
    }
}

/// The page that wraps string content.
pub open spec fn wrapped_page(c: Seq<char>) -> Seq<char> {
    "<html xmlns=\"http://www.w3.org/1999/xhtml\">\n  <head></head>\n  <body>\n    "@ + c
        + "\n  </body>\n</html>\n"@
}

/// Write string content in an acceptable form: wrapped in a minimal XHTML page.
pub fn write_string_content(to: &mut Vec<u8>, ctnt: &str) -> (r: Result<(), Error>)
    ensures
        r is Ok,
        final(to)@ == old(to)@ + vstd::utf8::encode_utf8(wrapped_page(ctnt@)),
{
    let mut page: Vec<char> = Vec::new();
    push_str(&mut page, "<html xmlns=\"http://www.w3.org/1999/xhtml\">\n  <head></head>\n  <body>\n    ");
    push_str(&mut page, ctnt);
    push_str(&mut page, "\n  </body>\n</html>\n");
    push_utf8(to, &page);
    Ok(())
}

} // verus!
