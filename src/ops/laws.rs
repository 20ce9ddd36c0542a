//! Laws of aggregation, stated over the functions' specifications.

use vstd::prelude::*;
use crate::error::Error;
use super::book::{aggregate, cover_group, duplicate_error, gather, gather_step, Gathered};
use super::element::BookElement;

verus! {

/// The exclusive group of an element: 1 Name, 2 Author, 3 Date, 4 Language,
/// 5 the covers, 6 the descriptions; 0 for the elements that may repeat.
pub open spec fn group_of(e: BookElement) -> int {
    match e {
        BookElement::Name(_) => 1,
        BookElement::Author(_) => 2,
        BookElement::Date(_) => 3,
        BookElement::Language(_) => 4,
        BookElement::Cover(_) | BookElement::NetworkCover(_) => 5,
        BookElement::Description(_) | BookElement::StringDescription(_)
        | BookElement::NetworkDescription(_) => 6,
        _ => 0,
    }
}

/// Whether one of the first `n` elements belongs to group `k`.
pub open spec fn holds_group(s: Seq<BookElement>, n: int, k: int) -> bool {
    exists|i: int| 0 <= i < n && #[trigger] group_of(s[i]) == k
}

/// Whether two of the first `n` elements belong to the same exclusive group.
pub open spec fn repeats_within(s: Seq<BookElement>, n: int) -> bool {
    exists|i: int, j: int|
        0 <= i < j < n && group_of(#[trigger] s[i]) != 0 && group_of(s[i]) == group_of(#[trigger] s[j])
}

/// Each slot of `g` is taken exactly when the first `n` elements hold its group.
pub open spec fn slots_match(g: Gathered, s: Seq<BookElement>, n: int) -> bool {
    &&& (g.name is Some <==> holds_group(s, n, 1))
    &&& (g.author is Some <==> holds_group(s, n, 2))
    &&& (g.date is Some <==> holds_group(s, n, 3))
    &&& (g.language is Some <==> holds_group(s, n, 4))
    &&& (g.cover is Some <==> holds_group(s, n, 5))
    &&& (g.description is Some <==> holds_group(s, n, 6))
}

proof fn lemma_holds_group_extend(s: Seq<BookElement>, n: int, k: int)
    requires
        0 < n <= s.len(),
    ensures
        holds_group(s, n, k) <==> (holds_group(s, n - 1, k) || group_of(s[n - 1]) == k),
{
    if group_of(s[n - 1]) == k {
        assert(holds_group(s, n, k));
    }
    if holds_group(s, n - 1, k) {
        let i = choose|i: int| 0 <= i < n - 1 && #[trigger] group_of(s[i]) == k;
        assert(0 <= i < n && group_of(s[i]) == k);
    }
    if holds_group(s, n, k) && group_of(s[n - 1]) != k {
        let i = choose|i: int| 0 <= i < n && #[trigger] group_of(s[i]) == k;
        assert(i < n - 1);
        assert(holds_group(s, n - 1, k));
    }
}

/// Gathering elements without repeated exclusive groups always succeeds, with
/// each slot taken exactly when its group occurs.
proof fn lemma_gather_without_repeats(s: Seq<BookElement>, n: int)
    requires
        0 <= n <= s.len(),
        !repeats_within(s, n),
    ensures
        gather(s.subrange(0, n)) is Ok,
        slots_match(gather(s.subrange(0, n))->Ok_0, s, n),
    decreases n,
{
    if n == 0 {
        assert(s.subrange(0, 0) =~= Seq::<BookElement>::empty());
    } else {
        assert(!repeats_within(s, n - 1)) by {
            if repeats_within(s, n - 1) {
                let (i, j) = choose|i: int, j: int|
                    0 <= i < j < n - 1 && group_of(#[trigger] s[i]) != 0 && group_of(s[i]) == group_of(#[trigger] s[j]);
                assert(0 <= i < j < n);
            }
        }
        lemma_gather_without_repeats(s, n - 1);
        assert(s.subrange(0, n).drop_last() =~= s.subrange(0, n - 1));
        let g = gather(s.subrange(0, n - 1))->Ok_0;
        let e = s[n - 1];
        let k = group_of(e);
        if k != 0 && holds_group(s, n - 1, k) {
            let i = choose|i: int| 0 <= i < n - 1 && #[trigger] group_of(s[i]) == k;
            assert(group_of(s[i]) != 0 && group_of(s[i]) == group_of(s[n - 1]));
            assert(repeats_within(s, n));
        }
        lemma_holds_group_extend(s, n, 1);
        lemma_holds_group_extend(s, n, 2);
        lemma_holds_group_extend(s, n, 3);
        lemma_holds_group_extend(s, n, 4);
        lemma_holds_group_extend(s, n, 5);
        lemma_holds_group_extend(s, n, 6);
        assert(s.subrange(0, n).last() == e);
        assert(gather(s.subrange(0, n)) == gather_step(g, (n - 1) as nat, e));
    }
}

/// Where no exclusive group repeats, a book without one of Name, Author,
/// Date and Language fails to aggregate, naming the first missing one in that
/// order.
pub proof fn lemma_missing_required_element(elems: Seq<BookElement>)
    requires
        !repeats_within(elems, elems.len() as int),
    ensures
        !holds_group(elems, elems.len() as int, 1) ==> aggregate(elems)
            == Err::<super::book::BookModel, Error>(Error::RequiredElementMissing("Name")),
        holds_group(elems, elems.len() as int, 1) && !holds_group(elems, elems.len() as int, 2)
            ==> aggregate(elems) == Err::<super::book::BookModel, Error>(Error::RequiredElementMissing("Author")),
        holds_group(elems, elems.len() as int, 1) && holds_group(elems, elems.len() as int, 2)
            && !holds_group(elems, elems.len() as int, 3) ==> aggregate(elems)
            == Err::<super::book::BookModel, Error>(Error::RequiredElementMissing("Date")),
        holds_group(elems, elems.len() as int, 1) && holds_group(elems, elems.len() as int, 2)
            && holds_group(elems, elems.len() as int, 3) && !holds_group(elems, elems.len() as int, 4)
            ==> aggregate(elems) == Err::<super::book::BookModel, Error>(Error::RequiredElementMissing("Language")),
{
    lemma_gather_without_repeats(elems, elems.len() as int);
    assert(elems.subrange(0, elems.len() as int) =~= elems);
}

/// Whether every repetition among the elements is one of the covers.
pub open spec fn only_covers_repeat(s: Seq<BookElement>) -> bool {
    forall|i: int, j: int|
        0 <= i < j < s.len() && group_of(#[trigger] s[i]) != 0 && group_of(s[i]) == group_of(#[trigger] s[j])
            ==> group_of(s[i]) == 5
}

proof fn lemma_cover_repeat_prefix(s: Seq<BookElement>, n: int)
    requires
        0 <= n <= s.len(),
        only_covers_repeat(s),
    ensures
        !repeats_within(s, n) ==> gather(s.subrange(0, n)) is Ok,
        repeats_within(s, n) ==> gather(s.subrange(0, n)) == Err::<Gathered, Error>(duplicate_error(cover_group())),
    decreases n,
{
    if !repeats_within(s, n) {
        lemma_gather_without_repeats(s, n);
    } else {
        assert(n > 0);
        lemma_cover_repeat_prefix(s, n - 1);
        assert(s.subrange(0, n).drop_last() =~= s.subrange(0, n - 1));
        if !repeats_within(s, n - 1) {
            lemma_gather_without_repeats(s, n - 1);
            let (i, j) = choose|i: int, j: int|
                0 <= i < j < n && group_of(#[trigger] s[i]) != 0 && group_of(s[i]) == group_of(#[trigger] s[j]);
            if j < n - 1 {
                assert(repeats_within(s, n - 1));
            }
            assert(j == n - 1);
            assert(group_of(s[i]) == 5);
            assert(holds_group(s, n - 1, 5));
            assert(s.subrange(0, n).last() == s[n - 1]);
        }
    }
}

/// Supplying two covers, files or network resources in any mix, fails with
/// the same error, where nothing else repeats.
pub proof fn lemma_second_cover_rejected(elems: Seq<BookElement>, i: int, j: int)
    requires
        0 <= i < j < elems.len(),
        group_of(elems[i]) == 5,
        group_of(elems[j]) == 5,
        only_covers_repeat(elems),
    ensures
        aggregate(elems) == Err::<super::book::BookModel, Error>(duplicate_error(cover_group())),
{
    assert(repeats_within(elems, elems.len() as int));
    lemma_cover_repeat_prefix(elems, elems.len() as int);
    assert(elems.subrange(0, elems.len() as int) =~= elems);
}

} // verus!
