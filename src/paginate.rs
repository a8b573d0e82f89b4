//! Walking a cursor-paginated collection to its end.
//!
//! A collection is read page by page: the first page is asked for without a
//! cursor, every later one with the cursor that the page before handed out,
//! until a page hands out none. The pages are modelled as a sequence, the
//! *run* of answered requests; the items of a collection are the items of
//! its pages in page order.

use crate::failure::Failure;
use crate::response::CollectionResponse;
use vstd::prelude::*;

verus! {

/// The items of `pages`, page after page.
pub open spec fn items_of<T>(pages: Seq<CollectionResponse<T>>) -> Seq<T>
    decreases pages.len(),
{
    if pages.len() == 0 {
        Seq::empty()
    } else {
        items_of(pages.drop_last()) + pages.last().items@
    }
}

/// The cursor with which the page at position `i` of a run is requested:
/// none for the first page, else the cursor of the page before it.
pub open spec fn cursor_at<T>(pages: Seq<CollectionResponse<T>>, i: int) -> Option<String> {
    if i <= 0 {
        None
    } else {
        pages[i - 1].next
    }
}

/// `pages` were answered in turn by `answers`, each one to the cursor that
/// precedes it, and every page but the last handed out a cursor.
pub open spec fn is_run<T>(
    answers: spec_fn(Option<String>, CollectionResponse<T>) -> bool,
    pages: Seq<CollectionResponse<T>>,
) -> bool {
    forall|i: int|
        #![trigger pages[i]]
        0 <= i < pages.len() ==> {
            &&& answers(cursor_at(pages, i), pages[i])
            &&& (i + 1 < pages.len() ==> pages[i].next is Some)
        }
}

/// A run whose last page hands out a cursor (or an empty run): the walk
/// has more pages to ask for.
pub open spec fn is_open_run<T>(
    answers: spec_fn(Option<String>, CollectionResponse<T>) -> bool,
    pages: Seq<CollectionResponse<T>>,
) -> bool {
    &&& is_run(answers, pages)
    &&& (pages.len() > 0 ==> pages.last().next is Some)
}

/// A run that reached the last page of the collection.
pub open spec fn is_complete_run<T>(
    answers: spec_fn(Option<String>, CollectionResponse<T>) -> bool,
    pages: Seq<CollectionResponse<T>>,
) -> bool {
    &&& is_run(answers, pages)
    &&& pages.len() > 0
    &&& pages.last().next is None
}

/// The cursor with which the page after a run is requested.
pub open spec fn cursor_after<T>(pages: Seq<CollectionResponse<T>>) -> Option<String> {
    cursor_at(pages, pages.len() as int)
}

/// The pages that `fetch_page` may answer to a cursor.
pub open spec fn fetch_answers<T, F: Fn(Option<String>) -> Result<CollectionResponse<T>, Failure>>(
    fetch_page: F,
) -> spec_fn(Option<String>, CollectionResponse<T>) -> bool {
    |c: Option<String>, p: CollectionResponse<T>| call_ensures(fetch_page, (c,), Ok(p))
}

/// The failures that `fetch_page` may answer to a cursor.
pub open spec fn fetch_failures<T, F: Fn(Option<String>) -> Result<CollectionResponse<T>, Failure>>(
    fetch_page: F,
) -> spec_fn(Option<String>, Failure) -> bool {
    |c: Option<String>, e: Failure| call_ensures(fetch_page, (c,), Err(e))
}

/// The walk ended after the complete run `pages`, within `max_pages`
/// requests, and collected `items`.
pub open spec fn completed_with<T>(
    answers: spec_fn(Option<String>, CollectionResponse<T>) -> bool,
    max_pages: nat,
    pages: Seq<CollectionResponse<T>>,
    items: Seq<T>,
) -> bool {
    &&& is_complete_run(answers, pages)
    &&& pages.len() <= max_pages
    &&& items == items_of(pages)
}

/// The walk failed with `e` after the open run `pages`: either the next
/// request failed with `e`, or the page ceiling was reached.
pub open spec fn failed_after<T>(
    answers: spec_fn(Option<String>, CollectionResponse<T>) -> bool,
    fails: spec_fn(Option<String>, Failure) -> bool,
    max_pages: nat,
    pages: Seq<CollectionResponse<T>>,
    e: Failure,
) -> bool {
    &&& is_open_run(answers, pages)
    &&& pages.len() <= max_pages
    &&& {
        ||| pages.len() < max_pages && fails(cursor_after(pages), e)
        ||| pages.len() == max_pages && e == Failure::PageLimitExceeded
    }
}

/// What a walk with at most `max_pages` requests may end in: the items of a
/// complete run, or the failure that ended an open one. The run is the
/// sequence of requests made, one per page.
pub open spec fn pagination_outcome<T>(
    answers: spec_fn(Option<String>, CollectionResponse<T>) -> bool,
    fails: spec_fn(Option<String>, Failure) -> bool,
    max_pages: nat,
    r: Result<Vec<T>, Failure>,
) -> bool {
    match r {
        Ok(items) => exists|pages: Seq<CollectionResponse<T>>|
            #[trigger] completed_with(answers, max_pages, pages, items@),
        Err(e) => exists|pages: Seq<CollectionResponse<T>>|
            #[trigger] failed_after(answers, fails, max_pages, pages, e),
    }
}

proof fn lemma_items_of_push<T>(pages: Seq<CollectionResponse<T>>, page: CollectionResponse<T>)
    ensures
        items_of(pages.push(page)) == items_of(pages) + page.items@,
{
    assert(pages.push(page).drop_last() =~= pages);
}

proof fn lemma_run_push<T>(
    answers: spec_fn(Option<String>, CollectionResponse<T>) -> bool,
    pages: Seq<CollectionResponse<T>>,
    page: CollectionResponse<T>,
)
    requires
        is_open_run(answers, pages),
        answers(cursor_after(pages), page),
    ensures
        is_run(answers, pages.push(page)),
{
    let run = pages.push(page);
    assert forall|i: int| #![trigger run[i]] 0 <= i < run.len() implies {
        &&& answers(cursor_at(run, i), run[i])
        &&& (i + 1 < run.len() ==> run[i].next is Some)
    } by {
        if i < pages.len() {
            assert(run[i] == pages[i]);
            assert(cursor_at(run, i) == cursor_at(pages, i));
        }
    }
}

/// Reads a whole collection, page after page, and returns its items in the
/// order in which the pages delivered them.
///
/// `fetch_page` is asked for the first page with no cursor and then, while
/// the last page hands out a cursor, for the page that cursor locates; the
/// requests are strictly sequential. At most `max_pages` requests are made:
/// a collection that still hands out a cursor after that many pages fails
/// with `PageLimitExceeded` instead of looping on a cyclic cursor. The first
/// failed request ends the walk with its failure and no items.
pub fn paginate<T, F>(fetch_page: F, max_pages: usize) -> (r: Result<Vec<T>, Failure>) where
    F: Fn(Option<String>) -> Result<CollectionResponse<T>, Failure>,

    requires
        forall|c: Option<String>| call_requires(fetch_page, (c,)),
    ensures
        pagination_outcome(
            fetch_answers(fetch_page),
            fetch_failures(fetch_page),
            max_pages as nat,
            r,
        ),
{
    let ghost answers = fetch_answers(fetch_page);
    let ghost fails = fetch_failures(fetch_page);
    let ghost mut pages: Seq<CollectionResponse<T>> = Seq::empty();
    let mut items: Vec<T> = Vec::new();
    let mut cursor: Option<String> = None;
    let mut fetched: usize = 0;
    loop
        invariant
            forall|c: Option<String>| call_requires(fetch_page, (c,)),
            answers == fetch_answers(fetch_page),
            fails == fetch_failures(fetch_page),
            is_open_run(answers, pages),
            fetched == pages.len(),
            fetched <= max_pages,
            cursor == cursor_after(pages),
            items@ == items_of(pages),
        decreases max_pages - fetched,
    {
        if fetched == max_pages {
            assert(failed_after(answers, fails, max_pages as nat, pages, Failure::PageLimitExceeded));
            return Err(Failure::PageLimitExceeded);
        }
        let ghost asked = cursor;
        match fetch_page(cursor) {
            Err(e) => {
                assert(fails(asked, e));
                assert(failed_after(answers, fails, max_pages as nat, pages, e));
                return Err(e);
            },
            Ok(page) => {
                proof {
                    assert(answers(asked, page));
                    lemma_run_push(answers, pages, page);
                    lemma_items_of_push(pages, page);
                    pages = pages.push(page);
                }
                fetched = fetched + 1;
                let CollectionResponse { items: mut page_items, next, .. } = page;
                items.append(&mut page_items);
                match next {
                    None => {
                        assert(completed_with(answers, max_pages as nat, pages, items@));
                        let r: Result<Vec<T>, Failure> = Ok(items);
                        assert(r->Ok_0@ == items@);
                        return r;
                    },
                    Some(c) => {
                        cursor = Some(c);
                    },
                }
            },
        }
    }
}

/// `src` is a whole collection: at least one page, every page but the last
/// hands out a cursor, and the last hands out none.
pub open spec fn is_collection<T>(src: Seq<CollectionResponse<T>>) -> bool {
    &&& src.len() > 0
    &&& forall|i: int| #![trigger src[i]] 0 <= i < src.len() - 1 ==> src[i].next is Some
    &&& src.last().next is None
}

/// `answers` serves the collection `src` and nothing else: asked with the
/// cursor that precedes a page of `src`, it answers with that page.
pub open spec fn serves<T>(
    answers: spec_fn(Option<String>, CollectionResponse<T>) -> bool,
    src: Seq<CollectionResponse<T>>,
) -> bool {
    forall|i: int, p: CollectionResponse<T>|
        #![trigger src[i], answers(cursor_at(src, i), p)]
        0 <= i < src.len() && answers(cursor_at(src, i), p) ==> p == src[i]
}

/// A run over a collection that is served exactly follows the collection:
/// it is a prefix of it.
pub proof fn lemma_run_follows_collection<T>(
    answers: spec_fn(Option<String>, CollectionResponse<T>) -> bool,
    src: Seq<CollectionResponse<T>>,
    pages: Seq<CollectionResponse<T>>,
)
    requires
        is_collection(src),
        serves(answers, src),
        is_run(answers, pages),
    ensures
        pages.len() <= src.len(),
        pages =~= src.take(pages.len() as int),
    decreases pages.len(),
{
    if pages.len() > 0 {
        let n = pages.len() - 1;
        let front = pages.drop_last();
        assert forall|i: int| #![trigger front[i]] 0 <= i < front.len() implies {
            &&& answers(cursor_at(front, i), front[i])
            &&& (i + 1 < front.len() ==> front[i].next is Some)
        } by {
            assert(front[i] == pages[i]);
            assert(cursor_at(front, i) == cursor_at(pages, i));
        }
        lemma_run_follows_collection(answers, src, front);
        if n > 0 {
            assert(front[n - 1] == src[n - 1]);
        }
        assert(n < src.len());
        assert(cursor_at(pages, n) == cursor_at(src, n));
        assert(pages[n] == src[n]);
    }
}

/// A complete run over a collection that is served exactly is the
/// collection itself.
pub proof fn lemma_complete_run_is_collection<T>(
    answers: spec_fn(Option<String>, CollectionResponse<T>) -> bool,
    src: Seq<CollectionResponse<T>>,
    pages: Seq<CollectionResponse<T>>,
)
    requires
        is_collection(src),
        serves(answers, src),
        is_complete_run(answers, pages),
    ensures
        pages == src,
{
    lemma_run_follows_collection(answers, src, pages);
    let n = pages.len() - 1;
    assert(pages[n] == src[n]);
    assert(pages =~= src);
}

/// A walk over a collection that is served exactly, never fails, and fits
/// under the page ceiling does not fail.
pub proof fn lemma_served_walk_does_not_fail<T>(
    answers: spec_fn(Option<String>, CollectionResponse<T>) -> bool,
    fails: spec_fn(Option<String>, Failure) -> bool,
    src: Seq<CollectionResponse<T>>,
    max_pages: nat,
    pages: Seq<CollectionResponse<T>>,
    e: Failure,
)
    requires
        is_collection(src),
        serves(answers, src),
        forall|i: int, e: Failure| 0 <= i < src.len() ==> !#[trigger] fails(cursor_at(src, i), e),
        src.len() <= max_pages,
    ensures
        !failed_after(answers, fails, max_pages, pages, e),
{
    if failed_after(answers, fails, max_pages, pages, e) {
        lemma_run_follows_collection(answers, src, pages);
        if pages.len() > 0 {
            let n = pages.len() - 1;
            assert(pages[n] == src[n]);
            assert(n + 1 < src.len());
        }
        assert(cursor_after(pages) == cursor_at(src, pages.len() as int));
        assert(!fails(cursor_at(src, pages.len() as int), e));
    }
}

/// Pagination is complete: reading a collection that is served exactly and
/// never fails, with a page ceiling no lower than its number of pages,
/// yields all of its items in order, and the requests made were exactly one
/// per page of the collection.
pub proof fn lemma_paginate_collection<T>(
    answers: spec_fn(Option<String>, CollectionResponse<T>) -> bool,
    fails: spec_fn(Option<String>, Failure) -> bool,
    src: Seq<CollectionResponse<T>>,
    max_pages: nat,
    r: Result<Vec<T>, Failure>,
)
    requires
        is_collection(src),
        serves(answers, src),
        forall|i: int, e: Failure| 0 <= i < src.len() ==> !#[trigger] fails(cursor_at(src, i), e),
        src.len() <= max_pages,
        pagination_outcome(answers, fails, max_pages, r),
    ensures
        r is Ok,
        r->Ok_0@ == items_of(src),
        forall|pages: Seq<CollectionResponse<T>>|
            #[trigger] is_complete_run(answers, pages) ==> pages == src,
{
    assert forall|pages: Seq<CollectionResponse<T>>|
        #[trigger] is_complete_run(answers, pages) implies pages == src by {
        lemma_complete_run_is_collection(answers, src, pages);
    }
    match r {
        Ok(items) => {
            let pages = choose|pages: Seq<CollectionResponse<T>>|
                #[trigger] completed_with(answers, max_pages, pages, items@);
            assert(pages == src);
        },
        Err(e) => {
            let pages = choose|pages: Seq<CollectionResponse<T>>|
                #[trigger] failed_after(answers, fails, max_pages, pages, e);
            lemma_served_walk_does_not_fail(answers, fails, src, max_pages, pages, e);
        },
    }
}

/// A collection of one page, which hands out no cursor, yields that page's
/// items after exactly one request.
pub proof fn lemma_paginate_single_page<T>(
    answers: spec_fn(Option<String>, CollectionResponse<T>) -> bool,
    fails: spec_fn(Option<String>, Failure) -> bool,
    page: CollectionResponse<T>,
    max_pages: nat,
    r: Result<Vec<T>, Failure>,
)
    requires
        page.next is None,
        forall|p: CollectionResponse<T>| #[trigger] answers(None, p) ==> p == page,
        forall|e: Failure| !#[trigger] fails(None, e),
        max_pages >= 1,
        pagination_outcome(answers, fails, max_pages, r),
    ensures
        r is Ok,
        r->Ok_0@ == page.items@,
        forall|pages: Seq<CollectionResponse<T>>|
            #[trigger] is_complete_run(answers, pages) ==> pages.len() == 1,
{
    let src = seq![page];
    assert(src.last() == page);
    assert forall|i: int, p: CollectionResponse<T>|
        0 <= i < src.len() && #[trigger] answers(cursor_at(src, i), p) implies p == src[i] by {
        assert(cursor_at(src, i) == None::<String>);
    }
    assert forall|i: int, e: Failure| 0 <= i < src.len() implies !#[trigger] fails(cursor_at(src, i), e) by {
        assert(cursor_at(src, i) == None::<String>);
    }
    lemma_paginate_collection(answers, fails, src, max_pages, r);
    assert(items_of(src) =~= page.items@) by {
        assert(src.drop_last() =~= Seq::<CollectionResponse<T>>::empty());
        assert(items_of(src.drop_last()) =~= Seq::<T>::empty());
    }
}

} // verus!
