//! The pagination driver: follows continuation tokens from page to page and
//! gathers the items of every page in fetch order.

use vstd::prelude::*;
use crate::error::{FetchError, FetchErrorView};
use crate::item::{Shareable, ShareableView};

verus! {

/// One response of a source, already normalized.
#[derive(Debug)]
pub struct Page {
    pub items: Vec<Shareable>,
    /// The token to ask the next page with; `None` once the source is exhausted.
    pub next_cursor: Option<String>,
}

/// What a `Page` stands for.
pub struct PageView {
    pub items: Seq<ShareableView>,
    pub next_cursor: Option<Seq<char>>,
}

/// What an optional text stands for.
pub open spec fn text_of(t: Option<String>) -> Option<Seq<char>> {
    match t {
        Some(s) => Some(s@),
        None => None,
    }
}

impl View for Page {
    type V = PageView;

    open spec fn view(&self) -> PageView {
        PageView { items: self.items.deep_view(), next_cursor: text_of(self.next_cursor) }
    }
}

/// What a response of a source stands for.
pub open spec fn response_view(r: Result<Page, FetchError>) -> Result<PageView, FetchErrorView> {
    match r {
        Ok(page) => Ok(page@),
        Err(e) => Err(e@),
    }
}

/// What a chain of responses stands for.
pub open spec fn responses_view(rs: Seq<Result<Page, FetchError>>) -> Seq<
    Result<PageView, FetchErrorView>,
> {
    rs.map_values(|r: Result<Page, FetchError>| response_view(r))
}

/// What a fetch result stands for.
pub open spec fn fetched_view(r: Result<Vec<Shareable>, FetchError>) -> Result<
    Seq<ShareableView>,
    FetchErrorView,
> {
    match r {
        Ok(items) => Ok(items.deep_view()),
        Err(e) => Err(e@),
    }
}

/// The number of pages a driver asks for at most, unless told otherwise.
pub const DEFAULT_PAGE_CEILING: usize = 1000;

/// What the driver asks the source for next.
#[derive(Debug)]
pub struct PageRequest {
    /// The token of the page before; `None` for the first page.
    pub cursor: Option<String>,
}

/// The state of one paged fetch.
#[derive(Debug)]
pub struct Pager {
    items: Vec<Shareable>,
    cursor: Option<String>,
    fetched: usize,
    ceiling: usize,
    exhausted: bool,
    failure: Option<FetchError>,
}

/// What a `Pager` stands for.
pub struct PagerView {
    /// The items of the pages taken so far, in fetch order.
    pub items: Seq<ShareableView>,
    /// The token that the last page carried.
    pub cursor: Option<Seq<char>>,
    /// The number of pages taken so far.
    pub fetched: nat,
    /// The number of pages taken at most.
    pub ceiling: nat,
    /// Whether the last page carried no token.
    pub exhausted: bool,
    /// The failure that ended the fetch, if one did.
    pub failure: Option<FetchErrorView>,
}

/// The driver before its first request.
pub open spec fn pager_start(ceiling: nat) -> PagerView {
    PagerView {
        items: Seq::empty(),
        cursor: None,
        fetched: 0,
        ceiling,
        exhausted: false,
        failure: None,
    }
}

/// Whether the driver asks for another page: the source is not exhausted,
/// no fetch has failed and the ceiling is not reached.
pub open spec fn wants_page(p: PagerView) -> bool {
    !p.exhausted && p.failure is None && p.fetched < p.ceiling
}

/// The driver after the response `r` to its request. A driver that asks for
/// no page stays as it is.
pub open spec fn pager_accept(p: PagerView, r: Result<PageView, FetchErrorView>) -> PagerView {
    if !wants_page(p) {
        p
    } else {
        match r {
            Ok(page) => PagerView {
                items: p.items + page.items,
                cursor: page.next_cursor,
                fetched: p.fetched + 1,
                exhausted: page.next_cursor is None,
                ..p
            },
            Err(e) => PagerView { failure: Some(e), ..p },
        }
    }
}

/// The driver after the responses `rs`, taken in order.
pub open spec fn pager_run(p: PagerView, rs: Seq<Result<PageView, FetchErrorView>>) -> PagerView
    decreases rs.len(),
{
    if rs.len() == 0 {
        p
    } else {
        pager_run(pager_accept(p, rs.first()), rs.drop_first())
    }
}

/// What the fetch comes to: the failure if one page failed, else the items
/// gathered.
pub open spec fn pager_result(p: PagerView) -> Result<Seq<ShareableView>, FetchErrorView> {
    match p.failure {
        Some(e) => Err(e),
        None => Ok(p.items),
    }
}

/// The views of two vectors put together are the view of the whole.
proof fn lemma_deep_view_concat(a: Vec<Shareable>, b: Vec<Shareable>, ab: Vec<Shareable>)
    requires
        ab@ == a@ + b@,
    ensures
        ab.deep_view() == a.deep_view() + b.deep_view(),
{
    assert(ab.deep_view() =~= a.deep_view() + b.deep_view());
}

impl View for Pager {
    type V = PagerView;

    closed spec fn view(&self) -> PagerView {
        PagerView {
            items: self.items.deep_view(),
            cursor: text_of(self.cursor),
            fetched: self.fetched as nat,
            ceiling: self.ceiling as nat,
            exhausted: self.exhausted,
            failure: match self.failure {
                Some(e) => Some(e@),
                None => None,
            },
        }
    }
}

impl Pager {
    /// A driver that has asked for nothing yet and takes `ceiling` pages at most.
    pub fn new(ceiling: usize) -> (p: Pager)
        ensures
            p@ == pager_start(ceiling as nat),
    {
        let p = Pager {
            items: Vec::new(),
            cursor: None,
            fetched: 0,
            ceiling,
            exhausted: false,
            failure: None,
        };
        assert(p.items.deep_view() =~= Seq::empty());
        p
    }

    /// Whether the driver asks for another page.
    pub fn wants_page(&self) -> (r: bool)
        ensures
            r == wants_page(self@),
    {
        !self.exhausted && self.failure.is_none() && self.fetched < self.ceiling
    }

    /// The request to send next, or `None` when the fetch is over.
    pub fn next_request(&self) -> (r: Option<PageRequest>)
        ensures
            r is Some == wants_page(self@),
            r matches Some(req) ==> text_of(req.cursor) == self@.cursor,
    {
        if self.wants_page() {
            Some(PageRequest { cursor: self.cursor.clone() })
        } else {
            None
        }
    }

    /// The number of pages taken so far.
    pub fn fetched(&self) -> (n: usize)
        ensures
            n == self@.fetched,
    {
        self.fetched
    }

    /// Takes the response to the last request.
    pub fn accept(&mut self, response: Result<Page, FetchError>)
        ensures
            final(self)@ == pager_accept(old(self)@, response_view(response)),
    {
        if !self.wants_page() {
            return ;
        }
        match response {
            Ok(page) => {
                let ghost before = self.items;
                let Page { items, next_cursor } = page;
                let mut items = items;
                let ghost added = items;
                self.items.append(&mut items);
                proof {
                    lemma_deep_view_concat(before, added, self.items);
                }
                self.exhausted = next_cursor.is_none();
                self.cursor = next_cursor;
                self.fetched = self.fetched + 1;
            },
            Err(e) => {
                self.failure = Some(e);
            },
        }
    }

    /// Ends the fetch: the failure if one page failed, else the items gathered.
    pub fn finish(self) -> (r: Result<Vec<Shareable>, FetchError>)
        ensures
            fetched_view(r) == pager_result(self@),
    {
        match self.failure {
            Some(e) => Err(e),
            None => Ok(self.items),
        }
    }
}

/// Replays a recorded chain of responses through a driver that takes
/// `ceiling` pages at most, and ends the fetch.
pub fn drive(responses: Vec<Result<Page, FetchError>>, ceiling: usize) -> (r: Result<
    Vec<Shareable>,
    FetchError,
>)
    ensures
        fetched_view(r) == pager_result(
            pager_run(pager_start(ceiling as nat), responses_view(responses@)),
        ),
{
    let mut pager = Pager::new(ceiling);
    let ghost rs = responses_view(responses@);
    assert(rs.skip(0) =~= rs);
    for response in it: responses
        invariant
            it.seq() == responses@,
            rs == responses_view(responses@),
            pager_run(pager@, rs.skip(it.index())) == pager_run(pager_start(ceiling as nat), rs),
    {
        proof {
            let rest = rs.skip(it.index());
            assert(rest.first() == response_view(response));
            assert(rest.drop_first() =~= rs.skip(it.index() + 1));
        }
        pager.accept(response);
    }
    pager.finish()
}

/// The items of each page of `pages`.
pub open spec fn page_items(pages: Seq<PageView>) -> Seq<Seq<ShareableView>> {
    pages.map_values(|p: PageView| p.items)
}

/// The responses of a source that serves `pages` without failure.
pub open spec fn served(pages: Seq<PageView>) -> Seq<Result<PageView, FetchErrorView>> {
    pages.map_values(|p: PageView| Ok::<PageView, FetchErrorView>(p))
}

/// `pages` is a whole result set: every page but the last carries a token,
/// the last carries none.
pub open spec fn is_chain(pages: Seq<PageView>) -> bool {
    &&& pages.len() > 0
    &&& forall|i: int| 0 <= i < pages.len() - 1 ==> (#[trigger] pages[i]).next_cursor is Some
    &&& pages.last().next_cursor is None
}

/// A driver that still asks for pages and has room under its ceiling for a
/// whole chain takes every page of it, adds their items in page order to
/// what it holds, and then asks for no more.
pub proof fn lemma_run_chain(p: PagerView, pages: Seq<PageView>)
    requires
        wants_page(p),
        is_chain(pages),
        p.fetched + pages.len() <= p.ceiling,
    ensures
        pager_run(p, served(pages)).items == p.items + page_items(pages).flatten(),
        pager_run(p, served(pages)).fetched == p.fetched + pages.len(),
        pager_run(p, served(pages)).exhausted,
        pager_run(p, served(pages)).failure is None,
        pager_run(p, served(pages)).ceiling == p.ceiling,
    decreases pages.len(),
{
    let rs = served(pages);
    let next = pager_accept(p, rs.first());
    let rest = pages.drop_first();
    assert(rs.drop_first() =~= served(rest));
    assert(page_items(pages).drop_first() =~= page_items(rest));
    assert(page_items(pages).first() == pages.first().items);
    if rest.len() == 0 {
        assert(pages.first() == pages.last());
        assert(pager_run(next, served(rest)) == next);
        assert(page_items(rest).flatten() =~= Seq::<ShareableView>::empty());
        assert(next.items =~= p.items + page_items(pages).flatten());
    } else {
        assert(pages[0].next_cursor is Some);
        assert(rest.last() == pages.last());
        assert forall|i: int| 0 <= i < rest.len() - 1 implies (#[trigger] rest[i]).next_cursor
            is Some by {
            assert(rest[i] == pages[i + 1]);
        }
        lemma_run_chain(next, rest);
        assert(p.items + pages.first().items + page_items(rest).flatten() =~= p.items + (
        pages.first().items + page_items(rest).flatten()));
    }
}

/// Pagination returns the concatenation: a driver fed a whole result set that
/// fits under its ceiling ends with exactly the items of all its pages, in
/// page order, and asks for nothing further.
pub proof fn lemma_pagination_concatenates(pages: Seq<PageView>, ceiling: nat)
    requires
        is_chain(pages),
        pages.len() <= ceiling,
    ensures
        pager_result(pager_run(pager_start(ceiling), served(pages))) == Ok::<
            Seq<ShareableView>,
            FetchErrorView,
        >(page_items(pages).flatten()),
        !wants_page(pager_run(pager_start(ceiling), served(pages))),
        pager_run(pager_start(ceiling), served(pages)).fetched == pages.len(),
{
    lemma_run_chain(pager_start(ceiling), pages);
    assert(Seq::<ShareableView>::empty() + page_items(pages).flatten() =~= page_items(
        pages,
    ).flatten());
}

/// Pagination ends: whatever the source answers, a driver never takes more
/// pages than its ceiling allows.
pub proof fn lemma_pager_bounded(p: PagerView, rs: Seq<Result<PageView, FetchErrorView>>)
    requires
        p.fetched <= p.ceiling,
    ensures
        pager_run(p, rs).fetched <= p.ceiling,
        pager_run(p, rs).ceiling == p.ceiling,
        pager_run(p, rs).fetched <= p.fetched + rs.len(),
    decreases rs.len(),
{
    if rs.len() > 0 {
        lemma_pager_bounded(pager_accept(p, rs.first()), rs.drop_first());
    }
}

/// Whether the driver goes on, and with which token, depends on the token of
/// the page alone: a page whose items were all left out is followed like any
/// other.
pub proof fn lemma_continuation_ignores_items(p: PagerView, page: PageView)
    requires
        wants_page(p),
    ensures
        pager_accept(p, Ok(page)).cursor == page.next_cursor,
        wants_page(pager_accept(p, Ok(page))) == (page.next_cursor is Some && p.fetched + 1
            < p.ceiling),
{
}

/// Once a page has failed, the fetch comes to that failure whatever follows.
pub proof fn lemma_failure_is_final(p: PagerView, rs: Seq<Result<PageView, FetchErrorView>>)
    requires
        p.failure is Some,
    ensures
        pager_run(p, rs) == p,
    decreases rs.len(),
{
    if rs.len() > 0 {
        lemma_failure_is_final(p, rs.drop_first());
    }
}

} // verus!
