//! A reader for cursor-paginated collections.
//!
//! The reader never talks to the server. It accumulates the pages it is
//! given, hands their items out one by one, and says which link to follow
//! when the accumulated items are used up. The caller makes the request and
//! gives the answer to [`CollectionReader::fetch`].

use vstd::prelude::*;

verus! {

/// The paging annotations of a collection: its context and the link to the
/// next page, where there is one.
#[derive(Debug)]
pub struct OData {
    pub context: Option<String>,
    pub next_link: Option<String>,
}

impl Clone for OData {
    fn clone(&self) -> (r: Self)
        ensures
            text_of(r.context) == text_of(self.context),
            text_of(r.next_link) == text_of(self.next_link),
    {
        OData { context: self.context.clone(), next_link: self.next_link.clone() }
    }
}

/// One page of a paginated result set.
#[derive(Debug)]
pub struct Collection<T> {
    pub value: Vec<T>,
    pub odata: OData,
}

/// Why a page could not be had.
#[derive(Debug, Clone, Copy, PartialEq, Eq, Structural)]
pub enum FetchError {
    /// The request failed on the network or was answered with an HTTP error.
    Transport,
    /// The answer did not have the shape of a collection.
    Decode,
}

/// A page as a mathematical value: its items and the link that follows it.
pub struct Page<T> {
    pub items: Seq<T>,
    pub next_link: Option<Seq<char>>,
}

impl<T> Page<T> {
    /// The link to follow after this page when reading on: the link that
    /// came with it, unless the page is empty. An empty page ends the
    /// reading whatever link came with it.
    pub open spec fn continuation(self) -> Option<Seq<char>> {
        if self.items.len() == 0 {
            None
        } else {
            self.next_link
        }
    }
}

/// The characters of an optional string.
pub open spec fn text_of(s: Option<String>) -> Option<Seq<char>> {
    match s {
        Some(t) => Some(t@),
        None => None,
    }
}

impl<T> View for Collection<T> {
    type V = Page<T>;

    open spec fn view(&self) -> Page<T> {
        Page { items: self.value@, next_link: text_of(self.odata.next_link) }
    }
}

/// What the reader remembers of the page it was given last.
pub struct Mark {
    /// How many items that page held.
    pub len: nat,
    /// The link that followed it.
    pub next_link: Option<Seq<char>>,
}

/// What one pull on the reader gives.
pub enum Pull<T> {
    /// The next item of the sequence.
    Item(T),
    /// The accumulated items are used up: this link holds the next page.
    Fetch(Seq<char>),
    /// The sequence has ended.
    End,
}

/// The reader as a mathematical value.
pub struct ReaderState<T> {
    /// The page given last; `None` before the first.
    pub page: Option<Mark>,
    /// Every item of every page given so far, in the order given.
    pub items: Seq<T>,
    /// How many of `items` have been handed out.
    pub cursor: nat,
}

impl<T> ReaderState<T> {
    /// Whether the cursor lies within the accumulated items.
    pub open spec fn in_bounds(self) -> bool {
        self.cursor <= self.items.len()
    }

    /// A reader that has been given nothing.
    pub open spec fn initial() -> Self {
        ReaderState { page: None, items: Seq::empty(), cursor: 0 }
    }

    /// The reader after it was given `page`: the page replaces the one
    /// remembered, and its items follow those accumulated.
    pub open spec fn accept(self, page: Page<T>) -> Self {
        ReaderState {
            page: Some(Mark { len: page.items.len(), next_link: page.next_link }),
            items: self.items + page.items,
            cursor: self.cursor,
        }
    }

    /// Whether a page was given and a link followed it.
    pub open spec fn has_next_link(self) -> bool {
        self.page matches Some(m) && m.next_link is Some
    }

    /// The link to follow for the next page, where a page was given and a
    /// link followed it.
    pub open spec fn next_link(self) -> Option<Seq<char>> {
        match self.page {
            Some(m) => m.next_link,
            None => None,
        }
    }

    /// The link to follow once the accumulated items are used up: the link
    /// of the page given last, unless that page was empty or none was given.
    pub open spec fn continuation(self) -> Option<Seq<char>> {
        match self.page {
            Some(m) => if m.len == 0 {
                None
            } else {
                m.next_link
            },
            None => None,
        }
    }

    /// What the next pull gives. Before the first page, the end. Then the
    /// accumulated items come first. Once they are used up, an empty last
    /// page ends the sequence whatever link followed it; otherwise the link
    /// is to be fetched, and without a link the sequence ends.
    pub open spec fn pull(self) -> Pull<T> {
        if self.page is None {
            Pull::End
        } else if self.cursor < self.items.len() {
            Pull::Item(self.items[self.cursor as int])
        } else {
            match self.continuation() {
                Some(url) => Pull::Fetch(url),
                None => Pull::End,
            }
        }
    }

    /// The reader after one pull: an item handed out moves the cursor, and
    /// nothing else changes anything.
    pub open spec fn pulled(self) -> Self {
        if self.pull() is Item {
            ReaderState { cursor: self.cursor + 1, ..self }
        } else {
            self
        }
    }

    /// Everything that pulling hands out until the sequence ends, where each
    /// fetch is answered with the next page of `feed`, and the reader at that
    /// end. A fetch that `feed` cannot answer ends the run.
    pub open spec fn drain(self, feed: Seq<Page<T>>) -> (Seq<T>, Self)
        decreases feed.len(), self.items.len() - self.cursor,
    {
        match self.pull() {
            Pull::Item(x) => {
                let (rest, end) = self.pulled().drain(feed);
                (seq![x] + rest, end)
            },
            Pull::Fetch(_) => if feed.len() == 0 {
                (Seq::empty(), self)
            } else {
                self.accept(feed[0]).drain(feed.drop_first())
            },
            Pull::End => (Seq::empty(), self),
        }
    }
}

/// The items of `pages`, page after page.
pub open spec fn concat_pages<T>(pages: Seq<Page<T>>) -> Seq<T>
    decreases pages.len(),
{
    if pages.len() == 0 {
        Seq::empty()
    } else {
        pages[0].items + concat_pages(pages.drop_first())
    }
}

/// Whether `pages` is a chain as a server sends it: every page but the last
/// holds items and a link, and no link follows the last.
pub open spec fn is_chain<T>(pages: Seq<Page<T>>) -> bool {
    &&& pages.len() >= 1
    &&& pages.last().next_link is None
    &&& forall|i: int|
        0 <= i < pages.len() - 1 ==> (#[trigger] pages[i]).next_link is Some && pages[i].items.len()
            > 0
}

/// What [`CollectionReader::next`] hands out.
#[derive(Debug)]
pub enum ReaderStep<'a, T> {
    /// The next item.
    Item(&'a T),
    /// The accumulated items are used up: request this link, give the page
    /// to `fetch`, and pull again.
    Fetch(String),
    /// The sequence has ended.
    End,
}

impl<'a, T> View for ReaderStep<'a, T> {
    type V = Pull<T>;

    open spec fn view(&self) -> Pull<T> {
        match self {
            ReaderStep::Item(x) => Pull::Item(**x),
            ReaderStep::Fetch(url) => Pull::Fetch(url@),
            ReaderStep::End => Pull::End,
        }
    }
}

/// Reads a paginated collection page by page and hands its items out in
/// order.
pub struct CollectionReader<T> {
    /// Whether a page was given yet.
    fetched: bool,
    /// The number of items of the page given last.
    page_len: usize,
    /// The annotations of the page given last.
    odata: OData,
    /// Every item given so far.
    items: Vec<T>,
    /// The index in `items` of the next item to hand out.
    iter_index: usize,
}

impl<T> View for CollectionReader<T> {
    type V = ReaderState<T>;

    closed spec fn view(&self) -> ReaderState<T> {
        ReaderState {
            page: if self.fetched {
                Some(Mark { len: self.page_len as nat, next_link: text_of(self.odata.next_link) })
            } else {
                None
            },
            items: self.items@,
            cursor: self.iter_index as nat,
        }
    }
}

impl<T> CollectionReader<T> {
    /// A reader that has been given nothing.
    pub fn new() -> (r: Self)
        ensures
            r@ == ReaderState::<T>::initial(),
    {
        CollectionReader {
            fetched: false,
            page_len: 0,
            odata: OData { context: None, next_link: None },
            items: Vec::new(),
            iter_index: 0,
        }
    }

    /// Takes the answer to a request for a page. A page replaces the one
    /// remembered, its items follow those accumulated, and their number is
    /// returned. A failure is handed back and changes nothing.
    pub fn fetch(&mut self, response: Result<Collection<T>, FetchError>) -> (r: Result<
        usize,
        FetchError,
    >)
        ensures
            match response {
                Ok(page) => r == Ok::<usize, FetchError>(page.value.len()) && final(self)@
                    == old(self)@.accept(page@),
                Err(e) => r == Err::<usize, FetchError>(e) && final(self)@ == old(self)@,
            },
    {
        match response {
            Ok(page) => {
                let Collection { value, odata } = page;
                let mut value = value;
                let count = value.len();
                self.items.append(&mut value);
                self.fetched = true;
                self.page_len = count;
                self.odata = odata;
                Ok(count)
            },
            Err(e) => Err(e),
        }
    }

    /// The link to request for the next page: `None` before the first page
    /// and after a page that no link followed. Nothing is changed: the page
    /// that the link gives goes to `fetch`.
    pub fn fetch_next(&self) -> (r: Option<String>)
        ensures
            text_of(r) == self@.next_link(),
    {
        if !self.fetched {
            return None;
        }
        self.odata.next_link.clone()
    }

    /// Whether a page was given and a link followed it.
    pub fn has_next_link(&self) -> (r: bool)
        ensures
            r == self@.has_next_link(),
    {
        self.fetched && self.odata.next_link.is_some()
    }

    /// The link to follow once the accumulated items are used up: the link
    /// of the page given last, unless that page was empty or none was given.
    pub fn continuation(&self) -> (r: Option<String>)
        ensures
            text_of(r) == self@.continuation(),
    {
        if !self.fetched || self.page_len == 0 {
            return None;
        }
        self.odata.next_link.clone()
    }

    /// Every item given so far, handed out or not.
    pub fn items(&self) -> (r: &Vec<T>)
        ensures
            r@ == self@.items,
    {
        &self.items
    }

    /// Gives up the reader for the items it accumulated.
    pub fn into_items(self) -> (r: Vec<T>)
        ensures
            r@ == self@.items,
    {
        self.items
    }

    /// Pulls once: the next item, the link to fetch, or the end.
    pub fn next(&mut self) -> (r: ReaderStep<'_, T>)
        ensures
            r@ == old(self)@.pull(),
            final(self)@ == old(self)@.pulled(),
    {
        if !self.fetched {
            return ReaderStep::End;
        }
        if self.iter_index < self.items.len() {
            let at = self.iter_index;
            self.iter_index = at + 1;
            return ReaderStep::Item(&self.items[at]);
        }
        if self.page_len == 0 {
            return ReaderStep::End;
        }
        match &self.odata.next_link {
            Some(url) => ReaderStep::Fetch(url.clone()),
            None => ReaderStep::End,
        }
    }
}

/// The cursor never leaves the accumulated items: a new reader has it within
/// them, and neither a page given nor a pull moves it out.
pub proof fn lemma_cursor_stays_in_bounds<T>(s: ReaderState<T>, page: Page<T>)
    requires
        s.in_bounds(),
    ensures
        ReaderState::<T>::initial().in_bounds(),
        s.accept(page).in_bounds(),
        s.pulled().in_bounds(),
        s.accept(page).items.len() >= s.items.len(),
        s.pulled().items == s.items,
{
}

/// A first page without items ends the sequence at once, whatever link
/// follows it and whatever the server would answer.
pub proof fn lemma_empty_first_page_ends<T>(page: Page<T>, feed: Seq<Page<T>>)
    requires
        page.items.len() == 0,
    ensures
        ReaderState::<T>::initial().accept(page).pull() is End,
        ReaderState::<T>::initial().accept(page).drain(feed).0 == Seq::<T>::empty(),
{
    let s = ReaderState::<T>::initial().accept(page);
    assert(s.items.len() == 0);
}

/// Draining hands out the items not yet handed out, then what a reader with
/// nothing left would hand out.
proof fn lemma_drain_pending<T>(s: ReaderState<T>, feed: Seq<Page<T>>)
    requires
        s.page is Some,
        s.in_bounds(),
    ensures
        s.drain(feed).0 == s.items.skip(s.cursor as int) + (ReaderState {
            cursor: s.items.len(),
            ..s
        }).drain(feed).0,
        s.drain(feed).1 == (ReaderState { cursor: s.items.len(), ..s }).drain(feed).1,
    decreases s.items.len() - s.cursor,
{
    let end = ReaderState { cursor: s.items.len(), ..s };
    if s.cursor < s.items.len() {
        let next = s.pulled();
        lemma_drain_pending(next, feed);
        assert(ReaderState { cursor: next.items.len(), ..next } == end);
        assert(s.items.skip(s.cursor as int) =~= seq![s.items[s.cursor as int]] + next.items.skip(
            next.cursor as int,
        ));
        assert(s.drain(feed).0 =~= s.items.skip(s.cursor as int) + end.drain(feed).0);
    } else {
        assert(s == end);
        assert(s.items.skip(s.cursor as int) =~= Seq::<T>::empty());
        assert(s.drain(feed).0 =~= s.items.skip(s.cursor as int) + end.drain(feed).0);
    }
}

/// Whether `feed` continues the chain after a page remembered as `mark`.
spec fn continues<T>(mark: Mark, feed: Seq<Page<T>>) -> bool {
    if feed.len() == 0 {
        mark.next_link is None
    } else {
        mark.len > 0 && mark.next_link is Some && is_chain(feed)
    }
}

/// A reader with nothing left, fed the rest of a chain, hands out the rest
/// of the chain and ends.
proof fn lemma_drain_rest<T>(s: ReaderState<T>, feed: Seq<Page<T>>)
    requires
        s.page is Some,
        s.cursor == s.items.len(),
        continues(s.page->0, feed),
    ensures
        s.drain(feed).0 == concat_pages(feed),
        s.drain(feed).1.pull() is End,
        s.drain(feed).1.items == s.items + concat_pages(feed),
    decreases feed.len(),
{
    if feed.len() == 0 {
        assert(s.items + concat_pages(feed) =~= s.items);
    } else {
        let first = feed[0];
        let rest = feed.drop_first();
        let given = s.accept(first);
        let used = ReaderState { cursor: given.items.len(), ..given };
        assert(continues(used.page->0, rest)) by {
            if rest.len() == 0 {
                assert(feed.last() == first);
            } else {
                assert(rest.last() == feed.last());
                assert forall|i: int| 0 <= i < rest.len() - 1 implies (#[trigger] rest[i]).next_link
                    is Some && rest[i].items.len() > 0 by {
                    assert(rest[i] == feed[i + 1]);
                }
            }
        }
        lemma_drain_pending(given, rest);
        lemma_drain_rest(used, rest);
        assert(given.items.skip(given.cursor as int) =~= first.items);
        assert(s.drain(feed).0 =~= concat_pages(feed));
        assert(s.drain(feed).1.items =~= s.items + concat_pages(feed));
    }
}

/// Draining a reader that is given the first page of a chain, and is fed the
/// others as it asks for them, hands out every item of every page, in the
/// order of the pages. It ends there: drained once more, whatever the feed,
/// it hands out nothing.
pub proof fn lemma_drain_yields_chain<T>(pages: Seq<Page<T>>, again: Seq<Page<T>>)
    requires
        is_chain(pages),
    ensures
        ReaderState::<T>::initial().accept(pages[0]).drain(pages.drop_first()).0 == concat_pages(
            pages,
        ),
        ReaderState::<T>::initial().accept(pages[0]).drain(pages.drop_first()).1.pull() is End,
        ReaderState::<T>::initial().accept(pages[0]).drain(pages.drop_first()).1.drain(again).0
            == Seq::<T>::empty(),
{
    let first = pages[0];
    let rest = pages.drop_first();
    let given = ReaderState::<T>::initial().accept(first);
    let used = ReaderState { cursor: given.items.len(), ..given };
    assert(continues(used.page->0, rest)) by {
        if rest.len() == 0 {
            assert(pages.last() == first);
        } else {
            assert(rest.last() == pages.last());
            assert forall|i: int| 0 <= i < rest.len() - 1 implies (#[trigger] rest[i]).next_link
                is Some && rest[i].items.len() > 0 by {
                assert(rest[i] == pages[i + 1]);
            }
        }
    }
    lemma_drain_pending(given, rest);
    lemma_drain_rest(used, rest);
    assert(given.items.skip(given.cursor as int) =~= first.items);
    assert(given.drain(rest).0 =~= concat_pages(pages));
}

} // verus!
