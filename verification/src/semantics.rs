//! What a crawl gathers from a given server, and that the crawler gathers
//! exactly that.
//!
//! A server is a function from requests to answers. Reading a listing to
//! its end, descending into what it holds, and putting the tree together is
//! written down here directly, as a function of the server. The steps of the
//! crawler are then shown to arrive at the same tree, with the same failures
//! recorded in the same order.

use vstd::prelude::*;
use crate::crawler::{
    work_of,
    CrawlState,
    FailedBranch,
    FilterView,
    FlightView,
    RequestView,
    WorkView,
};
use crate::listing::{EntryView, Kind};
use crate::reader::{concat_pages, is_chain, FetchError, Page};
use crate::soundness::{all_kept, notebooks_urls, page_urls, sections_urls};
use crate::tree::{NotebookView, PageView, SectionView};

verus! {

/// The crawl after one request was named, made, and answered by `server`.
/// A crawl with nothing left to ask for stays as it is.
pub open spec fn step(
    s: CrawlState,
    server: spec_fn(RequestView) -> Result<Page<EntryView>, FetchError>,
) -> CrawlState {
    match s.request() {
        Some(r) => s.launched().handled(server(r)),
        None => s,
    }
}

/// The crawl after `n` steps against `server`.
pub open spec fn run(
    s: CrawlState,
    server: spec_fn(RequestView) -> Result<Page<EntryView>, FetchError>,
    n: nat,
) -> CrawlState
    decreases n,
{
    if n == 0 {
        s
    } else {
        run(step(s, server), server, (n - 1) as nat)
    }
}

/// Steps made in two stretches are steps made in one.
pub proof fn lemma_run_in_stretches(
    s: CrawlState,
    server: spec_fn(RequestView) -> Result<Page<EntryView>, FetchError>,
    a: nat,
    b: nat,
)
    ensures
        run(s, server, a + b) == run(run(s, server, a), server, b),
    decreases a,
{
    if a > 0 {
        lemma_run_in_stretches(step(s, server), server, (a - 1) as nat, b);
    }
}

/// Whether the entry is of the kind and comes without children.
pub open spec fn is_kind(e: EntryView, kind: Kind) -> bool {
    match e {
        EntryView::Notebook(n) => kind == Kind::Notebook && n.sections.len() == 0,
        EntryView::Section(s) => kind == Kind::Section && s.pages.len() == 0,
        EntryView::Group(_) => kind == Kind::Group,
        EntryView::Page(_) => kind == Kind::Page,
    }
}

/// Whether every entry of `es` is of the kind and comes without children.
pub open spec fn all_kind(es: Seq<EntryView>, kind: Kind) -> bool {
    forall|i: int| 0 <= i < es.len() ==> is_kind(#[trigger] es[i], kind)
}

/// What reading a listing to its end gives: the entries of its pages, in the
/// order of the pages, and the failure that ended it, if one did.
pub struct Reading {
    pub entries: Seq<EntryView>,
    pub failures: Seq<FailedBranch>,
}

/// Reading the listing of `kind` from `request` on, following at most
/// `fuel` links. A failure ends the listing with what came before it and is
/// recorded; an empty page or a page without a link ends it as well. `None`
/// where the links do not end within `fuel`, or a page holds an entry of
/// another kind or one that comes with children.
pub open spec fn read(
    server: spec_fn(RequestView) -> Result<Page<EntryView>, FetchError>,
    kind: Kind,
    request: RequestView,
    fuel: nat,
) -> Option<Reading>
    decreases fuel,
{
    if fuel == 0 {
        None
    } else {
        match server(request) {
            Err(e) => Some(
                Reading {
                    entries: Seq::empty(),
                    failures: seq![FailedBranch { request, error: e }],
                },
            ),
            Ok(page) => if !all_kind(page.items, kind) {
                None
            } else {
                match page.continuation() {
                    None => Some(Reading { entries: page.items, failures: Seq::empty() }),
                    Some(url) => match read(
                        server,
                        kind,
                        RequestView::Follow(url),
                        (fuel - 1) as nat,
                    ) {
                        Some(r) => Some(
                            Reading { entries: page.items + r.entries, failures: r.failures },
                        ),
                        None => None,
                    },
                }
            },
        }
    }
}

/// The crawl `s` with its listing waiting for the answer to `request`,
/// after a first page or not.
spec fn awaiting(s: CrawlState, request: RequestView, first: bool) -> CrawlState {
    match s.flight {
        Some(f) => CrawlState { flight: Some(FlightView { request, first, ..f }), ..s },
        None => s,
    }
}

/// The crawl `s` with `failures` recorded after those it has.
pub open spec fn warned(s: CrawlState, failures: Seq<FailedBranch>) -> CrawlState {
    CrawlState { warnings: s.warnings + failures, ..s }
}

/// Entries taken in batch after batch are taken in as if in one batch.
proof fn lemma_batches(s: CrawlState, a: Seq<EntryView>, b: Seq<EntryView>)
    ensures
        s.with_entries(a + b) == s.with_entries(a).with_entries(b),
    decreases b.len(),
{
    if b.len() == 0 {
        assert(a + b =~= a);
    } else {
        lemma_batches(s, a, b.drop_last());
        assert((a + b).drop_last() =~= a + b.drop_last());
        assert((a + b).last() == b.last());
    }
}

/// What a listing waits for, and what failures are recorded, has no part in
/// how its entries are taken in.
proof fn lemma_entries_apart(
    s: CrawlState,
    request: RequestView,
    first: bool,
    failures: Seq<FailedBranch>,
    es: Seq<EntryView>,
)
    requires
        s.flight is Some,
    ensures
        s.with_entries(es).flight is Some,
        s.with_entries(es).todo == s.todo,
        s.with_entries(es).warnings == s.warnings,
        s.with_entries(es).filter == s.filter,
        s.with_entries(es).flight->0.kind == s.flight->0.kind,
        s.with_entries(es).flight->0.root == s.flight->0.root,
        awaiting(s, request, first).with_entries(es) == awaiting(
            s.with_entries(es),
            request,
            first,
        ),
        warned(s, failures).with_entries(es) == warned(s.with_entries(es), failures),
    decreases es.len(),
{
    if es.len() > 0 {
        lemma_entries_apart(s, request, first, failures, es.drop_last());
    }
}

/// The crawl after the pages `pages` arrived one after another, each as the
/// answer to the request named before it.
pub open spec fn fed(s: CrawlState, pages: Seq<Page<EntryView>>) -> CrawlState
    decreases pages.len(),
{
    if pages.len() == 0 {
        s
    } else {
        fed(s.handled(Ok(pages[0])), pages.drop_first())
    }
}

/// A listing is read to its last page before the crawl descends. Where the
/// pages of a chain arrive one after another, the crawl takes in every
/// entry of every page, in the order of the pages, and the listing ends
/// with the last page. Until then nothing is descended into, and after
/// each page but the last the crawl asks for the link that followed it.
pub proof fn lemma_chain_is_read_to_its_end(s: CrawlState, pages: Seq<Page<EntryView>>)
    requires
        s.flight is Some,
        is_chain(pages),
    ensures
        fed(s, pages) == s.with_entries(concat_pages(pages)).landed(),
        forall|i: int|
            0 <= i < pages.len() - 1 ==> {
                &&& (#[trigger] fed(s, pages.take(i + 1))).todo == s.todo
                &&& fed(s, pages.take(i + 1)).request() == Some(
                    RequestView::Follow(pages[i].next_link->0),
                )
            },
    decreases pages.len(),
{
    let first = pages[0];
    let rest = pages.drop_first();
    let f = s.flight->0;
    lemma_entries_apart(s, f.request, f.first, Seq::empty(), first.items);
    if pages.len() == 1 {
        assert(pages.last() == first);
        assert(concat_pages(rest) =~= Seq::<EntryView>::empty());
        assert(concat_pages(pages) =~= first.items);
        assert(fed(s.handled(Ok(first)), rest) == s.handled(Ok(first)));
    } else {
        let url = first.next_link->0;
        let next = s.handled(Ok(first));
        assert(next == awaiting(s.with_entries(first.items), RequestView::Follow(url), false));
        assert(is_chain(rest)) by {
            assert(rest.last() == pages.last());
            assert forall|i: int| 0 <= i < rest.len() - 1 implies (#[trigger] rest[i]).next_link
                is Some && rest[i].items.len() > 0 by {
                assert(rest[i] == pages[i + 1]);
            }
        }
        lemma_chain_is_read_to_its_end(next, rest);
        lemma_entries_apart(
            s.with_entries(first.items),
            RequestView::Follow(url),
            false,
            Seq::empty(),
            concat_pages(rest),
        );
        lemma_batches(s, first.items, concat_pages(rest));
        assert forall|i: int| 0 <= i < pages.len() - 1 implies {
            &&& (#[trigger] fed(s, pages.take(i + 1))).todo == s.todo
            &&& fed(s, pages.take(i + 1)).request() == Some(
                RequestView::Follow(pages[i].next_link->0),
            )
        } by {
            let upto = pages.take(i + 1);
            assert(upto[0] == first);
            assert(upto.drop_first() =~= rest.take(i));
            if i == 0 {
                assert(fed(next, rest.take(0)) == next);
            } else {
                assert(fed(next, rest.take((i - 1) + 1)).todo == next.todo);
                assert(rest[i - 1] == pages[i]);
            }
        }
    }
}

/// The crawler reads a listing as `read` does. From a crawl whose listing
/// waits for an answer, and whose failure would not end the whole crawl,
/// some steps lead to the crawl that has taken in every entry read, has
/// recorded the failures met, and has ended the listing.
pub proof fn lemma_listing_is_read(
    s: CrawlState,
    server: spec_fn(RequestView) -> Result<Page<EntryView>, FetchError>,
    fuel: nat,
) -> (n: nat)
    requires
        s.flight is Some,
        !(s.flight->0.root && s.flight->0.first && server(s.flight->0.request) is Err),
        read(server, s.flight->0.kind, s.flight->0.request, fuel) is Some,
    ensures
        n >= 1,
        run(s, server, n) == warned(
            s.with_entries(read(server, s.flight->0.kind, s.flight->0.request, fuel)->0.entries),
            read(server, s.flight->0.kind, s.flight->0.request, fuel)->0.failures,
        ).landed(),
    decreases fuel,
{
    let f = s.flight->0;
    let reading = read(server, f.kind, f.request, fuel)->0;
    assert(step(s, server) == s.handled(server(f.request)));
    assert(run(step(s, server), server, 0) == step(s, server));
    match server(f.request) {
        Err(e) => {
            assert(s.with_entries(reading.entries) == s);
            assert(s.warnings + reading.failures =~= s.warnings.push(
                FailedBranch { request: f.request, error: e },
            ));
            1
        },
        Ok(page) => {
            lemma_entries_apart(s, f.request, f.first, Seq::empty(), page.items);
            match page.continuation() {
                None => {
                    assert(s.warnings + reading.failures =~= s.warnings);
                    1
                },
                Some(url) => {
                    let taken = s.with_entries(page.items);
                    let next = awaiting(taken, RequestView::Follow(url), false);
                    assert(step(s, server) == next);
                    let rest = read(server, f.kind, RequestView::Follow(url), (fuel - 1) as nat)->0;
                    let m = lemma_listing_is_read(next, server, (fuel - 1) as nat);
                    lemma_entries_apart(
                        taken,
                        RequestView::Follow(url),
                        false,
                        rest.failures,
                        rest.entries,
                    );
                    lemma_batches(s, page.items, rest.entries);
                    lemma_entries_apart(s, f.request, f.first, rest.failures, reading.entries);
                    m + 1
                },
            }
        },
    }
}

/// The pages that entries hold, one for one. An entry that is no page
/// stands as the page whose every field is empty.
pub open spec fn pages_in(es: Seq<EntryView>) -> Seq<PageView> {
    es.map_values(
        |e: EntryView|
            match e {
                EntryView::Page(p) => p,
                _ => PageView::empty(),
            },
    )
}

/// The sections that join the tree next to each other: those of the last
/// notebook, or those outside any notebook where there is none.
pub open spec fn open_sections(s: CrawlState) -> Seq<SectionView> {
    if s.notebooks.len() > 0 {
        s.notebooks.last().sections
    } else {
        s.sections
    }
}

/// The crawl `s` with `sections` in the place of its open sections.
pub open spec fn with_open_sections(s: CrawlState, sections: Seq<SectionView>) -> CrawlState {
    if s.notebooks.len() > 0 {
        CrawlState {
            notebooks: s.notebooks.drop_last().push(
                NotebookView { sections, ..s.notebooks.last() },
            ),
            ..s
        }
    } else {
        CrawlState { sections, ..s }
    }
}

/// The crawl `s` after `sections` have joined its open sections with all
/// their pages, `failures` were recorded on the way, and `todo` is what is
/// left to descend into.
pub open spec fn joined(
    s: CrawlState,
    sections: Seq<SectionView>,
    failures: Seq<FailedBranch>,
    todo: Seq<WorkView>,
) -> CrawlState {
    CrawlState {
        todo,
        flight: None,
        warnings: s.warnings + failures,
        urls: s.urls + sections_urls(sections),
        ..with_open_sections(s, open_sections(s) + sections)
    }
}

/// Taking in pages adds them, in their order, to the section entered last,
/// and their content locations to the list.
proof fn lemma_pages_join(s: CrawlState, es: Seq<EntryView>)
    requires
        all_kind(es, Kind::Page),
        open_sections(s).len() > 0,
    ensures
        s.with_entries(es) == (CrawlState {
            urls: s.urls + page_urls(pages_in(es)),
            ..with_open_sections(
                s,
                open_sections(s).drop_last().push(
                    SectionView {
                        pages: open_sections(s).last().pages + pages_in(es),
                        ..open_sections(s).last()
                    },
                ),
            )
        }),
    decreases es.len(),
{
    let open = open_sections(s);
    let last = open.last();
    if es.len() == 0 {
        assert(last.pages + pages_in(es) =~= last.pages);
        assert(open.drop_last().push(last) =~= open);
        assert(s.urls + page_urls(pages_in(es)) =~= s.urls);
        if s.notebooks.len() > 0 {
            assert(s.notebooks.drop_last().push(s.notebooks.last()) =~= s.notebooks);
        }
    } else {
        let init = es.drop_last();
        assert(all_kind(init, Kind::Page)) by {
            assert forall|i: int| 0 <= i < init.len() implies is_kind(
                #[trigger] init[i],
                Kind::Page,
            ) by {
                assert(init[i] == es[i]);
            }
        }
        lemma_pages_join(s, init);
        let mid = s.with_entries(init);
        assert(is_kind(es.last(), Kind::Page));
        let p = es.last()->Page_0;
        assert(pages_in(es) =~= pages_in(init).push(p));
        assert(page_urls(pages_in(es)) =~= page_urls(pages_in(init)).push(p.content_url));
        let grown = SectionView { pages: last.pages + pages_in(init), ..last };
        assert(open_sections(mid) =~= open.drop_last().push(grown));
        assert(open_sections(mid).drop_last() =~= open.drop_last());
        assert(grown.pages.push(p) =~= last.pages + pages_in(es));
        assert(mid.urls.push(p.content_url) =~= s.urls + page_urls(pages_in(es)));
        if s.notebooks.len() > 0 {
            assert(mid.notebooks.drop_last() =~= s.notebooks.drop_last());
        }
    }
}

/// The crawler descends into a section as `read` reads its pages. From a
/// crawl that descends into section `x` next, some steps lead to the crawl
/// in which `x` has joined the open sections with all the pages read, and
/// the failures met are recorded.
proof fn lemma_section_is_crawled(
    s: CrawlState,
    server: spec_fn(RequestView) -> Result<Page<EntryView>, FetchError>,
    fuel: nat,
    x: SectionView,
    rest: Seq<WorkView>,
) -> (n: nat)
    requires
        s.flight is None,
        s.todo == seq![WorkView::Section(x)] + rest,
        x.pages.len() == 0,
        read(server, Kind::Page, RequestView::Pages(x.id), fuel) is Some,
    ensures
        n >= 1,
        run(s, server, n) == joined(
            s,
            seq![
                SectionView {
                    pages: pages_in(
                        read(server, Kind::Page, RequestView::Pages(x.id), fuel)->0.entries,
                    ),
                    ..x
                },
            ],
            read(server, Kind::Page, RequestView::Pages(x.id), fuel)->0.failures,
            rest,
        ),
{
    let request = RequestView::Pages(x.id);
    let reading = read(server, Kind::Page, request, fuel)->0;
    let entered = s.launched();
    assert(s.todo[0] == WorkView::Section(x));
    assert(s.todo.drop_first() =~= rest);
    assert(s.request() == Some(request));
    assert(step(s, server) == step(entered, server));
    let n = lemma_listing_is_read(entered, server, fuel);
    assert(run(s, server, n) == run(entered, server, n));
    lemma_reading_is_of_kind(server, Kind::Page, request, fuel);
    assert(open_sections(entered) =~= open_sections(s).push(x));
    lemma_pages_join(entered, reading.entries);
    lemma_entries_apart(entered, request, true, reading.failures, reading.entries);
    let sec = SectionView { pages: pages_in(reading.entries), ..x };
    assert(x.pages + pages_in(reading.entries) =~= sec.pages);
    assert(open_sections(entered).drop_last() =~= open_sections(s));
    assert(open_sections(s).push(sec) =~= open_sections(s) + seq![sec]);
    assert(sections_urls(seq![sec]) =~= page_urls(sec.pages)) by {
        assert(seq![sec].drop_last() =~= Seq::<SectionView>::empty());
        assert(sections_urls(seq![sec].drop_last()) =~= Seq::<Seq<char>>::empty());
    }
    let end = run(s, server, n);
    let goal = joined(s, seq![sec], reading.failures, rest);
    assert(end.todo =~= goal.todo);
    if s.notebooks.len() > 0 {
        assert(entered.notebooks.drop_last() =~= s.notebooks.drop_last());
        assert(end.notebooks =~= goal.notebooks);
    }
    n
}

/// What `read` gives holds entries of the kind read, without children.
proof fn lemma_reading_is_of_kind(
    server: spec_fn(RequestView) -> Result<Page<EntryView>, FetchError>,
    kind: Kind,
    request: RequestView,
    fuel: nat,
)
    requires
        read(server, kind, request, fuel) is Some,
    ensures
        all_kind(read(server, kind, request, fuel)->0.entries, kind),
    decreases fuel,
{
    match server(request) {
        Err(_) => {},
        Ok(page) => match page.continuation() {
            None => {},
            Some(url) => {
                lemma_reading_is_of_kind(server, kind, RequestView::Follow(url), (fuel - 1) as nat);
            },
        },
    }
}

/// Sections with all their pages, and the failures met while gathering
/// them, in the order met.
pub struct Gathered {
    pub sections: Seq<SectionView>,
    pub failures: Seq<FailedBranch>,
}

/// The sections among `entries` that the filter keeps, in their order, each
/// with the pages that reading its listing of pages gives. `None` where one
/// of these readings gives none.
pub open spec fn sections_read(
    server: spec_fn(RequestView) -> Result<Page<EntryView>, FetchError>,
    filter: FilterView,
    entries: Seq<EntryView>,
    fuel: nat,
) -> Option<Gathered>
    decreases entries.len(),
{
    if entries.len() == 0 {
        Some(Gathered { sections: Seq::empty(), failures: Seq::empty() })
    } else {
        match sections_read(server, filter, entries.drop_last(), fuel) {
            None => None,
            Some(g) => match entries.last() {
                EntryView::Section(x) => if filter.accepts(x.display_name) {
                    match read(server, Kind::Page, RequestView::Pages(x.id), fuel) {
                        Some(r) => Some(
                            Gathered {
                                sections: g.sections.push(
                                    SectionView { pages: pages_in(r.entries), ..x },
                                ),
                                failures: g.failures + r.failures,
                            },
                        ),
                        None => None,
                    }
                } else {
                    Some(g)
                },
                _ => Some(g),
            },
        }
    }
}

/// The sections of the listing at `request`, read to its end, that the
/// filter keeps, each with its pages.
pub open spec fn sections_listed(
    server: spec_fn(RequestView) -> Result<Page<EntryView>, FetchError>,
    filter: FilterView,
    request: RequestView,
    fuel: nat,
) -> Option<Gathered> {
    match read(server, Kind::Section, request, fuel) {
        None => None,
        Some(r) => match sections_read(server, filter, r.entries, fuel) {
            None => None,
            Some(g) => Some(Gathered { sections: g.sections, failures: r.failures + g.failures }),
        },
    }
}

/// The work that entries leave behind, in their order.
pub open spec fn works_of(filter: FilterView, es: Seq<EntryView>) -> Seq<WorkView>
    decreases es.len(),
{
    if es.len() == 0 {
        Seq::empty()
    } else {
        let init = works_of(filter, es.drop_last());
        match work_of(filter, es.last()) {
            Some(w) => init.push(w),
            None => init,
        }
    }
}

/// Taking in entries that are no pages adds the work they leave behind to
/// what the listing has found, and changes nothing else.
proof fn lemma_work_is_found(s: CrawlState, es: Seq<EntryView>, kind: Kind)
    requires
        s.flight is Some,
        all_kind(es, kind),
        kind != Kind::Page,
    ensures
        s.with_entries(es) == (CrawlState {
            flight: Some(
                FlightView {
                    found: s.flight->0.found + works_of(s.filter, es),
                    ..s.flight->0
                },
            ),
            ..s
        }),
    decreases es.len(),
{
    let f = s.flight->0;
    if es.len() == 0 {
        assert(f.found + works_of(s.filter, es) =~= f.found);
    } else {
        let init = es.drop_last();
        assert(all_kind(init, kind)) by {
            assert forall|i: int| 0 <= i < init.len() implies is_kind(#[trigger] init[i], kind) by {
                assert(init[i] == es[i]);
            }
        }
        lemma_work_is_found(s, init, kind);
        assert(is_kind(es.last(), kind));
        match work_of(s.filter, es.last()) {
            Some(w) => {
                assert((f.found + works_of(s.filter, init)).push(w) =~= f.found + works_of(
                    s.filter,
                    es,
                ));
            },
            None => {},
        }
    }
}

/// The content locations of sections after sections are those of the first
/// followed by those of the second.
pub proof fn lemma_sections_urls_add(a: Seq<SectionView>, b: Seq<SectionView>)
    ensures
        sections_urls(a + b) == sections_urls(a) + sections_urls(b),
    decreases b.len(),
{
    if b.len() == 0 {
        assert(a + b =~= a);
        assert(sections_urls(a) + sections_urls(b) =~= sections_urls(a));
    } else {
        lemma_sections_urls_add(a, b.drop_last());
        assert((a + b).drop_last() =~= a + b.drop_last());
        assert((a + b).last() == b.last());
        assert(sections_urls(a + b) =~= sections_urls(a) + sections_urls(b));
    }
}

/// Sections that join in two groups have joined as one. `mid` is the crawl
/// after the first group has joined, whatever it has left to descend into.
proof fn lemma_joined_twice(
    s: CrawlState,
    a: Seq<SectionView>,
    fa: Seq<FailedBranch>,
    mid: CrawlState,
    b: Seq<SectionView>,
    fb: Seq<FailedBranch>,
    tb: Seq<WorkView>,
)
    requires
        mid.filter == s.filter,
        mid.notebooks == joined(s, a, fa, tb).notebooks,
        mid.sections == joined(s, a, fa, tb).sections,
        mid.urls == joined(s, a, fa, tb).urls,
        mid.warnings == joined(s, a, fa, tb).warnings,
    ensures
        joined(mid, b, fb, tb) == joined(s, a + b, fa + fb, tb),
{
    let left = joined(mid, b, fb, tb);
    let right = joined(s, a + b, fa + fb, tb);
    lemma_sections_urls_add(a, b);
    assert(open_sections(mid) =~= open_sections(s) + a);
    assert(open_sections(mid) + b =~= open_sections(s) + (a + b));
    assert(left.warnings =~= right.warnings);
    assert(left.urls =~= right.urls);
    if s.notebooks.len() > 0 {
        assert(mid.notebooks.drop_last() =~= s.notebooks.drop_last());
        assert(left.notebooks =~= right.notebooks);
    } else {
        assert(left.sections =~= right.sections);
    }
}

/// A crawl to which nothing joins is the crawl as it was, apart from what
/// is left to descend into.
proof fn lemma_joined_nothing(s: CrawlState)
    requires
        s.flight is None,
    ensures
        joined(s, Seq::empty(), Seq::empty(), s.todo) == s,
{
    let t = joined(s, Seq::empty(), Seq::empty(), s.todo);
    assert(open_sections(s) + Seq::<SectionView>::empty() =~= open_sections(s));
    assert(t.warnings =~= s.warnings);
    assert(t.urls =~= s.urls);
    if s.notebooks.len() > 0 {
        assert(t.notebooks =~= s.notebooks);
    }
}

/// The crawler descends into sections as `sections_read` gathers them.
/// From a crawl that descends next into what `entries` left behind, some
/// steps lead to the crawl in which every section kept has joined the open
/// sections with all its pages.
proof fn lemma_sections_are_crawled(
    s: CrawlState,
    server: spec_fn(RequestView) -> Result<Page<EntryView>, FetchError>,
    fuel: nat,
    entries: Seq<EntryView>,
    rest: Seq<WorkView>,
) -> (n: nat)
    requires
        s.flight is None,
        all_kind(entries, Kind::Section),
        s.todo == works_of(s.filter, entries) + rest,
        sections_read(server, s.filter, entries, fuel) is Some,
    ensures
        run(s, server, n) == joined(
            s,
            sections_read(server, s.filter, entries, fuel)->0.sections,
            sections_read(server, s.filter, entries, fuel)->0.failures,
            rest,
        ),
    decreases entries.len(),
{
    let g = sections_read(server, s.filter, entries, fuel)->0;
    if entries.len() == 0 {
        assert(s.todo =~= rest);
        lemma_joined_nothing(s);
        0
    } else {
        let init = entries.drop_last();
        assert(all_kind(init, Kind::Section)) by {
            assert forall|i: int| 0 <= i < init.len() implies is_kind(
                #[trigger] init[i],
                Kind::Section,
            ) by {
                assert(init[i] == entries[i]);
            }
        }
        assert(is_kind(entries.last(), Kind::Section));
        let x = entries.last()->Section_0;
        let g1 = sections_read(server, s.filter, init, fuel)->0;
        if s.filter.accepts(x.display_name) {
            let later = seq![WorkView::Section(x)] + rest;
            assert(s.todo =~= works_of(s.filter, init) + later);
            let n1 = lemma_sections_are_crawled(s, server, fuel, init, later);
            let mid = joined(s, g1.sections, g1.failures, later);
            let r = read(server, Kind::Page, RequestView::Pages(x.id), fuel)->0;
            let sec = SectionView { pages: pages_in(r.entries), ..x };
            let n2 = lemma_section_is_crawled(mid, server, fuel, x, rest);
            lemma_run_in_stretches(s, server, n1, n2);
            lemma_joined_twice(s, g1.sections, g1.failures, mid, seq![sec], r.failures, rest);
            assert(g1.sections + seq![sec] =~= g.sections);
            n1 + n2
        } else {
            assert(s.todo =~= works_of(s.filter, init) + rest);
            lemma_sections_are_crawled(s, server, fuel, init, rest)
        }
    }
}

/// The crawler reads a listing of sections and descends into it as
/// `sections_listed` gathers it. From a crawl whose listing of sections
/// has found nothing yet, some steps lead to the crawl in which every
/// section kept has joined the open sections with all its pages, and what
/// was to descend into before is what is left.
proof fn lemma_section_listing_is_crawled(
    s: CrawlState,
    server: spec_fn(RequestView) -> Result<Page<EntryView>, FetchError>,
    fuel: nat,
) -> (n: nat)
    requires
        s.flight is Some,
        s.flight->0.kind == Kind::Section,
        s.flight->0.found.len() == 0,
        !(s.flight->0.root && s.flight->0.first && server(s.flight->0.request) is Err),
        sections_listed(server, s.filter, s.flight->0.request, fuel) is Some,
    ensures
        n >= 1,
        run(s, server, n) == joined(
            s,
            sections_listed(server, s.filter, s.flight->0.request, fuel)->0.sections,
            sections_listed(server, s.filter, s.flight->0.request, fuel)->0.failures,
            s.todo,
        ),
{
    let f = s.flight->0;
    let r = read(server, Kind::Section, f.request, fuel)->0;
    let g = sections_read(server, s.filter, r.entries, fuel)->0;
    let n1 = lemma_listing_is_read(s, server, fuel);
    lemma_reading_is_of_kind(server, Kind::Section, f.request, fuel);
    lemma_work_is_found(s, r.entries, Kind::Section);
    let mid = run(s, server, n1);
    assert(f.found + works_of(s.filter, r.entries) =~= works_of(s.filter, r.entries));
    assert(mid.todo == works_of(s.filter, r.entries) + s.todo);
    let n2 = lemma_sections_are_crawled(mid, server, fuel, r.entries, s.todo);
    lemma_run_in_stretches(s, server, n1, n2);
    assert(mid.warnings =~= joined(s, Seq::empty(), r.failures, s.todo).warnings);
    lemma_joined_nothing(CrawlState { flight: None, ..s });
    lemma_joined_twice(s, Seq::empty(), r.failures, mid, g.sections, g.failures, s.todo);
    assert(Seq::<SectionView>::empty() + g.sections =~= g.sections);
    n1 + n2
}

/// The sections of the section groups among `entries`, group after group,
/// each with its pages.
pub open spec fn groups_read(
    server: spec_fn(RequestView) -> Result<Page<EntryView>, FetchError>,
    filter: FilterView,
    entries: Seq<EntryView>,
    fuel: nat,
) -> Option<Gathered>
    decreases entries.len(),
{
    if entries.len() == 0 {
        Some(Gathered { sections: Seq::empty(), failures: Seq::empty() })
    } else {
        match groups_read(server, filter, entries.drop_last(), fuel) {
            None => None,
            Some(g) => match entries.last() {
                EntryView::Group(id) => match sections_listed(
                    server,
                    filter,
                    RequestView::GroupSections(id),
                    fuel,
                ) {
                    Some(h) => Some(
                        Gathered {
                            sections: g.sections + h.sections,
                            failures: g.failures + h.failures,
                        },
                    ),
                    None => None,
                },
                _ => Some(g),
            },
        }
    }
}

/// The sections of the notebook of this id: those it holds directly, then
/// those of its section groups, group after group.
pub open spec fn notebook_sections(
    server: spec_fn(RequestView) -> Result<Page<EntryView>, FetchError>,
    filter: FilterView,
    id: Seq<char>,
    fuel: nat,
) -> Option<Gathered> {
    match sections_listed(server, filter, RequestView::NotebookSections(id), fuel) {
        None => None,
        Some(direct) => match read(server, Kind::Group, RequestView::SectionGroups(id), fuel) {
            None => None,
            Some(r) => match groups_read(server, filter, r.entries, fuel) {
                None => None,
                Some(g) => Some(
                    Gathered {
                        sections: direct.sections + g.sections,
                        failures: direct.failures + r.failures + g.failures,
                    },
                ),
            },
        },
    }
}

/// Notebooks with all their sections and pages, and the failures met while
/// gathering them, in the order met.
pub struct Harvest {
    pub notebooks: Seq<NotebookView>,
    pub failures: Seq<FailedBranch>,
}

/// The notebooks among `entries`, in their order, each with its sections.
pub open spec fn notebooks_read(
    server: spec_fn(RequestView) -> Result<Page<EntryView>, FetchError>,
    filter: FilterView,
    entries: Seq<EntryView>,
    fuel: nat,
) -> Option<Harvest>
    decreases entries.len(),
{
    if entries.len() == 0 {
        Some(Harvest { notebooks: Seq::empty(), failures: Seq::empty() })
    } else {
        match notebooks_read(server, filter, entries.drop_last(), fuel) {
            None => None,
            Some(h) => match entries.last() {
                EntryView::Notebook(nb) => match notebook_sections(server, filter, nb.id, fuel) {
                    Some(g) => Some(
                        Harvest {
                            notebooks: h.notebooks.push(
                                NotebookView { sections: g.sections, ..nb },
                            ),
                            failures: h.failures + g.failures,
                        },
                    ),
                    None => None,
                },
                _ => Some(h),
            },
        }
    }
}

/// Everything that a crawl of all notebooks gathers from `server`: the
/// notebooks of the root's listing, each with its sections and their pages.
pub open spec fn notebooks_listed(
    server: spec_fn(RequestView) -> Result<Page<EntryView>, FetchError>,
    filter: FilterView,
    fuel: nat,
) -> Option<Harvest> {
    match read(server, Kind::Notebook, RequestView::Notebooks, fuel) {
        None => None,
        Some(r) => match notebooks_read(server, filter, r.entries, fuel) {
            None => None,
            Some(h) => Some(Harvest { notebooks: h.notebooks, failures: r.failures + h.failures }),
        },
    }
}

/// The crawl `s` after `notebooks` have joined the tree with all their
/// sections and pages, `failures` were recorded on the way, and `todo` is
/// what is left to descend into.
pub open spec fn harvested(
    s: CrawlState,
    notebooks: Seq<NotebookView>,
    failures: Seq<FailedBranch>,
    todo: Seq<WorkView>,
) -> CrawlState {
    CrawlState {
        notebooks: s.notebooks + notebooks,
        todo,
        flight: None,
        warnings: s.warnings + failures,
        urls: s.urls + notebooks_urls(notebooks),
        ..s
    }
}

/// The crawler descends into a section group as `sections_listed` gathers
/// its sections.
proof fn lemma_group_is_crawled(
    s: CrawlState,
    server: spec_fn(RequestView) -> Result<Page<EntryView>, FetchError>,
    fuel: nat,
    id: Seq<char>,
    rest: Seq<WorkView>,
) -> (n: nat)
    requires
        s.flight is None,
        s.todo == seq![WorkView::Group(id)] + rest,
        sections_listed(server, s.filter, RequestView::GroupSections(id), fuel) is Some,
    ensures
        n >= 1,
        run(s, server, n) == joined(
            s,
            sections_listed(server, s.filter, RequestView::GroupSections(id), fuel)->0.sections,
            sections_listed(server, s.filter, RequestView::GroupSections(id), fuel)->0.failures,
            rest,
        ),
{
    let entered = s.launched();
    assert(s.todo[0] == WorkView::Group(id));
    assert(s.todo.drop_first() =~= rest);
    assert(step(s, server) == step(entered, server));
    let n = lemma_section_listing_is_crawled(entered, server, fuel);
    assert(run(s, server, n) == run(entered, server, n));
    n
}

/// The crawler descends into section groups as `groups_read` gathers their
/// sections.
proof fn lemma_groups_are_crawled(
    s: CrawlState,
    server: spec_fn(RequestView) -> Result<Page<EntryView>, FetchError>,
    fuel: nat,
    entries: Seq<EntryView>,
    rest: Seq<WorkView>,
) -> (n: nat)
    requires
        s.flight is None,
        all_kind(entries, Kind::Group),
        s.todo == works_of(s.filter, entries) + rest,
        groups_read(server, s.filter, entries, fuel) is Some,
    ensures
        run(s, server, n) == joined(
            s,
            groups_read(server, s.filter, entries, fuel)->0.sections,
            groups_read(server, s.filter, entries, fuel)->0.failures,
            rest,
        ),
    decreases entries.len(),
{
    let g = groups_read(server, s.filter, entries, fuel)->0;
    if entries.len() == 0 {
        assert(s.todo =~= rest);
        lemma_joined_nothing(s);
        0
    } else {
        let init = entries.drop_last();
        assert(all_kind(init, Kind::Group)) by {
            assert forall|i: int| 0 <= i < init.len() implies is_kind(
                #[trigger] init[i],
                Kind::Group,
            ) by {
                assert(init[i] == entries[i]);
            }
        }
        assert(is_kind(entries.last(), Kind::Group));
        let id = entries.last()->Group_0;
        let g1 = groups_read(server, s.filter, init, fuel)->0;
        let h = sections_listed(server, s.filter, RequestView::GroupSections(id), fuel)->0;
        let later = seq![WorkView::Group(id)] + rest;
        assert(s.todo =~= works_of(s.filter, init) + later);
        let n1 = lemma_groups_are_crawled(s, server, fuel, init, later);
        let mid = joined(s, g1.sections, g1.failures, later);
        let n2 = lemma_group_is_crawled(mid, server, fuel, id, rest);
        lemma_run_in_stretches(s, server, n1, n2);
        lemma_joined_twice(s, g1.sections, g1.failures, mid, h.sections, h.failures, rest);
        n1 + n2
    }
}

/// The crawler descends into a notebook as `notebook_sections` gathers its
/// sections. From a crawl that descends into notebook `nb` next, some steps
/// lead to the crawl in which `nb` has joined the tree with all its
/// sections and their pages.
proof fn lemma_notebook_is_crawled(
    s: CrawlState,
    server: spec_fn(RequestView) -> Result<Page<EntryView>, FetchError>,
    fuel: nat,
    nb: NotebookView,
    rest: Seq<WorkView>,
) -> (n: nat)
    requires
        s.flight is None,
        s.todo == seq![WorkView::Notebook(nb)] + rest,
        nb.sections.len() == 0,
        notebook_sections(server, s.filter, nb.id, fuel) is Some,
    ensures
        n >= 1,
        run(s, server, n) == harvested(
            s,
            seq![
                NotebookView {
                    sections: notebook_sections(server, s.filter, nb.id, fuel)->0.sections,
                    ..nb
                },
            ],
            notebook_sections(server, s.filter, nb.id, fuel)->0.failures,
            rest,
        ),
{
    let direct = sections_listed(server, s.filter, RequestView::NotebookSections(nb.id), fuel)->0;
    let r = read(server, Kind::Group, RequestView::SectionGroups(nb.id), fuel)->0;
    let g = groups_read(server, s.filter, r.entries, fuel)->0;
    let all = notebook_sections(server, s.filter, nb.id, fuel)->0;
    let groups_next = seq![WorkView::Groups(nb.id)] + rest;

    // The notebook is entered, and its own sections are crawled.
    let entered = s.launched();
    assert(s.todo[0] == WorkView::Notebook(nb));
    assert(s.todo.drop_first() =~= rest);
    assert(entered.todo =~= groups_next);
    assert(step(s, server) == step(entered, server));
    let n1 = lemma_section_listing_is_crawled(entered, server, fuel);
    assert(run(s, server, n1) == run(entered, server, n1));
    let t1 = joined(entered, direct.sections, direct.failures, groups_next);

    // Its section groups are listed.
    let t2 = t1.launched();
    assert(t1.todo[0] == WorkView::Groups(nb.id));
    assert(t1.todo.drop_first() =~= rest);
    assert(step(t1, server) == step(t2, server));
    let n2 = lemma_listing_is_read(t2, server, fuel);
    assert(run(t1, server, n2) == run(t2, server, n2));
    lemma_reading_is_of_kind(server, Kind::Group, RequestView::SectionGroups(nb.id), fuel);
    lemma_work_is_found(t2, r.entries, Kind::Group);
    let t3 = run(t2, server, n2);
    assert(t2.flight->0.found + works_of(s.filter, r.entries) =~= works_of(s.filter, r.entries));
    assert(t3.todo == works_of(s.filter, r.entries) + rest);

    // The sections of each group are crawled.
    let n3 = lemma_groups_are_crawled(t3, server, fuel, r.entries, rest);
    lemma_run_in_stretches(s, server, n1, n2);
    lemma_run_in_stretches(s, server, n1 + n2, n3);

    assert(t3.warnings =~= joined(
        entered,
        direct.sections,
        direct.failures + r.failures,
        rest,
    ).warnings);
    lemma_joined_twice(
        entered,
        direct.sections,
        direct.failures + r.failures,
        t3,
        g.sections,
        g.failures,
        rest,
    );
    let end = joined(entered, all.sections, all.failures, rest);
    let full = NotebookView { sections: all.sections, ..nb };
    let goal = harvested(s, seq![full], all.failures, rest);
    assert(open_sections(entered) =~= Seq::<SectionView>::empty());
    assert(Seq::<SectionView>::empty() + all.sections =~= all.sections);
    assert(entered.notebooks.drop_last() =~= s.notebooks);
    assert(end.notebooks =~= goal.notebooks);
    assert(notebooks_urls(seq![full]) =~= sections_urls(all.sections)) by {
        assert(seq![full].drop_last() =~= Seq::<NotebookView>::empty());
        assert(notebooks_urls(seq![full].drop_last()) =~= Seq::<Seq<char>>::empty());
    }
    assert(end.urls =~= goal.urls);
    n1 + n2 + n3
}

/// A notebook that joins after others has joined with them.
proof fn lemma_harvested_twice(
    s: CrawlState,
    a: Seq<NotebookView>,
    fa: Seq<FailedBranch>,
    ta: Seq<WorkView>,
    x: NotebookView,
    fb: Seq<FailedBranch>,
    tb: Seq<WorkView>,
)
    ensures
        harvested(harvested(s, a, fa, ta), seq![x], fb, tb) == harvested(
            s,
            a.push(x),
            fa + fb,
            tb,
        ),
{
    let left = harvested(harvested(s, a, fa, ta), seq![x], fb, tb);
    let right = harvested(s, a.push(x), fa + fb, tb);
    assert(a.push(x).drop_last() =~= a);
    assert(seq![x].drop_last() =~= Seq::<NotebookView>::empty());
    assert(notebooks_urls(seq![x].drop_last()) =~= Seq::<Seq<char>>::empty());
    assert(notebooks_urls(seq![x]) =~= sections_urls(x.sections));
    assert(left.urls =~= right.urls);
    assert(left.notebooks =~= right.notebooks);
    assert(left.warnings =~= right.warnings);
}

/// The crawler descends into notebooks as `notebooks_read` gathers them.
proof fn lemma_notebooks_are_crawled(
    s: CrawlState,
    server: spec_fn(RequestView) -> Result<Page<EntryView>, FetchError>,
    fuel: nat,
    entries: Seq<EntryView>,
    rest: Seq<WorkView>,
) -> (n: nat)
    requires
        s.flight is None,
        all_kind(entries, Kind::Notebook),
        s.todo == works_of(s.filter, entries) + rest,
        notebooks_read(server, s.filter, entries, fuel) is Some,
    ensures
        run(s, server, n) == harvested(
            s,
            notebooks_read(server, s.filter, entries, fuel)->0.notebooks,
            notebooks_read(server, s.filter, entries, fuel)->0.failures,
            rest,
        ),
    decreases entries.len(),
{
    if entries.len() == 0 {
        let t = harvested(s, Seq::empty(), Seq::empty(), rest);
        assert(s.todo =~= rest);
        assert(t.notebooks =~= s.notebooks);
        assert(t.warnings =~= s.warnings);
        assert(t.urls =~= s.urls);
        0
    } else {
        let init = entries.drop_last();
        assert(all_kind(init, Kind::Notebook)) by {
            assert forall|i: int| 0 <= i < init.len() implies is_kind(
                #[trigger] init[i],
                Kind::Notebook,
            ) by {
                assert(init[i] == entries[i]);
            }
        }
        assert(is_kind(entries.last(), Kind::Notebook));
        let nb = entries.last()->Notebook_0;
        let h1 = notebooks_read(server, s.filter, init, fuel)->0;
        let g = notebook_sections(server, s.filter, nb.id, fuel)->0;
        let later = seq![WorkView::Notebook(nb)] + rest;
        assert(s.todo =~= works_of(s.filter, init) + later);
        let n1 = lemma_notebooks_are_crawled(s, server, fuel, init, later);
        let mid = harvested(s, h1.notebooks, h1.failures, later);
        let n2 = lemma_notebook_is_crawled(mid, server, fuel, nb, rest);
        lemma_run_in_stretches(s, server, n1, n2);
        lemma_harvested_twice(
            s,
            h1.notebooks,
            h1.failures,
            later,
            NotebookView { sections: g.sections, ..nb },
            g.failures,
            rest,
        );
        n1 + n2
    }
}

/// A listing whose first request fails reads as empty, with that failure
/// recorded: the section or notebook it belongs to stays without children.
pub proof fn lemma_failed_listing_reads_empty(
    server: spec_fn(RequestView) -> Result<Page<EntryView>, FetchError>,
    kind: Kind,
    request: RequestView,
    fuel: nat,
)
    requires
        fuel > 0,
        server(request) is Err,
    ensures
        read(server, kind, request, fuel) == Some(
            Reading {
                entries: Seq::empty(),
                failures: seq![FailedBranch { request, error: server(request)->Err_0 }],
            },
        ),
{
}

/// The sections gathered are sections that the filter keeps, each with the
/// fields of its entry and the pages read for it, and a section that the
/// filter does not keep is not among them: with one more entry after
/// `entries`, a section kept is gathered after those gathered before, and
/// any other entry changes nothing.
pub proof fn lemma_gathering_follows_the_filter(
    server: spec_fn(RequestView) -> Result<Page<EntryView>, FetchError>,
    filter: FilterView,
    entries: Seq<EntryView>,
    x: SectionView,
    fuel: nat,
)
    requires
        sections_read(server, filter, entries, fuel) is Some,
        read(server, Kind::Page, RequestView::Pages(x.id), fuel) is Some,
    ensures
        all_kept(filter, sections_read(server, filter, entries, fuel)->0.sections),
        !filter.accepts(x.display_name) ==> sections_read(
            server,
            filter,
            entries.push(EntryView::Section(x)),
            fuel,
        ) == sections_read(server, filter, entries, fuel),
        filter.accepts(x.display_name) ==> sections_read(
            server,
            filter,
            entries.push(EntryView::Section(x)),
            fuel,
        )->0.sections == sections_read(server, filter, entries, fuel)->0.sections.push(
            SectionView {
                pages: pages_in(
                    read(server, Kind::Page, RequestView::Pages(x.id), fuel)->0.entries,
                ),
                ..x
            },
        ),
    decreases entries.len(),
{
    let more = entries.push(EntryView::Section(x));
    assert(more.drop_last() =~= entries);
    assert(more.last() == EntryView::Section(x));
    if entries.len() > 0 {
        let init = entries.drop_last();
        match entries.last() {
            EntryView::Section(y) => {
                if filter.accepts(y.display_name) {
                    lemma_gathering_follows_the_filter(server, filter, init, y, fuel);
                    let before = sections_read(server, filter, init, fuel)->0.sections;
                    let now = sections_read(server, filter, entries, fuel)->0.sections;
                    assert forall|i: int| 0 <= i < now.len() implies filter.accepts(
                        (#[trigger] now[i]).display_name,
                    ) by {
                        if i < before.len() {
                            assert(now[i] == before[i]);
                        }
                    }
                } else {
                    lemma_gathering_follows_the_filter(server, filter, init, x, fuel);
                }
            },
            _ => {
                lemma_gathering_follows_the_filter(server, filter, init, x, fuel);
            },
        }
    }
}

/// A crawl of all sections gathers what `sections_listed` gathers. Where
/// the first page of the root's listing can be had, some steps lead from the
/// start of the crawl to its end, and there the sections are those that the
/// filter keeps, in the order listed, each with all its pages; the list of
/// content locations is that of these pages; and the failures recorded are
/// those met, in the order met.
pub proof fn lemma_crawl_of_sections(
    server: spec_fn(RequestView) -> Result<Page<EntryView>, FetchError>,
    filter: FilterView,
    fuel: nat,
) -> (n: nat)
    requires
        server(RequestView::Sections) is Ok,
        sections_listed(server, filter, RequestView::Sections, fuel) is Some,
    ensures
        ({
            let end = run(
                CrawlState::start(filter, Kind::Section, RequestView::Sections),
                server,
                n,
            );
            let gathered = sections_listed(server, filter, RequestView::Sections, fuel)->0;
            &&& end.finished()
            &&& end.sections == gathered.sections
            &&& end.notebooks == Seq::<NotebookView>::empty()
            &&& end.urls == sections_urls(gathered.sections)
            &&& end.warnings == gathered.failures
        }),
{
    let s = CrawlState::start(filter, Kind::Section, RequestView::Sections);
    let g = sections_listed(server, filter, RequestView::Sections, fuel)->0;
    let n = lemma_section_listing_is_crawled(s, server, fuel);
    let end = joined(s, g.sections, g.failures, s.todo);
    assert(end.sections =~= g.sections);
    assert(end.urls =~= sections_urls(g.sections));
    assert(end.warnings =~= g.failures);
    n
}

/// A crawl of all notebooks gathers what `notebooks_listed` gathers. Where
/// the first page of the root's listing can be had, some steps lead from the
/// start of the crawl to its end, and there the notebooks are those listed,
/// in the order listed, each with its own sections before those of its
/// section groups, and each section with all its pages; the list of content
/// locations is that of these pages; and the failures recorded are those
/// met, in the order met.
pub proof fn lemma_crawl_of_notebooks(
    server: spec_fn(RequestView) -> Result<Page<EntryView>, FetchError>,
    filter: FilterView,
    fuel: nat,
) -> (n: nat)
    requires
        server(RequestView::Notebooks) is Ok,
        notebooks_listed(server, filter, fuel) is Some,
    ensures
        ({
            let end = run(
                CrawlState::start(filter, Kind::Notebook, RequestView::Notebooks),
                server,
                n,
            );
            let gathered = notebooks_listed(server, filter, fuel)->0;
            &&& end.finished()
            &&& end.notebooks == gathered.notebooks
            &&& end.sections == Seq::<SectionView>::empty()
            &&& end.urls == notebooks_urls(gathered.notebooks)
            &&& end.warnings == gathered.failures
        }),
{
    let s = CrawlState::start(filter, Kind::Notebook, RequestView::Notebooks);
    let r = read(server, Kind::Notebook, RequestView::Notebooks, fuel)->0;
    let h = notebooks_read(server, filter, r.entries, fuel)->0;
    let n1 = lemma_listing_is_read(s, server, fuel);
    lemma_reading_is_of_kind(server, Kind::Notebook, RequestView::Notebooks, fuel);
    lemma_work_is_found(s, r.entries, Kind::Notebook);
    let mid = run(s, server, n1);
    assert(s.flight->0.found + works_of(filter, r.entries) =~= works_of(filter, r.entries));
    assert(mid.todo =~= works_of(filter, r.entries) + Seq::<WorkView>::empty());
    let n2 = lemma_notebooks_are_crawled(mid, server, fuel, r.entries, Seq::empty());
    lemma_run_in_stretches(s, server, n1, n2);
    let end = harvested(mid, h.notebooks, h.failures, Seq::empty());
    assert(end.notebooks =~= h.notebooks);
    assert(end.urls =~= notebooks_urls(h.notebooks));
    assert(end.warnings =~= r.failures + h.failures);
    n1 + n2
}

} // verus!
