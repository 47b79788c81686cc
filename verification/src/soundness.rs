//! What holds of a crawl at every step: the tree holds only sections that
//! the filter keeps, the list of content locations is that of the pages in
//! the tree, and a failed listing costs its own branch alone.

use vstd::prelude::*;
use crate::crawler::{CrawlState, FailedBranch, FilterView, RequestView, WorkView};
use crate::json::Doc;
use crate::listing::{entry_of, listing_of, EntryView, Kind};
use crate::reader::{FetchError, Page};
use crate::tree::{NotebookView, PageView, SectionView};

verus! {

/// Whether the node comes without children: a notebook without sections, a
/// section without pages.
pub open spec fn bare_work(w: WorkView) -> bool {
    match w {
        WorkView::Notebook(n) => n.sections.len() == 0,
        WorkView::Section(s) => s.pages.len() == 0,
        _ => true,
    }
}

/// Whether the entry comes without children.
pub open spec fn bare_entry(e: EntryView) -> bool {
    match e {
        EntryView::Notebook(n) => n.sections.len() == 0,
        EntryView::Section(s) => s.pages.len() == 0,
        _ => true,
    }
}

/// Whether every entry of `es` comes without children.
pub open spec fn bare_entries(es: Seq<EntryView>) -> bool {
    forall|i: int| 0 <= i < es.len() ==> bare_entry(#[trigger] es[i])
}

/// Whether the node, if it is a section, is one that the filter keeps.
pub open spec fn kept_work(filter: FilterView, w: WorkView) -> bool {
    w matches WorkView::Section(s) ==> filter.accepts(s.display_name)
}

/// Whether every node of `ws` comes without children and is kept.
pub open spec fn fit_work(filter: FilterView, ws: Seq<WorkView>) -> bool {
    forall|i: int| 0 <= i < ws.len() ==> bare_work(#[trigger] ws[i]) && kept_work(filter, ws[i])
}

/// Whether the filter keeps every section of `sections`.
pub open spec fn all_kept(filter: FilterView, sections: Seq<SectionView>) -> bool {
    forall|i: int| 0 <= i < sections.len() ==> filter.accepts((#[trigger] sections[i]).display_name)
}

/// The content locations of pages, one for one.
pub open spec fn page_urls(pages: Seq<PageView>) -> Seq<Seq<char>> {
    pages.map_values(|p: PageView| p.content_url)
}

/// The content locations of the pages of `sections`, section after section.
pub open spec fn sections_urls(sections: Seq<SectionView>) -> Seq<Seq<char>>
    decreases sections.len(),
{
    if sections.len() == 0 {
        Seq::empty()
    } else {
        sections_urls(sections.drop_last()) + page_urls(sections.last().pages)
    }
}

/// The content locations of the pages of `notebooks`, notebook after
/// notebook.
pub open spec fn notebooks_urls(notebooks: Seq<NotebookView>) -> Seq<Seq<char>>
    decreases notebooks.len(),
{
    if notebooks.len() == 0 {
        Seq::empty()
    } else {
        notebooks_urls(notebooks.drop_last()) + sections_urls(notebooks.last().sections)
    }
}

/// Whether the crawl is in order.
///
/// Every node still to be descended into comes without children, and the
/// filter keeps it if it is a section. The filter keeps every section in the
/// tree. The list of content locations is that of the pages in the tree, in
/// the order of the tree. A listing of which no page has arrived has found
/// nothing.
pub open spec fn sound(s: CrawlState) -> bool {
    &&& fit_work(s.filter, s.todo)
    &&& s.flight matches Some(f) ==> fit_work(s.filter, f.found) && (f.first ==> f.found.len()
        == 0)
    &&& all_kept(s.filter, s.sections)
    &&& forall|i: int|
        0 <= i < s.notebooks.len() ==> all_kept(s.filter, (#[trigger] s.notebooks[i]).sections)
    &&& s.urls == sections_urls(s.sections) + notebooks_urls(s.notebooks)
}

/// A crawl that is about to begin is in order.
pub proof fn lemma_start_is_sound(filter: FilterView, kind: Kind, request: RequestView)
    ensures
        sound(CrawlState::start(filter, kind, request)),
{
    let s = CrawlState::start(filter, kind, request);
    assert(s.urls =~= sections_urls(s.sections) + notebooks_urls(s.notebooks));
}

/// A section that joins the tree without pages leaves the list of content
/// locations as it is.
proof fn lemma_with_section(s: CrawlState, x: SectionView)
    requires
        x.pages.len() == 0,
    ensures
        sections_urls(s.with_section(x).sections) + notebooks_urls(s.with_section(x).notebooks)
            == sections_urls(s.sections) + notebooks_urls(s.notebooks),
{
    let t = s.with_section(x);
    assert(page_urls(x.pages) =~= Seq::<Seq<char>>::empty());
    if s.notebooks.len() > 0 {
        let nb = s.notebooks.last();
        assert(t.notebooks.drop_last() =~= s.notebooks.drop_last());
        assert(t.notebooks.last().sections.drop_last() =~= nb.sections);
        assert(sections_urls(t.notebooks.last().sections) =~= sections_urls(nb.sections));
    } else {
        assert(t.sections.drop_last() =~= s.sections);
        assert(sections_urls(t.sections) =~= sections_urls(s.sections));
    }
}

/// A page that joins the tree adds its content location at the end of the
/// list, and a crawl in order stays in order.
proof fn lemma_with_page(s: CrawlState, p: PageView)
    requires
        sound(s),
    ensures
        sound(s.with_page(p)),
        s.with_page(p).flight == s.flight,
        s.with_page(p).todo == s.todo,
        s.with_page(p).filter == s.filter,
        s.with_page(p).warnings == s.warnings,
        s.urls.is_prefix_of(s.with_page(p).urls),
{
    let t = s.with_page(p);
    if s.notebooks.len() > 0 {
        let nb = s.notebooks.last();
        if nb.sections.len() > 0 {
            let sec = nb.sections.last();
            let nb2 = t.notebooks.last();
            let sec2 = nb2.sections.last();
            assert(t.notebooks.drop_last() =~= s.notebooks.drop_last());
            assert(nb2.sections.drop_last() =~= nb.sections.drop_last());
            assert(page_urls(sec2.pages) =~= page_urls(sec.pages).push(p.content_url));
            assert(sections_urls(nb2.sections) =~= sections_urls(nb.sections).push(p.content_url));
            assert(notebooks_urls(t.notebooks) =~= notebooks_urls(s.notebooks).push(
                p.content_url,
            ));
            assert(t.urls =~= sections_urls(t.sections) + notebooks_urls(t.notebooks));
            assert forall|i: int| 0 <= i < t.notebooks.len() implies all_kept(
                t.filter,
                (#[trigger] t.notebooks[i]).sections,
            ) by {
                if i < t.notebooks.len() - 1 {
                    assert(t.notebooks[i] == s.notebooks[i]);
                } else {
                    assert(all_kept(s.filter, s.notebooks[i].sections));
                    assert forall|j: int| 0 <= j < nb2.sections.len() implies t.filter.accepts(
                        (#[trigger] nb2.sections[j]).display_name,
                    ) by {
                        assert(nb2.sections[j].display_name == nb.sections[j].display_name);
                    }
                }
            }
        }
    } else if s.sections.len() > 0 {
        let sec = s.sections.last();
        let sec2 = t.sections.last();
        assert(t.sections.drop_last() =~= s.sections.drop_last());
        assert(page_urls(sec2.pages) =~= page_urls(sec.pages).push(p.content_url));
        assert(sections_urls(t.sections) =~= sections_urls(s.sections).push(p.content_url));
        assert(notebooks_urls(t.notebooks) =~= Seq::<Seq<char>>::empty());
        assert(notebooks_urls(s.notebooks) =~= Seq::<Seq<char>>::empty());
        assert(t.urls =~= sections_urls(t.sections) + notebooks_urls(t.notebooks));
        assert forall|j: int| 0 <= j < t.sections.len() implies t.filter.accepts(
            (#[trigger] t.sections[j]).display_name,
        ) by {
            assert(t.sections[j].display_name == s.sections[j].display_name);
        }
    }
}

/// Taking in entries that come without children keeps a crawl in order,
/// leaves the listing under way under way, and only adds to the list of
/// content locations.
proof fn lemma_with_entries(s: CrawlState, es: Seq<EntryView>)
    requires
        sound(s),
        bare_entries(es),
        s.flight is Some,
    ensures
        s.with_entries(es).flight is Some,
        s.with_entries(es).flight->0.kind == s.flight->0.kind,
        s.with_entries(es).flight->0.request == s.flight->0.request,
        s.with_entries(es).flight->0.root == s.flight->0.root,
        s.with_entries(es).flight->0.first == s.flight->0.first,
        fit_work(s.filter, s.with_entries(es).flight->0.found),
        sound(CrawlState { flight: None, ..s.with_entries(es) }),
        s.with_entries(es).todo == s.todo,
        s.with_entries(es).filter == s.filter,
        s.with_entries(es).warnings == s.warnings,
        s.urls.is_prefix_of(s.with_entries(es).urls),
    decreases es.len(),
{
    if es.len() > 0 {
        let init = s.with_entries(es.drop_last());
        let e = es.last();
        assert(bare_entries(es.drop_last())) by {
            assert forall|i: int| 0 <= i < es.drop_last().len() implies bare_entry(
                #[trigger] es.drop_last()[i],
            ) by {
                assert(es.drop_last()[i] == es[i]);
            }
        }
        lemma_with_entries(s, es.drop_last());
        assert(bare_entry(e));
        let quiet = CrawlState { flight: None, ..init };
        match e {
            EntryView::Page(p) => {
                lemma_with_page(quiet, p);
                assert(CrawlState { flight: None, ..init.with_page(p) } == quiet.with_page(p));
            },
            _ => {},
        }
    }
}

/// Naming the next request keeps a crawl in order and leaves the list of
/// content locations as it is.
pub proof fn lemma_launched_is_sound(s: CrawlState)
    requires
        sound(s),
    ensures
        sound(s.launched()),
        s.launched().urls == s.urls,
        s.launched().warnings == s.warnings,
{
    if s.flight is None && s.todo.len() > 0 {
        let w = s.todo[0];
        let rest = s.todo.drop_first();
        let t = s.launched();
        assert(bare_work(w) && kept_work(s.filter, w));
        assert forall|i: int| 0 <= i < rest.len() implies bare_work(#[trigger] rest[i])
            && kept_work(s.filter, rest[i]) by {
            assert(rest[i] == s.todo[i + 1]);
        }
        match w {
            WorkView::Notebook(n) => {
                assert(t.notebooks.drop_last() =~= s.notebooks);
                assert(sections_urls(n.sections) =~= Seq::<Seq<char>>::empty());
                assert(notebooks_urls(t.notebooks) =~= notebooks_urls(s.notebooks));
                assert forall|i: int| 0 <= i < t.todo.len() implies bare_work(#[trigger] t.todo[i])
                    && kept_work(t.filter, t.todo[i]) by {
                    if i > 0 {
                        assert(t.todo[i] == rest[i - 1]);
                    }
                }
                assert forall|i: int| 0 <= i < t.notebooks.len() implies all_kept(
                    t.filter,
                    (#[trigger] t.notebooks[i]).sections,
                ) by {
                    if i < s.notebooks.len() {
                        assert(t.notebooks[i] == s.notebooks[i]);
                    }
                }
            },
            WorkView::Section(x) => {
                let base = CrawlState { todo: rest, ..s };
                lemma_with_section(base, x);
                let u = base.with_section(x);
                if s.notebooks.len() > 0 {
                    let nb = s.notebooks.last();
                    assert forall|i: int| 0 <= i < u.notebooks.len() implies all_kept(
                        u.filter,
                        (#[trigger] u.notebooks[i]).sections,
                    ) by {
                        if i < u.notebooks.len() - 1 {
                            assert(u.notebooks[i] == s.notebooks[i]);
                        } else {
                            assert(all_kept(s.filter, s.notebooks[i].sections));
                            let secs = u.notebooks[i].sections;
                            assert forall|j: int| 0 <= j < secs.len() implies u.filter.accepts(
                                (#[trigger] secs[j]).display_name,
                            ) by {
                                if j < nb.sections.len() {
                                    assert(secs[j] == nb.sections[j]);
                                }
                            }
                        }
                    }
                } else {
                    assert forall|j: int| 0 <= j < u.sections.len() implies u.filter.accepts(
                        (#[trigger] u.sections[j]).display_name,
                    ) by {
                        if j < s.sections.len() {
                            assert(u.sections[j] == s.sections[j]);
                        }
                    }
                }
            },
            _ => {},
        }
    }
}

/// Taking the answer to a request keeps a crawl in order, where the page
/// that arrives holds entries without children. The list of content
/// locations only grows.
pub proof fn lemma_handled_is_sound(s: CrawlState, outcome: Result<Page<EntryView>, FetchError>)
    requires
        sound(s),
        outcome matches Ok(page) ==> bare_entries(page.items),
    ensures
        sound(s.handled(outcome)),
        s.urls.is_prefix_of(s.handled(outcome).urls),
{
    match s.flight {
        None => {},
        Some(f) => match outcome {
            Ok(page) => {
                lemma_with_entries(s, page.items);
                let taken = s.with_entries(page.items);
                let g = taken.flight->0;
                match page.continuation() {
                    Some(url) => {},
                    None => {
                        lemma_landing(taken);
                    },
                }
            },
            Err(e) => {
                if !(f.root && f.first) {
                    let warned = CrawlState {
                        warnings: s.warnings.push(FailedBranch { request: f.request, error: e }),
                        ..s
                    };
                    lemma_landing(warned);
                }
            },
        },
    }
}

/// Where what a listing found is fit and what was to do is fit, all of it
/// together is.
proof fn lemma_landing(s: CrawlState)
    requires
        s.flight is Some,
        fit_work(s.filter, s.flight->0.found),
        fit_work(s.filter, s.todo),
    ensures
        fit_work(s.filter, s.landed().todo),
{
    let f = s.flight->0;
    let t = s.landed();
    assert forall|i: int| 0 <= i < t.todo.len() implies bare_work(#[trigger] t.todo[i])
        && kept_work(s.filter, t.todo[i]) by {
        if i < f.found.len() {
            assert(t.todo[i] == f.found[i]);
        } else {
            assert(t.todo[i] == s.todo[i - f.found.len()]);
        }
    }
}

/// The entries that a server's answer is read into come without children.
pub proof fn lemma_listing_is_bare(kind: Kind, body: Doc, source_url: Seq<char>)
    ensures
        listing_of(kind, body, source_url) matches Some(page) ==> bare_entries(page.items),
{
    match listing_of(kind, body, source_url) {
        Some(page) => {
            let docs = body.member("value"@)->0.elements()->0;
            assert forall|i: int| 0 <= i < page.items.len() implies bare_entry(
                #[trigger] page.items[i],
            ) by {
                assert(page.items[i] == entry_of(kind, docs[i], source_url)->0);
            }
        },
        None => {},
    }
}

/// A listing below the root that fails on its first page costs its branch
/// and nothing else: the tree, the list of content locations and the nodes
/// still to be descended into are as they were, the failure is recorded,
/// and the crawl goes on.
pub proof fn lemma_failed_branch_is_isolated(s: CrawlState, e: FetchError)
    requires
        sound(s),
        s.flight matches Some(f) && f.first && !f.root,
    ensures
        !s.fatal(Err(e)),
        s.handled(Err(e)).notebooks == s.notebooks,
        s.handled(Err(e)).sections == s.sections,
        s.handled(Err(e)).urls == s.urls,
        s.handled(Err(e)).todo == s.todo,
        s.handled(Err(e)).flight is None,
        s.handled(Err(e)).warnings == s.warnings.push(
            FailedBranch { request: s.flight->0.request, error: e },
        ),
{
    let f = s.flight->0;
    assert(f.found + s.todo =~= s.todo);
}

/// A failure on the first page of the root's listing ends the crawl: it is
/// handed back, and nothing is left to ask for.
pub proof fn lemma_failed_root_ends_the_crawl(s: CrawlState, e: FetchError)
    requires
        s.flight matches Some(f) && f.first && f.root,
    ensures
        s.fatal(Err(e)),
        s.handled(Err(e)).finished(),
        s.handled(Err(e)).request() is None,
{
}

} // verus!
