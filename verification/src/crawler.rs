//! The crawl over notebooks, section groups, sections and pages.
//!
//! The crawler walks the tree depth first without making a request itself.
//! `next_request` names the listing to ask for, and `handle` takes the
//! server's answer. A listing is read to its last page before the crawl
//! descends into what it held. A listing that fails below the root costs
//! its branch and nothing else.

use vstd::prelude::*;
use serde_json::Value;
use crate::json::{doc_of, Doc};
use crate::listing::{entry_views, listing_of, page_view, read_listing, Entry, EntryView, Kind};
use crate::reader::{Collection, CollectionReader, FetchError, Mark, Page, ReaderStep};
use crate::tree::{
    notebook_views,
    section_views,
    NotebookVO,
    NotebookView,
    OnenoteVO,
    PageVO,
    PageView,
    SectionVO,
    SectionView,
};

verus! {

/// Which sections a crawl keeps, by their display names. A section that is
/// not kept is left out with everything below it.
#[derive(Debug)]
pub enum NameFilter {
    /// Every section.
    Any,
    /// The sections with one of these names.
    Only(Vec<String>),
    /// The sections with none of these names.
    Except(Vec<String>),
}

/// A [`NameFilter`] as a mathematical value.
pub enum FilterView {
    Any,
    Only(Seq<Seq<char>>),
    Except(Seq<Seq<char>>),
}

/// The characters of each of a sequence of strings.
pub open spec fn texts(s: Seq<String>) -> Seq<Seq<char>> {
    s.map_values(|t: String| t@)
}

impl View for NameFilter {
    type V = FilterView;

    open spec fn view(&self) -> FilterView {
        match self {
            NameFilter::Any => FilterView::Any,
            NameFilter::Only(names) => FilterView::Only(texts(names@)),
            NameFilter::Except(names) => FilterView::Except(texts(names@)),
        }
    }
}

impl FilterView {
    /// Whether a section of this name is kept.
    pub open spec fn accepts(self, name: Seq<char>) -> bool {
        match self {
            FilterView::Any => true,
            FilterView::Only(names) => names.contains(name),
            FilterView::Except(names) => !names.contains(name),
        }
    }
}

/// Whether `name` is one of `names`.
fn is_listed(names: &Vec<String>, name: &String) -> (r: bool)
    ensures
        r == texts(names@).contains(name@),
{
    let mut at: usize = 0;
    while at < names.len()
        invariant
            at <= names.len(),
            forall|i: int| 0 <= i < at ==> (#[trigger] texts(names@)[i]) != name@,
        decreases names.len() - at,
    {
        if names[at] == *name {
            assert(texts(names@)[at as int] == name@);
            return true;
        }
        at = at + 1;
    }
    false
}

impl NameFilter {
    /// Whether a section of this name is kept.
    pub fn accepts(&self, name: &String) -> (r: bool)
        ensures
            r == self@.accepts(name@),
    {
        match self {
            NameFilter::Any => true,
            NameFilter::Only(names) => is_listed(names, name),
            NameFilter::Except(names) => !is_listed(names, name),
        }
    }
}

/// A listing to ask the server for.
#[derive(Debug, PartialEq, Eq)]
pub enum Request {
    /// All notebooks.
    Notebooks,
    /// All sections, whatever notebook holds them.
    Sections,
    /// The sections that the notebook of this id holds directly.
    NotebookSections(String),
    /// The section groups of the notebook of this id.
    SectionGroups(String),
    /// The sections of the section group of this id.
    GroupSections(String),
    /// The pages of the section of this id.
    Pages(String),
    /// The next page of the listing under way, at this link.
    Follow(String),
}

/// A [`Request`] as a mathematical value.
pub enum RequestView {
    Notebooks,
    Sections,
    NotebookSections(Seq<char>),
    SectionGroups(Seq<char>),
    GroupSections(Seq<char>),
    Pages(Seq<char>),
    Follow(Seq<char>),
}

impl View for Request {
    type V = RequestView;

    open spec fn view(&self) -> RequestView {
        match self {
            Request::Notebooks => RequestView::Notebooks,
            Request::Sections => RequestView::Sections,
            Request::NotebookSections(id) => RequestView::NotebookSections(id@),
            Request::SectionGroups(id) => RequestView::SectionGroups(id@),
            Request::GroupSections(id) => RequestView::GroupSections(id@),
            Request::Pages(id) => RequestView::Pages(id@),
            Request::Follow(url) => RequestView::Follow(url@),
        }
    }
}

impl Clone for Request {
    fn clone(&self) -> (r: Self)
        ensures
            r@ == self@,
    {
        match self {
            Request::Notebooks => Request::Notebooks,
            Request::Sections => Request::Sections,
            Request::NotebookSections(id) => Request::NotebookSections(id.clone()),
            Request::SectionGroups(id) => Request::SectionGroups(id.clone()),
            Request::GroupSections(id) => Request::GroupSections(id.clone()),
            Request::Pages(id) => Request::Pages(id.clone()),
            Request::Follow(url) => Request::Follow(url.clone()),
        }
    }
}

/// A listing below the root that failed, and how.
#[derive(Debug, PartialEq, Eq)]
pub struct BranchFailure {
    pub request: Request,
    pub error: FetchError,
}

/// A [`BranchFailure`] as a mathematical value.
pub struct FailedBranch {
    pub request: RequestView,
    pub error: FetchError,
}

impl View for BranchFailure {
    type V = FailedBranch;

    open spec fn view(&self) -> FailedBranch {
        FailedBranch { request: self.request@, error: self.error }
    }
}

/// The views of a sequence of failures, one for one.
pub open spec fn failure_views(s: Seq<BranchFailure>) -> Seq<FailedBranch> {
    s.map_values(|f: BranchFailure| f@)
}

/// A node that was found and is still to be descended into.
#[derive(Debug)]
pub enum Work {
    /// A notebook: it joins the tree, and its own sections are listed.
    Notebook(NotebookVO),
    /// The section groups of the notebook of this id are listed.
    Groups(String),
    /// The sections of the section group of this id are listed.
    Group(String),
    /// A section: it joins the tree, and its pages are listed.
    Section(SectionVO),
}

/// A [`Work`] as a mathematical value.
pub enum WorkView {
    Notebook(NotebookView),
    Groups(Seq<char>),
    Group(Seq<char>),
    Section(SectionView),
}

impl View for Work {
    type V = WorkView;

    open spec fn view(&self) -> WorkView {
        match self {
            Work::Notebook(n) => WorkView::Notebook(n@),
            Work::Groups(id) => WorkView::Groups(id@),
            Work::Group(id) => WorkView::Group(id@),
            Work::Section(s) => WorkView::Section(s@),
        }
    }
}

/// The views of a sequence of work, one for one.
pub open spec fn work_views(s: Seq<Work>) -> Seq<WorkView> {
    s.map_values(|w: Work| w@)
}

impl WorkView {
    /// The listing that descending into the node asks for.
    pub open spec fn request(self) -> RequestView {
        match self {
            WorkView::Notebook(n) => RequestView::NotebookSections(n.id),
            WorkView::Groups(id) => RequestView::SectionGroups(id),
            WorkView::Group(id) => RequestView::GroupSections(id),
            WorkView::Section(s) => RequestView::Pages(s.id),
        }
    }

    /// The kind of entry which that listing holds.
    pub open spec fn kind(self) -> Kind {
        match self {
            WorkView::Notebook(_) => Kind::Section,
            WorkView::Groups(_) => Kind::Group,
            WorkView::Group(_) => Kind::Section,
            WorkView::Section(_) => Kind::Page,
        }
    }
}

/// The work that an entry of a listing leaves behind: a notebook, a section
/// group, or a section that the filter keeps. A page leaves none, and
/// neither does a section that the filter does not keep.
pub open spec fn work_of(filter: FilterView, e: EntryView) -> Option<WorkView> {
    match e {
        EntryView::Notebook(n) => Some(WorkView::Notebook(n)),
        EntryView::Section(s) => if filter.accepts(s.display_name) {
            Some(WorkView::Section(s))
        } else {
            None
        },
        EntryView::Group(id) => Some(WorkView::Group(id)),
        EntryView::Page(_) => None,
    }
}

/// The listing under way, as a mathematical value.
pub struct FlightView {
    /// The kind of entry that the listing holds.
    pub kind: Kind,
    /// The request that is waiting for its answer.
    pub request: RequestView,
    /// Whether the listing is that of the root.
    pub root: bool,
    /// Whether no page of the listing has arrived yet.
    pub first: bool,
    /// The work that the pages so far have left behind.
    pub found: Seq<WorkView>,
}

/// The crawl as a mathematical value.
pub struct CrawlState {
    /// Which sections are kept.
    pub filter: FilterView,
    /// The notebooks entered so far, in the order they were entered.
    pub notebooks: Seq<NotebookView>,
    /// The sections entered outside any notebook.
    pub sections: Seq<SectionView>,
    /// The nodes still to be descended into; the first is next.
    pub todo: Seq<WorkView>,
    /// The listing under way, if any.
    pub flight: Option<FlightView>,
    /// The content location of every page in the tree, in the order found.
    pub urls: Seq<Seq<char>>,
    /// The listings below the root that failed.
    pub warnings: Seq<FailedBranch>,
}

impl CrawlState {
    /// A crawl that is about to ask for the listing of its root.
    pub open spec fn start(filter: FilterView, kind: Kind, request: RequestView) -> Self {
        CrawlState {
            filter,
            notebooks: Seq::empty(),
            sections: Seq::empty(),
            todo: Seq::empty(),
            flight: Some(
                FlightView { kind, request, root: true, first: true, found: Seq::empty() },
            ),
            urls: Seq::empty(),
            warnings: Seq::empty(),
        }
    }

    /// Whether nothing is left to ask for.
    pub open spec fn finished(self) -> bool {
        self.flight is None && self.todo.len() == 0
    }

    /// The request to make next: that of the listing under way, else that of
    /// the next node to descend into, else none.
    pub open spec fn request(self) -> Option<RequestView> {
        match self.flight {
            Some(f) => Some(f.request),
            None => if self.todo.len() == 0 {
                None
            } else {
                Some(self.todo[0].request())
            },
        }
    }

    /// The crawl after section `s` has joined the tree: as the last section
    /// of the last notebook, or outside any notebook where there is none.
    pub open spec fn with_section(self, s: SectionView) -> Self {
        if self.notebooks.len() > 0 {
            let nb = self.notebooks.last();
            CrawlState {
                notebooks: self.notebooks.drop_last().push(
                    NotebookView { sections: nb.sections.push(s), ..nb },
                ),
                ..self
            }
        } else {
            CrawlState { sections: self.sections.push(s), ..self }
        }
    }

    /// The crawl after page `p` has joined the section entered last, and its
    /// content location the list of locations. Without such a section the
    /// page is dropped.
    pub open spec fn with_page(self, p: PageView) -> Self {
        if self.notebooks.len() > 0 {
            let nb = self.notebooks.last();
            if nb.sections.len() > 0 {
                let sec = nb.sections.last();
                CrawlState {
                    notebooks: self.notebooks.drop_last().push(
                        NotebookView {
                            sections: nb.sections.drop_last().push(
                                SectionView { pages: sec.pages.push(p), ..sec },
                            ),
                            ..nb
                        },
                    ),
                    urls: self.urls.push(p.content_url),
                    ..self
                }
            } else {
                self
            }
        } else if self.sections.len() > 0 {
            let sec = self.sections.last();
            CrawlState {
                sections: self.sections.drop_last().push(
                    SectionView { pages: sec.pages.push(p), ..sec },
                ),
                urls: self.urls.push(p.content_url),
                ..self
            }
        } else {
            self
        }
    }

    /// The crawl after one entry of the listing under way was taken in: a
    /// page joins the tree at once, anything else leaves its work with the
    /// listing.
    pub open spec fn with_entry(self, e: EntryView) -> Self {
        match e {
            EntryView::Page(p) => self.with_page(p),
            _ => match (work_of(self.filter, e), self.flight) {
                (Some(w), Some(f)) => CrawlState {
                    flight: Some(FlightView { found: f.found.push(w), ..f }),
                    ..self
                },
                _ => self,
            },
        }
    }

    /// The crawl after the entries `es` were taken in, in their order.
    pub open spec fn with_entries(self, es: Seq<EntryView>) -> Self
        decreases es.len(),
    {
        if es.len() == 0 {
            self
        } else {
            self.with_entries(es.drop_last()).with_entry(es.last())
        }
    }

    /// The crawl after the listing under way has ended: what it left behind
    /// is descended into before anything found earlier.
    pub open spec fn landed(self) -> Self {
        match self.flight {
            Some(f) => CrawlState { todo: f.found + self.todo, flight: None, ..self },
            None => self,
        }
    }

    /// Whether `outcome` ends the whole crawl: the first page of the root's
    /// listing could not be had.
    pub open spec fn fatal(self, outcome: Result<Page<EntryView>, FetchError>) -> bool {
        self.flight matches Some(f) && f.root && f.first && outcome is Err
    }

    /// The crawl after the answer to its request.
    ///
    /// A page is taken in; where a link follows a page that is not empty,
    /// the listing goes on with that link, and otherwise it has ended. A
    /// failure on the first page of the root's listing ends the crawl with
    /// nothing left to do. Any other failure is recorded as a warning and
    /// ends the listing with what its earlier pages held: on its first page,
    /// with nothing. Without a listing under way nothing changes.
    pub open spec fn handled(self, outcome: Result<Page<EntryView>, FetchError>) -> Self {
        match self.flight {
            None => self,
            Some(f) => match outcome {
                Ok(page) => {
                    let taken = self.with_entries(page.items);
                    match page.continuation() {
                        Some(url) => CrawlState {
                            flight: Some(
                                FlightView {
                                    request: RequestView::Follow(url),
                                    first: false,
                                    ..taken.flight->0
                                },
                            ),
                            ..taken
                        },
                        None => taken.landed(),
                    }
                },
                Err(e) => if f.root && f.first {
                    CrawlState { flight: None, todo: Seq::empty(), ..self }
                } else {
                    (CrawlState {
                        warnings: self.warnings.push(FailedBranch { request: f.request, error: e }),
                        ..self
                    }).landed()
                },
            },
        }
    }

    /// The crawl after its next request was named. With a listing under way
    /// or nothing to descend into, nothing changes. Otherwise the next node
    /// is entered: a notebook joins the tree and leaves its section groups
    /// to be listed after its own sections; a section joins the tree; and
    /// the listing of the node's children is under way.
    pub open spec fn launched(self) -> Self {
        if self.flight is Some || self.todo.len() == 0 {
            self
        } else {
            let w = self.todo[0];
            let rest = self.todo.drop_first();
            let entered = match w {
                WorkView::Notebook(n) => CrawlState {
                    notebooks: self.notebooks.push(n),
                    todo: seq![WorkView::Groups(n.id)] + rest,
                    ..self
                },
                WorkView::Section(s) => (CrawlState { todo: rest, ..self }).with_section(s),
                _ => CrawlState { todo: rest, ..self },
            };
            CrawlState {
                flight: Some(
                    FlightView {
                        kind: w.kind(),
                        request: w.request(),
                        root: false,
                        first: true,
                        found: Seq::empty(),
                    },
                ),
                ..entered
            }
        }
    }
}

/// What the server's answer holds for a listing of `kind`: the page that
/// its body describes, a decoding failure where the body describes none,
/// and the failure itself where the request failed.
pub open spec fn outcome_of(kind: Kind, answer: Result<(Seq<char>, Doc), FetchError>) -> Result<
    Page<EntryView>,
    FetchError,
> {
    match answer {
        Ok((source_url, body)) => match listing_of(kind, body, source_url) {
            Some(page) => Ok(page),
            None => Err(FetchError::Decode),
        },
        Err(e) => Err(e),
    }
}

/// The view of an optional parsed page or its failure.
pub open spec fn outcome_view(outcome: Result<Collection<Entry>, FetchError>) -> Result<
    Page<EntryView>,
    FetchError,
> {
    match outcome {
        Ok(page) => Ok(page_view(page)),
        Err(e) => Err(e),
    }
}

/// The server's answer to a request: the address that was read, and the
/// body that came back.
pub struct Answer<'a> {
    pub source_url: &'a str,
    pub body: &'a Value,
}

/// The view of an answer or its failure.
pub open spec fn answer_view(answer: Result<Answer<'_>, FetchError>) -> Result<
    (Seq<char>, Doc),
    FetchError,
> {
    match answer {
        Ok(a) => Ok((a.source_url@, doc_of(*a.body))),
        Err(e) => Err(e),
    }
}

/// The listing under way.
struct Flight {
    kind: Kind,
    request: Request,
    root: bool,
    first: bool,
    found: Vec<Work>,
    reader: CollectionReader<Entry>,
}

impl View for Flight {
    type V = FlightView;

    closed spec fn view(&self) -> FlightView {
        FlightView {
            kind: self.kind,
            request: self.request@,
            root: self.root,
            first: self.first,
            found: work_views(self.found@),
        }
    }
}

/// Walks the tree of notebooks, sections and pages, one request at a time.
pub struct Crawler {
    filter: NameFilter,
    notebooks: Vec<NotebookVO>,
    sections: Vec<SectionVO>,
    todo: Vec<Work>,
    flight: Option<Flight>,
    urls: Vec<String>,
    warnings: Vec<BranchFailure>,
}

impl View for Crawler {
    type V = CrawlState;

    closed spec fn view(&self) -> CrawlState {
        CrawlState {
            filter: self.filter@,
            notebooks: notebook_views(self.notebooks@),
            sections: section_views(self.sections@),
            todo: work_views(self.todo@),
            flight: match self.flight {
                Some(f) => Some(f@),
                None => None,
            },
            urls: texts(self.urls@),
            warnings: failure_views(self.warnings@),
        }
    }
}

impl Crawler {
    /// Whether the crawler is in order: the entries of the listing under way
    /// have all been taken in.
    pub closed spec fn wf(&self) -> bool {
        self.flight matches Some(f) ==> f.reader@.page is Some == !f.first && f.reader@.cursor
            == f.reader@.items.len()
    }

    /// The crawl with the listing `f` under way.
    spec fn with_flight(&self, f: Flight) -> CrawlState {
        CrawlState { flight: Some(f@), ..self@ }
    }

    /// A crawl from the root listing `request`, which holds entries of `kind`.
    fn begin(filter: NameFilter, kind: Kind, request: Request) -> (r: Self)
        ensures
            r.wf(),
            r@ == CrawlState::start(filter@, kind, request@),
    {
        let r = Crawler {
            filter,
            notebooks: Vec::new(),
            sections: Vec::new(),
            todo: Vec::new(),
            flight: Some(
                Flight {
                    kind,
                    request,
                    root: true,
                    first: true,
                    found: Vec::new(),
                    reader: CollectionReader::new(),
                },
            ),
            urls: Vec::new(),
            warnings: Vec::new(),
        };
        assert(r@.notebooks =~= Seq::<NotebookView>::empty());
        assert(r@.sections =~= Seq::<SectionView>::empty());
        assert(r@.todo =~= Seq::<WorkView>::empty());
        assert(r@.urls =~= Seq::<Seq<char>>::empty());
        assert(r@.warnings =~= Seq::<FailedBranch>::empty());
        assert(r@.flight->0.found =~= Seq::<WorkView>::empty());
        r
    }

    /// A crawl of every notebook, with its sections and their pages.
    pub fn from_notebooks(filter: NameFilter) -> (r: Self)
        ensures
            r.wf(),
            r@ == CrawlState::start(filter@, Kind::Notebook, RequestView::Notebooks),
    {
        Self::begin(filter, Kind::Notebook, Request::Notebooks)
    }

    /// A crawl of every section, whatever notebook holds it, and its pages.
    pub fn from_sections(filter: NameFilter) -> (r: Self)
        ensures
            r.wf(),
            r@ == CrawlState::start(filter@, Kind::Section, RequestView::Sections),
    {
        Self::begin(filter, Kind::Section, Request::Sections)
    }

    /// Whether nothing is left to ask for.
    pub fn is_finished(&self) -> (r: bool)
        ensures
            r == self@.finished(),
    {
        self.flight.is_none() && self.todo.len() == 0
    }

    /// The notebooks entered so far.
    pub fn notebooks(&self) -> (r: &Vec<NotebookVO>)
        ensures
            notebook_views(r@) == self@.notebooks,
    {
        &self.notebooks
    }

    /// The sections entered outside any notebook.
    pub fn sections(&self) -> (r: &Vec<SectionVO>)
        ensures
            section_views(r@) == self@.sections,
    {
        &self.sections
    }

    /// The content location of every page in the tree, in the order found.
    pub fn urls(&self) -> (r: &Vec<String>)
        ensures
            texts(r@) == self@.urls,
    {
        &self.urls
    }

    /// The number of pages found so far, over the whole crawl.
    pub fn pages_seen(&self) -> (r: usize)
        ensures
            r == self@.urls.len(),
    {
        self.urls.len()
    }

    /// The listings below the root that failed.
    pub fn warnings(&self) -> (r: &Vec<BranchFailure>)
        ensures
            failure_views(r@) == self@.warnings,
    {
        &self.warnings
    }

    /// Section `s` joins the tree.
    fn add_section(&mut self, s: SectionVO)
        ensures
            final(self)@ == old(self)@.with_section(s@),
            final(self).flight == old(self).flight,
    {
        if self.notebooks.len() > 0 {
            let ghost before = self.notebooks@;
            let mut nb = self.notebooks.pop().unwrap();
            let ghost was = nb@;
            nb.sections.push(s);
            assert(nb@.sections =~= was.sections.push(s@));
            self.notebooks.push(nb);
            assert(notebook_views(self.notebooks@) =~= notebook_views(before).drop_last().push(
                NotebookView { sections: was.sections.push(s@), ..was },
            ));
        } else {
            let ghost before = self.sections@;
            self.sections.push(s);
            assert(section_views(self.sections@) =~= section_views(before).push(s@));
            assert(notebook_views(self.notebooks@).len() == 0);
        }
    }

    /// Page `p` joins the section entered last.
    fn add_page(&mut self, p: PageVO)
        ensures
            final(self)@ == old(self)@.with_page(p@),
            final(self).flight == old(self).flight,
    {
        if self.notebooks.len() > 0 {
            let ghost before = self.notebooks@;
            let mut nb = self.notebooks.pop().unwrap();
            let ghost was = nb@;
            if nb.sections.len() > 0 {
                let ghost url = p.content_url@;
                let ghost urls = self.urls@;
                self.urls.push(p.content_url.clone());
                assert(texts(self.urls@) =~= texts(urls).push(url));
                let mut sec = nb.sections.pop().unwrap();
                let ghost sec_was = sec@;
                sec.pages.push(p);
                assert(sec@.pages =~= sec_was.pages.push(p@));
                nb.sections.push(sec);
                assert(nb@.sections =~= was.sections.drop_last().push(
                    SectionView { pages: sec_was.pages.push(p@), ..sec_was },
                ));
            }
            self.notebooks.push(nb);
            assert(notebook_views(self.notebooks@) =~= notebook_views(before).drop_last().push(
                nb@,
            ));
            assert(notebook_views(before).drop_last().push(was) =~= notebook_views(before));
        } else if self.sections.len() > 0 {
            let ghost before = self.sections@;
            let ghost url = p.content_url@;
            let ghost urls = self.urls@;
            self.urls.push(p.content_url.clone());
            assert(texts(self.urls@) =~= texts(urls).push(url));
            let mut sec = self.sections.pop().unwrap();
            let ghost sec_was = sec@;
            sec.pages.push(p);
            assert(sec@.pages =~= sec_was.pages.push(p@));
            self.sections.push(sec);
            assert(section_views(self.sections@) =~= section_views(before).drop_last().push(
                SectionView { pages: sec_was.pages.push(p@), ..sec_was },
            ));
            assert(notebook_views(self.notebooks@).len() == 0);
        } else {
            assert(notebook_views(self.notebooks@).len() == 0);
            assert(section_views(self.sections@).len() == 0);
        }
    }

    /// Names the request to make next, or `None` when the crawl is over.
    /// Where no listing is under way, the next node is entered and the
    /// listing of its children begins.
    pub fn next_request(&mut self) -> (r: Option<Request>)
        requires
            old(self).wf(),
        ensures
            final(self).wf(),
            final(self)@ == old(self)@.launched(),
            match r {
                Some(q) => old(self)@.request() == Some(q@),
                None => old(self)@.request() is None,
            },
    {
        match &self.flight {
            Some(f) => {
                return Some(f.request.clone());
            },
            None => {},
        }
        if self.todo.len() == 0 {
            assert(work_views(self.todo@).len() == 0);
            return None;
        }
        let ghost before = self@;
        let w = self.todo.remove(0);
        assert(w@ == before.todo[0]);
        assert(work_views(self.todo@) =~= before.todo.drop_first());
        let ghost rest = work_views(self.todo@);
        let (kind, request) = match w {
            Work::Notebook(n) => {
                let id = n.id.clone();
                let ghost nbs = self.notebooks@;
                self.todo.insert(0, Work::Groups(n.id.clone()));
                assert(work_views(self.todo@) =~= seq![WorkView::Groups(n@.id)] + rest);
                self.notebooks.push(n);
                assert(notebook_views(self.notebooks@) =~= notebook_views(nbs).push(n@));
                (Kind::Section, Request::NotebookSections(id))
            },
            Work::Groups(id) => (Kind::Group, Request::SectionGroups(id)),
            Work::Group(id) => (Kind::Section, Request::GroupSections(id)),
            Work::Section(s) => {
                let id = s.id.clone();
                self.add_section(s);
                (Kind::Page, Request::Pages(id))
            },
        };
        let r = request.clone();
        let f = Flight {
            kind,
            request,
            root: false,
            first: true,
            found: Vec::new(),
            reader: CollectionReader::new(),
        };
        assert(f@.found =~= Seq::<WorkView>::empty());
        self.flight = Some(f);
        Some(r)
    }

    /// Ends the listing `f`: what it found is descended into next.
    fn land(&mut self, f: Flight)
        requires
            old(self).flight is None,
        ensures
            final(self)@ == old(self).with_flight(f).landed(),
            final(self).flight is None,
    {
        let ghost todo = self.todo@;
        let Flight { found, .. } = f;
        let mut next = found;
        let ghost found = next@;
        next.append(&mut self.todo);
        self.todo = next;
        assert(work_views(self.todo@) =~= work_views(found) + work_views(todo));
    }

    /// Takes in one entry of the listing `f`.
    fn take_in(&mut self, f: &mut Flight, e: Entry)
        requires
            old(self).flight is None,
        ensures
            final(self).with_flight(*final(f)) == old(self).with_flight(*old(f)).with_entry(e@),
            final(self).flight is None,
            final(f).reader == old(f).reader,
            final(f).first == old(f).first,
    {
        let ghost found = f.found@;
        match e {
            Entry::Page(p) => {
                self.add_page(p);
            },
            Entry::Notebook(n) => {
                f.found.push(Work::Notebook(n));
                assert(work_views(f.found@) =~= work_views(found).push(WorkView::Notebook(n@)));
            },
            Entry::Group(id) => {
                f.found.push(Work::Group(id));
                assert(work_views(f.found@) =~= work_views(found).push(WorkView::Group(id@)));
            },
            Entry::Section(s) => {
                if self.filter.accepts(&s.display_name) {
                    f.found.push(Work::Section(s));
                    assert(work_views(f.found@) =~= work_views(found).push(WorkView::Section(s@)));
                }
            },
        }
    }

    /// Takes the outcome of the request named last: a page of the listing
    /// under way, or the failure to get one. Only a failure on the first
    /// page of the root's listing is handed back; it ends the crawl.
    pub fn accept(&mut self, outcome: Result<Collection<Entry>, FetchError>) -> (r: Result<
        (),
        FetchError,
    >)
        requires
            old(self).wf(),
        ensures
            final(self).wf(),
            final(self)@ == old(self)@.handled(outcome_view(outcome)),
            match r {
                Ok(_) => !old(self)@.fatal(outcome_view(outcome)),
                Err(e) => old(self)@.fatal(outcome_view(outcome)) && outcome_view(outcome) == Err::<
                    Page<EntryView>,
                    FetchError,
                >(e),
            },
    {
        let ghost start = self@;
        let mut f = match self.flight.take() {
            Some(f) => f,
            None => {
                return Ok(());
            },
        };
        assert(self.with_flight(f) == start);
        match outcome {
            Err(e) => {
                if f.root && f.first {
                    self.todo = Vec::new();
                    assert(work_views(self.todo@) =~= Seq::<WorkView>::empty());
                    return Err(e);
                }
                let ghost warnings = self.warnings@;
                self.warnings.push(BranchFailure { request: f.request.clone(), error: e });
                assert(failure_views(self.warnings@) =~= failure_views(warnings).push(
                    FailedBranch { request: f.request@, error: e },
                ));
                self.land(f);
                Ok(())
            },
            Ok(page) => {
                let ghost given = page_view(page);
                let ghost base = f.reader@.items.len();
                let ghost held = f.reader@.items;
                let ghost fresh = page.value@;
                let _ = f.reader.fetch(Ok(page));
                assert(start.with_entries(given.items.take(0)) == start);
                loop
                    invariant_except_break
                        self.flight is None,
                        f.reader@.page == Some(
                            Mark { len: given.items.len(), next_link: given.next_link },
                        ),
                        f.reader@.items == held + fresh,
                        held.len() == base,
                        given.items == entry_views(fresh),
                        base <= f.reader@.cursor <= base + fresh.len(),
                        self.with_flight(f) == start.with_entries(
                            given.items.take(f.reader@.cursor - base),
                        ),
                        start.flight is Some,
                    ensures
                        final(self).wf(),
                        final(self)@ == start.handled(Ok(given)),
                    decreases base + fresh.len() - f.reader@.cursor,
                {
                    let ghost k = f.reader@.cursor - base;
                    match f.reader.next() {
                        ReaderStep::Item(e) => {
                            let e = e.clone();
                            assert(e@ == given.items[k]);
                            self.take_in(&mut f, e);
                            assert(given.items.take(k + 1).drop_last() =~= given.items.take(k));
                            assert(given.items.take(k + 1).last() == given.items[k]);
                        },
                        ReaderStep::Fetch(url) => {
                            assert(given.items.take(k) =~= given.items);
                            f.request = Request::Follow(url);
                            f.first = false;
                            self.flight = Some(f);
                            break ;
                        },
                        ReaderStep::End => {
                            assert(given.items.take(k) =~= given.items);
                            self.land(f);
                            break ;
                        },
                    }
                }
                Ok(())
            },
        }
    }

    /// Takes the server's answer to the request named last. The body is
    /// read as a page of the listing under way; a body of another shape
    /// counts as a decoding failure of that request.
    pub fn handle(&mut self, answer: Result<Answer<'_>, FetchError>) -> (r: Result<(), FetchError>)
        requires
            old(self).wf(),
        ensures
            final(self).wf(),
            match old(self)@.flight {
                Some(f) => {
                    let outcome = outcome_of(f.kind, answer_view(answer));
                    &&& final(self)@ == old(self)@.handled(outcome)
                    &&& match r {
                        Ok(_) => !old(self)@.fatal(outcome),
                        Err(e) => old(self)@.fatal(outcome) && outcome == Err::<
                            Page<EntryView>,
                            FetchError,
                        >(e),
                    }
                },
                None => final(self)@ == old(self)@ && r is Ok,
            },
    {
        let kind = match &self.flight {
            Some(f) => f.kind,
            None => {
                return Ok(());
            },
        };
        let outcome = match answer {
            Ok(a) => read_listing(kind, a.body, a.source_url),
            Err(e) => Err(e),
        };
        self.accept(outcome)
    }

    /// Gives up the crawler for what it has gathered: the notebooks, the
    /// sections outside any notebook, and the content location of every
    /// page.
    pub fn into_parts(self) -> (r: (OnenoteVO, Vec<SectionVO>, Vec<String>))
        ensures
            r.0@.notebooks == self@.notebooks,
            section_views(r.1@) == self@.sections,
            texts(r.2@) == self@.urls,
    {
        (OnenoteVO { notebooks: self.notebooks }, self.sections, self.urls)
    }
}

} // verus!
