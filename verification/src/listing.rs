//! Reading one page of a listing: the entries that the server's answer
//! holds, and the link to the page that follows.

use vstd::prelude::*;
use serde_json::Value;
use crate::json::{doc_of, docs_of, get_elements, get_member, get_text, text_member, Doc};
use crate::reader::{text_of, Collection, FetchError, OData, Page};
use crate::tree::{NotebookVO, NotebookView, PageVO, PageView, SectionVO, SectionView};

verus! {

/// The kinds of resource that a listing can hold.
#[derive(Debug, Clone, Copy, PartialEq, Eq, Structural)]
pub enum Kind {
    Notebook,
    Section,
    Group,
    Page,
}

/// One entry of a listing. A notebook or a section comes without children:
/// the crawl adds them.
#[derive(Debug)]
pub enum Entry {
    Notebook(NotebookVO),
    Section(SectionVO),
    /// A section group, of which only the id is read.
    Group(String),
    Page(PageVO),
}

/// An [`Entry`] as a mathematical value.
pub enum EntryView {
    Notebook(NotebookView),
    Section(SectionView),
    Group(Seq<char>),
    Page(PageView),
}

impl View for Entry {
    type V = EntryView;

    open spec fn view(&self) -> EntryView {
        match self {
            Entry::Notebook(n) => EntryView::Notebook(n@),
            Entry::Section(s) => EntryView::Section(s@),
            Entry::Group(id) => EntryView::Group(id@),
            Entry::Page(p) => EntryView::Page(p@),
        }
    }
}

impl Clone for Entry {
    fn clone(&self) -> (r: Self)
        ensures
            r@ == self@,
    {
        match self {
            Entry::Notebook(n) => Entry::Notebook(n.clone()),
            Entry::Section(s) => Entry::Section(s.clone()),
            Entry::Group(id) => Entry::Group(id.clone()),
            Entry::Page(p) => Entry::Page(p.clone()),
        }
    }
}

/// The views of a sequence of entries, one for one.
pub open spec fn entry_views(s: Seq<Entry>) -> Seq<EntryView> {
    s.map_values(|e: Entry| e@)
}

/// A page of entries as a mathematical value.
pub open spec fn page_view(page: Collection<Entry>) -> Page<EntryView> {
    Page { items: entry_views(page.value@), next_link: text_of(page.odata.next_link) }
}

/// The notebook that `doc` describes: its `id`, `displayName`,
/// `createdDateTime` and `lastModifiedDateTime` must be strings.
pub open spec fn notebook_of(doc: Doc, source_url: Seq<char>) -> Option<NotebookView> {
    match (
        doc.text_member("id"@),
        doc.text_member("displayName"@),
        doc.text_member("createdDateTime"@),
        doc.text_member("lastModifiedDateTime"@),
    ) {
        (Some(id), Some(name), Some(created), Some(modified)) => Some(
            NotebookView {
                source_url,
                id,
                created_date_time: created,
                display_name: name,
                last_modified_date_time: modified,
                sections: Seq::empty(),
            },
        ),
        _ => None,
    }
}

/// The name of the parent that a section's entry gives: the `displayName`
/// of its `parentSection`; empty where the entry has no such member or the
/// member has no `displayName`; `None` where that name is not a string.
pub open spec fn parent_name_of(doc: Doc) -> Option<Seq<char>> {
    match doc.member("parentSection"@) {
        None => Some(Seq::empty()),
        Some(parent) => match parent.member("displayName"@) {
            None => Some(Seq::empty()),
            Some(name) => name.text(),
        },
    }
}

/// The section that `doc` describes: its `id`, `displayName`,
/// `createdDateTime` and `lastModifiedDateTime` must be strings, and its
/// parent's name must be readable.
pub open spec fn section_of(doc: Doc, source_url: Seq<char>) -> Option<SectionView> {
    match (
        doc.text_member("id"@),
        doc.text_member("displayName"@),
        doc.text_member("createdDateTime"@),
        doc.text_member("lastModifiedDateTime"@),
        parent_name_of(doc),
    ) {
        (Some(id), Some(name), Some(created), Some(modified), Some(parent)) => Some(
            SectionView {
                source_url,
                id,
                created_date_time: created,
                display_name: name,
                last_modified_date_time: modified,
                parent_name: parent,
                pages: Seq::empty(),
            },
        ),
        _ => None,
    }
}

/// The page that `doc` describes: its `id`, `contentUrl`, `title` and
/// `createdDateTime` must be strings.
pub open spec fn page_of(doc: Doc, source_url: Seq<char>) -> Option<PageView> {
    match (
        doc.text_member("id"@),
        doc.text_member("contentUrl"@),
        doc.text_member("title"@),
        doc.text_member("createdDateTime"@),
    ) {
        (Some(id), Some(content), Some(title), Some(created)) => Some(
            PageView {
                source_url,
                id,
                created_date_time: created,
                title,
                content_url: content,
            },
        ),
        _ => None,
    }
}

/// The entry of kind `kind` that `doc` describes; `None` where a member
/// that the kind needs is missing or is no string.
pub open spec fn entry_of(kind: Kind, doc: Doc, source_url: Seq<char>) -> Option<EntryView> {
    match kind {
        Kind::Notebook => match notebook_of(doc, source_url) {
            Some(n) => Some(EntryView::Notebook(n)),
            None => None,
        },
        Kind::Section => match section_of(doc, source_url) {
            Some(s) => Some(EntryView::Section(s)),
            None => None,
        },
        Kind::Group => match doc.text_member("id"@) {
            Some(id) => Some(EntryView::Group(id)),
            None => None,
        },
        Kind::Page => match page_of(doc, source_url) {
            Some(p) => Some(EntryView::Page(p)),
            None => None,
        },
    }
}

/// The entries that `docs` describe, in their order; `None` where one of
/// them describes none.
pub open spec fn entries_of(kind: Kind, docs: Seq<Doc>, source_url: Seq<char>) -> Option<
    Seq<EntryView>,
> {
    if forall|i: int|
        0 <= i < docs.len() ==> entry_of(kind, #[trigger] docs[i], source_url) is Some {
        Some(Seq::new(docs.len(), |i: int| entry_of(kind, docs[i], source_url)->0))
    } else {
        None
    }
}

/// The page of a listing that `body` holds: the entries of its array
/// `value`, and the string `@odata.nextLink` where it has one. `None` where
/// `value` is missing or no array, or an element of it describes no entry.
pub open spec fn listing_of(kind: Kind, body: Doc, source_url: Seq<char>) -> Option<
    Page<EntryView>,
> {
    match body.member("value"@) {
        Some(value) => match value.elements() {
            Some(docs) => match entries_of(kind, docs, source_url) {
                Some(items) => Some(
                    Page { items, next_link: body.text_member("@odata.nextLink"@) },
                ),
                None => None,
            },
            None => None,
        },
        None => None,
    }
}

/// Reads a notebook's entry.
fn read_notebook(v: &Value, source_url: &str) -> (r: Option<NotebookVO>)
    ensures
        match r {
            Some(n) => notebook_of(doc_of(*v), source_url@) == Some(n@),
            None => notebook_of(doc_of(*v), source_url@) is None,
        },
{
    let id = match text_member(v, "id") {
        Some(s) => s,
        None => return None,
    };
    let display_name = match text_member(v, "displayName") {
        Some(s) => s,
        None => return None,
    };
    let created_date_time = match text_member(v, "createdDateTime") {
        Some(s) => s,
        None => return None,
    };
    let last_modified_date_time = match text_member(v, "lastModifiedDateTime") {
        Some(s) => s,
        None => return None,
    };
    let n = NotebookVO {
        source_url: source_url.to_owned(),
        id,
        created_date_time,
        display_name,
        last_modified_date_time,
        sections: Vec::new(),
    };
    assert(n@.sections =~= Seq::<SectionView>::empty());
    Some(n)
}

/// Reads the name of a section's parent.
fn read_parent_name(v: &Value) -> (r: Option<String>)
    ensures
        match r {
            Some(s) => parent_name_of(doc_of(*v)) == Some(s@),
            None => parent_name_of(doc_of(*v)) is None,
        },
{
    match get_member(v, "parentSection") {
        None => Some(String::new()),
        Some(parent) => match get_member(parent, "displayName") {
            None => Some(String::new()),
            Some(name) => match get_text(name) {
                Some(s) => Some(s.to_owned()),
                None => None,
            },
        },
    }
}

/// Reads a section's entry.
fn read_section(v: &Value, source_url: &str) -> (r: Option<SectionVO>)
    ensures
        match r {
            Some(s) => section_of(doc_of(*v), source_url@) == Some(s@),
            None => section_of(doc_of(*v), source_url@) is None,
        },
{
    let id = match text_member(v, "id") {
        Some(s) => s,
        None => return None,
    };
    let display_name = match text_member(v, "displayName") {
        Some(s) => s,
        None => return None,
    };
    let created_date_time = match text_member(v, "createdDateTime") {
        Some(s) => s,
        None => return None,
    };
    let last_modified_date_time = match text_member(v, "lastModifiedDateTime") {
        Some(s) => s,
        None => return None,
    };
    let parent_name = match read_parent_name(v) {
        Some(s) => s,
        None => return None,
    };
    let s = SectionVO {
        source_url: source_url.to_owned(),
        id,
        created_date_time,
        display_name,
        last_modified_date_time,
        parent_name,
        pages: Vec::new(),
    };
    assert(s@.pages =~= Seq::<PageView>::empty());
    Some(s)
}

/// Reads a page's entry.
fn read_page(v: &Value, source_url: &str) -> (r: Option<PageVO>)
    ensures
        match r {
            Some(p) => page_of(doc_of(*v), source_url@) == Some(p@),
            None => page_of(doc_of(*v), source_url@) is None,
        },
{
    let id = match text_member(v, "id") {
        Some(s) => s,
        None => return None,
    };
    let content_url = match text_member(v, "contentUrl") {
        Some(s) => s,
        None => return None,
    };
    let title = match text_member(v, "title") {
        Some(s) => s,
        None => return None,
    };
    let created_date_time = match text_member(v, "createdDateTime") {
        Some(s) => s,
        None => return None,
    };
    Some(PageVO { source_url: source_url.to_owned(), id, created_date_time, title, content_url })
}

/// Reads the entry of kind `kind` that `v` holds, as read from `source_url`.
pub fn read_entry(kind: Kind, v: &Value, source_url: &str) -> (r: Option<Entry>)
    ensures
        match r {
            Some(e) => entry_of(kind, doc_of(*v), source_url@) == Some(e@),
            None => entry_of(kind, doc_of(*v), source_url@) is None,
        },
{
    match kind {
        Kind::Notebook => match read_notebook(v, source_url) {
            Some(n) => Some(Entry::Notebook(n)),
            None => None,
        },
        Kind::Section => match read_section(v, source_url) {
            Some(s) => Some(Entry::Section(s)),
            None => None,
        },
        Kind::Group => match text_member(v, "id") {
            Some(id) => Some(Entry::Group(id)),
            None => None,
        },
        Kind::Page => match read_page(v, source_url) {
            Some(p) => Some(Entry::Page(p)),
            None => None,
        },
    }
}

/// Reads one page of a listing of `kind` from the body of the server's
/// answer. A body of another shape is a decoding failure.
#[verifier::loop_isolation(false)]
pub fn read_listing(kind: Kind, body: &Value, source_url: &str) -> (r: Result<
    Collection<Entry>,
    FetchError,
>)
    ensures
        match r {
            Ok(page) => listing_of(kind, doc_of(*body), source_url@) == Some(page_view(page)),
            Err(e) => e == FetchError::Decode && listing_of(kind, doc_of(*body), source_url@)
                is None,
        },
{
    let value = match get_member(body, "value") {
        Some(v) => v,
        None => return Err(FetchError::Decode),
    };
    let elements = match get_elements(value) {
        Some(l) => l,
        None => return Err(FetchError::Decode),
    };
    let ghost docs = docs_of(elements@);
    let mut entries: Vec<Entry> = Vec::new();
    let mut at: usize = 0;
    while at < elements.len()
        invariant
            at <= elements.len(),
            docs == docs_of(elements@),
            entries@.len() == at,
            forall|i: int|
                0 <= i < at ==> entry_of(kind, #[trigger] docs[i], source_url@) == Some(
                    entries@[i]@,
                ),
        decreases elements.len() - at,
    {
        match read_entry(kind, &elements[at], source_url) {
            Some(e) => {
                entries.push(e);
            },
            None => {
                assert(entry_of(kind, docs[at as int], source_url@) is None);
                return Err(FetchError::Decode);
            },
        }
        at = at + 1;
    }
    let next_link = text_member(body, "@odata.nextLink");
    let page = Collection { value: entries, odata: OData { context: None, next_link } };
    assert(entries_of(kind, docs, source_url@) == Some(entry_views(page.value@))) by {
        assert(entries_of(kind, docs, source_url@)->0 =~= entry_views(page.value@));
    }
    Ok(page)
}

} // verus!
