//! The exported tree as a JSON document, and back.
//!
//! A page, a section and a notebook are objects whose members are their
//! fields; the pages of a section and the sections of a notebook are arrays
//! in the order of the tree.

use vstd::prelude::*;
use serde_json::Value;
use crate::json::{
    doc_of,
    docs_of,
    empty_object,
    get_elements,
    get_member,
    make_list,
    make_text,
    text_member,
    with_member,
    Doc,
};
use crate::tree::{
    notebook_views,
    page_views,
    section_views,
    NotebookVO,
    NotebookView,
    OnenoteVO,
    OnenoteView,
    PageVO,
    PageView,
    SectionVO,
    SectionView,
};

verus! {

/// The document of a page.
pub open spec fn page_doc(p: PageView) -> Doc {
    Doc::Object(
        Map::empty().insert("sourceUrl"@, Doc::Text(p.source_url)).insert(
            "id"@,
            Doc::Text(p.id),
        ).insert("createdDateTime"@, Doc::Text(p.created_date_time)).insert(
            "title"@,
            Doc::Text(p.title),
        ).insert("contentUrl"@, Doc::Text(p.content_url)),
    )
}

/// The documents of pages, one for one.
pub open spec fn page_docs(pages: Seq<PageView>) -> Seq<Doc> {
    pages.map_values(|p: PageView| page_doc(p))
}

/// The document of a section: its fields, and its pages as an array.
pub open spec fn section_doc(s: SectionView) -> Doc {
    Doc::Object(
        Map::empty().insert("sourceUrl"@, Doc::Text(s.source_url)).insert(
            "id"@,
            Doc::Text(s.id),
        ).insert("createdDateTime"@, Doc::Text(s.created_date_time)).insert(
            "displayName"@,
            Doc::Text(s.display_name),
        ).insert("lastModifiedDateTime"@, Doc::Text(s.last_modified_date_time)).insert(
            "parentName"@,
            Doc::Text(s.parent_name),
        ).insert("pages"@, Doc::List(page_docs(s.pages))),
    )
}

/// The documents of sections, one for one.
pub open spec fn section_docs(sections: Seq<SectionView>) -> Seq<Doc> {
    sections.map_values(|s: SectionView| section_doc(s))
}

/// The document of a notebook: its fields, and its sections as an array.
pub open spec fn notebook_doc(n: NotebookView) -> Doc {
    Doc::Object(
        Map::empty().insert("sourceUrl"@, Doc::Text(n.source_url)).insert(
            "id"@,
            Doc::Text(n.id),
        ).insert("createdDateTime"@, Doc::Text(n.created_date_time)).insert(
            "displayName"@,
            Doc::Text(n.display_name),
        ).insert("lastModifiedDateTime"@, Doc::Text(n.last_modified_date_time)).insert(
            "sections"@,
            Doc::List(section_docs(n.sections)),
        ),
    )
}

/// The documents of notebooks, one for one.
pub open spec fn notebook_docs(notebooks: Seq<NotebookView>) -> Seq<Doc> {
    notebooks.map_values(|n: NotebookView| notebook_doc(n))
}

/// The document of the whole tree: an object whose member `notebooks` is
/// the array of its notebooks.
pub open spec fn onenote_doc(t: OnenoteView) -> Doc {
    Doc::Object(
        Map::empty().insert(
            "notebooks"@,
            Doc::List(notebook_docs(t.notebooks)),
        ),
    )
}

/// The page that a document describes: every field must be a string.
pub open spec fn page_from(doc: Doc) -> Option<PageView> {
    match (
        doc.text_member("sourceUrl"@),
        doc.text_member("id"@),
        doc.text_member("createdDateTime"@),
        doc.text_member("title"@),
        doc.text_member("contentUrl"@),
    ) {
        (
            Some(source_url),
            Some(id),
            Some(created_date_time),
            Some(title),
            Some(content_url),
        ) => Some(PageView { source_url, id, created_date_time, title, content_url }),
        _ => None,
    }
}

/// The pages that documents describe, in their order; `None` where one of
/// them describes none.
pub open spec fn pages_from(docs: Seq<Doc>) -> Option<Seq<PageView>> {
    if forall|i: int| 0 <= i < docs.len() ==> page_from(#[trigger] docs[i]) is Some {
        Some(Seq::new(docs.len(), |i: int| page_from(docs[i])->0))
    } else {
        None
    }
}

/// The array that member `key` of `doc` holds.
pub open spec fn list_member(doc: Doc, key: Seq<char>) -> Option<Seq<Doc>> {
    match doc.member(key) {
        Some(d) => d.elements(),
        None => None,
    }
}

/// The section that a document describes.
pub open spec fn section_from(doc: Doc) -> Option<SectionView> {
    match (
        doc.text_member("sourceUrl"@),
        doc.text_member("id"@),
        doc.text_member("createdDateTime"@),
        doc.text_member("displayName"@),
        doc.text_member("lastModifiedDateTime"@),
        doc.text_member("parentName"@),
        list_member(doc, "pages"@),
    ) {
        (
            Some(source_url),
            Some(id),
            Some(created_date_time),
            Some(display_name),
            Some(last_modified_date_time),
            Some(parent_name),
            Some(docs),
        ) => match pages_from(docs) {
            Some(pages) => Some(
                SectionView {
                    source_url,
                    id,
                    created_date_time,
                    display_name,
                    last_modified_date_time,
                    parent_name,
                    pages,
                },
            ),
            None => None,
        },
        _ => None,
    }
}

/// The sections that documents describe, in their order; `None` where one
/// of them describes none.
pub open spec fn sections_from(docs: Seq<Doc>) -> Option<Seq<SectionView>> {
    if forall|i: int| 0 <= i < docs.len() ==> section_from(#[trigger] docs[i]) is Some {
        Some(Seq::new(docs.len(), |i: int| section_from(docs[i])->0))
    } else {
        None
    }
}

/// The notebook that a document describes.
pub open spec fn notebook_from(doc: Doc) -> Option<NotebookView> {
    match (
        doc.text_member("sourceUrl"@),
        doc.text_member("id"@),
        doc.text_member("createdDateTime"@),
        doc.text_member("displayName"@),
        doc.text_member("lastModifiedDateTime"@),
        list_member(doc, "sections"@),
    ) {
        (
            Some(source_url),
            Some(id),
            Some(created_date_time),
            Some(display_name),
            Some(last_modified_date_time),
            Some(docs),
        ) => match sections_from(docs) {
            Some(sections) => Some(
                NotebookView {
                    source_url,
                    id,
                    created_date_time,
                    display_name,
                    last_modified_date_time,
                    sections,
                },
            ),
            None => None,
        },
        _ => None,
    }
}

/// The notebooks that documents describe, in their order; `None` where one
/// of them describes none.
pub open spec fn notebooks_from(docs: Seq<Doc>) -> Option<Seq<NotebookView>> {
    if forall|i: int| 0 <= i < docs.len() ==> notebook_from(#[trigger] docs[i]) is Some {
        Some(Seq::new(docs.len(), |i: int| notebook_from(docs[i])->0))
    } else {
        None
    }
}

/// The tree that a document describes.
pub open spec fn onenote_from(doc: Doc) -> Option<OnenoteView> {
    match list_member(doc, "notebooks"@) {
        Some(docs) => match notebooks_from(docs) {
            Some(notebooks) => Some(OnenoteView { notebooks }),
            None => None,
        },
        None => None,
    }
}

/// The names of the members are pairwise different.
proof fn lemma_keys_differ()
    ensures
        "sourceUrl"@ != "id"@,
        "sourceUrl"@ != "createdDateTime"@,
        "sourceUrl"@ != "title"@,
        "sourceUrl"@ != "contentUrl"@,
        "sourceUrl"@ != "displayName"@,
        "sourceUrl"@ != "lastModifiedDateTime"@,
        "sourceUrl"@ != "parentName"@,
        "sourceUrl"@ != "pages"@,
        "sourceUrl"@ != "sections"@,
        "id"@ != "createdDateTime"@,
        "id"@ != "title"@,
        "id"@ != "contentUrl"@,
        "id"@ != "displayName"@,
        "id"@ != "lastModifiedDateTime"@,
        "id"@ != "parentName"@,
        "id"@ != "pages"@,
        "id"@ != "sections"@,
        "createdDateTime"@ != "title"@,
        "createdDateTime"@ != "contentUrl"@,
        "createdDateTime"@ != "displayName"@,
        "createdDateTime"@ != "lastModifiedDateTime"@,
        "createdDateTime"@ != "parentName"@,
        "createdDateTime"@ != "pages"@,
        "createdDateTime"@ != "sections"@,
        "title"@ != "contentUrl"@,
        "displayName"@ != "lastModifiedDateTime"@,
        "displayName"@ != "parentName"@,
        "displayName"@ != "pages"@,
        "displayName"@ != "sections"@,
        "lastModifiedDateTime"@ != "parentName"@,
        "lastModifiedDateTime"@ != "pages"@,
        "lastModifiedDateTime"@ != "sections"@,
        "parentName"@ != "pages"@,
{
    reveal_strlit("sourceUrl");
    reveal_strlit("id");
    reveal_strlit("createdDateTime");
    reveal_strlit("title");
    reveal_strlit("contentUrl");
    reveal_strlit("displayName");
    reveal_strlit("lastModifiedDateTime");
    reveal_strlit("parentName");
    reveal_strlit("pages");
    reveal_strlit("sections");
    assert("sourceUrl"@.len() == 9);
    assert("id"@.len() == 2);
    assert("createdDateTime"@.len() == 15);
    assert("title"@.len() == 5);
    assert("contentUrl"@.len() == 10);
    assert("displayName"@.len() == 11);
    assert("lastModifiedDateTime"@.len() == 20);
    assert("parentName"@.len() == 10);
    assert("pages"@.len() == 5);
    assert("sections"@.len() == 8);
    assert("title"@[0] == 't');
    assert("pages"@[0] == 'p');
    assert("contentUrl"@[0] == 'c');
    assert("parentName"@[0] == 'p');
}

/// Reading the document of a page gives the page back.
pub proof fn lemma_page_round_trip(p: PageView)
    ensures
        page_from(page_doc(p)) == Some(p),
{
    lemma_keys_differ();
}

/// Reading the documents of pages gives the pages back, in their order.
pub proof fn lemma_pages_round_trip(pages: Seq<PageView>)
    ensures
        pages_from(page_docs(pages)) == Some(pages),
{
    let docs = page_docs(pages);
    assert forall|i: int| 0 <= i < docs.len() implies page_from(#[trigger] docs[i]) == Some(
        pages[i],
    ) by {
        lemma_page_round_trip(pages[i]);
    }
    assert(pages_from(docs)->0 =~= pages);
}

/// Reading the document of a section gives the section back, with its pages
/// in their order.
pub proof fn lemma_section_round_trip(s: SectionView)
    ensures
        section_from(section_doc(s)) == Some(s),
{
    lemma_keys_differ();
    lemma_pages_round_trip(s.pages);
}

/// Reading the documents of sections gives the sections back, in their
/// order.
pub proof fn lemma_sections_round_trip(sections: Seq<SectionView>)
    ensures
        sections_from(section_docs(sections)) == Some(sections),
{
    let docs = section_docs(sections);
    assert forall|i: int| 0 <= i < docs.len() implies section_from(#[trigger] docs[i]) == Some(
        sections[i],
    ) by {
        lemma_section_round_trip(sections[i]);
    }
    assert(sections_from(docs)->0 =~= sections);
}

/// Reading the document of a notebook gives the notebook back, with its
/// sections in their order.
pub proof fn lemma_notebook_round_trip(n: NotebookView)
    ensures
        notebook_from(notebook_doc(n)) == Some(n),
{
    lemma_keys_differ();
    lemma_sections_round_trip(n.sections);
}

/// Writing a tree as a document and reading the document gives the tree
/// back: the same notebooks, sections and pages, with the same fields, in
/// the same order.
pub proof fn lemma_round_trip(t: OnenoteView)
    ensures
        onenote_from(onenote_doc(t)) == Some(t),
{
    let docs = notebook_docs(t.notebooks);
    assert forall|i: int| 0 <= i < docs.len() implies notebook_from(#[trigger] docs[i]) == Some(
        t.notebooks[i],
    ) by {
        lemma_notebook_round_trip(t.notebooks[i]);
    }
    assert(notebooks_from(docs)->0 =~= t.notebooks);
}

/// Writes a page as a document.
pub fn encode_page(p: &PageVO) -> (r: Value)
    ensures
        doc_of(r) == page_doc(p@),
{
    let o = empty_object();
    let o = with_member(o, "sourceUrl", make_text(p.source_url.clone()));
    let o = with_member(o, "id", make_text(p.id.clone()));
    let o = with_member(o, "createdDateTime", make_text(p.created_date_time.clone()));
    let o = with_member(o, "title", make_text(p.title.clone()));
    with_member(o, "contentUrl", make_text(p.content_url.clone()))
}

/// Writes pages as an array of documents.
fn encode_pages(pages: &Vec<PageVO>) -> (r: Value)
    ensures
        doc_of(r) == Doc::List(page_docs(page_views(pages@))),
{
    let mut items: Vec<Value> = Vec::new();
    let mut at: usize = 0;
    while at < pages.len()
        invariant
            at <= pages.len(),
            items@.len() == at,
            forall|i: int| 0 <= i < at ==> doc_of(#[trigger] items@[i]) == page_doc(pages@[i]@),
        decreases pages.len() - at,
    {
        let item = encode_page(&pages[at]);
        items.push(item);
        at = at + 1;
    }
    assert(docs_of(items@) =~= page_docs(page_views(pages@)));
    make_list(items)
}

/// Writes a section and its pages as a document.
pub fn encode_section(s: &SectionVO) -> (r: Value)
    ensures
        doc_of(r) == section_doc(s@),
{
    let o = empty_object();
    let o = with_member(o, "sourceUrl", make_text(s.source_url.clone()));
    let o = with_member(o, "id", make_text(s.id.clone()));
    let o = with_member(o, "createdDateTime", make_text(s.created_date_time.clone()));
    let o = with_member(o, "displayName", make_text(s.display_name.clone()));
    let o = with_member(o, "lastModifiedDateTime", make_text(s.last_modified_date_time.clone()));
    let o = with_member(o, "parentName", make_text(s.parent_name.clone()));
    with_member(o, "pages", encode_pages(&s.pages))
}

/// Writes sections as an array of documents.
pub fn encode_sections(sections: &Vec<SectionVO>) -> (r: Value)
    ensures
        doc_of(r) == Doc::List(section_docs(section_views(sections@))),
{
    let mut items: Vec<Value> = Vec::new();
    let mut at: usize = 0;
    while at < sections.len()
        invariant
            at <= sections.len(),
            items@.len() == at,
            forall|i: int|
                0 <= i < at ==> doc_of(#[trigger] items@[i]) == section_doc(sections@[i]@),
        decreases sections.len() - at,
    {
        let item = encode_section(&sections[at]);
        items.push(item);
        at = at + 1;
    }
    assert(docs_of(items@) =~= section_docs(section_views(sections@)));
    make_list(items)
}

/// Writes a notebook and its sections as a document.
pub fn encode_notebook(n: &NotebookVO) -> (r: Value)
    ensures
        doc_of(r) == notebook_doc(n@),
{
    let o = empty_object();
    let o = with_member(o, "sourceUrl", make_text(n.source_url.clone()));
    let o = with_member(o, "id", make_text(n.id.clone()));
    let o = with_member(o, "createdDateTime", make_text(n.created_date_time.clone()));
    let o = with_member(o, "displayName", make_text(n.display_name.clone()));
    let o = with_member(o, "lastModifiedDateTime", make_text(n.last_modified_date_time.clone()));
    with_member(o, "sections", encode_sections(&n.sections))
}

/// Writes the whole tree as a document.
pub fn encode(tree: &OnenoteVO) -> (r: Value)
    ensures
        doc_of(r) == onenote_doc(tree@),
{
    let mut items: Vec<Value> = Vec::new();
    let mut at: usize = 0;
    while at < tree.notebooks.len()
        invariant
            at <= tree.notebooks.len(),
            items@.len() == at,
            forall|i: int|
                0 <= i < at ==> doc_of(#[trigger] items@[i]) == notebook_doc(tree.notebooks@[i]@),
        decreases tree.notebooks.len() - at,
    {
        let item = encode_notebook(&tree.notebooks[at]);
        items.push(item);
        at = at + 1;
    }
    assert(docs_of(items@) =~= notebook_docs(notebook_views(tree.notebooks@)));
    with_member(empty_object(), "notebooks", make_list(items))
}

/// Reads the array that member `key` of `v` holds.
fn list_of<'a>(v: &'a Value, key: &str) -> (r: Option<&'a Vec<Value>>)
    ensures
        match r {
            Some(l) => list_member(doc_of(*v), key@) == Some(docs_of(l@)),
            None => list_member(doc_of(*v), key@) is None,
        },
{
    match get_member(v, key) {
        Some(m) => get_elements(m),
        None => None,
    }
}

/// Reads a page from its document; `None` where a field is missing or is
/// no string.
pub fn decode_page(v: &Value) -> (r: Option<PageVO>)
    ensures
        match r {
            Some(p) => page_from(doc_of(*v)) == Some(p@),
            None => page_from(doc_of(*v)) is None,
        },
{
    let source_url = match text_member(v, "sourceUrl") {
        Some(s) => s,
        None => return None,
    };
    let id = match text_member(v, "id") {
        Some(s) => s,
        None => return None,
    };
    let created_date_time = match text_member(v, "createdDateTime") {
        Some(s) => s,
        None => return None,
    };
    let title = match text_member(v, "title") {
        Some(s) => s,
        None => return None,
    };
    let content_url = match text_member(v, "contentUrl") {
        Some(s) => s,
        None => return None,
    };
    Some(PageVO { source_url, id, created_date_time, title, content_url })
}

/// Reads pages from their documents.
#[verifier::loop_isolation(false)]
fn decode_pages(items: &Vec<Value>) -> (r: Option<Vec<PageVO>>)
    ensures
        match r {
            Some(pages) => pages_from(docs_of(items@)) == Some(page_views(pages@)),
            None => pages_from(docs_of(items@)) is None,
        },
{
    let ghost docs = docs_of(items@);
    let mut pages: Vec<PageVO> = Vec::new();
    let mut at: usize = 0;
    while at < items.len()
        invariant
            at <= items.len(),
            pages@.len() == at,
            forall|i: int| 0 <= i < at ==> page_from(#[trigger] docs[i]) == Some(pages@[i]@),
        decreases items.len() - at,
    {
        match decode_page(&items[at]) {
            Some(p) => {
                pages.push(p);
            },
            None => {
                assert(page_from(docs[at as int]) is None);
                return None;
            },
        }
        at = at + 1;
    }
    assert(pages_from(docs)->0 =~= page_views(pages@));
    Some(pages)
}

/// Reads a section and its pages from its document.
pub fn decode_section(v: &Value) -> (r: Option<SectionVO>)
    ensures
        match r {
            Some(s) => section_from(doc_of(*v)) == Some(s@),
            None => section_from(doc_of(*v)) is None,
        },
{
    let source_url = match text_member(v, "sourceUrl") {
        Some(s) => s,
        None => return None,
    };
    let id = match text_member(v, "id") {
        Some(s) => s,
        None => return None,
    };
    let created_date_time = match text_member(v, "createdDateTime") {
        Some(s) => s,
        None => return None,
    };
    let display_name = match text_member(v, "displayName") {
        Some(s) => s,
        None => return None,
    };
    let last_modified_date_time = match text_member(v, "lastModifiedDateTime") {
        Some(s) => s,
        None => return None,
    };
    let parent_name = match text_member(v, "parentName") {
        Some(s) => s,
        None => return None,
    };
    let items = match list_of(v, "pages") {
        Some(l) => l,
        None => return None,
    };
    let pages = match decode_pages(items) {
        Some(p) => p,
        None => return None,
    };
    Some(
        SectionVO {
            source_url,
            id,
            created_date_time,
            display_name,
            last_modified_date_time,
            parent_name,
            pages,
        },
    )
}

/// Reads sections from their documents.
#[verifier::loop_isolation(false)]
fn decode_sections(items: &Vec<Value>) -> (r: Option<Vec<SectionVO>>)
    ensures
        match r {
            Some(sections) => sections_from(docs_of(items@)) == Some(section_views(sections@)),
            None => sections_from(docs_of(items@)) is None,
        },
{
    let ghost docs = docs_of(items@);
    let mut sections: Vec<SectionVO> = Vec::new();
    let mut at: usize = 0;
    while at < items.len()
        invariant
            at <= items.len(),
            sections@.len() == at,
            forall|i: int|
                0 <= i < at ==> section_from(#[trigger] docs[i]) == Some(sections@[i]@),
        decreases items.len() - at,
    {
        match decode_section(&items[at]) {
            Some(s) => {
                sections.push(s);
            },
            None => {
                assert(section_from(docs[at as int]) is None);
                return None;
            },
        }
        at = at + 1;
    }
    assert(sections_from(docs)->0 =~= section_views(sections@));
    Some(sections)
}

/// Reads a notebook and its sections from its document.
pub fn decode_notebook(v: &Value) -> (r: Option<NotebookVO>)
    ensures
        match r {
            Some(n) => notebook_from(doc_of(*v)) == Some(n@),
            None => notebook_from(doc_of(*v)) is None,
        },
{
    let source_url = match text_member(v, "sourceUrl") {
        Some(s) => s,
        None => return None,
    };
    let id = match text_member(v, "id") {
        Some(s) => s,
        None => return None,
    };
    let created_date_time = match text_member(v, "createdDateTime") {
        Some(s) => s,
        None => return None,
    };
    let display_name = match text_member(v, "displayName") {
        Some(s) => s,
        None => return None,
    };
    let last_modified_date_time = match text_member(v, "lastModifiedDateTime") {
        Some(s) => s,
        None => return None,
    };
    let items = match list_of(v, "sections") {
        Some(l) => l,
        None => return None,
    };
    let sections = match decode_sections(items) {
        Some(s) => s,
        None => return None,
    };
    Some(
        NotebookVO {
            source_url,
            id,
            created_date_time,
            display_name,
            last_modified_date_time,
            sections,
        },
    )
}

/// Reads the whole tree from its document; `None` where the document does
/// not describe one.
#[verifier::loop_isolation(false)]
pub fn decode(v: &Value) -> (r: Option<OnenoteVO>)
    ensures
        match r {
            Some(t) => onenote_from(doc_of(*v)) == Some(t@),
            None => onenote_from(doc_of(*v)) is None,
        },
{
    let items = match list_of(v, "notebooks") {
        Some(l) => l,
        None => return None,
    };
    let ghost docs = docs_of(items@);
    let mut notebooks: Vec<NotebookVO> = Vec::new();
    let mut at: usize = 0;
    while at < items.len()
        invariant
            at <= items.len(),
            notebooks@.len() == at,
            forall|i: int|
                0 <= i < at ==> notebook_from(#[trigger] docs[i]) == Some(notebooks@[i]@),
        decreases items.len() - at,
    {
        match decode_notebook(&items[at]) {
            Some(n) => {
                notebooks.push(n);
            },
            None => {
                assert(notebook_from(docs[at as int]) is None);
                return None;
            },
        }
        at = at + 1;
    }
    assert(notebooks_from(docs)->0 =~= notebook_views(notebooks@));
    Some(OnenoteVO { notebooks })
}

} // verus!
