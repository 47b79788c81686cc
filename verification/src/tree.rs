//! The exported tree: notebooks, their sections, and the pages of each
//! section, every node with the address it was read from.

use vstd::prelude::*;

verus! {

/// A page: the leaf of the tree, and the only node whose content is
/// downloaded separately.
#[derive(Debug, PartialEq, Eq)]
pub struct PageVO {
    pub source_url: String,
    pub id: String,
    pub created_date_time: String,
    pub title: String,
    pub content_url: String,
}

/// A section and its pages.
#[derive(Debug, PartialEq, Eq)]
pub struct SectionVO {
    pub source_url: String,
    pub id: String,
    pub created_date_time: String,
    pub display_name: String,
    pub last_modified_date_time: String,
    pub parent_name: String,
    pub pages: Vec<PageVO>,
}

/// A notebook and its sections: those it holds directly first, then those
/// of its section groups.
#[derive(Debug, PartialEq, Eq)]
pub struct NotebookVO {
    pub source_url: String,
    pub id: String,
    pub created_date_time: String,
    pub display_name: String,
    pub last_modified_date_time: String,
    pub sections: Vec<SectionVO>,
}

/// Everything exported: the notebooks in the order the server listed them.
#[derive(Debug, PartialEq, Eq)]
pub struct OnenoteVO {
    pub notebooks: Vec<NotebookVO>,
}

/// A [`PageVO`] as a mathematical value.
pub struct PageView {
    pub source_url: Seq<char>,
    pub id: Seq<char>,
    pub created_date_time: Seq<char>,
    pub title: Seq<char>,
    pub content_url: Seq<char>,
}

/// A [`SectionVO`] as a mathematical value.
pub struct SectionView {
    pub source_url: Seq<char>,
    pub id: Seq<char>,
    pub created_date_time: Seq<char>,
    pub display_name: Seq<char>,
    pub last_modified_date_time: Seq<char>,
    pub parent_name: Seq<char>,
    pub pages: Seq<PageView>,
}

/// A [`NotebookVO`] as a mathematical value.
pub struct NotebookView {
    pub source_url: Seq<char>,
    pub id: Seq<char>,
    pub created_date_time: Seq<char>,
    pub display_name: Seq<char>,
    pub last_modified_date_time: Seq<char>,
    pub sections: Seq<SectionView>,
}

/// An [`OnenoteVO`] as a mathematical value.
pub struct OnenoteView {
    pub notebooks: Seq<NotebookView>,
}

/// The views of a sequence of pages, one for one.
pub open spec fn page_views(s: Seq<PageVO>) -> Seq<PageView> {
    s.map_values(|p: PageVO| p@)
}

/// The views of a sequence of sections, one for one.
pub open spec fn section_views(s: Seq<SectionVO>) -> Seq<SectionView> {
    s.map_values(|x: SectionVO| x@)
}

/// The views of a sequence of notebooks, one for one.
pub open spec fn notebook_views(s: Seq<NotebookVO>) -> Seq<NotebookView> {
    s.map_values(|n: NotebookVO| n@)
}

impl View for PageVO {
    type V = PageView;

    open spec fn view(&self) -> PageView {
        PageView {
            source_url: self.source_url@,
            id: self.id@,
            created_date_time: self.created_date_time@,
            title: self.title@,
            content_url: self.content_url@,
        }
    }
}

impl View for SectionVO {
    type V = SectionView;

    open spec fn view(&self) -> SectionView {
        SectionView {
            source_url: self.source_url@,
            id: self.id@,
            created_date_time: self.created_date_time@,
            display_name: self.display_name@,
            last_modified_date_time: self.last_modified_date_time@,
            parent_name: self.parent_name@,
            pages: page_views(self.pages@),
        }
    }
}

impl View for NotebookVO {
    type V = NotebookView;

    open spec fn view(&self) -> NotebookView {
        NotebookView {
            source_url: self.source_url@,
            id: self.id@,
            created_date_time: self.created_date_time@,
            display_name: self.display_name@,
            last_modified_date_time: self.last_modified_date_time@,
            sections: section_views(self.sections@),
        }
    }
}

impl View for OnenoteVO {
    type V = OnenoteView;

    open spec fn view(&self) -> OnenoteView {
        OnenoteView { notebooks: notebook_views(self.notebooks@) }
    }
}

impl PageView {
    /// The page whose every field is empty.
    pub open spec fn empty() -> PageView {
        PageView {
            source_url: Seq::empty(),
            id: Seq::empty(),
            created_date_time: Seq::empty(),
            title: Seq::empty(),
            content_url: Seq::empty(),
        }
    }
}

impl SectionView {
    /// The section without pages whose every field is empty.
    pub open spec fn empty() -> SectionView {
        SectionView {
            source_url: Seq::empty(),
            id: Seq::empty(),
            created_date_time: Seq::empty(),
            display_name: Seq::empty(),
            last_modified_date_time: Seq::empty(),
            parent_name: Seq::empty(),
            pages: Seq::empty(),
        }
    }

    /// The number of pages of the section.
    pub open spec fn leaf_count(self) -> nat {
        self.pages.len()
    }
}

impl NotebookView {
    /// The notebook without sections whose every field is empty.
    pub open spec fn empty() -> NotebookView {
        NotebookView {
            source_url: Seq::empty(),
            id: Seq::empty(),
            created_date_time: Seq::empty(),
            display_name: Seq::empty(),
            last_modified_date_time: Seq::empty(),
            sections: Seq::empty(),
        }
    }
}

impl Default for PageVO {
    fn default() -> (r: Self)
        ensures
            r@ == PageView::empty(),
    {
        PageVO {
            source_url: String::new(),
            id: String::new(),
            created_date_time: String::new(),
            title: String::new(),
            content_url: String::new(),
        }
    }
}

impl Default for SectionVO {
    fn default() -> (r: Self)
        ensures
            r@ == SectionView::empty(),
    {
        let r = SectionVO {
            source_url: String::new(),
            id: String::new(),
            created_date_time: String::new(),
            display_name: String::new(),
            last_modified_date_time: String::new(),
            parent_name: String::new(),
            pages: Vec::new(),
        };
        assert(r@.pages =~= Seq::<PageView>::empty());
        r
    }
}

impl Default for NotebookVO {
    fn default() -> (r: Self)
        ensures
            r@ == NotebookView::empty(),
    {
        let r = NotebookVO {
            source_url: String::new(),
            id: String::new(),
            created_date_time: String::new(),
            display_name: String::new(),
            last_modified_date_time: String::new(),
            sections: Vec::new(),
        };
        assert(r@.sections =~= Seq::<SectionView>::empty());
        r
    }
}

impl Default for OnenoteVO {
    fn default() -> (r: Self)
        ensures
            r@.notebooks == Seq::<NotebookView>::empty(),
    {
        let r = OnenoteVO { notebooks: Vec::new() };
        assert(r@.notebooks =~= Seq::<NotebookView>::empty());
        r
    }
}

impl Clone for PageVO {
    fn clone(&self) -> (r: Self)
        ensures
            r@ == self@,
    {
        PageVO {
            source_url: self.source_url.clone(),
            id: self.id.clone(),
            created_date_time: self.created_date_time.clone(),
            title: self.title.clone(),
            content_url: self.content_url.clone(),
        }
    }
}

impl Clone for SectionVO {
    fn clone(&self) -> (r: Self)
        ensures
            r@ == self@,
    {
        let mut pages: Vec<PageVO> = Vec::new();
        let mut at: usize = 0;
        while at < self.pages.len()
            invariant
                at <= self.pages.len(),
                pages@.len() == at,
                forall|i: int| 0 <= i < at ==> (#[trigger] pages@[i])@ == self.pages@[i]@,
            decreases self.pages.len() - at,
        {
            let page = self.pages[at].clone();
            pages.push(page);
            at = at + 1;
        }
        assert(page_views(pages@) =~= page_views(self.pages@));
        SectionVO {
            source_url: self.source_url.clone(),
            id: self.id.clone(),
            created_date_time: self.created_date_time.clone(),
            display_name: self.display_name.clone(),
            last_modified_date_time: self.last_modified_date_time.clone(),
            parent_name: self.parent_name.clone(),
            pages,
        }
    }
}

impl Clone for NotebookVO {
    fn clone(&self) -> (r: Self)
        ensures
            r@ == self@,
    {
        let mut sections: Vec<SectionVO> = Vec::new();
        let mut at: usize = 0;
        while at < self.sections.len()
            invariant
                at <= self.sections.len(),
                sections@.len() == at,
                forall|i: int| 0 <= i < at ==> (#[trigger] sections@[i])@ == self.sections@[i]@,
            decreases self.sections.len() - at,
        {
            let section = self.sections[at].clone();
            sections.push(section);
            at = at + 1;
        }
        assert(section_views(sections@) =~= section_views(self.sections@));
        NotebookVO {
            source_url: self.source_url.clone(),
            id: self.id.clone(),
            created_date_time: self.created_date_time.clone(),
            display_name: self.display_name.clone(),
            last_modified_date_time: self.last_modified_date_time.clone(),
            sections,
        }
    }
}

} // verus!
