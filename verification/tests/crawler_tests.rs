use graph_export::crawler::{Answer, BranchFailure, Crawler, NameFilter, Request};
use graph_export::listing::{read_entry, read_listing, Entry, Kind};
use graph_export::reader::{Collection, FetchError, OData};
use graph_export::tree::{PageVO, SectionVO};
use serde_json::Value;

type Served = Result<(String, String), FetchError>;

fn section_json(name: &str) -> String {
    format!(
        "{{\"id\":\"s-{0}\",\"displayName\":\"{0}\",\"createdDateTime\":\"c-{0}\",\"lastModifiedDateTime\":\"m-{0}\"}}",
        name
    )
}

fn page_json(id: &str) -> String {
    format!(
        "{{\"id\":\"{0}\",\"title\":\"t-{0}\",\"createdDateTime\":\"c-{0}\",\"contentUrl\":\"https://content.test/{0}\"}}",
        id
    )
}

fn notebook_json(id: &str) -> String {
    format!(
        "{{\"id\":\"{0}\",\"displayName\":\"n-{0}\",\"createdDateTime\":\"c-{0}\",\"lastModifiedDateTime\":\"m-{0}\"}}",
        id
    )
}

fn listing(items: &[String], next_link: Option<&str>) -> String {
    match next_link {
        Some(l) => format!("{{\"value\":[{}],\"@odata.nextLink\":\"{}\"}}", items.join(","), l),
        None => format!("{{\"value\":[{}]}}", items.join(",")),
    }
}

fn sections_listing(names: &[&str]) -> String {
    let items: Vec<String> = names.iter().map(|n| section_json(n)).collect();
    listing(&items, None)
}

fn pages_listing(ids: &[&str], next_link: Option<&str>) -> String {
    let items: Vec<String> = ids.iter().map(|n| page_json(n)).collect();
    listing(&items, next_link)
}

fn served(url: &str, body: String) -> Served {
    Ok((url.to_string(), body))
}

/// Runs the crawl against `server`. Returns the requests made, in order,
/// and how the crawl ended.
fn run(crawler: &mut Crawler, server: &dyn Fn(&Request) -> Served) -> (Vec<Request>, Result<(), FetchError>) {
    let mut asked = Vec::new();
    loop {
        let request = match crawler.next_request() {
            Some(r) => r,
            None => return (asked, Ok(())),
        };
        let outcome = server(&request);
        asked.push(request);
        let result = match outcome {
            Ok((url, text)) => {
                let body: Value = serde_json::from_str(&text).unwrap();
                crawler.handle(Ok(Answer { source_url: &url, body: &body }))
            }
            Err(e) => crawler.handle(Err(e)),
        };
        if let Err(e) = result {
            return (asked, Err(e));
        }
    }
}

fn page_ids(section: &SectionVO) -> Vec<String> {
    section.pages.iter().map(|p| p.id.clone()).collect()
}

fn section_names(sections: &[SectionVO]) -> Vec<String> {
    sections.iter().map(|s| s.display_name.clone()).collect()
}

#[test]
fn failing_branch_is_left_empty_and_crawl_goes_on() {
    let mut crawler = Crawler::from_sections(NameFilter::Any);
    let (asked, result) = run(&mut crawler, &|request| match request {
        Request::Sections => served("u-sections", sections_listing(&["A", "B"])),
        Request::Pages(id) if id == "s-A" => served("u-A", pages_listing(&["a1", "a2"], None)),
        Request::Pages(id) if id == "s-B" => Err(FetchError::Transport),
        other => panic!("not expected: {:?}", other),
    });
    assert_eq!(result, Ok(()));
    assert!(crawler.is_finished());
    assert_eq!(
        asked,
        vec![Request::Sections, Request::Pages("s-A".to_string()), Request::Pages("s-B".to_string())]
    );
    let sections = crawler.sections();
    assert_eq!(section_names(sections), vec!["A", "B"]);
    assert_eq!(page_ids(&sections[0]), vec!["a1", "a2"]);
    assert_eq!(sections[1].pages.len(), 0);
    assert_eq!(
        crawler.warnings(),
        &vec![BranchFailure { request: Request::Pages("s-B".to_string()), error: FetchError::Transport }]
    );
    assert_eq!(crawler.pages_seen(), 2);
}

#[test]
fn failing_first_branch_does_not_stop_the_second() {
    let mut crawler = Crawler::from_sections(NameFilter::Any);
    let (_, result) = run(&mut crawler, &|request| match request {
        Request::Sections => served("u-sections", sections_listing(&["A", "B"])),
        Request::Pages(id) if id == "s-A" => Err(FetchError::Transport),
        Request::Pages(id) if id == "s-B" => served("u-B", pages_listing(&["b1", "b2"], None)),
        other => panic!("not expected: {:?}", other),
    });
    assert_eq!(result, Ok(()));
    let sections = crawler.sections();
    assert_eq!(sections[0].pages.len(), 0);
    assert_eq!(page_ids(&sections[1]), vec!["b1", "b2"]);
    assert_eq!(crawler.warnings().len(), 1);
}

#[test]
fn rejected_branch_is_skipped_with_its_pages() {
    let filter = NameFilter::Except(vec!["B".to_string()]);
    let mut crawler = Crawler::from_sections(filter);
    let (asked, result) = run(&mut crawler, &|request| match request {
        Request::Sections => served("u-sections", sections_listing(&["A", "B", "C"])),
        Request::Pages(id) if id == "s-A" => served("u-A", pages_listing(&["a1"], None)),
        Request::Pages(id) if id == "s-C" => served("u-C", pages_listing(&["c1", "c2"], None)),
        other => panic!("not expected: {:?}", other),
    });
    assert_eq!(result, Ok(()));
    assert_eq!(
        asked,
        vec![Request::Sections, Request::Pages("s-A".to_string()), Request::Pages("s-C".to_string())]
    );
    let sections = crawler.sections();
    assert_eq!(section_names(sections), vec!["A", "C"]);
    assert_eq!(page_ids(&sections[0]), vec!["a1"]);
    assert_eq!(page_ids(&sections[1]), vec!["c1", "c2"]);
    assert!(crawler.warnings().is_empty());
}

#[test]
fn only_filter_keeps_the_named_section() {
    let filter = NameFilter::Only(vec!["文章".to_string()]);
    let mut crawler = Crawler::from_sections(filter);
    let (asked, result) = run(&mut crawler, &|request| match request {
        Request::Sections => served("u-sections", sections_listing(&["A", "文章", "C"])),
        Request::Pages(id) if id == "s-文章" => served("u-p", pages_listing(&["p1"], None)),
        other => panic!("not expected: {:?}", other),
    });
    assert_eq!(result, Ok(()));
    assert_eq!(asked.len(), 2);
    let sections = crawler.sections();
    assert_eq!(section_names(sections), vec!["文章"]);
    assert_eq!(page_ids(&sections[0]), vec!["p1"]);
}

#[test]
fn name_filter_accepts_by_name() {
    let b = "B".to_string();
    let a = "A".to_string();
    assert!(NameFilter::Any.accepts(&b));
    assert!(NameFilter::Only(vec![b.clone()]).accepts(&b));
    assert!(!NameFilter::Only(vec![b.clone()]).accepts(&a));
    assert!(!NameFilter::Only(vec![]).accepts(&a));
    assert!(!NameFilter::Except(vec![b.clone()]).accepts(&b));
    assert!(NameFilter::Except(vec![b.clone()]).accepts(&a));
    assert!(NameFilter::Except(vec![]).accepts(&a));
}

#[test]
fn pages_are_read_to_the_last_page() {
    let mut crawler = Crawler::from_sections(NameFilter::Any);
    let (asked, result) = run(&mut crawler, &|request| match request {
        Request::Sections => served("u-sections", sections_listing(&["A"])),
        Request::Pages(id) if id == "s-A" => served("u-A", pages_listing(&["p1", "p2"], Some("next-1"))),
        Request::Follow(url) if url == "next-1" => served("next-1", pages_listing(&["p3"], Some("next-2"))),
        Request::Follow(url) if url == "next-2" => served("next-2", pages_listing(&["p4"], None)),
        other => panic!("not expected: {:?}", other),
    });
    assert_eq!(result, Ok(()));
    assert_eq!(
        asked,
        vec![
            Request::Sections,
            Request::Pages("s-A".to_string()),
            Request::Follow("next-1".to_string()),
            Request::Follow("next-2".to_string()),
        ]
    );
    let sections = crawler.sections();
    assert_eq!(page_ids(&sections[0]), vec!["p1", "p2", "p3", "p4"]);
    assert_eq!(sections[0].pages[0].source_url, "u-A");
    assert_eq!(sections[0].pages[2].source_url, "next-1");
    assert_eq!(sections[0].pages[3].source_url, "next-2");
    assert_eq!(
        crawler.urls(),
        &vec![
            "https://content.test/p1".to_string(),
            "https://content.test/p2".to_string(),
            "https://content.test/p3".to_string(),
            "https://content.test/p4".to_string(),
        ]
    );
    assert_eq!(crawler.pages_seen(), 4);
}

#[test]
fn failure_on_a_later_page_keeps_the_earlier_pages() {
    let mut crawler = Crawler::from_sections(NameFilter::Any);
    let (_, result) = run(&mut crawler, &|request| match request {
        Request::Sections => served("u-sections", sections_listing(&["A"])),
        Request::Pages(_) => served("u-A", pages_listing(&["p1"], Some("next-1"))),
        Request::Follow(_) => Err(FetchError::Transport),
        other => panic!("not expected: {:?}", other),
    });
    assert_eq!(result, Ok(()));
    assert_eq!(page_ids(&crawler.sections()[0]), vec!["p1"]);
    assert_eq!(
        crawler.warnings(),
        &vec![BranchFailure { request: Request::Follow("next-1".to_string()), error: FetchError::Transport }]
    );
}

#[test]
fn sections_listing_is_read_to_the_last_page_before_descending() {
    let mut crawler = Crawler::from_sections(NameFilter::Any);
    let first = listing(&[section_json("A")], Some("more-sections"));
    let second = listing(&[section_json("B")], None);
    let (asked, result) = run(&mut crawler, &|request| match request {
        Request::Sections => served("u-sections", first.clone()),
        Request::Follow(url) if url == "more-sections" => served("more-sections", second.clone()),
        Request::Pages(id) => served("u-p", pages_listing(&[&format!("p-{}", id)], None)),
        other => panic!("not expected: {:?}", other),
    });
    assert_eq!(result, Ok(()));
    assert_eq!(
        asked,
        vec![
            Request::Sections,
            Request::Follow("more-sections".to_string()),
            Request::Pages("s-A".to_string()),
            Request::Pages("s-B".to_string()),
        ]
    );
    let sections = crawler.sections();
    assert_eq!(section_names(sections), vec!["A", "B"]);
    assert_eq!(sections[0].source_url, "u-sections");
    assert_eq!(sections[1].source_url, "more-sections");
    assert_eq!(page_ids(&sections[0]), vec!["p-s-A"]);
    assert_eq!(page_ids(&sections[1]), vec!["p-s-B"]);
}

#[test]
fn root_transport_failure_ends_the_crawl() {
    let mut crawler = Crawler::from_sections(NameFilter::Any);
    let (asked, result) = run(&mut crawler, &|_| Err(FetchError::Transport));
    assert_eq!(result, Err(FetchError::Transport));
    assert_eq!(asked, vec![Request::Sections]);
    assert!(crawler.is_finished());
    assert_eq!(crawler.next_request(), None);
    assert!(crawler.sections().is_empty());
    assert!(crawler.warnings().is_empty());
}

#[test]
fn root_body_of_wrong_shape_is_a_decode_failure() {
    let mut crawler = Crawler::from_notebooks(NameFilter::Any);
    let (_, result) = run(&mut crawler, &|_| served("u", "{\"value\":3}".to_string()));
    assert_eq!(result, Err(FetchError::Decode));
    assert!(crawler.is_finished());
    assert!(crawler.notebooks().is_empty());
}

#[test]
fn branch_body_of_wrong_shape_is_a_warning() {
    let mut crawler = Crawler::from_sections(NameFilter::Any);
    let (_, result) = run(&mut crawler, &|request| match request {
        Request::Sections => served("u-sections", sections_listing(&["A", "B"])),
        Request::Pages(id) if id == "s-A" => served("u-A", "{\"value\":[{\"id\":\"p1\"}]}".to_string()),
        Request::Pages(_) => served("u-B", pages_listing(&["b1"], None)),
        other => panic!("not expected: {:?}", other),
    });
    assert_eq!(result, Ok(()));
    let sections = crawler.sections();
    assert_eq!(sections[0].pages.len(), 0);
    assert_eq!(page_ids(&sections[1]), vec!["b1"]);
    assert_eq!(
        crawler.warnings(),
        &vec![BranchFailure { request: Request::Pages("s-A".to_string()), error: FetchError::Decode }]
    );
}

#[test]
fn notebook_holds_direct_sections_before_those_of_its_groups() {
    let mut crawler = Crawler::from_notebooks(NameFilter::Any);
    let (asked, result) = run(&mut crawler, &|request| match request {
        Request::Notebooks => served("u-nb", listing(&[notebook_json("N1"), notebook_json("N2")], None)),
        Request::NotebookSections(id) if id == "N1" => served("u-N1", sections_listing(&["A"])),
        Request::NotebookSections(id) if id == "N2" => served("u-N2", sections_listing(&["D"])),
        Request::SectionGroups(id) if id == "N1" => {
            served("u-g", "{\"value\":[{\"id\":\"G1\"},{\"id\":\"G2\"}]}".to_string())
        }
        Request::SectionGroups(_) => served("u-g", "{\"value\":[]}".to_string()),
        Request::GroupSections(id) if id == "G1" => served("u-G1", sections_listing(&["B"])),
        Request::GroupSections(id) if id == "G2" => served("u-G2", sections_listing(&["C"])),
        Request::Pages(id) => served("u-p", pages_listing(&[&format!("p-{}", id)], None)),
        other => panic!("not expected: {:?}", other),
    });
    assert_eq!(result, Ok(()));
    assert_eq!(
        asked,
        vec![
            Request::Notebooks,
            Request::NotebookSections("N1".to_string()),
            Request::Pages("s-A".to_string()),
            Request::SectionGroups("N1".to_string()),
            Request::GroupSections("G1".to_string()),
            Request::Pages("s-B".to_string()),
            Request::GroupSections("G2".to_string()),
            Request::Pages("s-C".to_string()),
            Request::NotebookSections("N2".to_string()),
            Request::Pages("s-D".to_string()),
            Request::SectionGroups("N2".to_string()),
        ]
    );
    let notebooks = crawler.notebooks();
    assert_eq!(notebooks.len(), 2);
    assert_eq!(notebooks[0].id, "N1");
    assert_eq!(notebooks[0].display_name, "n-N1");
    assert_eq!(notebooks[0].created_date_time, "c-N1");
    assert_eq!(notebooks[0].last_modified_date_time, "m-N1");
    assert_eq!(notebooks[0].source_url, "u-nb");
    assert_eq!(section_names(&notebooks[0].sections), vec!["A", "B", "C"]);
    assert_eq!(section_names(&notebooks[1].sections), vec!["D"]);
    assert_eq!(page_ids(&notebooks[0].sections[1]), vec!["p-s-B"]);
    assert_eq!(notebooks[0].sections[1].source_url, "u-G1");
    assert!(crawler.sections().is_empty());
    assert_eq!(crawler.pages_seen(), 4);
    let (tree, loose, urls) = crawler.into_parts();
    assert_eq!(tree.notebooks.len(), 2);
    assert!(loose.is_empty());
    assert_eq!(urls.len(), 4);
}

#[test]
fn failing_notebook_listing_leaves_the_notebook_without_sections() {
    let mut crawler = Crawler::from_notebooks(NameFilter::Any);
    let (_, result) = run(&mut crawler, &|request| match request {
        Request::Notebooks => served("u-nb", listing(&[notebook_json("N1"), notebook_json("N2")], None)),
        Request::NotebookSections(id) if id == "N1" => Err(FetchError::Transport),
        Request::NotebookSections(_) => served("u-N2", sections_listing(&["D"])),
        Request::SectionGroups(_) => Err(FetchError::Transport),
        Request::Pages(_) => served("u-p", pages_listing(&["d1", "d2"], None)),
        other => panic!("not expected: {:?}", other),
    });
    assert_eq!(result, Ok(()));
    let notebooks = crawler.notebooks();
    assert_eq!(notebooks.len(), 2);
    assert!(notebooks[0].sections.is_empty());
    assert_eq!(section_names(&notebooks[1].sections), vec!["D"]);
    assert_eq!(page_ids(&notebooks[1].sections[0]), vec!["d1", "d2"]);
    assert_eq!(crawler.warnings().len(), 3);
}

#[test]
fn next_request_repeats_until_answered() {
    let mut crawler = Crawler::from_notebooks(NameFilter::Any);
    assert!(!crawler.is_finished());
    assert_eq!(crawler.next_request(), Some(Request::Notebooks));
    assert_eq!(crawler.next_request(), Some(Request::Notebooks));
    let body: Value = serde_json::from_str("{\"value\":[]}").unwrap();
    assert_eq!(crawler.handle(Ok(Answer { source_url: "u", body: &body })), Ok(()));
    assert_eq!(crawler.next_request(), None);
    assert!(crawler.is_finished());
    assert_eq!(crawler.handle(Err(FetchError::Transport)), Ok(()));
    assert!(crawler.warnings().is_empty());
}

#[test]
fn accept_takes_a_page_that_was_read_elsewhere() {
    let mut crawler = Crawler::from_sections(NameFilter::Any);
    let section = SectionVO {
        source_url: "u".to_string(),
        id: "s1".to_string(),
        created_date_time: "c".to_string(),
        display_name: "A".to_string(),
        last_modified_date_time: "m".to_string(),
        parent_name: "".to_string(),
        pages: vec![],
    };
    let page = Collection {
        value: vec![Entry::Section(section.clone())],
        odata: OData { context: None, next_link: None },
    };
    assert_eq!(crawler.accept(Ok(page)), Ok(()));
    assert_eq!(crawler.next_request(), Some(Request::Pages("s1".to_string())));
    assert_eq!(crawler.sections(), &vec![section]);
    let leaf = PageVO {
        source_url: "up".to_string(),
        id: "p1".to_string(),
        created_date_time: "c".to_string(),
        title: "t".to_string(),
        content_url: "content".to_string(),
    };
    let pages = Collection {
        value: vec![Entry::Page(leaf.clone())],
        odata: OData { context: None, next_link: None },
    };
    assert_eq!(crawler.accept(Ok(pages)), Ok(()));
    assert_eq!(crawler.sections()[0].pages, vec![leaf]);
    assert_eq!(crawler.next_request(), None);
}

#[test]
fn empty_page_with_link_ends_the_listing() {
    let mut crawler = Crawler::from_sections(NameFilter::Any);
    let (asked, result) = run(&mut crawler, &|request| match request {
        Request::Sections => served("u", listing(&[], Some("more"))),
        other => panic!("not expected: {:?}", other),
    });
    assert_eq!(result, Ok(()));
    assert_eq!(asked, vec![Request::Sections]);
}

#[test]
fn read_listing_reads_entries_and_link() {
    let text = listing(&[page_json("p1"), page_json("p2")], Some("https://next.test/2"));
    let body: Value = serde_json::from_str(&text).unwrap();
    let page = read_listing(Kind::Page, &body, "https://src.test").unwrap();
    assert_eq!(page.odata.next_link, Some("https://next.test/2".to_string()));
    assert_eq!(page.value.len(), 2);
    match &page.value[1] {
        Entry::Page(p) => {
            assert_eq!(p.id, "p2");
            assert_eq!(p.title, "t-p2");
            assert_eq!(p.created_date_time, "c-p2");
            assert_eq!(p.content_url, "https://content.test/p2");
            assert_eq!(p.source_url, "https://src.test");
        }
        other => panic!("a page is expected, not {:?}", other),
    }
}

#[test]
fn read_listing_rejects_other_shapes() {
    for text in [
        "{}",
        "[]",
        "\"value\"",
        "{\"value\":{}}",
        "{\"value\":[1]}",
        "{\"value\":[{\"id\":7}]}",
        "{\"value\":[{\"id\":\"g\"},{}]}",
    ] {
        let body: Value = serde_json::from_str(text).unwrap();
        assert_eq!(read_listing(Kind::Group, &body, "u").err(), Some(FetchError::Decode));
    }
}

#[test]
fn read_listing_ignores_a_link_that_is_no_string() {
    let body: Value = serde_json::from_str("{\"value\":[{\"id\":\"g\"}],\"@odata.nextLink\":5}").unwrap();
    let page = read_listing(Kind::Group, &body, "u").unwrap();
    assert_eq!(page.odata.next_link, None);
    assert!(matches!(&page.value[0], Entry::Group(id) if id == "g"));
}

#[test]
fn section_takes_the_name_of_its_parent() {
    let text = "{\"id\":\"s\",\"displayName\":\"A\",\"createdDateTime\":\"c\",\"lastModifiedDateTime\":\"m\",\"parentSection\":{\"displayName\":\"P\"}}";
    let v: Value = serde_json::from_str(text).unwrap();
    match read_entry(Kind::Section, &v, "u") {
        Some(Entry::Section(s)) => {
            assert_eq!(s.parent_name, "P");
            assert_eq!(s.id, "s");
            assert_eq!(s.display_name, "A");
            assert_eq!(s.created_date_time, "c");
            assert_eq!(s.last_modified_date_time, "m");
            assert_eq!(s.source_url, "u");
            assert!(s.pages.is_empty());
        }
        other => panic!("a section is expected, not {:?}", other),
    }
}

#[test]
fn section_without_parent_has_an_empty_parent_name() {
    for parent in ["", ",\"parentSection\":null", ",\"parentSection\":{}", ",\"parentSection\":\"x\""] {
        let text = format!(
            "{{\"id\":\"s\",\"displayName\":\"A\",\"createdDateTime\":\"c\",\"lastModifiedDateTime\":\"m\"{}}}",
            parent
        );
        let v: Value = serde_json::from_str(&text).unwrap();
        match read_entry(Kind::Section, &v, "u") {
            Some(Entry::Section(s)) => assert_eq!(s.parent_name, ""),
            other => panic!("a section is expected, not {:?}", other),
        }
    }
}

#[test]
fn section_whose_parent_name_is_no_string_is_rejected() {
    let text = "{\"id\":\"s\",\"displayName\":\"A\",\"createdDateTime\":\"c\",\"lastModifiedDateTime\":\"m\",\"parentSection\":{\"displayName\":1}}";
    let v: Value = serde_json::from_str(text).unwrap();
    assert!(read_entry(Kind::Section, &v, "u").is_none());
}

#[test]
fn entry_without_a_needed_member_is_rejected() {
    let v: Value = serde_json::from_str("{\"id\":\"x\",\"displayName\":\"A\"}").unwrap();
    assert!(read_entry(Kind::Notebook, &v, "u").is_none());
    assert!(read_entry(Kind::Section, &v, "u").is_none());
    assert!(read_entry(Kind::Page, &v, "u").is_none());
    assert!(matches!(read_entry(Kind::Group, &v, "u"), Some(Entry::Group(id)) if id == "x"));
}
