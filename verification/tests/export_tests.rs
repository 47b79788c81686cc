use graph_export::export::{
    decode, decode_notebook, decode_page, decode_section, encode, encode_notebook, encode_page,
    encode_section, encode_sections,
};
use graph_export::tree::{NotebookVO, OnenoteVO, PageVO, SectionVO};
use serde_json::Value;

fn page(id: &str) -> PageVO {
    PageVO {
        source_url: format!("src-{}", id),
        id: id.to_string(),
        created_date_time: format!("c-{}", id),
        title: format!("t-{}", id),
        content_url: format!("content-{}", id),
    }
}

fn section(id: &str, pages: Vec<PageVO>) -> SectionVO {
    SectionVO {
        source_url: format!("src-{}", id),
        id: id.to_string(),
        created_date_time: format!("c-{}", id),
        display_name: format!("name-{}", id),
        last_modified_date_time: format!("m-{}", id),
        parent_name: format!("parent-{}", id),
        pages,
    }
}

fn notebook(id: &str, sections: Vec<SectionVO>) -> NotebookVO {
    NotebookVO {
        source_url: format!("src-{}", id),
        id: id.to_string(),
        created_date_time: format!("c-{}", id),
        display_name: format!("name-{}", id),
        last_modified_date_time: format!("m-{}", id),
        sections,
    }
}

fn tree() -> OnenoteVO {
    OnenoteVO {
        notebooks: vec![
            notebook(
                "N1",
                vec![
                    section("S1", vec![page("p1"), page("p2")]),
                    section("S2", vec![]),
                    section("S3", vec![page("p3")]),
                ],
            ),
            notebook("N2", vec![]),
            notebook("N3", vec![section("S4", vec![page("p4")])]),
        ],
    }
}

#[test]
fn tree_survives_the_round_trip() {
    let t = tree();
    let text = serde_json::to_string(&encode(&t)).unwrap();
    let back: Value = serde_json::from_str(&text).unwrap();
    assert_eq!(decode(&back), Some(t));
}

#[test]
fn round_trip_keeps_ids_order_and_leaf_count() {
    let t = tree();
    let back = decode(&encode(&t)).unwrap();
    let ids: Vec<&str> = back.notebooks.iter().map(|n| n.id.as_str()).collect();
    assert_eq!(ids, vec!["N1", "N2", "N3"]);
    let sections: Vec<&str> = back.notebooks[0].sections.iter().map(|s| s.id.as_str()).collect();
    assert_eq!(sections, vec!["S1", "S2", "S3"]);
    let leaves: usize = back.notebooks.iter().flat_map(|n| n.sections.iter()).map(|s| s.pages.len()).sum();
    assert_eq!(leaves, 4);
}

#[test]
fn empty_tree_survives_the_round_trip() {
    let t = OnenoteVO::default();
    let v = encode(&t);
    assert_eq!(serde_json::to_string(&v).unwrap(), "{\"notebooks\":[]}");
    assert_eq!(decode(&v), Some(t));
}

#[test]
fn page_is_written_member_by_member() {
    let v = encode_page(&page("p1"));
    let expected: Value = serde_json::from_str(
        "{\"sourceUrl\":\"src-p1\",\"id\":\"p1\",\"createdDateTime\":\"c-p1\",\"title\":\"t-p1\",\"contentUrl\":\"content-p1\"}",
    )
    .unwrap();
    assert_eq!(v, expected);
    assert_eq!(decode_page(&v), Some(page("p1")));
}

#[test]
fn section_is_written_with_its_pages() {
    let v = encode_section(&section("S", vec![page("a"), page("b")]));
    assert_eq!(v["displayName"], Value::String("name-S".to_string()));
    assert_eq!(v["lastModifiedDateTime"], Value::String("m-S".to_string()));
    assert_eq!(v["parentName"], Value::String("parent-S".to_string()));
    assert_eq!(v["pages"].as_array().unwrap().len(), 2);
    assert_eq!(v["pages"][1]["id"], Value::String("b".to_string()));
    assert_eq!(decode_section(&v), Some(section("S", vec![page("a"), page("b")])));
}

#[test]
fn sections_are_written_as_an_array() {
    let v = encode_sections(&vec![section("S1", vec![]), section("S2", vec![page("a")])]);
    let items = v.as_array().unwrap();
    assert_eq!(items.len(), 2);
    assert_eq!(items[0]["id"], Value::String("S1".to_string()));
    assert_eq!(items[1]["pages"][0]["title"], Value::String("t-a".to_string()));
}

#[test]
fn notebook_is_written_with_its_sections() {
    let n = notebook("N", vec![section("S", vec![page("a")])]);
    let v = encode_notebook(&n);
    assert_eq!(v["id"], Value::String("N".to_string()));
    assert_eq!(v["sections"][0]["pages"][0]["contentUrl"], Value::String("content-a".to_string()));
    assert_eq!(decode_notebook(&v), Some(n));
}

#[test]
fn decode_rejects_what_is_no_tree() {
    for text in [
        "{}",
        "[]",
        "{\"notebooks\":{}}",
        "{\"notebooks\":[1]}",
        "{\"notebooks\":[{\"id\":\"N\"}]}",
    ] {
        let v: Value = serde_json::from_str(text).unwrap();
        assert_eq!(decode(&v), None);
    }
}

#[test]
fn decode_page_rejects_a_missing_or_wrong_field() {
    let mut v = encode_page(&page("p"));
    v.as_object_mut().unwrap().remove("title");
    assert_eq!(decode_page(&v), None);
    let mut w = encode_page(&page("p"));
    w.as_object_mut().unwrap().insert("id".to_string(), Value::Bool(true));
    assert_eq!(decode_page(&w), None);
}

#[test]
fn decode_section_rejects_a_bad_page() {
    let mut v = encode_section(&section("S", vec![page("a")]));
    v["pages"][0].as_object_mut().unwrap().remove("contentUrl");
    assert_eq!(decode_section(&v), None);
    let mut w = encode_section(&section("S", vec![]));
    w.as_object_mut().unwrap().remove("pages");
    assert_eq!(decode_section(&w), None);
}

#[test]
fn defaults_are_empty() {
    assert_eq!(PageVO::default(), PageVO {
        source_url: String::new(),
        id: String::new(),
        created_date_time: String::new(),
        title: String::new(),
        content_url: String::new(),
    });
    assert_eq!(SectionVO::default().pages.len(), 0);
    assert_eq!(SectionVO::default().parent_name, "");
    assert_eq!(NotebookVO::default().sections.len(), 0);
    assert_eq!(NotebookVO::default().display_name, "");
    assert_eq!(OnenoteVO::default().notebooks.len(), 0);
}

#[test]
fn clones_are_equal() {
    let n = notebook("N", vec![section("S", vec![page("a"), page("b")]), section("T", vec![])]);
    assert_eq!(n.clone(), n);
    assert_eq!(n.sections[0].clone(), n.sections[0]);
    assert_eq!(n.sections[0].pages[1].clone(), n.sections[0].pages[1]);
}
