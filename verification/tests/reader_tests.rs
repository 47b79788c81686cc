use graph_export::reader::{Collection, CollectionReader, FetchError, OData, ReaderStep};

fn page(items: &[u32], next_link: Option<&str>) -> Collection<u32> {
    Collection {
        value: items.to_vec(),
        odata: OData { context: None, next_link: next_link.map(|s| s.to_string()) },
    }
}

/// Pulls until the end, answering each fetch with the next of `rest`.
/// Returns what was handed out and the links that were asked for.
fn drain(reader: &mut CollectionReader<u32>, rest: Vec<Collection<u32>>) -> (Vec<u32>, Vec<String>) {
    let mut out = Vec::new();
    let mut asked = Vec::new();
    let mut rest = rest.into_iter();
    loop {
        let link = match reader.next() {
            ReaderStep::Item(x) => {
                out.push(*x);
                continue;
            }
            ReaderStep::Fetch(url) => url,
            ReaderStep::End => break,
        };
        asked.push(link);
        match rest.next() {
            Some(p) => {
                reader.fetch(Ok(p)).unwrap();
            }
            None => break,
        }
    }
    (out, asked)
}

#[test]
fn drains_all_pages_in_order() {
    let mut reader = CollectionReader::new();
    assert_eq!(reader.fetch(Ok(page(&[1, 2], Some("l2")))), Ok(2));
    let rest = vec![page(&[3], Some("l3")), page(&[4, 5, 6], None)];
    let (out, asked) = drain(&mut reader, rest);
    assert_eq!(out, vec![1, 2, 3, 4, 5, 6]);
    assert_eq!(asked, vec!["l2".to_string(), "l3".to_string()]);
    assert_eq!(reader.items(), &vec![1, 2, 3, 4, 5, 6]);
}

#[test]
fn drained_reader_hands_out_nothing_more() {
    let mut reader = CollectionReader::new();
    reader.fetch(Ok(page(&[1, 2], Some("l2")))).unwrap();
    let (out, _) = drain(&mut reader, vec![page(&[3], None)]);
    assert_eq!(out, vec![1, 2, 3]);
    let (again, asked) = drain(&mut reader, vec![page(&[9], None)]);
    assert_eq!(again, Vec::<u32>::new());
    assert_eq!(asked, Vec::<String>::new());
    assert!(matches!(reader.next(), ReaderStep::End));
}

#[test]
fn single_page_without_link() {
    let mut reader = CollectionReader::new();
    reader.fetch(Ok(page(&[7, 8, 9], None))).unwrap();
    let (out, asked) = drain(&mut reader, vec![]);
    assert_eq!(out, vec![7, 8, 9]);
    assert!(asked.is_empty());
}

#[test]
fn empty_first_page_with_link_ends_at_once() {
    let mut reader = CollectionReader::new();
    assert_eq!(reader.fetch(Ok(page(&[], Some("more")))), Ok(0));
    assert!(reader.has_next_link());
    assert!(matches!(reader.next(), ReaderStep::End));
    assert_eq!(reader.continuation(), None);
    let (out, asked) = drain(&mut reader, vec![page(&[1], None)]);
    assert!(out.is_empty());
    assert!(asked.is_empty());
}

#[test]
fn empty_first_page_without_link_ends_at_once() {
    let mut reader = CollectionReader::new();
    assert_eq!(reader.fetch(Ok(page(&[], None))), Ok(0));
    assert!(!reader.has_next_link());
    assert!(matches!(reader.next(), ReaderStep::End));
}

#[test]
fn empty_later_page_ends_the_sequence() {
    let mut reader = CollectionReader::new();
    reader.fetch(Ok(page(&[1], Some("l2")))).unwrap();
    let rest = vec![page(&[], Some("l3")), page(&[2], None)];
    let (out, asked) = drain(&mut reader, rest);
    assert_eq!(out, vec![1]);
    assert_eq!(asked, vec!["l2".to_string()]);
}

#[test]
fn new_reader_has_nothing() {
    let mut reader: CollectionReader<u32> = CollectionReader::new();
    assert!(!reader.has_next_link());
    assert_eq!(reader.fetch_next(), None);
    assert_eq!(reader.continuation(), None);
    assert!(reader.items().is_empty());
    assert!(matches!(reader.next(), ReaderStep::End));
}

#[test]
fn fetch_next_names_the_link() {
    let mut reader = CollectionReader::new();
    reader.fetch(Ok(page(&[1], Some("https://example.test/p2")))).unwrap();
    assert!(reader.has_next_link());
    assert_eq!(reader.fetch_next(), Some("https://example.test/p2".to_string()));
    assert_eq!(reader.continuation(), Some("https://example.test/p2".to_string()));
    reader.fetch(Ok(page(&[2], None))).unwrap();
    assert!(!reader.has_next_link());
    assert_eq!(reader.fetch_next(), None);
}

#[test]
fn fetch_returns_the_count_and_accumulates() {
    let mut reader = CollectionReader::new();
    assert_eq!(reader.fetch(Ok(page(&[1, 2, 3], Some("n")))), Ok(3));
    assert_eq!(reader.fetch(Ok(page(&[4], None))), Ok(1));
    assert_eq!(reader.items(), &vec![1, 2, 3, 4]);
    assert_eq!(reader.into_items(), vec![1, 2, 3, 4]);
}

#[test]
fn transport_failure_changes_nothing() {
    let mut reader = CollectionReader::new();
    reader.fetch(Ok(page(&[1], Some("n")))).unwrap();
    assert_eq!(reader.fetch(Err(FetchError::Transport)), Err(FetchError::Transport));
    assert_eq!(reader.items(), &vec![1]);
    assert_eq!(reader.fetch_next(), Some("n".to_string()));
}

#[test]
fn decode_failure_changes_nothing() {
    let mut reader: CollectionReader<u32> = CollectionReader::new();
    assert_eq!(reader.fetch(Err(FetchError::Decode)), Err(FetchError::Decode));
    assert!(reader.items().is_empty());
    assert!(!reader.has_next_link());
    assert!(matches!(reader.next(), ReaderStep::End));
}

#[test]
fn items_fetched_ahead_are_all_handed_out() {
    let mut reader = CollectionReader::new();
    reader.fetch(Ok(page(&[1, 2], Some("l2")))).unwrap();
    reader.fetch(Ok(page(&[3], None))).unwrap();
    let (out, asked) = drain(&mut reader, vec![]);
    assert_eq!(out, vec![1, 2, 3]);
    assert!(asked.is_empty());
}

#[test]
fn odata_clone_keeps_both_fields() {
    let o = OData { context: Some("ctx".to_string()), next_link: None };
    let c = o.clone();
    assert_eq!(c.context, Some("ctx".to_string()));
    assert_eq!(c.next_link, None);
}
