use graph_export::tree::{PageVO, SectionVO};
use graph_export::download::{
    content_file_name, download, DownloadAction, Downloader, Leaf, PendingDownloads,
};

fn pending(ids: &[&str]) -> PendingDownloads {
    let mut p = PendingDownloads::new();
    for id in ids {
        assert_eq!(p.insert(id.to_string(), format!("https://content.test/{}", id)), None);
    }
    p
}

/// Runs the downloader to its end. `succeeds(id, round)` says how the
/// attempt on `id` in round `round` goes. Returns the ids attempted, by
/// round, and whether the downloader finished.
fn run(d: &mut Downloader, succeeds: &dyn Fn(&str, usize) -> bool) -> (Vec<Vec<String>>, bool) {
    let mut rounds: Vec<Vec<String>> = Vec::new();
    loop {
        let (id, round) = match d.next_action() {
            DownloadAction::Attempt(leaf) => (leaf.id.clone(), 0),
            DownloadAction::Finished => return (rounds, true),
            DownloadAction::GaveUp => return (rounds, false),
        };
        let round = round + d.rounds();
        while rounds.len() < round {
            rounds.push(Vec::new());
        }
        rounds[round - 1].push(id.clone());
        d.record(succeeds(&id, round));
    }
}

#[test]
fn failed_entry_is_retried_in_second_round() {
    let mut d = Downloader::new(pending(&["1", "2", "3"]));
    let mut attempted = Vec::new();
    for _ in 0..3 {
        let id = match d.next_action() {
            DownloadAction::Attempt(leaf) => leaf.id.clone(),
            _ => panic!("an attempt is due"),
        };
        d.record(id != "2");
        attempted.push(id);
    }
    assert_eq!(attempted, vec!["1", "2", "3"]);
    assert_eq!(d.rounds(), 1);
    assert_eq!(
        d.failed(),
        &vec![Leaf { id: "2".to_string(), content_url: "https://content.test/2".to_string() }]
    );
    let id = match d.next_action() {
        DownloadAction::Attempt(leaf) => leaf.id.clone(),
        _ => panic!("the failed entry is due again"),
    };
    assert_eq!(id, "2");
    assert_eq!(d.rounds(), 2);
    assert!(d.failed().is_empty());
    d.record(true);
    assert!(matches!(d.next_action(), DownloadAction::Finished));
    assert_eq!(d.rounds(), 2);
    assert!(d.failed().is_empty());
}

#[test]
fn every_entry_is_attempted_in_a_round() {
    let mut d = Downloader::new(pending(&["a", "b", "c"]));
    let (rounds, finished) = run(&mut d, &|id, round| round >= 2 || id == "c");
    assert!(finished);
    assert_eq!(rounds, vec![vec!["a", "b", "c"], vec!["a", "b"]]);
}

#[test]
fn clean_first_round_finishes() {
    let mut d = Downloader::new(pending(&["a", "b"]));
    let (rounds, finished) = run(&mut d, &|_, _| true);
    assert!(finished);
    assert_eq!(rounds, vec![vec!["a", "b"]]);
    assert_eq!(d.rounds(), 1);
}

#[test]
fn nothing_pending_finishes_at_once() {
    let mut d = Downloader::new(PendingDownloads::new());
    assert!(matches!(d.next_action(), DownloadAction::Finished));
    assert_eq!(d.rounds(), 1);
}

#[test]
fn failures_keep_the_order_of_the_round() {
    let mut d = Downloader::new(pending(&["a", "b", "c", "d"]));
    let (rounds, finished) = run(&mut d, &|id, round| match round {
        1 => id == "b",
        2 => id != "c",
        _ => true,
    });
    assert!(finished);
    assert_eq!(rounds, vec![vec!["a", "b", "c", "d"], vec!["a", "c", "d"], vec!["c"]]);
    assert_eq!(d.rounds(), 3);
}

#[test]
fn limit_makes_the_downloader_give_up() {
    let mut d = Downloader::with_limit(pending(&["a", "b"]), 2);
    let (rounds, finished) = run(&mut d, &|id, _| id == "a");
    assert!(!finished);
    assert_eq!(rounds, vec![vec!["a", "b"], vec!["b"]]);
    assert_eq!(d.rounds(), 2);
    assert_eq!(
        d.failed(),
        &vec![Leaf { id: "b".to_string(), content_url: "https://content.test/b".to_string() }]
    );
    assert!(matches!(d.next_action(), DownloadAction::GaveUp));
}

#[test]
fn limit_of_zero_still_makes_one_round() {
    let mut d = Downloader::with_limit(pending(&["a"]), 0);
    let (rounds, finished) = run(&mut d, &|_, _| false);
    assert!(!finished);
    assert_eq!(rounds, vec![vec!["a"]]);
}

#[test]
fn record_without_attempt_changes_nothing() {
    let mut d = Downloader::new(pending(&["a"]));
    assert!(matches!(d.next_action(), DownloadAction::Attempt(_)));
    d.record(true);
    d.record(false);
    assert!(d.failed().is_empty());
    assert!(matches!(d.next_action(), DownloadAction::Finished));
}

#[test]
fn next_action_repeats_until_recorded() {
    let mut d = Downloader::new(pending(&["a", "b"]));
    for _ in 0..3 {
        match d.next_action() {
            DownloadAction::Attempt(leaf) => assert_eq!(leaf.id, "a"),
            _ => panic!("an attempt is due"),
        }
    }
    d.record(true);
    match d.next_action() {
        DownloadAction::Attempt(leaf) => assert_eq!(leaf.id, "b"),
        _ => panic!("an attempt is due"),
    }
}

#[test]
fn pending_insert_adds_new_ids_in_order() {
    let mut p = PendingDownloads::new();
    assert!(p.is_empty());
    assert_eq!(p.insert("x".to_string(), "ux".to_string()), None);
    assert_eq!(p.insert("y".to_string(), "uy".to_string()), None);
    assert_eq!(p.len(), 2);
    assert!(!p.is_empty());
    assert_eq!(p.get("x"), Some(&"ux".to_string()));
    assert_eq!(p.get("y"), Some(&"uy".to_string()));
    assert_eq!(p.get("z"), None);
    assert_eq!(
        p.into_entries(),
        vec![
            Leaf { id: "x".to_string(), content_url: "ux".to_string() },
            Leaf { id: "y".to_string(), content_url: "uy".to_string() },
        ]
    );
}

#[test]
fn pending_insert_replaces_a_known_id() {
    let mut p = pending(&["x", "y"]);
    assert_eq!(
        p.insert("x".to_string(), "new".to_string()),
        Some("https://content.test/x".to_string())
    );
    assert_eq!(p.len(), 2);
    assert_eq!(p.get("x"), Some(&"new".to_string()));
    let entries = p.into_entries();
    assert_eq!(entries[0].id, "x");
    assert_eq!(entries[0].content_url, "new");
    assert_eq!(entries[1].id, "y");
}

#[test]
fn leaf_clone_is_equal() {
    let leaf = Leaf { id: "i".to_string(), content_url: "u".to_string() };
    assert_eq!(leaf.clone(), leaf);
}

#[test]
fn download_does_nothing() {
    download("https://content.test/1");
}

#[test]
fn content_file_is_named_by_the_id() {
    assert_eq!(content_file_name("1-abc"), "1-abc.html");
    assert_eq!(content_file_name(""), ".html");
}

fn leaf_page(id: &str, content_url: &str) -> PageVO {
    PageVO {
        source_url: "src".to_string(),
        id: id.to_string(),
        created_date_time: "c".to_string(),
        title: "t".to_string(),
        content_url: content_url.to_string(),
    }
}

fn leaf_section(pages: Vec<PageVO>) -> SectionVO {
    SectionVO { pages, ..SectionVO::default() }
}

#[test]
fn pending_of_sections_lists_every_page_once() {
    let sections = vec![
        leaf_section(vec![leaf_page("a", "ua"), leaf_page("b", "ub")]),
        leaf_section(vec![]),
        leaf_section(vec![leaf_page("c", "uc"), leaf_page("a", "ua2")]),
    ];
    let pending = PendingDownloads::of_sections(&sections);
    assert_eq!(pending.len(), 3);
    assert_eq!(
        pending.into_entries(),
        vec![
            Leaf { id: "a".to_string(), content_url: "ua2".to_string() },
            Leaf { id: "b".to_string(), content_url: "ub".to_string() },
            Leaf { id: "c".to_string(), content_url: "uc".to_string() },
        ]
    );
}

#[test]
fn record_pages_adds_to_what_is_pending() {
    let mut pending = pending(&["x"]);
    pending.record_pages(&vec![leaf_page("y", "uy"), leaf_page("x", "ux")]);
    assert_eq!(pending.len(), 2);
    assert_eq!(pending.get("x"), Some(&"ux".to_string()));
    assert_eq!(pending.get("y"), Some(&"uy".to_string()));
}
