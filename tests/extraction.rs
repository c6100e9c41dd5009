use ao3_wrapped::aggregate::{Aggregator, EntryOutcome};
use ao3_wrapped::extract::{
    copy_all, extract, extract_given, last_visited, named_authors, number, visitations, visits_from_word,
};
use ao3_wrapped::record::{EntryFragment, ExtractResult, HeaderFragment, StatsFragment};

fn strings(v: &[&str]) -> Vec<String> {
    v.iter().map(|s| s.to_string()).collect()
}

fn entry(visited: &str, fandoms: &[&str], words: Option<&str>) -> EntryFragment {
    EntryFragment {
        visited: Some(visited.to_string()),
        header: Some(HeaderFragment {
            title: Some("A Title".to_string()),
            authors: strings(&["writer"]),
            updated: Some("01 Jan 2024".to_string()),
            fandoms: strings(fandoms),
            required_tags: strings(&["Teen And Up Audiences", "No Archive Warnings Apply", "M/M, F/F", "Complete Work"]),
        }),
        ships: strings(&["A/B"]),
        characters: strings(&["A", "B"]),
        tags: strings(&["Fluff"]),
        stats: Some(StatsFragment { words: words.map(|w| w.to_string()), kudos: Some("1,024".to_string()), hits: Some("9,999".to_string()) }),
    }
}

#[test]
fn visited_once_is_one() {
    assert_eq!(visitations("Last visited: 03 Feb 2024\n Visited once"), 1);
}

#[test]
fn visited_four_times_is_four() {
    assert_eq!(visitations("Last visited: 03 Feb 2024\n Visited 4 times"), 4);
}

#[test]
fn visited_without_count_is_one() {
    assert_eq!(visitations("Last visited: 03 Feb 2024\n Visited"), 1);
    assert_eq!(visitations("Last visited: 03 Feb 2024"), 1);
    assert_eq!(visitations("Visited many times"), 1);
}

#[test]
fn number_strips_thousands_separators() {
    assert_eq!(number(&Some("12,345".to_string())), 12345);
    assert_eq!(number(&Some("7".to_string())), 7);
}

#[test]
fn missing_or_unreadable_number_is_zero() {
    assert_eq!(number(&None), 0);
    assert_eq!(number(&Some("n/a".to_string())), 0);
    assert_eq!(number(&Some("".to_string())), 0);
}

#[test]
fn last_visited_takes_date_line() {
    let t = last_visited("  Last visited: 12 Jan 2024 (Update available.)\n\n  Visited 4 times  ");
    assert_eq!(t, "12 Jan 2024 (Update available.)");
    assert_eq!(last_visited("no label here 2024"), "");
}

#[test]
fn authors_leave_out_orphan_placeholder() {
    let a = named_authors(&strings(&["orphan_account", "someone", "orphan_account", "other"]));
    assert_eq!(a, strings(&["someone", "other"]));
    assert_eq!(copy_all(&strings(&["x", "y"])), strings(&["x", "y"]));
}

#[test]
fn entry_outside_year_is_not_in_year() {
    let f = entry("Last visited: 03 Feb 2023\n Visited once", &["Star Trek"], Some("3,000"));
    assert!(matches!(extract(&f, "2024"), ExtractResult::NotInYear));
}

#[test]
fn entry_without_visit_block_is_skipped() {
    let mut f = entry("", &["Star Trek"], None);
    f.visited = None;
    assert!(matches!(extract(&f, "2024"), ExtractResult::Skipped));
}

#[test]
fn entry_without_header_or_tags_is_skipped() {
    let mut f = entry("Last visited: 03 Feb 2024\n Visited once", &["X"], None);
    f.header = None;
    assert!(matches!(extract(&f, "2024"), ExtractResult::Skipped));
    let mut g = entry("Last visited: 03 Feb 2024\n Visited once", &["X"], None);
    g.header.as_mut().unwrap().required_tags.pop();
    assert!(matches!(extract(&g, "2024"), ExtractResult::Skipped));
    let mut h = entry("Last visited: 03 Feb 2024\n Visited once", &["X"], None);
    h.header.as_mut().unwrap().title = None;
    assert!(matches!(extract(&h, "2024"), ExtractResult::Skipped));
}

#[test]
fn entry_in_year_gives_record() {
    let mut f = entry("Last visited: 03 Feb 2024\n Visited 3 times", &["Star Trek", "Doctor Who"], Some("12,345"));
    f.header.as_mut().unwrap().authors = strings(&["orphan_account", "writer"]);
    match extract(&f, "2024") {
        ExtractResult::Matched(w) => {
            assert_eq!(w.title, "A Title");
            assert_eq!(w.authors, strings(&["writer"]));
            assert_eq!(w.fandoms, strings(&["Star Trek", "Doctor Who"]));
            assert_eq!(w.ship_types, strings(&["M/M", "F/F"]));
            assert_eq!(w.rating, "Teen And Up Audiences");
            assert_eq!(w.status, "Complete Work");
            assert_eq!(w.word_count, 12345);
            assert_eq!(w.kudos, 1024);
            assert_eq!(w.hits, 9999);
            assert_eq!(w.last_visited, "03 Feb 2024");
            assert_eq!(w.visitations, 3);
            assert_eq!(w.last_updated, "01 Jan 2024");
        }
        _ => panic!("expected a record"),
    }
}

#[test]
fn entry_without_stats_counts_zero() {
    let mut f = entry("Last visited: 03 Feb 2024\n Visited once", &["X"], None);
    f.stats = Some(StatsFragment { words: Some("10".to_string()), kudos: None, hits: None });
    match extract(&f, "2024") {
        ExtractResult::Matched(w) => {
            assert_eq!(w.kudos, 0);
            assert_eq!(w.hits, 0);
            assert_eq!(w.word_count, 10);
        }
        _ => panic!("expected a record"),
    }
    f.stats = None;
    match extract(&f, "2024") {
        ExtractResult::Matched(w) => assert_eq!((w.word_count, w.kudos, w.hits), (0, 0, 0)),
        _ => panic!("expected a record"),
    }
}

#[test]
fn out_of_year_entry_leaves_counters() {
    let mut agg = Aggregator::new();
    let f = entry("Last visited: 03 Feb 2023\n Visited once", &["Star Trek"], Some("3,000"));
    assert_eq!(agg.absorb_entry(&f, "2024"), Ok(EntryOutcome::NotInYear));
    assert_eq!(agg.tables.fandoms.len(), 0);
    assert_eq!(agg.tables.word_count, 0);
    assert_eq!(agg.rows.len(), 0);
}

#[test]
fn two_entries_one_in_year() {
    let a = entry("Last visited: 03 Feb 2024\n Visited once", &["Star Trek"], Some("1000"));
    let b = entry("Last visited: 03 Feb 2023\n Visited once", &["Star Trek"], Some("3000"));
    let mut agg = Aggregator::new();
    assert_eq!(agg.absorb_page(&vec![a, b], "2024"), Ok(true));
    let fandoms = agg.tables.fandoms.to_pairs();
    assert_eq!(fandoms, vec![("Star Trek".to_string(), 1)]);
    assert_eq!(agg.tables.word_count, 1000);
    assert_eq!(agg.rows.len(), 1);
}

#[test]
fn ship_type_counts_match_tokens() {
    let a = entry("Last visited: 03 Feb 2024\n Visited once", &["X"], None);
    let mut b = entry("Last visited: 04 Feb 2024\n Visited once", &["Y"], None);
    b.header.as_mut().unwrap().required_tags[2] = "Gen".to_string();
    let mut agg = Aggregator::new();
    assert_eq!(agg.absorb_page(&vec![a, b], "2024"), Ok(true));
    assert_eq!(agg.tables.ship_types.total(), 3);
    assert_eq!(
        agg.tables.ship_types.to_pairs(),
        vec![("M/M".to_string(), 1), ("F/F".to_string(), 1), ("Gen".to_string(), 1)]
    );
}

#[test]
fn orphan_placeholder_never_counted() {
    let mut a = entry("Last visited: 03 Feb 2024\n Visited once", &["X"], None);
    a.header.as_mut().unwrap().authors = strings(&["orphan_account"]);
    let mut b = entry("Last visited: 03 Feb 2024\n Visited once", &["X"], None);
    b.header.as_mut().unwrap().authors = strings(&["orphan_account", "writer"]);
    let mut agg = Aggregator::new();
    assert_eq!(agg.absorb_page(&vec![a, b], "2024"), Ok(true));
    assert_eq!(agg.tables.authors.to_pairs(), vec![("writer".to_string(), 1)]);
    assert_eq!(agg.rows[0].authors, "");
}

#[test]
fn rows_match_accepted_entries() {
    let a = entry("Last visited: 03 Feb 2024\n Visited once", &["X"], None);
    let mut skipped = entry("Last visited: 03 Feb 2024\n Visited once", &["X"], None);
    skipped.header = None;
    let old = entry("Last visited: 03 Feb 2022\n Visited once", &["X"], None);
    let c = entry("Last visited: 05 Mar 2024\n Visited 2 times", &["Z"], Some("5"));
    let mut agg = Aggregator::new();
    assert_eq!(agg.absorb_page(&vec![a, skipped, old, c], "2024"), Ok(true));
    assert_eq!(agg.rows.len(), 2);
    assert_eq!(agg.rows[1].fandoms, "Z");
    assert_eq!(agg.rows[1].user_visitations, 2);
    assert_eq!(agg.rows[0].characters, "A,B");
    assert_eq!(agg.rows[0].ship_types, "M/M,F/F");
}

#[test]
fn page_without_year_reports_none_found() {
    let old = entry("Last visited: 03 Feb 2022\n Visited once", &["X"], None);
    let mut agg = Aggregator::new();
    assert_eq!(agg.absorb_page(&vec![old], "2024"), Ok(false));
    assert_eq!(agg.absorb_page(&vec![], "2024"), Ok(false));
}

#[test]
fn skipped_in_year_entry_still_counts_as_found() {
    let mut skipped = entry("Last visited: 03 Feb 2024\n Visited once", &["X"], None);
    skipped.header = None;
    let mut agg = Aggregator::new();
    assert_eq!(agg.absorb_page(&vec![skipped], "2024"), Ok(true));
    assert_eq!(agg.rows.len(), 0);
}

#[test]
fn lower_case_titles_are_counted() {
    let mut a = entry("Last visited: 03 Feb 2024\n Visited once", &["X"], None);
    a.header.as_mut().unwrap().title = Some("all lower".to_string());
    let b = entry("Last visited: 03 Feb 2024\n Visited once", &["X"], None);
    let mut agg = Aggregator::new();
    assert_eq!(agg.absorb_page(&vec![a, b], "2024"), Ok(true));
    assert_eq!(agg.tables.title_lower_count, 1);
}

#[test]
fn visit_word_reads_number_or_one() {
    assert_eq!(visits_from_word("once"), 1);
    assert_eq!(visits_from_word("12"), 12);
    assert_eq!(visits_from_word("+3"), 3);
    assert_eq!(visits_from_word("many"), 1);
    assert_eq!(visits_from_word("0"), 1);
}

#[test]
fn extraction_given_date_and_visits() {
    let f = entry("ignored", &["X"], Some("1,000"));
    assert!(matches!(extract_given(&f, "03 Feb 2023".to_string(), 1, "2024"), ExtractResult::NotInYear));
    match extract_given(&f, "03 Feb 2024".to_string(), 7, "2024") {
        ExtractResult::Matched(w) => {
            assert_eq!(w.visitations, 7);
            assert_eq!(w.last_visited, "03 Feb 2024");
            assert_eq!(w.word_count, 1000);
        }
        _ => panic!("expected a record"),
    }
}

#[test]
fn out_of_year_entry_in_page_changes_nothing() {
    let a = entry("Last visited: 03 Feb 2024\n Visited once", &["Star Trek"], Some("1000"));
    let old = entry("Last visited: 03 Feb 2023\n Visited once", &["Star Trek"], Some("3000"));
    let mut with_old = Aggregator::new();
    let mut without = Aggregator::new();
    assert_eq!(with_old.absorb_page(&vec![old, a.clone()], "2024"), Ok(true));
    assert_eq!(without.absorb_page(&vec![a], "2024"), Ok(true));
    assert_eq!(with_old.tables.fandoms.to_pairs(), without.tables.fandoms.to_pairs());
    assert_eq!(with_old.tables.word_count, without.tables.word_count);
    assert_eq!(with_old.rows.len(), without.rows.len());
    assert_eq!(with_old.rows[0].title, without.rows[0].title);
}
