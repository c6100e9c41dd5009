use ao3_wrapped::aggregate::Aggregator;
use ao3_wrapped::controller::{start, step, RetryPolicy, ScrapeAction, ScrapeEvent, ScrapeState};
use ao3_wrapped::counts::CountTable;
use ao3_wrapped::record::{EntryFragment, HeaderFragment};
use ao3_wrapped::report::{column_mean, extreme_row, ranked, NumericColumn};
use ao3_wrapped::session::{csrf_token, login_form, login_outcome, success_status, SessionError};
use ao3_wrapped::text::join;

fn page_entry(visited: &str) -> EntryFragment {
    EntryFragment {
        visited: Some(visited.to_string()),
        header: Some(HeaderFragment {
            title: Some("T".to_string()),
            authors: vec!["a".to_string()],
            updated: None,
            fandoms: vec!["F".to_string()],
            required_tags: vec!["G".to_string(), "W".to_string(), "Gen".to_string(), "Complete Work".to_string()],
        }),
        ships: vec![],
        characters: vec![],
        tags: vec![],
        stats: None,
    }
}

#[test]
fn three_pages_fetch_three_and_stop() {
    let pages = vec![
        vec![page_entry("Last visited: 01 Dec 2024\n Visited once")],
        vec![page_entry("Last visited: 01 Jun 2024\n Visited once"), page_entry("Last visited: 01 Jan 2023\n Visited once")],
        vec![page_entry("Last visited: 01 Dec 2023\n Visited once")],
    ];
    let policy = RetryPolicy { max_failures: None };
    let mut agg = Aggregator::new();
    let (mut state, mut action) = start();
    let mut fetched = Vec::new();
    let mut failed_once = false;
    loop {
        let event = match action {
            ScrapeAction::Fetch { page } => {
                if page == 2 && !failed_once {
                    failed_once = true;
                    ScrapeEvent::FetchFailed
                } else {
                    fetched.push(page);
                    ScrapeEvent::Fetched
                }
            }
            ScrapeAction::Parse { page } => {
                let found = agg.absorb_page(&pages[(page - 1) as usize], "2024").unwrap();
                ScrapeEvent::Parsed { found }
            }
            ScrapeAction::Sleep => ScrapeEvent::Slept,
            ScrapeAction::Finish => break,
            ScrapeAction::Abandon { .. } => panic!("no page should be abandoned"),
        };
        let (s, a) = step(state, event, policy).unwrap();
        state = s;
        action = a;
    }
    assert_eq!(fetched, vec![1, 2, 3]);
    assert_eq!(state, ScrapeState::Done);
    assert_eq!(agg.rows.len(), 2);
}

#[test]
fn retry_limit_gives_up() {
    let policy = RetryPolicy { max_failures: Some(1) };
    let s0 = ScrapeState::Fetching { page: 4, failures: 0 };
    let (s1, a1) = step(s0, ScrapeEvent::FetchFailed, policy).unwrap();
    assert_eq!(s1, ScrapeState::Fetching { page: 4, failures: 1 });
    assert_eq!(a1, ScrapeAction::Fetch { page: 4 });
    assert_eq!(
        step(s1, ScrapeEvent::FetchFailed, policy),
        Some((ScrapeState::GaveUp { page: 4 }, ScrapeAction::Abandon { page: 4 }))
    );
}

#[test]
fn unbounded_retry_keeps_page() {
    let policy = RetryPolicy { max_failures: None };
    let s = ScrapeState::Fetching { page: 2, failures: 1000 };
    assert_eq!(
        step(s, ScrapeEvent::FetchFailed, policy),
        Some((ScrapeState::Fetching { page: 2, failures: 1001 }, ScrapeAction::Fetch { page: 2 }))
    );
}

#[test]
fn out_of_place_event_is_refused() {
    let policy = RetryPolicy { max_failures: None };
    assert_eq!(step(ScrapeState::Done, ScrapeEvent::Fetched, policy), None);
    assert_eq!(step(ScrapeState::Waiting { page: 1 }, ScrapeEvent::Fetched, policy), None);
    assert_eq!(
        step(ScrapeState::Waiting { page: 1 }, ScrapeEvent::Slept, policy),
        Some((ScrapeState::Fetching { page: 2, failures: 0 }, ScrapeAction::Fetch { page: 2 }))
    );
}

#[test]
fn missing_token_is_fatal() {
    assert_eq!(csrf_token(None), Err(SessionError::AuthTokenMissing));
    assert_eq!(csrf_token(Some("abc".to_string())), Ok("abc".to_string()));
}

#[test]
fn login_status_decides() {
    assert_eq!(login_outcome(200, "me".to_string()), Ok("me".to_string()));
    assert_eq!(login_outcome(401, "me".to_string()), Err(SessionError::LoginRejected));
    assert_eq!(login_outcome(302, "me".to_string()), Err(SessionError::LoginRejected));
    assert!(success_status(204));
    assert!(!success_status(500));
}

#[test]
fn login_form_fields() {
    let f = login_form(&"tok".to_string(), &"me".to_string(), &"pw".to_string());
    let pairs: Vec<(&str, &str)> = f.iter().map(|(a, b)| (a.as_str(), b.as_str())).collect();
    assert_eq!(
        pairs,
        vec![
            ("utf8", "\u{2713}"),
            ("authenticity_token", "tok"),
            ("user[login]", "me"),
            ("user[password]", "pw"),
            ("commit", "Log in"),
        ]
    );
}

#[test]
fn ranking_descends() {
    let mut t = CountTable::new();
    for k in ["a", "b", "b", "c", "c", "c", "d"] {
        t.increment(&k.to_string());
    }
    let r = ranked(&t);
    assert_eq!(
        r,
        vec![("c".to_string(), 3), ("b".to_string(), 2), ("a".to_string(), 1), ("d".to_string(), 1)]
    );
    assert_eq!(t.total(), 7);
    assert_eq!(ranked(&CountTable::new()), vec![]);
}

#[test]
fn table_round_trips_through_pairs() {
    let mut t = CountTable::new();
    t.add(&"x".to_string(), 5);
    t.increment(&"y".to_string());
    t.increment(&"x".to_string());
    let pairs = t.to_pairs();
    assert_eq!(pairs, vec![("x".to_string(), 6), ("y".to_string(), 1)]);
    let u = CountTable::from_pairs(&pairs).unwrap();
    assert_eq!(u.to_pairs(), pairs);
    let (k, c) = u.entry(1);
    assert_eq!((k.as_str(), c), ("y", 1));
}

#[test]
fn table_from_overflowing_pairs_is_none() {
    let pairs = vec![("x".to_string(), u64::MAX), ("y".to_string(), 1)];
    assert!(CountTable::from_pairs(&pairs).is_none());
    let dup = vec![("x".to_string(), 2), ("x".to_string(), 3)];
    assert_eq!(CountTable::from_pairs(&dup).unwrap().to_pairs(), vec![("x".to_string(), 5)]);
}

#[test]
fn extremes_and_means() {
    let mut agg = Aggregator::new();
    let mut a = page_entry("Last visited: 01 Dec 2024\n Visited 5 times");
    a.stats = Some(ao3_wrapped::record::StatsFragment { words: Some("100".to_string()), kudos: Some("3".to_string()), hits: None });
    let mut b = page_entry("Last visited: 01 Dec 2024\n Visited 5 times");
    b.stats = Some(ao3_wrapped::record::StatsFragment { words: Some("50".to_string()), kudos: Some("9".to_string()), hits: None });
    let c = page_entry("Last visited: 01 Dec 2024\n Visited once");
    agg.absorb_page(&vec![a, b, c], "2024").unwrap();
    assert_eq!(extreme_row(&agg.rows, NumericColumn::WordCount, true), Some(0));
    assert_eq!(extreme_row(&agg.rows, NumericColumn::WordCount, false), Some(2));
    assert_eq!(extreme_row(&agg.rows, NumericColumn::Kudos, true), Some(1));
    assert_eq!(extreme_row(&agg.rows, NumericColumn::Visitations, true), Some(0));
    assert_eq!(extreme_row(&vec![], NumericColumn::Hits, true), None);
    assert_eq!(column_mean(&agg.rows, NumericColumn::WordCount), 50);
    assert_eq!(column_mean(&agg.rows, NumericColumn::Kudos), 4);
    assert_eq!(column_mean(&vec![], NumericColumn::Kudos), 0);
}

#[test]
fn join_puts_commas_between() {
    assert_eq!(join(&vec!["a".to_string(), "b".to_string(), "c".to_string()]), "a,b,c");
    assert_eq!(join(&vec![]), "");
    assert_eq!(join(&vec!["solo".to_string()]), "solo");
}
