use rustgym::search::{search, Category, ProblemSummary, MAX_RESULTS};
use rustgym::session::{parse_query, Session, SessionError, SessionState};

#[test]
fn parses_plain_query() {
    let q = parse_query(4, &"search two sum".to_string()).unwrap();
    assert_eq!(q.session, 4);
    assert_eq!(q.text, "two sum");
    assert_eq!(q.category, None);
}

#[test]
fn parses_query_with_category() {
    let q = parse_query(4, &"search/google kick start".to_string()).unwrap();
    assert_eq!(q.category, Some(Category::Google));
    assert_eq!(q.text, "kick start");
    let q = parse_query(4, &"search/adventofcode day 1".to_string()).unwrap();
    assert_eq!(q.category, Some(Category::AdventOfCode));
    assert_eq!(q.text, "day 1");
    let q = parse_query(4, &"search/leetcode x".to_string()).unwrap();
    assert_eq!(q.category, Some(Category::Leetcode));
    assert_eq!(q.text, "x");
}

#[test]
fn rejects_malformed_frames() {
    for raw in ["", "search", "hello", "Search x", "search/chess x", "search/google", "searchx"] {
        assert_eq!(
            parse_query(1, &raw.to_string()).err(),
            Some(SessionError::MalformedRequest),
            "{}",
            raw
        );
    }
}

#[test]
fn empty_text_round_trips_to_empty_result() {
    let q = parse_query(1, &"search ".to_string()).unwrap();
    assert_eq!(q.text, "");
    let corpus = vec![ProblemSummary::new(1, Category::Leetcode, "Two Sum".to_string(), String::new())];
    assert!(search(&q, &corpus, MAX_RESULTS).items.is_empty());
}

#[test]
fn lifecycle_connect_once() {
    let mut s = Session::new(12);
    assert_eq!(s.state(), SessionState::Connecting);
    assert!(s.on_connect(3));
    assert_eq!(s.state(), SessionState::Active);
    assert_eq!(s.handle(), Some(3));
    assert!(!s.on_connect(4));
    assert_eq!(s.handle(), Some(3));
    assert_eq!(s.id(), 12);
}

#[test]
fn queries_go_out_one_at_a_time_in_order() {
    let mut s = Session::new(1);
    s.on_connect(0);
    let first = s.on_inbound(&"search a".to_string()).unwrap().expect("first goes out");
    assert_eq!(first.text, "a");
    assert!(s.on_inbound(&"search b".to_string()).unwrap().is_none());
    assert!(s.on_inbound(&"search c".to_string()).unwrap().is_none());
    assert_eq!(s.on_answered().unwrap().text, "b");
    assert_eq!(s.on_answered().unwrap().text, "c");
    assert!(s.on_answered().is_none());
    let next = s.on_inbound(&"search d".to_string()).unwrap().expect("goes out");
    assert_eq!(next.text, "d");
}

#[test]
fn malformed_frame_keeps_session_open() {
    let mut s = Session::new(1);
    s.on_connect(0);
    assert_eq!(s.on_inbound(&"nonsense".to_string()).err(), Some(SessionError::MalformedRequest));
    assert_eq!(s.state(), SessionState::Active);
    assert!(s.on_inbound(&"search ok".to_string()).unwrap().is_some());
}

#[test]
fn inbound_before_connect_is_ignored() {
    let mut s = Session::new(1);
    assert!(s.on_inbound(&"search a".to_string()).unwrap().is_none());
}

#[test]
fn disconnect_releases_once() {
    let mut s = Session::new(1);
    s.on_connect(8);
    s.on_inbound(&"search a".to_string()).unwrap();
    s.on_inbound(&"search b".to_string()).unwrap();
    assert_eq!(s.on_disconnect(), Some(8));
    assert_eq!(s.state(), SessionState::Closed);
    assert_eq!(s.on_disconnect(), None);
    assert!(s.on_answered().is_none());
    assert!(s.on_inbound(&"search c".to_string()).unwrap().is_none());
}
