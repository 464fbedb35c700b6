use search_engine::crawler::shared::{DomainClock, PageCounter};
use search_engine::crawler::worker::{
    domain_ready, reserve_slot, Action, Event, NoticeKind, Phase, Worker, DOMAIN_DELAY_MS,
    MAX_EMPTY_POLLS, MAX_FETCH_ATTEMPTS,
};

const PAGE: &str = r#"<html><head><title>Home</title><meta name="description" content="A test page"></head>
<body><p>Rust crawler</p><a href="/next">next</a><a href="https://other.org/">other</a></body></html>"#;

fn start(max_pages: usize) -> (Worker, Action) {
    let mut w = Worker::new(max_pages);
    let a = w.step(Event::Start);
    (w, a)
}

/// Drives a worker from the queue to the fetch of `url`.
fn to_fetch(w: &mut Worker, url: &str) -> Action {
    match w.step(Event::Popped(Some(url.to_string()))) {
        Action::CheckVisited(u) => assert_eq!(u, url),
        _ => panic!("expected CheckVisited"),
    }
    assert!(matches!(w.step(Event::Visited(false)), Action::ReadPageCount));
    match w.step(Event::PageCount(0)) {
        Action::Announce(NoticeKind::Crawling, u) => assert_eq!(u, url),
        _ => panic!("expected Announce"),
    }
    match w.step(Event::Done) {
        Action::ClaimDomain(d) => assert_eq!(d, "example.com"),
        _ => panic!("expected ClaimDomain"),
    }
    match w.step(Event::DomainClaimed(true)) {
        Action::LoadRobots(d) => assert_eq!(d, "example.com"),
        _ => panic!("expected LoadRobots"),
    }
    w.step(Event::Robots(vec!["/private".to_string()]))
}

#[test]
fn starts_by_polling_the_queue() {
    let (w, a) = start(5);
    assert!(matches!(a, Action::PopUrl));
    assert!(matches!(w.phase(), Phase::Popping));
}

#[test]
fn stops_after_ten_empty_polls() {
    let (mut w, _) = start(5);
    for i in 1..=MAX_EMPTY_POLLS {
        let a = w.step(Event::Popped(None));
        if i < MAX_EMPTY_POLLS {
            assert!(matches!(a, Action::Sleep(500)));
            assert!(matches!(w.step(Event::Done), Action::PopUrl));
        } else {
            assert!(matches!(a, Action::Stop));
        }
    }
    assert!(matches!(w.step(Event::Done), Action::Stop));
}

#[test]
fn a_url_resets_the_empty_poll_count() {
    let (mut w, _) = start(5);
    for _ in 0..(MAX_EMPTY_POLLS - 1) {
        assert!(matches!(w.step(Event::Popped(None)), Action::Sleep(_)));
        w.step(Event::Done);
    }
    assert!(matches!(w.step(Event::Popped(Some("https://example.com/a".to_string()))), Action::CheckVisited(_)));
    assert!(matches!(w.step(Event::Visited(true)), Action::PopUrl));
    assert!(matches!(w.step(Event::Popped(None)), Action::Sleep(_)));
}

#[test]
fn visited_url_is_skipped() {
    let (mut w, _) = start(5);
    w.step(Event::Popped(Some("https://example.com/".to_string())));
    assert!(matches!(w.step(Event::Visited(true)), Action::PopUrl));
}

#[test]
fn page_limit_stops_the_worker() {
    let (mut w, _) = start(2);
    w.step(Event::Popped(Some("https://example.com/".to_string())));
    w.step(Event::Visited(false));
    assert!(matches!(w.step(Event::PageCount(2)), Action::Stop));
}

#[test]
fn url_without_host_is_dropped() {
    let (mut w, _) = start(2);
    w.step(Event::Popped(Some("not a url".to_string())));
    w.step(Event::Visited(false));
    assert!(matches!(w.step(Event::PageCount(0)), Action::PopUrl));
}

#[test]
fn busy_domain_waits_and_asks_again() {
    let (mut w, _) = start(2);
    w.step(Event::Popped(Some("https://example.com/a".to_string())));
    w.step(Event::Visited(false));
    w.step(Event::PageCount(0));
    w.step(Event::Done);
    assert!(matches!(w.step(Event::DomainClaimed(false)), Action::Sleep(100)));
    assert!(matches!(w.step(Event::Done), Action::ClaimDomain(_)));
}

#[test]
fn blocked_url_is_reported_not_fetched() {
    let (mut w, _) = start(2);
    match to_fetch(&mut w, "https://example.com/private/x") {
        Action::Announce(NoticeKind::Blocked, u) => assert_eq!(u, "https://example.com/private/x"),
        _ => panic!("expected a Blocked notice"),
    }
    assert!(matches!(w.step(Event::Done), Action::PopUrl));
}

#[test]
fn three_failed_fetches_give_up() {
    let (mut w, _) = start(2);
    let mut a = to_fetch(&mut w, "https://example.com/a");
    let mut fetches = 0;
    while let Action::Fetch(_) = a {
        fetches += 1;
        a = w.step(Event::Fetched(None));
    }
    assert_eq!(fetches, MAX_FETCH_ATTEMPTS);
    assert!(matches!(a, Action::Announce(NoticeKind::Failed, _)));
    assert!(matches!(w.step(Event::Done), Action::PopUrl));
}

#[test]
fn full_crawl_of_one_page() {
    let url = "https://example.com/home";
    let (mut w, _) = start(2);
    assert!(matches!(to_fetch(&mut w, url), Action::Fetch(_)));
    assert!(matches!(w.step(Event::Fetched(None)), Action::Fetch(_)));
    match w.step(Event::Fetched(Some(PAGE.to_string()))) {
        Action::InsertPage(p) => {
            assert_eq!(p.url, url);
            assert_eq!(p.title, "Home");
            assert_eq!(p.description, "A test page");
            assert!(p.content.contains("Rust crawler"));
        },
        _ => panic!("expected InsertPage"),
    }
    assert!(matches!(w.step(Event::Done), Action::ReserveSlot));
    match w.step(Event::SlotReserved(Some(1))) {
        Action::MarkVisited(u) => assert_eq!(u, url),
        _ => panic!("expected MarkVisited"),
    }
    match w.step(Event::Done) {
        Action::AddDocument(u, words) => {
            assert_eq!(u, url);
            assert!(words.contains(&"rust".to_string()));
            assert!(words.contains(&"crawler".to_string()));
            assert!(words.contains(&"home".to_string()));
        },
        _ => panic!("expected AddDocument"),
    }
    match w.step(Event::Done) {
        Action::SavePage(body, id) => {
            assert_eq!(body, PAGE);
            assert_eq!(id, 1);
        },
        _ => panic!("expected SavePage"),
    }
    let links = vec!["https://example.com/next".to_string(), "https://other.org".to_string()];
    match w.step(Event::Done) {
        Action::AddLinks(u, ls) => {
            assert_eq!(u, url);
            assert_eq!(ls, links);
        },
        _ => panic!("expected AddLinks"),
    }
    match w.step(Event::Done) {
        Action::AddIfNotSeen(l) => assert_eq!(l, links[0]),
        _ => panic!("expected AddIfNotSeen"),
    }
    match w.step(Event::Added(true)) {
        Action::PushUrl(l) => assert_eq!(l, links[0]),
        _ => panic!("expected PushUrl"),
    }
    match w.step(Event::Done) {
        Action::AddIfNotSeen(l) => assert_eq!(l, links[1]),
        _ => panic!("expected AddIfNotSeen"),
    }
    assert!(matches!(w.step(Event::Added(false)), Action::PopUrl));
}

#[test]
fn no_slot_left_stops() {
    let (mut w, _) = start(1);
    to_fetch(&mut w, "https://example.com/a");
    w.step(Event::Fetched(Some("<html></html>".to_string())));
    w.step(Event::Done);
    assert!(matches!(w.step(Event::SlotReserved(None)), Action::Stop));
}

#[test]
fn domain_delay_and_slots() {
    assert!(domain_ready(None));
    assert!(!domain_ready(Some(DOMAIN_DELAY_MS - 1)));
    assert!(domain_ready(Some(DOMAIN_DELAY_MS)));
    assert_eq!(reserve_slot(0, 2), Some(1));
    assert_eq!(reserve_slot(1, 2), Some(2));
    assert_eq!(reserve_slot(2, 2), None);
    assert_eq!(reserve_slot(5, 2), None);
}

#[test]
fn domain_clock_spaces_claims() {
    let mut clock = DomainClock::new();
    let a = "example.com".to_string();
    let b = "other.org".to_string();
    assert!(clock.claim(&a, 5));
    assert!(!clock.claim(&a, 5 + DOMAIN_DELAY_MS - 1));
    assert!(clock.claim(&b, 6));
    assert!(clock.claim(&a, 5 + DOMAIN_DELAY_MS));
    assert!(!clock.claim(&a, 5 + DOMAIN_DELAY_MS + 10));
    assert!(clock.claim(&a, 5 + 2 * DOMAIN_DELAY_MS));
    // a time before the last claim counts as none elapsed
    assert!(!clock.claim(&b, 0));
}

#[test]
fn page_counter_stops_at_limit() {
    let mut counter = PageCounter::new(2);
    assert_eq!(counter.count(), 0);
    assert_eq!(counter.max_pages(), 2);
    assert_eq!(counter.reserve(), Some(1));
    assert_eq!(counter.reserve(), Some(2));
    assert_eq!(counter.reserve(), None);
    assert_eq!(counter.count(), 2);
    let mut none = PageCounter::new(0);
    assert_eq!(none.reserve(), None);
    assert_eq!(none.count(), 0);
}
