use isup::store::Memory;
use isup::strategy::Strategy;
use isup::{ProbeOutcome, Request, RequestError, Score, Service};

/// Scores each response by its status alone, so that tests can tell what a
/// cycle handed to the strategy.
struct StatusEcho;

impl Strategy for StatusEcho {
    fn next_score(&self, score: Score, new_response_nanos: u64, status_code: u16) -> Score {
        self.calculate(score, new_response_nanos, status_code)
    }

    fn calculate(&self, score: Score, new_response_nanos: u64, status_code: u16) -> Score {
        Score::new(status_code as u32, score.reliability_bits + 1, new_response_nanos)
    }
}

fn service(urls: &[&str]) -> Service<StatusEcho> {
    let requests = urls.iter().map(|u| Request::new("GET", u)).collect();
    Service::new(StatusEcho, Memory::new(), requests)
}

fn outcome(url: &str, elapsed_nanos: u64, status: Option<u16>) -> ProbeOutcome {
    ProbeOutcome { url: url.to_string(), elapsed_nanos, status }
}

#[test]
fn insert_appends_url_at_end() {
    let mut svc = service(&["http://a.example/", "http://b.example/"]);
    svc.insert_request(Request::new("GET", "http://c.example/"));
    assert_eq!(svc.urls(), vec!["http://a.example/", "http://b.example/", "http://c.example/"]);
}

#[test]
fn insert_keeps_duplicates() {
    let mut svc = service(&["http://a.example/"]);
    svc.insert_request(Request::new("POST", "http://a.example/"));
    assert_eq!(svc.urls(), vec!["http://a.example/", "http://a.example/"]);
}

#[test]
fn remove_absent_url_changes_nothing() {
    let mut svc = service(&["http://a.example/", "http://b.example/"]);
    assert_eq!(svc.remove_request("http://z.example/"), Ok(()));
    assert_eq!(svc.urls(), vec!["http://a.example/", "http://b.example/"]);
    assert_eq!(svc.remove_request("http://z.example/"), Ok(()));
    assert_eq!(svc.urls(), vec!["http://a.example/", "http://b.example/"]);
}

#[test]
fn remove_drops_every_match_after_rendering() {
    let mut svc = service(&["http://a.example/", "http://b.example/", "http://a.example/"]);
    assert_eq!(svc.remove_request("http://a.example"), Ok(()));
    assert_eq!(svc.urls(), vec!["http://b.example/"]);
}

#[test]
fn remove_refuses_invalid_url() {
    let mut svc = service(&["http://a.example/"]);
    assert_eq!(svc.remove_request("http://exa mple.com/"), Err(RequestError::InvalidUrl));
    assert_eq!(svc.urls(), vec!["http://a.example/"]);
}

#[test]
fn cycle_with_failures_records_every_probe() {
    let urls = ["http://a.example/", "http://b.example/", "http://c.example/"];
    let mut svc = service(&urls);
    let outcomes = vec![
        outcome(urls[0], 2_000_000_000, None),
        outcome(urls[1], 120_000_000, Some(200)),
        outcome(urls[2], 2_000_000_000, None),
    ];
    svc.update(&outcomes, 1_700_000_000);
    assert_eq!(svc.updated_at, 1_700_000_000);
    let a = svc.store.get(urls[0]).unwrap().unwrap();
    let b = svc.store.get(urls[1]).unwrap().unwrap();
    let c = svc.store.get(urls[2]).unwrap().unwrap();
    assert_eq!(a.score_bits, 0);
    assert_eq!(a.response_avg_nanos, 2_000_000_000);
    assert_eq!(b.score_bits, 200);
    assert_eq!(c.score_bits, 0);
}

#[test]
fn cycle_starts_from_stored_score() {
    let mut svc = service(&["http://a.example/"]);
    let outcomes = vec![outcome("http://a.example/", 5, Some(204))];
    svc.update(&outcomes, 10);
    svc.update(&outcomes, 20);
    let a = svc.store.get("http://a.example/").unwrap().unwrap();
    assert_eq!(a.reliability_bits, 2);
    assert_eq!(svc.updated_at, 20);
}

#[test]
fn cycle_keeps_other_entries() {
    let mut store = Memory::new();
    store.set("http://old.example/".to_string(), Score::new(7, 7, 7)).unwrap();
    let mut svc = Service::new(StatusEcho, store, Vec::new());
    svc.update(&vec![outcome("http://a.example/", 1, Some(500))], 1);
    assert_eq!(svc.store.get("http://old.example/").unwrap(), Some(Score::new(7, 7, 7)));
    assert_eq!(svc.best_url().unwrap(), Some("http://a.example/".to_string()));
}

#[test]
fn new_service_has_no_update_yet() {
    let svc = service(&[]);
    assert_eq!(svc.updated_at, 0);
    assert_eq!(svc.best_url().unwrap(), None);
    assert!(svc.urls().is_empty());
}

#[test]
fn probe_status_uses_zero_for_no_response() {
    assert_eq!(isup::service::probe_status(None), 0);
    assert_eq!(isup::service::probe_status(Some(503)), 503);
}

#[test]
fn use_store_and_use_strategy_keep_probes() {
    let mut store = Memory::default();
    store.set("http://x.example/".to_string(), Score::new(1, 0, 0)).unwrap();
    let svc = service(&["http://a.example/"]).use_store(store).use_strategy(StatusEcho);
    assert_eq!(svc.urls(), vec!["http://a.example/"]);
    assert_eq!(svc.best_url().unwrap(), Some("http://x.example/".to_string()));
}
