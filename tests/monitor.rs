use website_status_checker::checker::{AttemptOutcome, RetryState, Step};
use website_status_checker::config::{Config, ConfigError};
use website_status_checker::monitor::{Collector, WebsiteMonitor};
use website_status_checker::pool::partition;
use website_status_checker::status::WebsiteStatus;

fn strings(items: &[&str]) -> Vec<String> {
    items.iter().map(|s| s.to_string()).collect()
}

fn status_for(url: &str, status: Result<u16, String>) -> WebsiteStatus {
    WebsiteStatus { url: url.to_string(), status, response_time_ms: 5, timestamp_ms: 1_700_000_000_000 }
}

#[test]
fn config_new_keeps_values() {
    let c = Config::new(4, 5, 2);
    assert_eq!(c.num_threads, 4);
    assert_eq!(c.timeout_secs, 5);
    assert_eq!(c.max_retries, 2);
    assert_eq!(c.validate(), Ok(()));
}

#[test]
fn invalid_configs_are_rejected() {
    assert_eq!(Config::new(0, 5, 2).validate(), Err(ConfigError::NoWorkers));
    assert_eq!(Config::new(0, 0, 2).validate(), Err(ConfigError::NoWorkers));
    assert_eq!(Config::new(3, 0, 0).validate(), Err(ConfigError::ZeroTimeout));
}

#[test]
fn partition_makes_contiguous_chunks() {
    let urls = strings(&["a", "b", "c", "d", "e"]);
    let chunks = partition(&urls, 2);
    assert_eq!(chunks, vec![strings(&["a", "b", "c"]), strings(&["d", "e"])]);
    let chunks = partition(&urls, 5);
    assert_eq!(chunks.len(), 5);
    assert!(chunks.iter().all(|c| c.len() == 1));
    let chunks = partition(&urls, 1);
    assert_eq!(chunks, vec![urls.clone()]);
}

#[test]
fn more_workers_than_urls_leaves_empty_chunks() {
    let urls = strings(&["a", "b"]);
    let chunks = partition(&urls, 4);
    assert_eq!(chunks, vec![strings(&["a"]), strings(&["b"]), vec![], vec![]]);
    let chunks = partition(&Vec::new(), 3);
    assert_eq!(chunks, vec![Vec::<String>::new(), vec![], vec![]]);
}

#[test]
fn partition_covers_every_url_once() {
    for n in 0..12usize {
        let urls: Vec<String> = (0..n).map(|i| format!("u{}", i)).collect();
        for k in 1..8usize {
            let chunks = partition(&urls, k);
            assert_eq!(chunks.len(), k);
            let joined: Vec<String> = chunks.concat();
            assert_eq!(joined, urls);
        }
    }
}

#[test]
fn zero_workers_plans_no_work() {
    let monitor = WebsiteMonitor::new(strings(&["a", "b"]), Config::new(0, 5, 1));
    assert_eq!(monitor.plan(), Err(ConfigError::NoWorkers));
    let monitor = WebsiteMonitor::new(strings(&["a"]), Config::new(2, 0, 1));
    assert_eq!(monitor.plan(), Err(ConfigError::ZeroTimeout));
}

#[test]
fn monitor_keeps_urls_and_config() {
    let monitor = WebsiteMonitor::new(strings(&["x", "y", "z"]), Config::new(2, 7, 3));
    assert_eq!(monitor.urls(), &strings(&["x", "y", "z"]));
    assert_eq!(monitor.config(), Config::new(2, 7, 3));
    assert_eq!(monitor.plan(), Ok(vec![strings(&["x", "y"]), strings(&["z"])]));
}

#[test]
fn collector_checks_worker_and_order() {
    let mut c = Collector::new(vec![strings(&["a", "b"]), strings(&["c"])]);
    assert!(!c.is_complete());
    assert!(!c.accept(2, status_for("c", Ok(200))));
    assert!(!c.accept(0, status_for("b", Ok(200))));
    assert!(c.accept(1, status_for("c", Ok(200))));
    assert!(!c.accept(1, status_for("c", Ok(200))));
    assert!(c.accept(0, status_for("a", Ok(301))));
    assert!(!c.is_complete());
    assert!(c.accept(0, status_for("b", Err("down".to_string()))));
    assert!(c.is_complete());
    let results = c.finish().expect("complete");
    let urls: Vec<&str> = results.iter().map(|r| r.url.as_str()).collect();
    assert_eq!(urls, vec!["c", "a", "b"]);
}

#[test]
fn unfinished_collector_gives_nothing() {
    let mut c = Collector::new(vec![strings(&["a"]), strings(&["b"])]);
    assert!(c.accept(0, status_for("a", Ok(200))));
    assert!(c.finish().is_none());
}

#[test]
fn aborted_worker_reports_its_remaining_urls() {
    let mut c = Collector::new(vec![strings(&["a", "b", "c"]), strings(&["d"])]);
    assert!(c.accept(0, status_for("a", Ok(200))));
    c.abort(0, 42);
    c.abort(7, 42);
    assert!(!c.is_complete());
    assert!(c.accept(1, status_for("d", Ok(200))));
    let results = c.finish().expect("complete");
    assert_eq!(results.len(), 4);
    assert_eq!(results[1].url, "b");
    assert_eq!(results[1].status, Err("worker aborted".to_string()));
    assert_eq!(results[1].response_time_ms, 0);
    assert_eq!(results[1].timestamp_ms, 42);
    assert_eq!(results[2].url, "c");
    assert_eq!(results[2].status, Err("worker aborted".to_string()));
    assert_eq!(results[3].url, "d");
}

fn scripted_check(url: &str, max_retries: usize, calls: &mut Vec<String>) -> WebsiteStatus {
    let mut state = RetryState::new(max_retries);
    let mut attempt = 0;
    loop {
        attempt += 1;
        calls.push(url.to_string());
        let outcome = match (url, attempt) {
            ("a", _) => AttemptOutcome::Response(200),
            ("c", 2) => AttemptOutcome::Response(200),
            _ => AttemptOutcome::Transport("timed out".to_string()),
        };
        match state.record(outcome) {
            Step::Retry(next) => state = next,
            Step::Done(status) => return status_for(url, status),
        }
    }
}

#[test]
fn four_urls_two_workers_one_retry() {
    let monitor = WebsiteMonitor::new(strings(&["a", "b", "c", "d"]), Config::new(2, 5, 1));
    let chunks = monitor.plan().expect("valid config");
    let mut collector = Collector::new(chunks.clone());
    let mut calls = Vec::new();
    for (w, chunk) in chunks.iter().enumerate() {
        for url in chunk {
            let status = scripted_check(url, monitor.config().max_retries, &mut calls);
            assert!(collector.accept(w, status));
        }
    }
    let results = collector.finish().expect("complete");
    assert_eq!(results.len(), 4);
    let find = |u: &str| results.iter().find(|r| r.url == u).expect("present").status.clone();
    assert_eq!(find("a"), Ok(200));
    assert_eq!(find("b"), Err("Failed after 2 attempts: timed out".to_string()));
    assert_eq!(find("c"), Ok(200));
    assert_eq!(find("d"), Err("Failed after 2 attempts: timed out".to_string()));
    assert_eq!(calls.len(), 1 + 2 + 2 + 2);
}

#[test]
fn results_count_matches_urls() {
    for n in 0..9usize {
        let urls: Vec<String> = (0..n).map(|i| format!("site{}", i)).collect();
        for k in 1..6usize {
            let monitor = WebsiteMonitor::new(urls.clone(), Config::new(k, 1, 0));
            let chunks = monitor.plan().expect("valid config");
            let mut collector = Collector::new(chunks.clone());
            for (w, chunk) in chunks.iter().enumerate() {
                for url in chunk {
                    assert!(collector.accept(w, status_for(url, Ok(200))));
                }
            }
            assert_eq!(collector.finish().expect("complete").len(), n);
        }
    }
}
