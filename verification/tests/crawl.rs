use xcount::crawl::{Crawl, Step};
use xcount::output::CrawlResult;
use xcount::scrape::ScrapeError;

fn names(list: &[&str]) -> Vec<String> {
    list.iter().map(|s| s.to_string()).collect()
}

#[test]
fn empty_run_is_done() {
    let c = Crawl::new(Vec::new(), 1);
    assert!(matches!(c.next_step(), Step::Done));
    assert_eq!(c.shortfall(), None);
}

#[test]
fn first_fetch_waits_nothing_then_delay() {
    let mut c = Crawl::new(names(&["a", "b", "c"]), 5);
    match c.next_step() {
        Step::Fetch { index, username, wait_secs, eta_minutes } => {
            assert_eq!((index, username.as_str(), wait_secs, eta_minutes), (0, "a", 0, 0));
        }
        Step::Done => panic!("expected a fetch"),
    }
    c.record(Ok(CrawlResult::new("a".to_string(), 1, 2)));
    match c.next_step() {
        Step::Fetch { index, username, wait_secs, .. } => {
            assert_eq!((index, username.as_str(), wait_secs), (1, "b", 5));
        }
        Step::Done => panic!("expected a fetch"),
    }
}

#[test]
fn time_estimate() {
    // 100 usernames left, 59 s delay: 100 * 60 / 60 = 100 minutes
    let list: Vec<String> = (0..100).map(|i| format!("u{i}")).collect();
    let c = Crawl::new(list, 59);
    match c.next_step() {
        Step::Fetch { eta_minutes, .. } => assert_eq!(eta_minutes, 100),
        Step::Done => panic!("expected a fetch"),
    }
}

#[test]
fn failures_are_skipped() {
    let mut c = Crawl::new(names(&["a", "b", "c"]), 0);
    c.record(Ok(CrawlResult::new("a".to_string(), 1, 2)));
    c.record(Err(ScrapeError::StatsNotFound));
    c.record(Ok(CrawlResult::new("c".to_string(), 5, 6)));
    assert!(matches!(c.next_step(), Step::Done));
    let kept: Vec<(String, u64, u64)> =
        c.results().iter().map(|r| (r.username.clone(), r.followers, r.following)).collect();
    assert_eq!(kept, vec![("a".to_string(), 1, 2), ("c".to_string(), 5, 6)]);
    assert_eq!(c.shortfall(), Some((3, 2)));
}

#[test]
fn full_run_has_no_shortfall() {
    let mut c = Crawl::new(names(&["a"]), 3);
    c.record(Ok(CrawlResult::new("a".to_string(), 0, 0)));
    assert!(matches!(c.next_step(), Step::Done));
    assert_eq!(c.shortfall(), None);
}

#[test]
fn results_follow_request_order() {
    let mut c = Crawl::new(names(&["x", "y", "z"]), 0);
    c.record(Err(ScrapeError::RequestFailed));
    c.record(Ok(CrawlResult::new("y".to_string(), 3, 4)));
    c.record(Ok(CrawlResult::new("z".to_string(), 5, 6)));
    let kept: Vec<String> = c.results().iter().map(|r| r.username.clone()).collect();
    assert_eq!(kept, vec!["y".to_string(), "z".to_string()]);
}
