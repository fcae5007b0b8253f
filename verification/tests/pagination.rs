use credentials_manager::pagination::{
    FeedResult, FetchError, PageProgress, PageResponse, MAX_RESTARTS,
};

fn page(total_count: usize, items: &[&str]) -> PageResponse<String> {
    PageResponse { total_count, items: items.iter().map(|s| s.to_string()).collect() }
}

#[test]
fn single_page_listing_completes() {
    let progress: PageProgress<String> = PageProgress::new();
    assert_eq!(progress.next_page(), 1);
    match progress.feed(page(2, &["a", "b"])) {
        FeedResult::Done(v) => assert_eq!(v, vec!["a".to_string(), "b".to_string()]),
        _ => panic!("expected the listing to complete"),
    }
}

#[test]
fn empty_listing_completes_immediately() {
    let progress: PageProgress<String> = PageProgress::new();
    match progress.feed(page(0, &[])) {
        FeedResult::Done(v) => assert!(v.is_empty()),
        _ => panic!("expected an empty listing"),
    }
}

#[test]
fn multi_page_listing_concatenates_in_order() {
    let progress: PageProgress<String> = PageProgress::new();
    let progress = match progress.feed(page(3, &["a", "b"])) {
        FeedResult::Continue(p) => p,
        _ => panic!("expected the fetch to continue"),
    };
    assert_eq!(progress.next_page(), 2);
    match progress.feed(page(3, &["c"])) {
        FeedResult::Done(v) => {
            assert_eq!(v, vec!["a".to_string(), "b".to_string(), "c".to_string()])
        }
        _ => panic!("expected the listing to complete"),
    }
}

#[test]
fn count_change_restarts_and_converges_on_the_final_listing() {
    // First attempt: total 2, one item fetched, then the count changes to 3.
    let progress: PageProgress<String> = PageProgress::new();
    let progress = match progress.feed(page(2, &["stale"])) {
        FeedResult::Continue(p) => p,
        _ => panic!("expected the fetch to continue"),
    };
    let progress = match progress.feed(page(3, &["x"])) {
        FeedResult::Continue(p) => p,
        _ => panic!("expected a restart"),
    };
    // The restart begins again at page 1.
    assert_eq!(progress.next_page(), 1);
    // The endpoint has stabilized at total 3.
    let progress = match progress.feed(page(3, &["x", "y"])) {
        FeedResult::Continue(p) => p,
        _ => panic!("expected the fetch to continue"),
    };
    match progress.feed(page(3, &["z"])) {
        FeedResult::Done(v) => {
            assert_eq!(v.len(), 3);
            assert_eq!(v, vec!["x".to_string(), "y".to_string(), "z".to_string()]);
        }
        _ => panic!("expected the listing to complete"),
    }
}

#[test]
fn endless_count_changes_hit_the_restart_ceiling() {
    let mut progress: PageProgress<u64> = PageProgress::new();
    let mut total: usize = 10;
    for _ in 0..MAX_RESTARTS {
        // Open an attempt, recording `total`, then contradict it.
        progress = match progress.feed(PageResponse { total_count: total, items: vec![1] }) {
            FeedResult::Continue(p) => p,
            _ => panic!("expected the fetch to continue"),
        };
        progress = match progress.feed(PageResponse { total_count: total + 1, items: vec![1] }) {
            FeedResult::Continue(p) => p,
            _ => panic!("expected a restart"),
        };
        total += 1;
    }
    // One more inconsistency exceeds the ceiling.
    progress = match progress.feed(PageResponse { total_count: total, items: vec![1] }) {
        FeedResult::Continue(p) => p,
        _ => panic!("expected the fetch to continue"),
    };
    match progress.feed(PageResponse { total_count: total + 1, items: vec![1] }) {
        FeedResult::Fail(e) => assert_eq!(e, FetchError::TooManyRestarts),
        _ => panic!("expected the restart ceiling to be hit"),
    }
}
