use github_block::fetch::{Notification, Notifications, Step};
use github_block::tally::aggregate;
use github_block::BlockError;

fn drain_page(f: &mut Notifications) -> Vec<Notification> {
    let mut out = Vec::new();
    loop {
        match f.step() {
            Step::Ready(n) => out.push(n),
            _ => break,
        }
    }
    out
}

#[test]
fn two_pages_aggregate_and_terminate() {
    let mut f = Notifications::new("https://api.github.com", "tok");
    let mut items: Vec<Result<Notification, BlockError>> = Vec::new();
    let mut requests = 0;

    // Page 1: two mentions, Link header pointing at page 2.
    match f.step() {
        Step::NeedsPage(url, auth) => {
            assert_eq!(url, "https://api.github.com/notifications");
            assert_eq!(auth, "Bearer tok");
            requests += 1;
            let headers = vec![
                "Server: GitHub.com".to_string(),
                r#"Link: <https://api.github.com/notifications?page=2>; rel="next""#.to_string(),
            ];
            let body: serde_json::Value =
                serde_json::from_str(r#"[{"reason":"mention","id":1},{"reason":"mention"}]"#)
                    .unwrap();
            f.supply_page(&headers, &body).unwrap();
        }
        _ => panic!("expected a page request"),
    }
    for n in drain_page(&mut f) {
        items.push(Ok(n));
    }

    // Page 2: one assign, no Link header.
    match f.step() {
        Step::NeedsPage(url, _) => {
            assert_eq!(url, "https://api.github.com/notifications?page=2");
            requests += 1;
            let headers: Vec<String> = Vec::new();
            let body: serde_json::Value = serde_json::from_str(r#"[{"reason":"assign"}]"#).unwrap();
            f.supply_page(&headers, &body).unwrap();
        }
        _ => panic!("expected a page request"),
    }
    for n in drain_page(&mut f) {
        items.push(Ok(n));
    }

    // No third request: the walk is over.
    assert!(matches!(f.step(), Step::Done));
    assert_eq!(requests, 2);

    let t = aggregate(&items).unwrap();
    assert_eq!(t.get("total"), 3);
    assert_eq!(t.get("mention"), 2);
    assert_eq!(t.get("assign"), 1);
    assert_eq!(t.get("author"), 0);
}

#[test]
fn empty_first_page_without_link_yields_zero_total() {
    let mut f = Notifications::new("https://api.github.com", "tok");
    let mut requests = 0;
    match f.step() {
        Step::NeedsPage(_, _) => {
            requests += 1;
            let headers: Vec<String> = Vec::new();
            let body: serde_json::Value = serde_json::from_str("[]").unwrap();
            f.supply_page(&headers, &body).unwrap();
        }
        _ => panic!("expected a page request"),
    }
    assert!(matches!(f.step(), Step::Done));
    assert_eq!(requests, 1);

    let items: Vec<Result<Notification, BlockError>> = Vec::new();
    let t = aggregate(&items).unwrap();
    assert_eq!(t.get("total"), 0);
}

#[test]
fn exhausted_fetcher_never_requests_again() {
    let mut f = Notifications::new("https://api.github.com", "tok");
    match f.step() {
        Step::NeedsPage(_, _) => {
            let headers: Vec<String> = Vec::new();
            let body: serde_json::Value = serde_json::from_str("[]").unwrap();
            f.supply_page(&headers, &body).unwrap();
        }
        _ => panic!("expected a page request"),
    }
    for _ in 0..5 {
        assert!(matches!(f.step(), Step::Done));
        assert!(!f.needs_page());
    }
}

#[test]
fn link_header_without_next_ends_the_walk() {
    let mut f = Notifications::new("https://api.github.com", "tok");
    match f.step() {
        Step::NeedsPage(_, _) => {
            let headers = vec![
                r#"Link: <https://api.github.com/notifications?page=1>; rel="prev""#.to_string(),
            ];
            let body: serde_json::Value =
                serde_json::from_str(r#"[{"reason":"comment"}]"#).unwrap();
            f.supply_page(&headers, &body).unwrap();
        }
        _ => panic!("expected a page request"),
    }
    match f.step() {
        Step::Ready(n) => assert_eq!(n.reason, "comment"),
        _ => panic!("expected a record"),
    }
    assert!(matches!(f.step(), Step::Done));
}

#[test]
fn bad_body_is_a_decode_error_and_keeps_buffer_empty() {
    let mut f = Notifications::new("https://api.github.com", "tok");
    match f.step() {
        Step::NeedsPage(_, _) => {
            let headers: Vec<String> = Vec::new();
            let body: serde_json::Value =
                serde_json::from_str(r#"{"message":"Bad credentials"}"#).unwrap();
            assert_eq!(f.supply_page(&headers, &body), Err(BlockError::DecodeError));
        }
        _ => panic!("expected a page request"),
    }
    assert!(matches!(f.step(), Step::Done));
}

#[test]
fn record_without_reason_is_a_decode_error() {
    let mut f = Notifications::new("https://api.github.com", "tok");
    match f.step() {
        Step::NeedsPage(_, _) => {
            let headers: Vec<String> = Vec::new();
            let body: serde_json::Value =
                serde_json::from_str(r#"[{"reason":"mention"},{"id":7}]"#).unwrap();
            assert_eq!(f.supply_page(&headers, &body), Err(BlockError::DecodeError));
        }
        _ => panic!("expected a page request"),
    }
}
