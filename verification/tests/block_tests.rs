use github_block::block::{project, Github, GithubConfig, ReasonCounts};
use github_block::fetch::Notification;
use github_block::tally::{aggregate, Tally};
use github_block::BlockError;

fn config() -> GithubConfig {
    GithubConfig::default()
}

fn ok_record(reason: &str) -> Result<Notification, BlockError> {
    Ok(Notification {
        reason: reason.to_string(),
    })
}

#[test]
fn default_config_matches_stock_values() {
    let c = GithubConfig::default();
    assert_eq!(c.interval, 30);
    assert_eq!(c.api_server, "https://api.github.com");
    assert_eq!(c.format, "{total}");
    assert!(!c.hide_if_total_is_zero);
}

#[test]
fn missing_credential_fails_construction() {
    match Github::new(1, config(), None) {
        Err(e) => assert_eq!(e, BlockError::MissingCredential),
        Ok(_) => panic!("construction must fail without a credential"),
    }
}

#[test]
fn tally_seed_holds_total_zero() {
    let t = Tally::new();
    assert_eq!(t.get("total"), 0);
    assert_eq!(t.get("mention"), 0);
}

#[test]
fn projection_zero_fills_unobserved_codes() {
    let items = vec![ok_record("mention"), ok_record("ci_activity")];
    let t = aggregate(&items).unwrap();
    let c = project(&t);
    let expected = ReasonCounts {
        total: 2,
        assign: 0,
        author: 0,
        comment: 0,
        invitation: 0,
        manual: 0,
        mention: 1,
        review_requested: 0,
        security_alert: 0,
        state_change: 0,
        subscribed: 0,
        team_mention: 0,
    };
    assert_eq!(c, expected);
    // The open aggregation still kept the unknown code.
    assert_eq!(t.get("ci_activity"), 1);
}

#[test]
fn transport_failure_aborts_the_whole_aggregation() {
    let items = vec![
        ok_record("mention"),
        ok_record("assign"),
        Err(BlockError::TransportError),
    ];
    match aggregate(&items) {
        Err(e) => assert_eq!(e, BlockError::TransportError),
        Ok(_) => panic!("aggregation must fail as a whole"),
    }
}

#[test]
fn failed_cycle_degrades_text_and_keeps_prior_total() {
    let mut g = Github::new(1, config(), Some("tok".to_string())).unwrap();
    let items = vec![ok_record("mention"), ok_record("mention")];
    let (proj, delay) = g.update(aggregate(&items));
    assert_eq!(delay, 30);
    let c = proj.unwrap();
    assert_eq!(c.total, 2);
    g.set_text("2".to_string());
    assert_eq!(g.view_text().map(|s| s.as_str()), Some("2"));

    let failed = vec![ok_record("mention"), Err(BlockError::TransportError)];
    let (proj, delay) = g.update(aggregate(&failed));
    assert_eq!(delay, 30);
    assert!(proj.is_none());
    // The fixed error indicator is shown, the cached total survives.
    assert_eq!(g.view_text().map(|s| s.as_str()), Some("x"));
    let more = vec![ok_record("assign")];
    let (proj, _) = g.update(aggregate(&more));
    assert_eq!(proj.unwrap().total, 1);
}

#[test]
fn hide_if_total_is_zero_hides_the_widget() {
    let mut c = config();
    c.hide_if_total_is_zero = true;
    let mut g = Github::new(7, c, Some("tok".to_string())).unwrap();
    assert_eq!(g.id(), 7);
    assert!(g.view_text().is_none());
    let items = vec![ok_record("mention")];
    let (_, _) = g.update(aggregate(&items));
    assert!(g.view_text().is_some());
}

#[test]
fn fetcher_starts_at_the_notifications_path() {
    let g = Github::new(2, config(), Some("tok".to_string())).unwrap();
    let mut f = g.fetcher();
    assert!(f.needs_page());
    match f.step() {
        github_block::fetch::Step::NeedsPage(url, auth) => {
            assert_eq!(url, "https://api.github.com/notifications");
            assert_eq!(auth, "Bearer tok");
        }
        _ => panic!("a fresh fetcher must request the first page"),
    }
}
