use github_block::links::parse_links_header;

#[test]
fn it_parses_links_header() {
    let lm = parse_links_header(
        r#"Link: <https://api.github.com/notifications?page=1>; rel="prev", <https://api.github.com/notifications?page=3>; rel="next", <https://api.github.com/notifications?page=4>; rel="last", <https://api.github.com/notifications?page=1>; rel="first""#,
    );
    assert_eq!(
        lm.get("first").as_deref(),
        Some("https://api.github.com/notifications?page=1")
    );
    assert_eq!(
        lm.get("prev").as_deref(),
        Some("https://api.github.com/notifications?page=1")
    );
    assert_eq!(
        lm.get("next").as_deref(),
        Some("https://api.github.com/notifications?page=3")
    );
    assert_eq!(
        lm.get("last").as_deref(),
        Some("https://api.github.com/notifications?page=4")
    );
    assert_eq!(lm.get("self"), None);
}

#[test]
fn last_occurrence_wins_on_duplicate_relation() {
    let lm = parse_links_header(
        r#"<https://example.com/a>; rel="next", <https://example.com/b>; rel="next""#,
    );
    assert_eq!(lm.get("next").as_deref(), Some("https://example.com/b"));
}

#[test]
fn malformed_entries_are_dropped_without_aborting() {
    // First entry lacks a rel, second has whitespace in the URL, third is fine.
    let lm = parse_links_header(
        r#"<https://example.com/x>, <https://exa mple.com/y>; rel="prev", <https://example.com/z>; rel="last""#,
    );
    assert_eq!(lm.get("prev"), None);
    assert_eq!(lm.get("last").as_deref(), Some("https://example.com/z"));
}

#[test]
fn no_match_yields_empty_mapping() {
    let lm = parse_links_header("no links here");
    assert_eq!(lm.get("next"), None);
    assert_eq!(lm.get("prev"), None);
}

#[test]
fn url_must_use_http_scheme() {
    let lm = parse_links_header(r#"<ftp://example.com/a>; rel="next""#);
    assert_eq!(lm.get("next"), None);
    let lm = parse_links_header(r#"<http://example.com/a>; rel="next""#);
    assert_eq!(lm.get("next").as_deref(), Some("http://example.com/a"));
}
