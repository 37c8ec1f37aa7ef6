use jira_downloader::config::AppConfig;
use jira_downloader::downloader::{
    apply_outcome, begin_download, format_duration, format_size, make_download_items,
    record_progress, run_all, should_start, start_plan, DownloadItem, FileState,
};
use jira_downloader::jira::{
    check_html_response, issue_step, Attachment, HttpResponse, JiraClient, StepResult,
};
use jira_downloader::timestamp::Timestamp;

fn config(url: &str) -> AppConfig {
    AppConfig::new(
        url.to_string(),
        "a".to_string(),
        "b".to_string(),
        "/downloads".to_string(),
    )
}

fn resp(status: u16, content_type: &str, body: &str) -> HttpResponse {
    HttpResponse {
        status,
        content_type: content_type.to_string(),
        body: body.to_string(),
    }
}

fn issue_body() -> String {
    "{\"key\":\"OPS-42\",\"fields\":{\"summary\":\"Printer on fire\",\
     \"status\":{\"name\":\"Open\"},\"attachment\":[\
     {\"id\":\"1\",\"filename\":\"report.pdf\",\"size\":2048,\
      \"created\":\"2024-01-15T10:30:00.000+0000\",\
      \"content\":\"https://x.net/content/1\",\"mimeType\":\"application/pdf\"},\
     {\"id\":\"2\",\"filename\":\"log.txt\"}]}}"
        .to_string()
}

// ─── Connection and URLs ────────────────────────────────────────────────

#[test]
fn base_url_keeps_scheme_host_port_and_context_path() {
    assert_eq!(
        JiraClient::new(config("https://x.atlassian.net/")).base_url(),
        "https://x.atlassian.net"
    );
    assert_eq!(
        JiraClient::new(config("http://host:8080/jira/")).base_url(),
        "http://host:8080/jira"
    );
    assert_eq!(
        JiraClient::new(config("https://x.net/a/b//")).base_url(),
        "https://x.net/a/b"
    );
    assert_eq!(JiraClient::new(config("notaurl")).base_url(), "notaurl");
}

#[test]
fn auth_header_is_basic_base64() {
    let c = JiraClient::new(config("https://x.net"));
    assert_eq!(c.auth_header(), "Basic YTpi");
}

#[test]
fn request_urls_exact() {
    let c = JiraClient::new(config("https://x.net"));
    assert_eq!(c.myself_url("3"), "https://x.net/rest/api/3/myself");
    assert_eq!(
        c.issue_url("2", "OPS-42"),
        "https://x.net/rest/api/2/issue/OPS-42?fields=summary,status,attachment"
    );
    assert_eq!(
        c.status_url("3", "OPS-42"),
        "https://x.net/rest/api/3/issue/OPS-42?fields=status"
    );
    assert_eq!(
        c.search_url("rest/api/3/search/jql"),
        "https://x.net/rest/api/3/search/jql?jql=assignee+%3D+currentUser%28%29+AND+\
         statusCategory+%21%3D+Done+ORDER+BY+updated+DESC&fields=summary,status&maxResults=100"
    );
}

#[test]
fn html_page_is_detected() {
    let m = check_html_response(302, "text/html; charset=utf-8", "", "https://u").unwrap();
    assert!(m.contains("Got an HTML page instead of JSON (status: 302)"));
    assert!(m.contains("URL called: https://u"));
    let m2 = check_html_response(200, "application/octet-stream", "  <!doctype html>", "u");
    assert!(m2.is_some());
    let m3 = check_html_response(200, "application/json", "{}", "u");
    assert!(m3.is_none());
}

#[test]
fn connection_falls_back_then_fails() {
    let c = JiraClient::new(config("https://x.net"));
    let unauth = resp(401, "application/json", "{}");
    let err = c.test_connection_outcome(&unauth, &unauth).unwrap_err();
    assert!(err.starts_with("Authentication failed."));
    assert!(err.contains("https://x.net"));
}

#[test]
fn connection_succeeds_with_display_name() {
    let c = JiraClient::new(config("https://x.net"));
    let ok3 = resp(200, "application/json", "{\"displayName\":\"Ada\"}");
    let unused = resp(500, "", "");
    assert_eq!(
        c.test_connection_outcome(&ok3, &unused).unwrap(),
        "Connected as: Ada (API v3)"
    );
    let v2 = resp(404, "application/json", "");
    let ok2 = resp(200, "application/json", "{}");
    assert_eq!(
        c.test_connection_outcome(&v2, &ok2).unwrap(),
        "Connected as: unknown (API v2)"
    );
}

// ─── Issue fetch and version fallback ───────────────────────────────────

#[test]
fn version_fallback_succeeds_silently() {
    let c = JiraClient::new(config("https://x.net"));
    let v3 = resp(404, "application/json", "not found");
    let v2 = resp(200, "application/json", &issue_body());
    let info = c.fetch_issue_outcome("OPS-42", &v3, &v2).unwrap();
    assert_eq!(info.key, "OPS-42");
    assert_eq!(info.summary, "Printer on fire");
    assert_eq!(info.status, "Open");
    assert_eq!(info.attachments.len(), 2);
    assert_eq!(info.attachments[0].filename, "report.pdf");
    assert_eq!(info.attachments[0].size, 2048);
    assert_eq!(
        info.attachments[0].created,
        Timestamp { year: 2024, month: 1, day: 15, hour: 10, minute: 30, second: 0, milli: 0 }
    );
    // Defaults: missing size, created, content, mimeType.
    assert_eq!(info.attachments[1].size, 0);
    assert_eq!(
        info.attachments[1].created,
        Timestamp { year: 1970, month: 1, day: 1, hour: 0, minute: 0, second: 0, milli: 0 }
    );
    assert_eq!(info.attachments[1].content, "");
    assert_eq!(info.attachments[1].mime_type, "");
}

#[test]
fn issue_step_decisions() {
    let st = issue_step(&resp(404, "application/json", ""), "u", "3", false);
    assert!(matches!(st, StepResult::TryNext));
    let st = issue_step(&resp(404, "application/json", "gone"), "u", "2", true);
    match st {
        StepResult::Fail(m) => {
            assert!(m.starts_with("HTTP 404"));
            assert!(m.contains("gone"));
        }
        _ => panic!("a 404 on the last version must be terminal"),
    }
    let st = issue_step(&resp(500, "application/json", "boom"), "u", "3", false);
    assert!(matches!(st, StepResult::Fail(_)));
    let st = issue_step(&resp(200, "text/html", "<html>"), "u", "3", false);
    match st {
        StepResult::Fail(m) => assert!(m.contains("Got an HTML page")),
        _ => panic!("an HTML page must be terminal"),
    }
    let st = issue_step(&resp(200, "application/json", "{\"nope\":1}"), "u", "3", false);
    match st {
        StepResult::Fail(m) => assert!(m.starts_with("Failed to parse response (API v3)")),
        _ => panic!("a malformed issue must fail"),
    }
}

#[test]
fn issue_parse_fails_on_bad_attachment_date() {
    let c = JiraClient::new(config("https://x.net"));
    let body = "{\"key\":\"K-1\",\"fields\":{\"status\":{\"name\":\"Open\"},\
                \"attachment\":[{\"id\":\"1\",\"filename\":\"f\",\"created\":\"garbage\"}]}}";
    let v3 = resp(200, "application/json", body);
    let unused = resp(500, "", "");
    assert!(c.fetch_issue_outcome("K-1", &v3, &unused).is_err());
}

#[test]
fn status_fetch_falls_back() {
    let c = JiraClient::new(config("https://x.net"));
    let v3 = resp(404, "application/json", "");
    let v2 = resp(
        200,
        "application/json",
        "{\"key\":\"K-1\",\"fields\":{\"status\":{\"name\":\"Resolved\"}}}",
    );
    assert_eq!(c.fetch_issue_status_outcome("K-1", &v3, &v2).unwrap(), "Resolved");
    let bad = resp(503, "application/json", "overloaded");
    let err = c.fetch_issue_status_outcome("K-1", &v3, &bad).unwrap_err();
    assert_eq!(err, "HTTP 503: overloaded");
}

#[test]
fn search_falls_back_on_gone() {
    let c = JiraClient::new(config("https://x.net"));
    let modern = resp(410, "application/json", "");
    let legacy = resp(
        200,
        "application/json",
        "{\"issues\":[{\"key\":\"B-2\",\"fields\":{\"summary\":\"two\",\
         \"status\":{\"name\":\"Open\"}}},{\"key\":\"A-1\",\"fields\":{\
         \"status\":{\"name\":\"Done\"}}}]}",
    );
    let l = c.fetch_my_issues_outcome(&modern, &legacy).unwrap();
    // Server order is kept: no client-side re-sort.
    assert_eq!(l.len(), 2);
    assert_eq!(l[0].key, "B-2");
    assert_eq!(l[0].summary, "two");
    assert_eq!(l[1].key, "A-1");
    assert_eq!(l[1].summary, "");
    assert_eq!(l[1].status, "Done");
}

#[test]
fn search_parse_failure_reported() {
    let c = JiraClient::new(config("https://x.net"));
    let modern = resp(200, "application/json", "{\"issues\":[{\"fields\":{}}]}");
    let unused = resp(500, "", "");
    let err = c.fetch_my_issues_outcome(&modern, &unused).unwrap_err();
    assert!(err.starts_with("Failed to parse search response"));
}

// ─── Download state machine ─────────────────────────────────────────────

fn att(name: &str) -> Attachment {
    Attachment {
        id: "1".to_string(),
        filename: name.to_string(),
        size: 100,
        created: Timestamp { year: 2024, month: 1, day: 15, hour: 0, minute: 0, second: 0, milli: 0 },
        content: "https://x.net/c/1".to_string(),
        mime_type: "".to_string(),
    }
}

#[test]
fn item_creation_marks_on_disk() {
    let attachments = vec![att("a.txt"), att("b.txt")];
    let items = make_download_items(&attachments, &vec![false, true]);
    assert!(matches!(items[0].state, FileState::Pending));
    assert!(items[0].selected);
    assert!(matches!(items[1].state, FileState::AlreadyOnDisk));
    assert!(!items[1].selected);
    assert_eq!(items[1].attachment.filename, "b.txt");
}

#[test]
fn selection_rules() {
    let mut item = DownloadItem::new(att("a.txt"));
    assert!(should_start(&item));
    item.selected = false;
    assert!(!should_start(&item));
    item.selected = true;
    item.state = FileState::AlreadyOnDisk;
    assert!(!should_start(&item));
    item.state = FileState::Downloading { downloaded: 1, total: 2 };
    assert!(!should_start(&item));
    item.state = FileState::Error("x".to_string());
    assert!(should_start(&item));
    item.state = FileState::Done;
    assert!(should_start(&item));
}

#[test]
fn plan_lists_started_indices() {
    let attachments = vec![att("a"), att("b"), att("c")];
    let mut items = make_download_items(&attachments, &vec![false, true, false]);
    items[2].selected = false;
    let plan = start_plan(&items);
    assert_eq!(plan, vec![0]);
}

#[test]
fn transitions_exact() {
    let mut item = DownloadItem::new(att("a.txt"));
    begin_download(&mut item);
    assert!(matches!(
        item.state,
        FileState::Downloading { downloaded: 0, total: 100 }
    ));
    record_progress(&mut item, 50, 200);
    assert!(matches!(
        item.state,
        FileState::Downloading { downloaded: 50, total: 200 }
    ));
    apply_outcome(&mut item, &Ok(()));
    assert!(matches!(item.state, FileState::Done));
    apply_outcome(&mut item, &Err("disk full".to_string()));
    match &item.state {
        FileState::Error(e) => assert_eq!(e, "disk full"),
        _ => panic!("an error outcome must leave an error state"),
    }
}

#[test]
fn run_leaves_no_item_pending_or_downloading() {
    let attachments = vec![att("a"), att("b"), att("c"), att("d")];
    let mut items = make_download_items(&attachments, &vec![false, true, false, false]);
    items[3].selected = false;
    let outcomes = vec![Ok(()), Ok(()), Err("network".to_string()), Ok(())];
    run_all(&mut items, &outcomes);
    // Started items end Done or Error according to their outcome.
    assert!(matches!(items[0].state, FileState::Done));
    assert!(matches!(items[2].state, FileState::Error(_)));
    // The on-disk item is untouched; the unselected one stays pending.
    assert!(matches!(items[1].state, FileState::AlreadyOnDisk));
    assert!(matches!(items[3].state, FileState::Pending));
    for item in &items {
        if item.selected {
            assert!(!matches!(item.state, FileState::Pending));
            assert!(!matches!(item.state, FileState::Downloading { .. }));
        }
    }
}

// ─── Display strings ────────────────────────────────────────────────────

#[test]
fn labels_exact() {
    assert_eq!(FileState::Pending.label(), "Pending");
    assert_eq!(
        FileState::Downloading { downloaded: 50, total: 200 }.label(),
        "25%"
    );
    assert_eq!(
        FileState::Downloading { downloaded: 1234, total: 0 }.label(),
        "1234 B"
    );
    assert_eq!(FileState::Done.label(), "Done ✓");
    assert_eq!(FileState::AlreadyOnDisk.label(), "On disk ✓");
    assert_eq!(FileState::Error("boom".to_string()).label(), "Error: boom");
}

#[test]
fn sizes_exact() {
    assert_eq!(format_size(0), "0 B");
    assert_eq!(format_size(1023), "1023 B");
    assert_eq!(format_size(1024), "1.0 KB");
    assert_eq!(format_size(1536), "1.5 KB");
    assert_eq!(format_size(1048576), "1.0 MB");
    assert_eq!(format_size(5452595), "5.2 MB");
    assert_eq!(format_size(1073741824), "1.0 GB");
    assert_eq!(format_size(1610612736), "1.5 GB");
}

#[test]
fn durations_exact() {
    assert_eq!(format_duration(0), "0s ago");
    assert_eq!(format_duration(59), "59s ago");
    assert_eq!(format_duration(60), "1m ago");
    assert_eq!(format_duration(3599), "59m ago");
    assert_eq!(format_duration(3600), "1h ago");
    assert_eq!(format_duration(86399), "23h ago");
    assert_eq!(format_duration(86400), "1d ago");
    assert_eq!(format_duration(864000), "10d ago");
}
