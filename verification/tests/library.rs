use jira_downloader::jira::{is_valid_issue_key, parse_issue_key, Attachment};
use jira_downloader::storage::{
    is_closed_status, parse_control_file, resolve_conflict, ControlFile, IncidentFolder,
    ScanEntry, StorageManager,
};
use jira_downloader::timestamp::{
    date_string, days_from_civil, epoch_millis, parse_timestamp, rfc3339_string, Timestamp,
};

fn ts(year: u16, month: u8, day: u8, hour: u8, minute: u8, second: u8, milli: u16) -> Timestamp {
    Timestamp { year, month, day, hour, minute, second, milli }
}

// ─── Issue keys ─────────────────────────────────────────────────────────

#[test]
fn bare_key_is_uppercased() {
    assert_eq!(parse_issue_key("proj-123").unwrap(), "PROJ-123");
    assert_eq!(parse_issue_key("  OPS-7 ").unwrap(), "OPS-7");
}

#[test]
fn browse_url_yields_key() {
    assert_eq!(
        parse_issue_key("https://x.atlassian.net/browse/OPS-42?x=1").unwrap(),
        "OPS-42"
    );
    assert_eq!(
        parse_issue_key("https://x.atlassian.net/issues/abc-9").unwrap(),
        "ABC-9"
    );
}

#[test]
fn invalid_inputs_yield_none() {
    assert!(parse_issue_key("not a key").is_none());
    assert!(parse_issue_key("").is_none());
    assert!(parse_issue_key("-123").is_none());
    assert!(parse_issue_key("ABC-").is_none());
    assert!(parse_issue_key("AB1-23").is_none());
    assert!(parse_issue_key("AB-2X").is_none());
    assert!(parse_issue_key("https://x.net/other/OPS-42").is_none());
}

#[test]
fn key_validity_shapes() {
    assert!(is_valid_issue_key("A-1"));
    assert!(is_valid_issue_key("proj-00123"));
    assert!(!is_valid_issue_key("A-1-2"));
    assert!(!is_valid_issue_key("A1"));
    assert!(!is_valid_issue_key("-"));
}

// ─── Timestamps ─────────────────────────────────────────────────────────

#[test]
fn three_encodings_one_instant() {
    let a = parse_timestamp("2024-01-15T10:30:00.000+0000").unwrap();
    let b = parse_timestamp("2024-01-15T10:30:00+00:00").unwrap();
    let c = parse_timestamp("2024-01-15T10:30:00+0000").unwrap();
    assert_eq!(a, b);
    assert_eq!(b, c);
    assert_eq!(a, ts(2024, 1, 15, 10, 30, 0, 0));
}

#[test]
fn offsets_fold_into_utc() {
    assert_eq!(
        parse_timestamp("2024-01-15T10:30:00+02:00").unwrap(),
        ts(2024, 1, 15, 8, 30, 0, 0)
    );
    assert_eq!(
        parse_timestamp("2024-01-15T01:00:00+0200").unwrap(),
        ts(2024, 1, 14, 23, 0, 0, 0)
    );
    assert_eq!(
        parse_timestamp("2024-12-31T23:30:00-0100").unwrap(),
        ts(2025, 1, 1, 0, 30, 0, 0)
    );
    assert_eq!(
        parse_timestamp("1970-01-01T00:00:00Z").unwrap(),
        ts(1970, 1, 1, 0, 0, 0, 0)
    );
}

#[test]
fn fractions_truncate_to_millis() {
    assert_eq!(
        parse_timestamp("2024-01-15T10:30:00.5+0000").unwrap(),
        ts(2024, 1, 15, 10, 30, 0, 500)
    );
    assert_eq!(
        parse_timestamp("2024-01-15T10:30:00.123456+0000").unwrap(),
        ts(2024, 1, 15, 10, 30, 0, 123)
    );
}

#[test]
fn malformed_timestamps_rejected() {
    assert!(parse_timestamp("2024-01-15").is_none());
    assert!(parse_timestamp("2024-01-15T10:30:00").is_none());
    assert!(parse_timestamp("2024-13-01T00:00:00Z").is_none());
    assert!(parse_timestamp("2024-02-30T00:00:00Z").is_none());
    assert!(parse_timestamp("2024-01-15T24:00:00Z").is_none());
    assert!(parse_timestamp("2024-01-15T10:30:00.Z").is_none());
    assert!(parse_timestamp("2024-01-15T10:30:00+25:00").is_none());
    assert!(parse_timestamp("2024-01-15T10:30:00Zx").is_none());
}

#[test]
fn leap_years_respected() {
    assert!(parse_timestamp("2024-02-29T00:00:00Z").is_some());
    assert!(parse_timestamp("2023-02-29T00:00:00Z").is_none());
    assert!(parse_timestamp("2000-02-29T00:00:00Z").is_some());
    assert!(parse_timestamp("1900-02-29T00:00:00Z").is_none());
}

#[test]
fn calendar_arithmetic_exact() {
    assert_eq!(days_from_civil(1970, 1, 1), 0);
    assert_eq!(days_from_civil(1970, 1, 2), 1);
    assert_eq!(days_from_civil(1969, 12, 31), -1);
    assert_eq!(days_from_civil(2000, 3, 1), 11017);
    let t = ts(2024, 1, 15, 10, 30, 0, 0);
    assert_eq!(epoch_millis(&t), 1705314600000);
}

#[test]
fn date_and_rfc3339_rendering() {
    let t = ts(2024, 1, 5, 9, 3, 7, 42);
    assert_eq!(date_string(&t), "2024-01-05");
    assert_eq!(rfc3339_string(&t), "2024-01-05T09:03:07.042Z");
    assert_eq!(parse_timestamp(&rfc3339_string(&t)).unwrap(), t);
    let e = ts(1970, 1, 1, 0, 0, 0, 0);
    assert_eq!(date_string(&e), "1970-01-01");
}

// ─── Storage paths and collision resolution ─────────────────────────────

fn attachment(filename: &str, created: Timestamp) -> Attachment {
    Attachment {
        id: "10001".to_string(),
        filename: filename.to_string(),
        size: 123,
        created,
        content: "https://x.net/content/10001".to_string(),
        mime_type: "application/pdf".to_string(),
    }
}

#[test]
fn layout_paths_exact() {
    let st = StorageManager::new("/base".to_string());
    assert_eq!(st.issue_dir("OPS-1"), "/base/OPS-1");
    assert_eq!(st.control_file_path("OPS-1"), "/base/OPS-1/.jira_control.json");
    let a = attachment("report.pdf", ts(2024, 1, 15, 10, 30, 0, 0));
    assert_eq!(
        st.attachment_path("OPS-1", &a),
        "/base/OPS-1/2024-01-15/report.pdf"
    );
}

#[test]
fn attachment_existence_is_exact_path() {
    let st = StorageManager::new("/base".to_string());
    let a = attachment("report.pdf", ts(2024, 1, 15, 10, 30, 0, 0));
    let listing = vec![
        "/base/OPS-1/2024-01-15/report.pdf".to_string(),
        "/base/OPS-1/2024-01-16/report.pdf".to_string(),
    ];
    assert!(st.attachment_exists("OPS-1", &a, &listing));
    // Same name, other date: a different path, so not found.
    let b = attachment("report.pdf", ts(2024, 1, 17, 0, 0, 0, 0));
    assert!(!st.attachment_exists("OPS-1", &b, &listing));
    // Content is never consulted: only the path decides.
    assert!(!st.attachment_exists("OPS-2", &a, &listing));
}

#[test]
fn collision_appends_counter() {
    let existing = vec!["report.pdf".to_string(), "report_2.pdf".to_string()];
    assert_eq!(resolve_conflict(&existing, "report.pdf"), "report_3.pdf");
}

#[test]
fn collision_free_name_kept() {
    let existing = vec!["other.pdf".to_string()];
    assert_eq!(resolve_conflict(&existing, "report.pdf"), "report.pdf");
}

#[test]
fn collision_never_returns_existing() {
    let mut existing: Vec<String> = vec!["data".to_string()];
    for k in 2..12u32 {
        existing.push(format!("data_{k}"));
    }
    let r = resolve_conflict(&existing, "data");
    assert_eq!(r, "data_12");
    assert!(!existing.contains(&r));
}

#[test]
fn collision_respects_extension() {
    let existing = vec![
        "archive.tar.gz".to_string(),
        "archive.tar_2.gz".to_string(),
        "noext".to_string(),
    ];
    assert_eq!(resolve_conflict(&existing, "archive.tar.gz"), "archive.tar_3.gz");
    assert_eq!(resolve_conflict(&existing, "noext"), "noext_2");
}

// ─── Status classification ──────────────────────────────────────────────

fn control(status: &str) -> ControlFile {
    ControlFile::new("OPS-1", "summary", status)
}

#[test]
fn closed_statuses() {
    assert!(control("Done").is_closed());
    assert!(control("Closed").is_closed());
    assert!(control("Resolved").is_closed());
    assert!(control("Pending Closure").is_closed());
}

#[test]
fn open_statuses() {
    assert!(!control("In Progress").is_closed());
    assert!(!control("Open").is_closed());
    assert!(!control("Backlog").is_closed());
}

#[test]
fn classifier_on_lowered_text() {
    assert!(is_closed_status("done"));
    assert!(is_closed_status("auto-closed"));
    assert!(is_closed_status("will resolve soon"));
    assert!(!is_closed_status("to do"));
}

#[test]
fn record_status_sets_mark() {
    let mut c = control("Open");
    assert!(!c.marked_for_deletion);
    c.record_status("Closed".to_string());
    assert_eq!(c.issue_status, "Closed");
    assert!(c.marked_for_deletion);
    c.record_status("Reopened".to_string());
    assert!(!c.marked_for_deletion);
}

#[test]
fn fresh_control_record() {
    let c = control("Open");
    assert_eq!(c.issue_key, "OPS-1");
    assert_eq!(c.issue_summary, "summary");
    assert!(!c.marked_for_deletion);
    assert!(c.last_checked.year >= 2020 && c.last_checked.year <= 9999);
}

// ─── Control record serialization ───────────────────────────────────────

#[test]
fn control_round_trip() {
    let c = ControlFile {
        issue_key: "OPS-1".to_string(),
        issue_summary: "a \"quoted\"\nsummary\\with specials\t".to_string(),
        issue_status: "In Progress".to_string(),
        last_checked: ts(2024, 1, 15, 10, 30, 0, 123),
        marked_for_deletion: true,
    };
    let text = jira_downloader::storage::control_file_json(&c);
    let back = parse_control_file(&text).unwrap();
    assert_eq!(back.issue_key, c.issue_key);
    assert_eq!(back.issue_summary, c.issue_summary);
    assert_eq!(back.issue_status, c.issue_status);
    assert_eq!(back.last_checked, c.last_checked);
    assert_eq!(back.marked_for_deletion, c.marked_for_deletion);
}

#[test]
fn control_json_exact() {
    let c = ControlFile {
        issue_key: "OPS-1".to_string(),
        issue_summary: "s".to_string(),
        issue_status: "Open".to_string(),
        last_checked: ts(2024, 1, 15, 10, 30, 0, 0),
        marked_for_deletion: false,
    };
    assert_eq!(
        jira_downloader::storage::control_file_json(&c),
        "{\"issue_key\":\"OPS-1\",\"issue_summary\":\"s\",\"issue_status\":\"Open\",\
         \"last_checked\":\"2024-01-15T10:30:00.000Z\",\"marked_for_deletion\":false}"
    );
}

#[test]
fn control_parse_rejects_missing_fields() {
    assert!(parse_control_file("{}").is_none());
    assert!(parse_control_file("not json").is_none());
    assert!(parse_control_file(
        "{\"issue_key\":\"K-1\",\"issue_summary\":\"s\",\"issue_status\":\"Open\",\
         \"last_checked\":\"nonsense\",\"marked_for_deletion\":false}"
    )
    .is_none());
}

// ─── Incident scan ──────────────────────────────────────────────────────

fn scan_entry(path: &str, key: Option<&str>, size: u64) -> ScanEntry {
    let control_data = key.map(|k| {
        format!(
            "{{\"issue_key\":\"{k}\",\"issue_summary\":\"s\",\"issue_status\":\"Open\",\
             \"last_checked\":\"2024-01-15T10:30:00.000Z\",\"marked_for_deletion\":false}}"
        )
    });
    ScanEntry { path: path.to_string(), control_data, folder_size: size }
}

#[test]
fn scan_excludes_and_sorts() {
    let st = StorageManager::new("/base".to_string());
    let entries = vec![
        scan_entry("/base/ZZZ-9", Some("ZZZ-9"), 10),
        scan_entry("/base/plain", None, 5),
        scan_entry("/base/AAA-1", Some("AAA-1"), 20),
        scan_entry("/base/broken", Some("broken-but-unparsed"), 7),
        scan_entry("/base/MID-5", Some("MID-5"), 30),
    ];
    let r = st.scan_incidents(&entries);
    let keys: Vec<&str> = r.iter().map(|f| f.control.issue_key.as_str()).collect();
    assert_eq!(keys, vec!["AAA-1", "MID-5", "ZZZ-9", "broken-but-unparsed"]);
    assert_eq!(r[0].folder_size, 20);
    assert_eq!(r[0].path, "/base/AAA-1");
}

#[test]
fn scan_without_control_is_empty() {
    let st = StorageManager::new("/base".to_string());
    let entries = vec![scan_entry("/base/a", None, 1), scan_entry("/base/b", None, 2)];
    assert!(st.scan_incidents(&entries).is_empty());
}

#[test]
fn latest_date_folder_picks_greatest() {
    let st = StorageManager::new("/base".to_string());
    let names = vec![
        "2024-01-15".to_string(),
        "notes".to_string(),
        "2024-02-01".to_string(),
        "2023-12-31".to_string(),
        "2024-2-1".to_string(),
    ];
    assert_eq!(st.latest_date_folder("OPS-1", &names), "/base/OPS-1/2024-02-01");
    let none: Vec<String> = vec!["files".to_string()];
    assert_eq!(st.latest_date_folder("OPS-1", &none), "/base/OPS-1");
}

#[test]
fn marked_keys_selection() {
    let mk = |key: &str, status: &str, marked: bool| IncidentFolder {
        path: format!("/base/{key}"),
        control: ControlFile {
            issue_key: key.to_string(),
            issue_summary: "s".to_string(),
            issue_status: status.to_string(),
            last_checked: ts(2024, 1, 1, 0, 0, 0, 0),
            marked_for_deletion: marked,
        },
        folder_size: 0,
    };
    let incidents = vec![
        mk("A-1", "Open", false),
        mk("B-2", "Done", false),
        mk("C-3", "Open", true),
    ];
    let keys = jira_downloader::storage::keys_marked_for_deletion(&incidents);
    assert_eq!(keys, vec!["B-2".to_string(), "C-3".to_string()]);
}
