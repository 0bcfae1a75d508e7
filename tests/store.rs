use request_bin::headers::flatten_headers;
use request_bin::model::{bin_url, creation_message, entry_body, reply_status, time_text, EntryBody};
use request_bin::store::{is_expired, BinError, BinStore};

fn pairs(items: &[(&str, &str)]) -> Vec<(String, String)> {
    items.iter().map(|(k, v)| (k.to_string(), v.to_string())).collect()
}

#[test]
fn created_bin_exists_with_default_descriptor() {
    let mut store = BinStore::new();
    let id = store.create().expect("a fresh identifier");
    assert!(store.has_bin(&id));
    let detail = store.detail(&id).ok().expect("the bin exists");
    assert_eq!(detail.response.status, 200);
    assert_eq!(
        detail.response.body,
        format!("{{\"status\":\"captured_by_rust\",\"bin_id\":\"{}\"}}", id)
    );
    assert!(detail.recent_logs.is_empty());
    assert_eq!(detail.url, format!("/bin/{}", id));
}

#[test]
fn taken_identifier_is_refused() {
    let mut store = BinStore::new();
    assert!(store.create_with_id("abc".to_string(), 5));
    assert!(!store.create_with_id("abc".to_string(), 6));
    assert_eq!(store.list().len(), 1);
}

#[test]
fn capture_on_missing_bin_records_nothing() {
    let mut store = BinStore::new();
    let r = store.capture("nope", "GET".to_string(), &Vec::new(), String::new());
    assert!(matches!(r, Err(BinError::NotFound)));
    assert!(matches!(store.recent("nope", 10), Err(BinError::NotFound)));
    assert!(!store.has_bin("nope"));
}

#[test]
fn each_capture_adds_one_entry() {
    let mut store = BinStore::new();
    assert!(store.create_with_id("b".to_string(), 0));
    for t in 1..=3 {
        assert!(store.capture_at("b", "POST".to_string(), &Vec::new(), "x".to_string(), t).is_ok());
    }
    assert_eq!(store.recent("b", 10).ok().unwrap().len(), 3);
}

#[test]
fn recent_is_bounded_and_newest_first() {
    let mut store = BinStore::new();
    assert!(store.create_with_id("b".to_string(), 0));
    for t in 1..=5 {
        let r = store.capture_at("b", "GET".to_string(), &Vec::new(), format!("{}", t), t);
        assert!(r.is_ok());
    }
    let logs = store.recent("b", 2).ok().unwrap();
    assert_eq!(logs.len(), 2);
    assert_eq!(logs[0].millis, 5);
    assert_eq!(logs[1].millis, 4);
    assert_eq!(store.recent("b", 0).ok().unwrap().len(), 0);
}

#[test]
fn recent_of_empty_bin_is_empty() {
    let mut store = BinStore::new();
    assert!(store.create_with_id("b".to_string(), 0));
    assert!(store.recent("b", 10).ok().unwrap().is_empty());
}

#[test]
fn detail_shows_at_most_ten_entries() {
    let mut store = BinStore::new();
    assert!(store.create_with_id("b".to_string(), 0));
    for t in 1..=12 {
        assert!(store.capture_at("b", "GET".to_string(), &Vec::new(), String::new(), t).is_ok());
    }
    let detail = store.detail("b").ok().unwrap();
    assert_eq!(detail.recent_logs.len(), 10);
    assert_eq!(detail.recent_logs[0].millis, 12);
    assert_eq!(detail.recent_logs[9].millis, 3);
}

#[test]
fn update_then_capture_replies_with_update() {
    let mut store = BinStore::new();
    let id = store.create().unwrap();
    assert!(store.update(&id, 418, "{\"teapot\":true}".to_string()).is_ok());
    let (status, body) = store
        .capture(&id, "GET".to_string(), &Vec::new(), String::new())
        .ok()
        .unwrap();
    assert_eq!(status, 418);
    assert_eq!(body, "{\"teapot\":true}");
}

#[test]
fn update_on_missing_bin_is_not_found() {
    let mut store = BinStore::new();
    let r = store.update("nope", 201, "{}".to_string());
    assert!(matches!(r, Err(BinError::NotFound)));
    assert!(!store.has_bin("nope"));
}

#[test]
fn update_keeps_out_of_range_status() {
    let mut store = BinStore::new();
    assert!(store.create_with_id("b".to_string(), 0));
    assert!(store.update_at("b", 42, "{}".to_string(), 1).is_ok());
    let (status, _) = store.capture_at("b", "GET".to_string(), &Vec::new(), String::new(), 2).ok().unwrap();
    assert_eq!(status, 42);
    assert_eq!(reply_status(status), 200);
}

#[test]
fn listing_twice_gives_same_bins() {
    let mut store = BinStore::new();
    assert!(store.create_with_id("one".to_string(), 0));
    assert!(store.create_with_id("two".to_string(), 0));
    let mut first: Vec<String> = store.list().into_iter().map(|b| b.id).collect();
    let mut second: Vec<String> = store.list().into_iter().map(|b| b.id).collect();
    first.sort();
    second.sort();
    assert_eq!(first, vec!["one".to_string(), "two".to_string()]);
    assert_eq!(first, second);
}

#[test]
fn listing_shows_path_and_creation_time() {
    let mut store = BinStore::new();
    assert!(store.list().is_empty());
    assert!(store.create_with_id("abc".to_string(), 0));
    let infos = store.list();
    assert_eq!(infos.len(), 1);
    assert_eq!(infos[0].id, "abc");
    assert_eq!(infos[0].url, "/bin/abc");
    assert_eq!(infos[0].created, "1970-01-01T00:00:00+00:00");
}

#[test]
fn sweep_removes_old_keeps_new() {
    let mut store = BinStore::new();
    assert!(store.create_with_id("b".to_string(), 0));
    assert!(store.capture_at("b", "GET".to_string(), &Vec::new(), "old".to_string(), 1_000).is_ok());
    assert!(store.capture_at("b", "GET".to_string(), &Vec::new(), "new".to_string(), 9_000).is_ok());
    store.sweep_at(10_000, 5_000);
    assert!(store.has_bin("b"));
    let logs = store.recent("b", 10).ok().unwrap();
    assert_eq!(logs.len(), 1);
    assert_eq!(logs[0].millis, 9_000);
}

#[test]
fn sweep_prunes_empty_bins_only() {
    let mut store = BinStore::new();
    assert!(store.create_with_id("stale".to_string(), 0));
    assert!(store.create_with_id("busy".to_string(), 0));
    assert!(store.capture_at("busy", "GET".to_string(), &Vec::new(), String::new(), 9_000).is_ok());
    store.sweep_at(10_000, 5_000);
    assert!(!store.has_bin("stale"));
    assert!(store.has_bin("busy"));
    // the descriptor of "busy" aged out with the sweep
    let detail = store.detail("busy").ok().unwrap();
    assert_eq!(detail.response.status, 200);
    assert_eq!(detail.response.body, "{\"status\":\"ok\"}");
    let (status, body) = store.capture_at("busy", "GET".to_string(), &Vec::new(), String::new(), 10_001).ok().unwrap();
    assert_eq!(status, 200);
    assert_eq!(body, "{\"status\":\"ok\"}");
}

#[test]
fn fresh_bin_survives_sweep() {
    let mut store = BinStore::new();
    assert!(store.create_with_id("b".to_string(), 9_000));
    store.sweep_at(10_000, 5_000);
    assert!(store.has_bin("b"));
}

#[test]
fn expiry_is_strictly_past_threshold() {
    assert!(!is_expired(10, 5, 5));
    assert!(is_expired(11, 5, 5));
    assert!(!is_expired(i64::MIN, i64::MAX, 0));
    assert!(!is_expired(i64::MAX, i64::MIN, u64::MAX));
    assert!(is_expired(i64::MAX, i64::MIN, u64::MAX - 1));
}

#[test]
fn end_to_end_capture_shows_in_detail() {
    let mut store = BinStore::new();
    let id = store.create().unwrap();
    let headers = pairs(&[("x-test", "1")]);
    let reply = store.capture(&id, "GET".to_string(), &headers, "{\"a\":1}".to_string());
    assert!(reply.is_ok());
    let detail = store.detail(&id).ok().unwrap();
    assert_eq!(detail.recent_logs.len(), 1);
    let log = &detail.recent_logs[0];
    assert_eq!(log.method, "GET");
    assert_eq!(log.headers, pairs(&[("x-test", "1")]));
    assert!(matches!(&log.body, EntryBody::Json(t) if t == "{\"a\":1}"));
    assert_eq!(detail.response.status, 200);
    assert_eq!(
        detail.response.body,
        format!("{{\"status\":\"captured_by_rust\",\"bin_id\":\"{}\"}}", id)
    );
}

#[test]
fn end_to_end_update_changes_reply() {
    let mut store = BinStore::new();
    let id = store.create().unwrap();
    assert!(store.update(&id, 418, "{\"teapot\":true}".to_string()).is_ok());
    let reply = store.capture(&id, "POST".to_string(), &Vec::new(), "x".to_string());
    let (status, body) = reply.ok().unwrap();
    assert_eq!(reply_status(status), 418);
    assert_eq!(body, "{\"teapot\":true}");
}

#[test]
fn malformed_body_is_kept_as_text() {
    let mut store = BinStore::new();
    assert!(store.create_with_id("b".to_string(), 0));
    let r = store.capture_at("b", "POST".to_string(), &Vec::new(), "not json {".to_string(), 7);
    assert!(r.is_ok());
    let logs = store.recent("b", 10).ok().unwrap();
    assert!(matches!(&logs[0].body, EntryBody::Text(t) if t == "not json {"));
    assert_eq!(logs[0].timestamp, "1970-01-01T00:00:00.007+00:00");
}

#[test]
fn body_forms() {
    assert!(matches!(entry_body("[1,2]".to_string()), EntryBody::Json(_)));
    assert!(matches!(entry_body("\"s\"".to_string()), EntryBody::Json(_)));
    assert!(matches!(entry_body(String::new()), EntryBody::Text(t) if t.is_empty()));
}

#[test]
fn repeated_headers_keep_last_value() {
    let flat = flatten_headers(&pairs(&[("a", "1"), ("b", "2"), ("a", "3")]));
    assert_eq!(flat, pairs(&[("a", "3"), ("b", "2")]));
    assert!(flatten_headers(&Vec::new()).is_empty());
}

#[test]
fn status_clamping() {
    assert_eq!(reply_status(418), 418);
    assert_eq!(reply_status(100), 100);
    assert_eq!(reply_status(999), 999);
    assert_eq!(reply_status(99), 200);
    assert_eq!(reply_status(1000), 200);
    assert_eq!(reply_status(0), 200);
}

#[test]
fn texts() {
    assert_eq!(bin_url("x1"), "/bin/x1");
    assert_eq!(creation_message("x1"), "Bin ID: x1\nURL: /bin/x1");
    assert_eq!(time_text(0), "1970-01-01T00:00:00+00:00");
    assert_eq!(time_text(i64::MAX), "unknown");
    assert_eq!(time_text(i64::MIN), "unknown");
}

#[test]
fn quoted_identifier_is_escaped() {
    let c = request_bin::model::creation_config("a\"b");
    assert_eq!(c.body, "{\"status\":\"captured_by_rust\",\"bin_id\":\"a\\\"b\"}");
}

#[test]
fn control_characters_are_escaped() {
    let c = request_bin::model::creation_config("t\tn\n\u{1}\\");
    assert_eq!(
        c.body,
        "{\"status\":\"captured_by_rust\",\"bin_id\":\"t\\tn\\n\\u0001\\\\\"}"
    );
}

#[test]
fn sweep_two_bins_by_age() {
    let hour: i64 = 3_600_000;
    let now: i64 = 10 * hour;
    let mut store = BinStore::new();
    assert!(store.create_with_id("a".to_string(), now - 3 * hour));
    assert!(store.create_with_id("c".to_string(), now - 3 * hour));
    assert!(store.capture_at("a", "GET".to_string(), &Vec::new(), "old".to_string(), now - 3 * hour).is_ok());
    assert!(store.capture_at("a", "GET".to_string(), &Vec::new(), "new".to_string(), now - hour).is_ok());
    assert!(store.update_at("a", 201, "{}".to_string(), now - hour).is_ok());
    store.sweep_at(now, 2 * 3_600_000);
    assert!(!store.has_bin("c"));
    assert!(store.has_bin("a"));
    let detail = store.detail("a").ok().unwrap();
    assert_eq!(detail.recent_logs.len(), 1);
    assert_eq!(detail.recent_logs[0].millis, now - hour);
    assert_eq!(detail.response.status, 201);
    assert_eq!(store.list().len(), 1);
}

#[test]
fn restored_bin_without_descriptor_uses_fallback() {
    let mut store = BinStore::new();
    assert!(store.restore_bin("r".to_string(), 0));
    assert!(!store.restore_bin("r".to_string(), 1));
    assert!(store.has_bin("r"));
    let detail = store.detail("r").ok().unwrap();
    assert_eq!(detail.response.status, 200);
    assert_eq!(detail.response.body, "{\"status\":\"ok\"}");
    let (status, body) = store.capture_at("r", "GET".to_string(), &Vec::new(), String::new(), 5).ok().unwrap();
    assert_eq!(status, 200);
    assert_eq!(body, "{\"status\":\"ok\"}");
}

#[test]
fn update_keeps_creation_time() {
    let mut store = BinStore::new();
    assert!(store.create_with_id("b".to_string(), 0));
    assert!(store.update_at("b", 204, "{}".to_string(), 86_400_000).is_ok());
    assert_eq!(store.list()[0].created, "1970-01-01T00:00:00+00:00");
}

#[test]
fn time_text_at_range_edges() {
    assert_eq!(time_text(8_000_000_000_000_000).len() > 0, true);
    assert_ne!(time_text(8_000_000_000_000_000), "unknown");
    assert_ne!(time_text(-8_000_000_000_000_000), "unknown");
    assert_eq!(time_text(8_300_000_000_000_001), "unknown");
    assert_eq!(time_text(-8_400_000_000_000_001), "unknown");
}
