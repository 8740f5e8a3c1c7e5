use rstify::error::CoreError;
use rstify::migrate::pending_migrations;
use rstify::outgoing::{
    i64_to_string, plan_outgoing_request, render_body_template, replace_all, should_retry,
    OutgoingMethod,
};
use rstify::pipeline::{
    check_message_delete, check_user_delete, check_webhook_enabled, content_disposition,
    validate_application_name, validate_icon,
};
use rstify::ratelimit::client_key;
use rstify::ratelimit::RateLimiter;
use rstify::sanitize::{sanitize_filename, storage_filename};
use rstify::store::{MessageStore, NewMessage, PageScope};

fn plain_message(text: &str) -> NewMessage {
    NewMessage {
        application_id: None,
        topic_id: Some(1),
        user_id: Some(1),
        title: None,
        message: text.to_string(),
        priority: 5,
        tags: None,
        click_url: None,
        icon_url: None,
        actions: None,
        extras: None,
        content_type: None,
        scheduled_for: None,
    }
}

#[test]
fn test_rate_limit_burst() {
    // defaults: burst 60, 10 tokens per second; 61 requests within the same
    // millisecond admit exactly 60 and reject 1
    let mut limiter = RateLimiter::new(60, 10_000);
    let mut admitted = 0;
    let mut rejected = 0;
    for _ in 0..61 {
        if limiter.check_at("10.0.0.1", 5_000) {
            admitted += 1;
        } else {
            rejected += 1;
        }
    }
    assert_eq!(admitted, 60);
    assert_eq!(rejected, 1);
}

#[test]
fn test_rate_limit_refill() {
    let mut limiter = RateLimiter::new(60, 10_000);
    for _ in 0..60 {
        assert!(limiter.check_at("k", 1_000));
    }
    assert!(!limiter.check_at("k", 1_000));
    // 100 ms at 10 tokens/s refills exactly one token
    assert!(limiter.check_at("k", 1_100));
    assert!(!limiter.check_at("k", 1_100));
}

#[test]
fn test_rate_limit_keys_are_independent() {
    let mut limiter = RateLimiter::new(1, 1_000);
    assert!(limiter.check_at("a", 0));
    assert!(!limiter.check_at("a", 0));
    assert!(limiter.check_at("b", 0));
}

#[test]
fn test_rate_limit_cleanup_keeps_drained_buckets() {
    let mut limiter = RateLimiter::new(2, 1_000);
    assert!(limiter.check_at("a", 0));
    limiter.cleanup_at(0);
    // "a" is not yet full again, so its bucket survives the sweep
    assert!(limiter.check_at("a", 0));
    assert!(!limiter.check_at("a", 0));
    // after enough time the sweep drops it, and it starts full again
    limiter.cleanup_at(10_000);
    assert!(limiter.check_at("a", 10_000));
}

#[test]
fn test_delete_twice_is_not_found() {
    let mut store = MessageStore::new();
    let now = "2024-06-01 00:00:00".to_string();
    let row = store.create(plain_message("x"), &now);
    assert!(store.delete_by_id(row.id).is_ok());
    let err = store.delete_by_id(row.id).unwrap_err();
    assert!(matches!(err, CoreError::NotFound(_)));
}

#[test]
fn test_message_expiry() {
    let mut store = MessageStore::new();
    let now = "2024-06-01 00:00:00".to_string();
    let row = store.create(plain_message("old"), &now);
    store.create(plain_message("keeper"), &now);
    store.set_expires_at(row.id, &"2024-06-01 01:00:00".to_string()).unwrap();
    assert_eq!(store.delete_expired("2024-06-01 00:30:00"), 0);
    assert_eq!(store.delete_expired("2024-06-01 01:00:00"), 1);
    assert!(store.find_by_id(row.id).is_none());
    assert_eq!(store.count(), 1);
}

#[test]
fn test_paging_is_newest_first_and_clamped() {
    let mut store = MessageStore::new();
    let now = "2024-06-01 00:00:00".to_string();
    for i in 0..5 {
        store.create(plain_message(&format!("m{}", i)), &now);
    }
    let page = store.page(&PageScope::Topic(1), 0, 3);
    assert_eq!(page.len(), 3);
    assert_eq!(page[0].message, "m4");
    assert_eq!(page[1].message, "m3");
    assert_eq!(page[2].message, "m2");
    let after = store.page(&PageScope::Topic(1), 3, 100);
    assert_eq!(after.len(), 2);
    assert_eq!(after[0].message, "m4");
}

#[test]
fn test_delete_all_for_user() {
    let mut store = MessageStore::new();
    let now = "2024-06-01 00:00:00".to_string();
    let mut app_msg = plain_message("mine-by-app");
    app_msg.topic_id = None;
    app_msg.application_id = Some(7);
    app_msg.user_id = None;
    store.create(app_msg, &now);
    store.create(plain_message("mine-by-topic"), &now);
    let mut other = plain_message("someone-else");
    other.user_id = Some(2);
    store.create(other, &now);
    store.delete_all_for_user(1, &vec![7]);
    assert_eq!(store.count(), 1);
}

#[test]
fn test_count_since() {
    let mut store = MessageStore::new();
    store.create(plain_message("a"), &"2024-06-01 00:00:00".to_string());
    store.create(plain_message("b"), &"2024-06-02 00:00:00".to_string());
    assert_eq!(store.count_since("2024-06-01 12:00:00"), 1);
    assert_eq!(store.count_since("2024-05-01 00:00:00"), 2);
}

#[test]
fn test_attachment_round_trip_with_sanitization() {
    // the traversal attempt keeps only the base name; the storage name gets
    // a 36-character opaque prefix
    let name = sanitize_filename("../etc/passwd");
    assert_eq!(name, "passwd");
    assert!(!name.is_empty() && name != "." && name != "..");
    assert!(!name.contains('/') && !name.contains('\\'));
    let stored = storage_filename(&name);
    assert_eq!(stored.len(), 37 + name.len());
    assert_eq!(stored.as_bytes()[36], b'_');
    assert!(stored.ends_with("passwd"));
    assert_eq!(
        content_disposition(&name),
        "attachment; filename=\"passwd\"",
    );
}

#[test]
fn test_sanitize_fallback_mints_a_name() {
    let fresh = sanitize_filename("../..//");
    assert_eq!(fresh.len(), 40);
    assert!(fresh.ends_with(".bin"));
    let dots = sanitize_filename("..");
    assert_ne!(dots, "..");
    assert!(!dots.is_empty());
    // unsafe characters are stripped, not replaced
    assert_eq!(sanitize_filename("a b*c.txt"), "abc.txt");
}

#[test]
fn test_scheduled_claim_is_ordered() {
    // three scheduled rows, due moments out of id order: the sweep returns
    // them ordered by scheduled moment, then id
    let mut store = MessageStore::new();
    let now = "2024-06-01 00:00:00".to_string();
    let mut late = plain_message("late");
    late.scheduled_for = Some("2024-06-01 02:00:00".to_string());
    let mut early = plain_message("early");
    early.scheduled_for = Some("2024-06-01 01:00:00".to_string());
    let mut tied = plain_message("tied");
    tied.scheduled_for = Some("2024-06-01 01:00:00".to_string());
    store.create(late, &now);
    store.create(early, &now);
    store.create(tied, &now);
    let claimed = store.claim_due(&"2024-06-01 03:00:00".to_string());
    let texts: Vec<&str> = claimed.iter().map(|m| m.message.as_str()).collect();
    assert_eq!(texts, vec!["early", "tied", "late"]);
}

#[test]
fn test_handler_refusals() {
    // user deletion: admin only, never the own account
    assert!(check_user_delete(true, 1, 2).is_ok());
    assert!(matches!(check_user_delete(false, 1, 2).unwrap_err(), CoreError::Forbidden(_)));
    assert!(matches!(check_user_delete(true, 1, 1).unwrap_err(), CoreError::Validation(_)));
    // message deletion: admin, app owner, or attributed user
    assert!(check_message_delete(1, true, None, None, None).is_ok());
    assert!(check_message_delete(4, false, Some(9), Some(4), None).is_ok());
    assert!(check_message_delete(5, false, Some(9), Some(4), None).is_err());
    assert!(check_message_delete(7, false, None, None, Some(7)).is_ok());
    assert!(check_message_delete(8, false, None, None, Some(7)).is_err());
    // a disabled webhook sink refuses
    assert!(check_webhook_enabled(true).is_ok());
    assert!(matches!(check_webhook_enabled(false).unwrap_err(), CoreError::Forbidden(_)));
    // application names are trimmed and bounded
    assert_eq!(validate_application_name("  board  ").unwrap(), "board");
    assert!(validate_application_name("   ").is_err());
    assert!(validate_application_name(&"x".repeat(129)).is_err());
}

#[test]
fn test_client_key_choice() {
    assert_eq!(client_key(Some(" 10.0.0.1 , 10.0.0.2"), None), "10.0.0.1");
    assert_eq!(client_key(None, Some("192.168.1.9".to_string())), "192.168.1.9");
    assert_eq!(client_key(None, None), "unknown");
}

#[test]
fn test_validate_icon() {
    assert!(validate_icon(Some("image/png"), 1024).is_ok());
    assert!(validate_icon(None, 1024).is_ok());
    assert!(validate_icon(Some("text/html"), 10).is_err());
    assert!(validate_icon(Some("image/png"), 1048577).is_err());
}

#[test]
fn test_migrations_idempotent() {
    let all: Vec<String> = vec!["001_users", "002_applications", "003_clients"]
        .into_iter()
        .map(|s| s.to_string())
        .collect();
    let applied: Vec<String> = vec!["001_users".to_string()];
    let pending = pending_migrations(&applied, &all);
    assert_eq!(pending, vec!["002_applications".to_string(), "003_clients".to_string()]);
    let mut after: Vec<String> = applied.clone();
    after.extend(pending);
    // a second run finds nothing to do
    assert!(pending_migrations(&after, &all).is_empty());
}

#[test]
fn test_template_rendering() {
    assert_eq!(replace_all("a{{x}}b{{x}}c", "{{x}}", "-"), "a-b-c");
    assert_eq!(i64_to_string(0), "0");
    assert_eq!(i64_to_string(507), "507");
    assert_eq!(i64_to_string(-42), "-42");
    let body = render_body_template(
        "p={{priority}} m={{message}} t={{title}} on {{topic}}: {{json}}",
        "hello",
        Some("T"),
        Some("alerts"),
        7,
        "{}",
    );
    assert_eq!(body, "p=7 m=hello t=T on alerts: {}");
}

#[test]
fn test_outgoing_request_plan() {
    let view = rstify::models::MessageResponse {
        id: 1,
        appid: None,
        topic: Some("alerts".to_string()),
        title: None,
        message: "hot".to_string(),
        priority: 4,
        tags: None,
        click_url: None,
        icon_url: None,
        actions: None,
        extras: None,
        content_type: None,
        date: "2024-06-01 00:00:00".to_string(),
    };
    let plan = plan_outgoing_request(
        &Some("http://sink".to_string()),
        "PUT",
        &Some("{{message}}!".to_string()),
        &view,
        "{\"id\":1}",
    )
    .unwrap();
    assert_eq!(plan.url, "http://sink");
    assert!(matches!(plan.method, OutgoingMethod::Put));
    assert_eq!(plan.body.as_deref(), Some("hot!"));
    assert!(plan.json_content_type);

    let get_plan =
        plan_outgoing_request(&Some("http://sink".to_string()), "GET", &None, &view, "{}").unwrap();
    assert!(matches!(get_plan.method, OutgoingMethod::Get));
    assert!(get_plan.body.is_none());

    assert!(plan_outgoing_request(&None, "POST", &None, &view, "{}").is_none());

    assert!(should_retry(0, 3));
    assert!(!should_retry(3, 3));
}
