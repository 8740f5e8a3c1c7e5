use rstify::error::CoreError;
use rstify::headers::{get_header, parse_priority, parse_schedule, parse_tags, NtfyHeaders};
use rstify::models::{
    Application, CreateAppMessage, CreateTopicMessage, Topic, TopicPermission,
};
use rstify::pipeline::{
    build_app_message, build_topic_message, clamp_paging, plan_header_publish,
    project_webhook_parts, validate_message_size, validate_topic_name,
};
use rstify::models::ListParams;
use rstify::store::{MessageStore, PageScope};

fn topic(id: i64, name: &str, everyone_write: bool) -> Topic {
    Topic {
        id,
        name: name.to_string(),
        owner_id: Some(1),
        description: None,
        everyone_read: true,
        everyone_write,
        created_at: "2024-01-01 00:00:00".to_string(),
    }
}

fn perm(user_id: i64, pattern: &str, read: bool, write: bool) -> TopicPermission {
    TopicPermission {
        id: 1,
        user_id,
        topic_pattern: pattern.to_string(),
        can_read: read,
        can_write: write,
    }
}

#[test]
fn test_message_size_bounds() {
    assert!(validate_message_size("x").is_ok());
    assert!(validate_message_size("").is_err());
    let big = "a".repeat(65536);
    assert!(validate_message_size(&big).is_ok());
    let too_big = "a".repeat(65537);
    assert!(validate_message_size(&too_big).is_err());
    // the bound counts bytes, not characters
    let wide = "é".repeat(40000);
    assert!(validate_message_size(&wide).is_err());
}

#[test]
fn test_app_publish_fanout_view() {
    // an app publish with an explicit priority keeps it and carries the app id
    let app = Application {
        id: 9,
        user_id: 4,
        name: "A".to_string(),
        description: None,
        token: "AP_x".to_string(),
        default_priority: 5,
        image: None,
        created_at: "2024-01-01 00:00:00".to_string(),
        updated_at: "2024-01-01 00:00:00".to_string(),
    };
    let req = CreateAppMessage {
        title: None,
        message: "hello".to_string(),
        priority: Some(7),
        extras: None,
    };
    let new = build_app_message(req, &app, 4).unwrap();
    let mut store = MessageStore::new();
    let now = "2024-06-01 12:00:00".to_string();
    let row = store.create(new, &now);
    let view = row.to_response(None);
    assert_eq!(view.message, "hello");
    assert_eq!(view.priority, 7);
    assert_eq!(view.appid, Some(9));
    assert_eq!(view.date, now);
}

#[test]
fn test_app_publish_default_priority() {
    let app = Application {
        id: 1,
        user_id: 1,
        name: "A".to_string(),
        description: None,
        token: "AP_x".to_string(),
        default_priority: 2,
        image: None,
        created_at: "2024-01-01 00:00:00".to_string(),
        updated_at: "2024-01-01 00:00:00".to_string(),
    };
    let req = CreateAppMessage {
        title: Some("t".to_string()),
        message: "m".to_string(),
        priority: None,
        extras: Some("{\"a\":1}".to_string()),
    };
    let new = build_app_message(req, &app, 1).unwrap();
    assert_eq!(new.priority, 2);
    assert_eq!(new.extras.as_deref(), Some("{\"a\":1}"));
}

#[test]
fn test_topic_publish_with_wildcard_permission() {
    // admin grants (pattern="alerts.**", can_write); user publishes into
    // alerts.cpu.high and the paged listing shows the message
    let t = topic(3, "alerts.cpu.high", false);
    let perms = vec![perm(8, "alerts.**", false, true)];
    let req = CreateTopicMessage {
        title: None,
        message: "spike".to_string(),
        priority: None,
        tags: None,
        click_url: None,
        icon_url: None,
        actions: None,
        scheduled_for: None,
    };
    let new = build_topic_message(req, &t, 8, false, &perms).unwrap();
    assert_eq!(new.priority, 5);
    let mut store = MessageStore::new();
    let now = "2024-06-01 12:00:00".to_string();
    store.create(new, &now);
    let page = store.page(&PageScope::Topic(3), 0, 100);
    assert_eq!(page.len(), 1);
    assert_eq!(page[0].message, "spike");
}

#[test]
fn test_topic_publish_oversized_is_validation() {
    // a writable topic with an oversized body answers a validation error
    let t = topic(3, "alerts.cpu.high", true);
    let req = CreateTopicMessage {
        title: None,
        message: "a".repeat(65537),
        priority: None,
        tags: None,
        click_url: None,
        icon_url: None,
        actions: None,
        scheduled_for: None,
    };
    let err = build_topic_message(req, &t, 8, false, &vec![]).unwrap_err();
    assert!(matches!(err, CoreError::Validation(_)));
}

#[test]
fn test_topic_publish_without_permission_is_forbidden() {
    let t = topic(3, "alerts.cpu.high", false);
    let perms = vec![perm(8, "logs.**", false, true)];
    let req = CreateTopicMessage {
        title: None,
        message: "spike".to_string(),
        priority: None,
        tags: None,
        click_url: None,
        icon_url: None,
        actions: None,
        scheduled_for: None,
    };
    let err = build_topic_message(req, &t, 8, false, &perms).unwrap_err();
    assert!(matches!(err, CoreError::Forbidden(_)));
}

#[test]
fn test_header_publish_with_delay() {
    // X-Title: Boom, X-Priority: urgent, X-Delay: 30m, body "scheduled":
    // persists with scheduled_for = now+30m, priority 5, title Boom, and no
    // immediate fan-out; the scheduled sweep then claims it exactly once
    let now_epoch: i64 = 1_700_000_000;
    let headers = vec![
        ("X-Title".to_string(), "Boom".to_string()),
        ("X-Priority".to_string(), "urgent".to_string()),
        ("X-Delay".to_string(), "30m".to_string()),
    ];
    let h = NtfyHeaders::from_headers(&headers, now_epoch);
    assert_eq!(h.title.as_deref(), Some("Boom"));
    assert_eq!(h.priority, Some(5));
    let due_epoch = now_epoch + 30 * 60;
    let expected_due = chrono::DateTime::from_timestamp(due_epoch, 0)
        .unwrap()
        .format("%Y-%m-%d %H:%M:%S")
        .to_string();
    assert_eq!(h.scheduled_for.as_deref(), Some(expected_due.as_str()));

    let t = topic(1, "mytopic", true);
    let plan = plan_header_publish(&t, 2, false, &vec![], "scheduled".to_string(), h, now_epoch)
        .unwrap();
    assert!(!plan.broadcast);
    assert_eq!(plan.new_message.priority, 5);
    assert_eq!(plan.new_message.title.as_deref(), Some("Boom"));

    let mut store = MessageStore::new();
    let created = chrono::DateTime::from_timestamp(now_epoch, 0)
        .unwrap()
        .format("%Y-%m-%d %H:%M:%S")
        .to_string();
    store.create(plan.new_message, &created);
    // nothing is due before the delay has passed
    let early = store.claim_due(&created);
    assert_eq!(early.len(), 0);
    // after the virtual clock advances 30 minutes, exactly one delivery
    let claimed = store.claim_due(&expected_due);
    assert_eq!(claimed.len(), 1);
    assert_eq!(claimed[0].message, "scheduled");
    assert_eq!(claimed[0].delivered_at.as_deref(), Some(expected_due.as_str()));
    // a second sweep at the same moment claims nothing
    let again = store.claim_due(&expected_due);
    assert_eq!(again.len(), 0);
}

#[test]
fn test_header_lookup_is_case_insensitive() {
    let headers = vec![("TITLE".to_string(), "  padded  ".to_string())];
    assert_eq!(get_header(&headers, "title").as_deref(), Some("padded"));
    assert!(get_header(&headers, "priority").is_none());
    let empty = vec![("X-Click".to_string(), "   ".to_string())];
    assert!(get_header(&empty, "x-click").is_none());
}

#[test]
fn test_parse_priority_values() {
    assert_eq!(parse_priority("min"), 1);
    assert_eq!(parse_priority("LOW"), 2);
    assert_eq!(parse_priority("default"), 3);
    assert_eq!(parse_priority("high"), 4);
    assert_eq!(parse_priority("max"), 5);
    assert_eq!(parse_priority("Urgent"), 5);
    assert_eq!(parse_priority("4"), 4);
    // only the named levels and 1 through 5 are valid; the rest default
    assert_eq!(parse_priority("7"), 3);
    assert_eq!(parse_priority("0"), 3);
    assert_eq!(parse_priority("-2"), 3);
    assert_eq!(parse_priority("nonsense"), 3);
}

#[test]
fn test_parse_tags_trims_and_drops_empties() {
    let tags = parse_tags("a, b ,,c");
    assert_eq!(tags, vec!["a".to_string(), "b".to_string(), "c".to_string()]);
}

#[test]
fn test_parse_schedule_forms() {
    let now: i64 = 1_700_000_000;
    let relative = parse_schedule("30m", now).unwrap();
    let expected = chrono::DateTime::from_timestamp(now + 1800, 0)
        .unwrap()
        .format("%Y-%m-%d %H:%M:%S")
        .to_string();
    assert_eq!(relative, expected);

    let absolute = parse_schedule("2030-01-02T03:04:05Z", now).unwrap();
    assert_eq!(absolute, "2030-01-02 03:04:05");

    let plain = parse_schedule("2030-01-02 03:04:05", now).unwrap();
    assert_eq!(plain, "2030-01-02 03:04:05");

    assert!(parse_schedule("not a time", now).is_none());
    // moments outside the span the store's timestamp text covers are refused
    assert!(parse_schedule("1950-01-02T03:04:05Z", now).is_none());
}

#[test]
fn test_markdown_header_sets_content_type() {
    let headers = vec![("X-Markdown".to_string(), "yes".to_string())];
    let h = NtfyHeaders::from_headers(&headers, 0);
    assert_eq!(h.content_type.as_deref(), Some("text/markdown"));
    let off = vec![("X-Markdown".to_string(), "nope".to_string())];
    assert!(NtfyHeaders::from_headers(&off, 0).content_type.is_none());
}

#[test]
fn test_clamp_paging() {
    let (limit, since) = clamp_paging(&ListParams { limit: None, since: None });
    assert_eq!((limit, since), (100, 0));
    let (limit, since) = clamp_paging(&ListParams { limit: Some(9999), since: Some(-4) });
    assert_eq!((limit, since), (500, 0));
    let (limit, since) = clamp_paging(&ListParams { limit: Some(0), since: Some(12) });
    assert_eq!((limit, since), (1, 12));
}

#[test]
fn test_validate_topic_name() {
    assert_eq!(validate_topic_name(" alerts.cpu ").unwrap(), "alerts.cpu");
    assert!(validate_topic_name("").is_err());
    assert!(validate_topic_name("has space").is_err());
    assert!(validate_topic_name(&"x".repeat(129)).is_err());
    assert!(validate_topic_name("ok-name_1.x").is_ok());
}

#[test]
fn test_webhook_projection() {
    let (title, body) = project_webhook_parts(
        "github",
        None,
        None,
        Some("opened".to_string()),
        Some("octo/repo".to_string()),
        "{\n  \"action\": \"opened\"\n}".to_string(),
    );
    assert_eq!(title.as_deref(), Some("GitHub: opened on octo/repo"));
    assert!(body.contains("opened"));

    let (title, body) = project_webhook_parts(
        "grafana",
        Some("Alert!".to_string()),
        Some("cpu high".to_string()),
        None,
        None,
        "{}".to_string(),
    );
    assert_eq!(title.as_deref(), Some("Alert!"));
    assert_eq!(body, "cpu high");

    let (title, body) =
        project_webhook_parts("generic", None, None, None, None, "{\"k\":1}".to_string());
    assert!(title.is_none());
    assert_eq!(body, "{\"k\":1}");
}
