use edge_lb::notify::{append_delivery, summaries, ChannelKind, DeliveryRecord, NotificationChannel};

fn channel(events: Vec<&str>, enabled: bool) -> NotificationChannel {
    NotificationChannel {
        id: "webhook-1".to_string(),
        name: "webhook".to_string(),
        kind: ChannelKind::Webhook,
        enabled,
        events: events.into_iter().map(str::to_string).collect(),
        lang: "zh".to_string(),
        config: "{\"url\":\"https://example.com/hook\"}".to_string(),
        created_at_unix: 1,
        updated_at_unix: 2,
    }
}

#[test]
fn channels_take_listed_wildcard_or_all_events() {
    assert!(channel(vec!["ha_switchover_succeeded"], true).matches_event("ha_switchover_succeeded"));
    assert!(!channel(vec!["ha_switchover_succeeded"], true).matches_event("vip_garp_failed"));
    assert!(channel(vec!["*"], true).matches_event("vip_garp_failed"));
    assert!(channel(vec![], true).matches_event("anything"));
    assert!(!channel(vec!["*"], false).matches_event("anything"));
}

#[test]
fn summaries_drop_the_settings() {
    let list = summaries(&vec![channel(vec!["*"], true)]);
    assert_eq!(list.len(), 1);
    assert_eq!(list[0].id, "webhook-1");
    assert_eq!(list[0].kind, ChannelKind::Webhook);
    assert_eq!(list[0].events, vec!["*".to_string()]);
    assert_eq!(list[0].updated_at_unix, 2);
}

#[test]
fn delivery_records_are_stored_under_revision_and_channel() {
    let record = DeliveryRecord {
        channel_id: " team/ops ".to_string(),
        channel_name: "ops".to_string(),
        event_kind: "ha_unpaired".to_string(),
        ok: true,
        status_code: Some(200),
        error: None,
        response: String::new(),
        attempted_at_unix: 5,
    };
    assert_eq!(append_delivery(42, &record), "42-team-ops");
}
