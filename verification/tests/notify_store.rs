use edge_lb::notify::{ChannelKind, NotificationChannel};
use edge_lb::notify_store::{
    delete_channel_in_config, new_channel_id, normalize_config, upsert_channel_in_config, validate_config,
    ChannelConfigError, NotificationConfig, NotifyConfigError, RequiredField,
};

fn base_channel() -> NotificationChannel {
    NotificationChannel {
        id: String::new(),
        name: String::new(),
        kind: ChannelKind::Webhook,
        enabled: true,
        events: vec!["*".to_string()],
        lang: "zh".to_string(),
        config: "{}".to_string(),
        created_at_unix: 0,
        updated_at_unix: 0,
    }
}

fn channel() -> NotificationChannel {
    NotificationChannel {
        id: "webhook-1".to_string(),
        name: "webhook".to_string(),
        kind: ChannelKind::Webhook,
        enabled: true,
        events: vec!["ha_switchover_succeeded".to_string()],
        lang: "zh".to_string(),
        config: r#"{ "url": "https://example.com/hook" }"#.to_string(),
        created_at_unix: 1,
        updated_at_unix: 1,
    }
}

#[test]
fn normalize_config_fills_identity_and_timestamps() {
    let cfg = NotificationConfig {
        channels: vec![NotificationChannel {
            id: " ".to_string(),
            name: " Ops Webhook ".to_string(),
            config: r#"{ "url": "https://example.com/hook" }"#.to_string(),
            ..base_channel()
        }],
    };

    let normalized = normalize_config(cfg, 1_700_000_000).expect("normalize config");

    assert!(normalized.channels[0].id.starts_with("ops-webhook-"));
    assert_eq!(normalized.channels[0].name, "Ops Webhook");
    assert!(normalized.channels[0].created_at_unix > 0);
    assert!(normalized.channels[0].updated_at_unix > 0);
}

#[test]
fn validate_config_rejects_unknown_events_and_empty_url() {
    let mut cfg = NotificationConfig { channels: vec![channel()] };
    cfg.channels[0].events = vec!["not_an_event".to_string()];
    assert!(validate_config(&cfg).is_err());

    cfg.channels[0].events = vec!["*".to_string()];
    cfg.channels[0].config = r#"{ "url": "" }"#.to_string();
    assert!(validate_config(&cfg).is_err());
}

#[test]
fn validate_config_rejects_duplicate_names() {
    let mut second = channel();
    second.id = "webhook-2".to_string();
    let cfg = NotificationConfig { channels: vec![channel(), second] };

    assert!(validate_config(&cfg).is_err());
}

#[test]
fn generated_ids_keep_letters_and_digits() {
    assert_eq!(new_channel_id("Ops  Webhook!", 42), "ops-webhook-42");
    assert_eq!(new_channel_id("--é--", 7), "channel-7");
    assert_eq!(new_channel_id("A_b", 1), "a-b-1");
}

#[test]
fn validation_reports_each_kind_of_error() {
    let mut cfg = NotificationConfig { channels: vec![channel()] };
    assert_eq!(validate_config(&cfg), Ok(()));
    cfg.channels[0].events = vec![" bogus ".to_string()];
    assert_eq!(validate_config(&cfg), Err(NotifyConfigError::UnknownEvent(0, "bogus".to_string())));
    cfg.channels[0].events = vec![];
    cfg.channels[0].config = "[1]".to_string();
    assert_eq!(
        validate_config(&cfg),
        Err(NotifyConfigError::InvalidChannelConfig(0, ChannelKind::Webhook, ChannelConfigError::NotObject))
    );
    cfg.channels[0].config = r#"{ "url": "ftp://example.com" }"#.to_string();
    assert_eq!(
        validate_config(&cfg),
        Err(NotifyConfigError::InvalidChannelConfig(0, ChannelKind::Webhook, ChannelConfigError::UnsupportedScheme("ftp".to_string())))
    );
    cfg.channels[0].config = r#"{ "url": "not a url" }"#.to_string();
    assert_eq!(
        validate_config(&cfg),
        Err(NotifyConfigError::InvalidChannelConfig(0, ChannelKind::Webhook, ChannelConfigError::InvalidUrl))
    );
    cfg.channels[0].kind = ChannelKind::Telegram;
    cfg.channels[0].config = r#"{ "bot_token": "t" }"#.to_string();
    assert_eq!(
        validate_config(&cfg),
        Err(NotifyConfigError::InvalidChannelConfig(0, ChannelKind::Telegram, ChannelConfigError::Required(RequiredField::ChatId)))
    );
    let mut missing = channel();
    missing.id = "  ".to_string();
    assert_eq!(validate_config(&NotificationConfig { channels: vec![missing] }), Err(NotifyConfigError::MissingId(0)));
    let dup = NotificationConfig { channels: vec![channel(), channel()] };
    assert_eq!(validate_config(&dup), Err(NotifyConfigError::DuplicateId("webhook-1".to_string())));
    assert_eq!(validate_config(&dup).unwrap_err().message(), "duplicate notification channel id \"webhook-1\"");
}

#[test]
fn upsert_keeps_creation_time_and_delete_reports_removal() {
    let cfg = NotificationConfig { channels: vec![channel()] };
    let mut edited = channel();
    edited.name = " renamed ".to_string();
    edited.created_at_unix = 0;
    let (cfg, stored) = upsert_channel_in_config(cfg, edited, 99).unwrap();
    assert_eq!(stored.created_at_unix, 1);
    assert_eq!(stored.updated_at_unix, 99);
    assert_eq!(cfg.channels.len(), 1);
    assert_eq!(cfg.channels[0].name, "renamed");
    let mut other = channel();
    other.id = "webhook-2".to_string();
    other.name = "second".to_string();
    other.created_at_unix = 0;
    let (cfg, stored) = upsert_channel_in_config(cfg, other, 100).unwrap();
    assert_eq!(stored.created_at_unix, 100);
    assert_eq!(cfg.channels.len(), 2);
    let (cfg, removed) = delete_channel_in_config(cfg, "webhook-1");
    assert!(removed);
    assert_eq!(cfg.channels.len(), 1);
    let (_, removed) = delete_channel_in_config(cfg, "missing");
    assert!(!removed);
}
