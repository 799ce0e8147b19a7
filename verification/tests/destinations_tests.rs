use cc2_monitor::config::{DestinationKind, EventToggles, NotificationDestination};
use cc2_monitor::destinations::{
    apply_destination_update, create_destination, empty_to_none, find_destination,
    find_destination_index, gen_id, id_from_random, normalize_destination,
    normalize_progress_interval, remove_destination, UpdateDestinationReq,
};
use cc2_monitor::error::AppError;

fn dest(id: &str, kind: DestinationKind) -> NotificationDestination {
    NotificationDestination {
        id: id.to_string(),
        kind,
        enabled: true,
        label: "  Phone  ".to_string(),
        ntfy_server: Some(" https://ntfy.sh ".to_string()),
        ntfy_topic: Some("   ".to_string()),
        ntfy_tap_url: None,
        discord_webhook_url: Some(String::new()),
        telegram_bot_token: None,
        telegram_chat_id: None,
        telegram_thread_id: None,
        webhook_url: None,
        progress_interval: 3,
        attach_snapshot: false,
        toggles: EventToggles::default(),
    }
}

fn empty_req() -> UpdateDestinationReq {
    UpdateDestinationReq {
        enabled: None,
        label: None,
        ntfy_server: None,
        ntfy_topic: None,
        ntfy_tap_url: None,
        discord_webhook_url: None,
        telegram_bot_token: None,
        telegram_chat_id: None,
        telegram_thread_id: None,
        webhook_url: None,
        progress_interval: None,
        attach_snapshot: None,
        toggles: None,
    }
}

#[test]
fn empty_to_none_trims() {
    assert_eq!(empty_to_none("  abc ".to_string()), Some("abc".to_string()));
    assert_eq!(empty_to_none("   ".to_string()), None);
    assert_eq!(empty_to_none(String::new()), None);
}

#[test]
fn progress_interval_clamped() {
    assert_eq!(normalize_progress_interval(0), 0);
    assert_eq!(normalize_progress_interval(1), 5);
    assert_eq!(normalize_progress_interval(4), 5);
    assert_eq!(normalize_progress_interval(5), 5);
    assert_eq!(normalize_progress_interval(25), 25);
    assert_eq!(normalize_progress_interval(100), 100);
    assert_eq!(normalize_progress_interval(101), 100);
    assert_eq!(normalize_progress_interval(255), 100);
}

#[test]
fn normalize_destination_cleans_fields() {
    let mut d = dest("x", DestinationKind::Ntfy);
    normalize_destination(&mut d);
    assert_eq!(d.label, "Phone");
    assert_eq!(d.ntfy_server, Some("https://ntfy.sh".to_string()));
    assert_eq!(d.ntfy_topic, None);
    assert_eq!(d.discord_webhook_url, None);
    assert_eq!(d.progress_interval, 5);
    // a second pass changes nothing
    let before = d.clone();
    normalize_destination(&mut d);
    assert_eq!(d.label, before.label);
    assert_eq!(d.ntfy_server, before.ntfy_server);
    assert_eq!(d.progress_interval, before.progress_interval);
}

#[test]
fn random_ids_are_eight_hex_digits() {
    assert_eq!(id_from_random(0), "00000000");
    assert_eq!(id_from_random(0xdeadbeef), "deadbeef");
    assert_eq!(id_from_random(0x1a), "0000001a");
    let id = gen_id();
    assert_eq!(id.len(), 8);
    assert!(id.chars().all(|c| c.is_ascii_hexdigit() && !c.is_ascii_uppercase()));
}

#[test]
fn create_appends_normalized_with_fresh_id() {
    let mut ds = vec![dest("a", DestinationKind::Discord)];
    let id = create_destination(&mut ds, dest("ignored", DestinationKind::Telegram));
    assert_eq!(ds.len(), 2);
    assert_eq!(ds[0].id, "a");
    assert_eq!(ds[1].id, id);
    assert_ne!(id, "ignored");
    assert_eq!(id.len(), 8);
    assert_eq!(ds[1].label, "Phone");
    assert_eq!(ds[1].progress_interval, 5);
}

#[test]
fn update_writes_fields_and_normalizes() {
    let mut ds = vec![dest("a", DestinationKind::Telegram), dest("b", DestinationKind::Telegram)];
    let mut req = empty_req();
    req.enabled = Some(false);
    req.label = Some(" Group ".to_string());
    req.telegram_chat_id = Some("  -100123 ".to_string());
    req.telegram_bot_token = Some("   ".to_string());
    req.ntfy_tap_url = Some(String::new());
    req.progress_interval = Some(250);
    let d = apply_destination_update(&mut ds, "b", req).unwrap();
    assert!(!d.enabled);
    assert_eq!(d.label, "Group");
    assert_eq!(d.telegram_chat_id, Some("-100123".to_string()));
    assert_eq!(d.telegram_bot_token, None);
    assert_eq!(d.ntfy_tap_url, None);
    assert_eq!(d.progress_interval, 100);
    assert_eq!(ds[1].label, "Group");
    assert_eq!(ds[0].label, "  Phone  ");
}

#[test]
fn update_unknown_id_is_refused() {
    let mut ds = vec![dest("a", DestinationKind::Ntfy)];
    let r = apply_destination_update(&mut ds, "zz", empty_req());
    assert_eq!(r.unwrap_err(), AppError::Validation("destination 'zz' not found".to_string()));
    assert_eq!(ds.len(), 1);
}

#[test]
fn remove_drops_every_match() {
    let mut ds = vec![
        dest("a", DestinationKind::Ntfy),
        dest("b", DestinationKind::Ntfy),
        dest("a", DestinationKind::Webhook),
    ];
    assert!(remove_destination(&mut ds, "a").is_ok());
    assert_eq!(ds.len(), 1);
    assert_eq!(ds[0].id, "b");
    let r = remove_destination(&mut ds, "a");
    assert_eq!(r, Err(AppError::Validation("destination a not found".to_string())));
    assert_eq!(ds.len(), 1);
}

#[test]
fn find_destination_first_match() {
    let ds = vec![dest("a", DestinationKind::Ntfy), dest("a", DestinationKind::Webhook)];
    assert_eq!(find_destination_index(&ds, "a"), Some(0));
    assert_eq!(find_destination_index(&ds, "q"), None);
    let d = find_destination(&ds, "a").unwrap();
    assert_eq!(d.kind, DestinationKind::Ntfy);
    assert_eq!(
        find_destination(&ds, "q").unwrap_err(),
        AppError::Validation("destination q not found".to_string())
    );
}

#[test]
fn deleting_a_created_destination_restores_the_list() {
    let mut ds = vec![dest("a", DestinationKind::Ntfy), dest("b", DestinationKind::Discord)];
    let before: Vec<String> = ds.iter().map(|d| d.id.clone()).collect();
    let id = create_destination(&mut ds, dest("x", DestinationKind::Webhook));
    assert_eq!(ds.len(), 3);
    assert!(remove_destination(&mut ds, &id).is_ok());
    let after: Vec<String> = ds.iter().map(|d| d.id.clone()).collect();
    assert_eq!(after, before);
}
