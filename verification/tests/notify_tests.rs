use cc2_monitor::config::{DestinationKind, EventToggles, NotificationDestination};
use cc2_monitor::events::{EventKind, PrinterEvent};
use cc2_monitor::notify::{
    cooldown_label, event_kind_label, event_matches_destination_options, event_matches_toggles,
    snapshot_file, NotificationManager,
};

fn dest(id: &str, interval: u8) -> NotificationDestination {
    NotificationDestination {
        id: id.to_string(),
        kind: DestinationKind::Ntfy,
        enabled: true,
        label: id.to_string(),
        ntfy_server: None,
        ntfy_topic: Some("t".to_string()),
        ntfy_tap_url: None,
        discord_webhook_url: None,
        telegram_bot_token: None,
        telegram_chat_id: None,
        telegram_thread_id: None,
        webhook_url: None,
        progress_interval: interval,
        attach_snapshot: false,
        toggles: EventToggles::default(),
    }
}

fn ev(kind: EventKind) -> PrinterEvent {
    PrinterEvent { kind, snapshot: None }
}

#[test]
fn labels_of_events() {
    assert_eq!(event_kind_label(&EventKind::PrintStarted), "print_started");
    assert_eq!(event_kind_label(&EventKind::PrintFinished), "print_finished_ok");
    assert_eq!(event_kind_label(&EventKind::ProgressMilestone(40)), "progress_milestone");
    assert_eq!(event_kind_label(&EventKind::PhaseChanged(19, "x".to_string())), "emergency_stop");
    assert_eq!(event_kind_label(&EventKind::PhaseChanged(999, String::new())), "machine_error");
    assert_eq!(event_kind_label(&EventKind::PhaseChanged(1000, String::new())), "id_not_match");
    assert_eq!(event_kind_label(&EventKind::PhaseChanged(1001, String::new())), "auth_error");
    assert_eq!(event_kind_label(&EventKind::PhaseChanged(5, String::new())), "other");
    assert_eq!(cooldown_label(&EventKind::ProgressMilestone(40)), "progress_milestone_40");
    assert_eq!(cooldown_label(&EventKind::CameraLost), "camera_lost");
}

#[test]
fn toggles_and_intervals() {
    let t = EventToggles::default();
    assert!(event_matches_toggles(&EventKind::PrintStarted, &t));
    assert!(!event_matches_toggles(&EventKind::ProgressMilestone(50), &t));
    assert!(!event_matches_toggles(&EventKind::PhaseChanged(7, String::new()), &t));
    let mut t2 = t;
    t2.print_started = false;
    assert!(!event_matches_toggles(&EventKind::PrintStarted, &t2));

    let d = dest("a", 25);
    assert!(event_matches_destination_options(&EventKind::ProgressMilestone(50), &d));
    assert!(!event_matches_destination_options(&EventKind::ProgressMilestone(40), &d));
    assert!(!event_matches_destination_options(&EventKind::ProgressMilestone(0), &d));
    assert!(!event_matches_destination_options(&EventKind::ProgressMilestone(50), &dest("b", 0)));
    assert!(event_matches_destination_options(&EventKind::PrintPaused, &dest("b", 0)));
}

#[test]
fn snapshot_only_when_asked() {
    let mut d = dest("a", 0);
    let e = PrinterEvent { kind: EventKind::PrintPaused, snapshot: Some("snapshots/1.jpg".to_string()) };
    assert_eq!(snapshot_file(&d, &e), None);
    d.attach_snapshot = true;
    assert_eq!(snapshot_file(&d, &e), Some("snapshots/1.jpg".to_string()));
}

#[test]
fn cooldown_blocks_repeat_then_expires() {
    let mut m = NotificationManager::new(0);
    let d = dest("a", 0);
    assert!(m.admit_dispatch(&EventKind::PrintPaused, &d, 1_000));
    assert!(!m.admit_dispatch(&EventKind::PrintPaused, &d, 1_000 + 119_999));
    // another label is not blocked
    assert!(m.admit_dispatch(&EventKind::PrintResumed, &d, 2_000));
    assert!(m.admit_dispatch(&EventKind::PrintPaused, &d, 1_000 + 120_000));
}

#[test]
fn disabled_destination_gets_nothing() {
    let mut m = NotificationManager::new(0);
    let mut d = dest("a", 0);
    d.enabled = false;
    assert!(!m.admit_dispatch(&EventKind::PrintPaused, &d, 0));
}

#[test]
fn dispatch_targets_in_order() {
    let mut m = NotificationManager::new(0);
    let mut off = dest("b", 0);
    off.toggles.print_started = false;
    let ds = vec![dest("a", 0), off, dest("c", 0)];
    let e = ev(EventKind::PrintStarted);
    assert_eq!(m.dispatch_targets(&e, &ds, 10), vec![0, 2]);
    assert_eq!(m.dispatch_targets(&e, &ds, 20), Vec::<usize>::new());
}

#[test]
fn new_events_are_the_unseen_tail() {
    let mut m = NotificationManager::new(5);
    let events = vec![ev(EventKind::PrintStarted), ev(EventKind::PrintPaused), ev(EventKind::PrintResumed)];
    let got = m.take_new_events(7, &events);
    assert_eq!(got.len(), 2);
    assert!(matches!(got[0].kind, EventKind::PrintPaused));
    assert!(matches!(got[1].kind, EventKind::PrintResumed));
    assert!(m.take_new_events(7, &events).is_empty());
    // more unseen events than the buffer holds: the whole buffer
    assert_eq!(m.take_new_events(100, &events).len(), 3);
    // a counter that went backwards yields nothing
    assert!(m.take_new_events(1, &events).is_empty());
}

#[test]
fn short_outage_is_silent() {
    let mut m = NotificationManager::new(0);
    assert!(m.queue_connection_event(&ev(EventKind::Disconnected), 1_000));
    assert_eq!(m.connection_delay_until_due(1_000), Some(60_000));
    assert!(m.queue_connection_event(&ev(EventKind::Connected), 5_000));
    assert_eq!(m.connection_delay_until_due(5_000), None);
    assert!(m.take_due_connection_event(true).is_none());
}

#[test]
fn long_outage_is_announced_then_reconnect() {
    let mut m = NotificationManager::new(0);
    assert!(m.queue_connection_event(&ev(EventKind::Disconnected), 0));
    assert_eq!(m.connection_delay_until_due(70_000), Some(0));
    let e = m.take_due_connection_event(false).unwrap();
    assert!(matches!(e.kind, EventKind::Disconnected));
    // the reconnect is held, then announced while online
    assert!(m.queue_connection_event(&ev(EventKind::Connected), 80_000));
    assert_eq!(m.connection_delay_until_due(80_000), Some(60_000));
    let e = m.take_due_connection_event(true).unwrap();
    assert!(matches!(e.kind, EventKind::Connected));
    // a further reconnect without an outage is not held
    assert!(m.queue_connection_event(&ev(EventKind::Connected), 200_000));
    assert_eq!(m.connection_delay_until_due(200_000), None);
}

#[test]
fn disconnect_not_announced_when_back_online() {
    let mut m = NotificationManager::new(0);
    m.queue_connection_event(&ev(EventKind::Disconnected), 0);
    assert!(m.take_due_connection_event(true).is_none());
    assert_eq!(m.connection_delay_until_due(0), None);
}

#[test]
fn other_events_are_not_held() {
    let mut m = NotificationManager::new(0);
    assert!(!m.queue_connection_event(&ev(EventKind::PrintStarted), 0));
    assert_eq!(m.connection_delay_until_due(0), None);
}

#[test]
fn dispatch_goes_to_exactly_the_ready_destinations() {
    let mut m = NotificationManager::new(0);
    let mut off = dest("b", 0);
    off.enabled = false;
    let ds = vec![dest("a", 0), off, dest("c", 0), dest("d", 0)];
    // "c" is cooling down for this event, the others are not
    assert!(m.admit_dispatch(&EventKind::PrintPaused, &ds[2], 1_000));
    let e = ev(EventKind::PrintPaused);
    assert_eq!(m.dispatch_targets(&e, &ds, 50_000), vec![0, 3]);
    // exactly those cooldowns were started at 50_000
    assert!(!m.admit_dispatch(&EventKind::PrintPaused, &ds[0], 50_000 + 119_999));
    assert!(!m.admit_dispatch(&EventKind::PrintPaused, &ds[3], 50_000 + 119_999));
    // "c" kept its cooldown from 1_000
    assert!(m.admit_dispatch(&EventKind::PrintPaused, &ds[2], 1_000 + 120_000));
}

#[test]
fn new_events_are_routed() {
    let mut m = NotificationManager::new(0);
    let ds = vec![dest("a", 0), dest("b", 0)];
    let events = vec![ev(EventKind::PrintStarted), ev(EventKind::Disconnected), ev(EventKind::PrintPaused)];
    let routed = m.process_new_events(3, &events, &ds, 1_000);
    assert_eq!(routed.len(), 2);
    assert!(matches!(routed[0].0.kind, EventKind::PrintStarted));
    assert_eq!(routed[0].1, vec![0, 1]);
    assert!(matches!(routed[1].0.kind, EventKind::PrintPaused));
    assert_eq!(routed[1].1, vec![0, 1]);
    // the disconnect is held back
    assert_eq!(m.connection_delay_until_due(1_000), Some(60_000));
    // nothing new on a second look
    assert!(m.process_new_events(3, &events, &ds, 2_000).is_empty());
}
