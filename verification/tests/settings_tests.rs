use cc2_monitor::config::{AppConfig, DestinationKind, EventToggles, NotificationDestination, PrinterProfile};
use cc2_monitor::error::{AppError, ConfigError};
use cc2_monitor::settings::{
    apply_active_selection, apply_printer_fields, apply_settings_update, normalize_printer_profiles,
    validate_import_config, PrinterFieldsUpdate, PrinterLinkChange, SettingsUpdate,
};

fn profile(id: &str, label: &str, ip: &str, printer_id: &str, pincode: &str) -> PrinterProfile {
    PrinterProfile {
        id: id.to_string(),
        label: label.to_string(),
        ip: ip.to_string(),
        printer_id: printer_id.to_string(),
        pincode: pincode.to_string(),
    }
}

fn no_update() -> SettingsUpdate {
    SettingsUpdate {
        printers: None,
        active_printer_id: None,
        printer: None,
        detection_enabled: None,
        detection_interval_secs: None,
        detection_obico_url: None,
        server_host: None,
        server_port: None,
        logging_level: None,
    }
}

fn invalid_pincode() -> AppError {
    AppError::Config(ConfigError::InvalidPincode)
}

#[test]
fn profile_list_is_normalized_sorted_and_deduplicated() {
    let input = vec![
        profile(" b ", "  ", " 10.0.0.2 ", " P2 ", " abc123 "),
        profile("", "", "10.0.0.1", "", ""),
        profile("a", "First A", "10.0.0.3", "", ""),
        profile("x", "dropped", "   ", "", ""),
        profile("a", "Second A", "10.0.0.4", "", ""),
    ];
    let r = normalize_printer_profiles(&input).unwrap();
    let ids: Vec<&str> = r.iter().map(|p| p.id.as_str()).collect();
    assert_eq!(ids, vec!["a", "b", "cc2-10-0-0-1"]);
    assert_eq!(r[0].label, "First A");
    assert_eq!(r[1].label, "CC2 P2");
    assert_eq!(r[1].ip, "10.0.0.2");
    assert_eq!(r[1].pincode, "abc123");
    assert_eq!(r[2].label, "CC2 10.0.0.1");
    // normalizing the stored list again gives the same list
    let again = normalize_printer_profiles(&r).unwrap();
    let ids2: Vec<&str> = again.iter().map(|p| p.id.as_str()).collect();
    assert_eq!(ids2, ids);
    assert_eq!(again[1].label, "CC2 P2");
}

#[test]
fn profile_list_with_bad_code_is_refused() {
    let input = vec![profile("a", "", "10.0.0.1", "", "12")];
    assert_eq!(normalize_printer_profiles(&input).unwrap_err(), invalid_pincode());
    // a profile without address is dropped before its code is looked at
    let input = vec![profile("a", "", "  ", "", "12")];
    assert!(normalize_printer_profiles(&input).unwrap().is_empty());
}

#[test]
fn selecting_a_printer() {
    let mut cfg = AppConfig::default();
    cfg.printers = vec![profile("a", "A", "10.0.0.1", "PA", "abc123")];
    apply_active_selection(&mut cfg, " a ");
    assert_eq!(cfg.active_printer_id, "a");
    assert_eq!(cfg.printer.ip, "10.0.0.1");
    assert_eq!(cfg.printer.pincode, "abc123");
    apply_active_selection(&mut cfg, "zz");
    assert_eq!(cfg.active_printer_id, "zz");
    assert_eq!(cfg.printer.ip, "10.0.0.1");
}

#[test]
fn printer_fields() {
    let mut cfg = AppConfig::default();
    let r = apply_printer_fields(&mut cfg, Some(" 10.0.0.9 ".to_string()), Some("P9".to_string()), Some(" ".to_string()));
    assert!(r.is_ok());
    assert_eq!(cfg.printer.ip, "10.0.0.9");
    assert_eq!(cfg.printer.pincode, "");
    assert_eq!(cfg.active_printer_id, "cc2-P9");
    assert_eq!(cfg.printers.len(), 1);
    let r = apply_printer_fields(&mut cfg, Some("10.0.0.10".to_string()), None, Some("bad".to_string()));
    assert_eq!(r, Err(invalid_pincode()));
    assert_eq!(cfg.printer.ip, "10.0.0.10");
    assert_eq!(cfg.printers[0].ip, "10.0.0.9");
}

#[test]
fn settings_update_applies_everything() {
    let mut cfg = AppConfig::default();
    let mut u = no_update();
    u.printers = Some(vec![profile("a", "A", "10.0.0.1", "PA", ""), profile("b", "B", "10.0.0.2", "PB", "")]);
    u.active_printer_id = Some("b".to_string());
    u.detection_enabled = Some(false);
    u.detection_interval_secs = Some(2);
    u.detection_obico_url = Some("http://ml:1".to_string());
    u.server_host = Some("127.0.0.1".to_string());
    u.server_port = Some(70_000);
    u.logging_level = Some("debug".to_string());
    let r = apply_settings_update(&mut cfg, u).unwrap();
    assert_eq!(r, PrinterLinkChange::ReconfigureAndStart);
    assert_eq!(cfg.active_printer_id, "b");
    assert_eq!(cfg.printer.ip, "10.0.0.2");
    assert_eq!(cfg.printers.len(), 2);
    assert!(!cfg.detection.enabled);
    assert_eq!(cfg.detection.interval_secs, 5);
    assert_eq!(cfg.detection.obico_url, "http://ml:1");
    assert_eq!(cfg.server.host, "127.0.0.1");
    assert_eq!(cfg.server.port, 70_000u64 as u16);
    assert_eq!(cfg.logging.level, "debug");

    // the same printer again: nothing to restart
    let mut u = no_update();
    u.detection_interval_secs = Some(30);
    assert_eq!(apply_settings_update(&mut cfg, u).unwrap(), PrinterLinkChange::Unchanged);
    assert_eq!(cfg.detection.interval_secs, 30);

    // new live printer fields
    let mut u = no_update();
    u.printer = Some(PrinterFieldsUpdate { ip: Some("10.0.0.2".to_string()), printer_id: None, pincode: Some("Abc123".to_string()) });
    assert_eq!(apply_settings_update(&mut cfg, u).unwrap(), PrinterLinkChange::ReconfigureAndStart);
    assert_eq!(cfg.printer.pincode, "Abc123");
    assert_eq!(cfg.printers[1].pincode, "Abc123");
}

#[test]
fn settings_update_clearing_the_address_reconfigures_without_start() {
    let mut cfg = AppConfig::default();
    cfg.printer.ip = "10.0.0.5".to_string();
    let mut u = no_update();
    u.printer = Some(PrinterFieldsUpdate { ip: Some("  ".to_string()), printer_id: None, pincode: None });
    assert_eq!(apply_settings_update(&mut cfg, u).unwrap(), PrinterLinkChange::Reconfigure);
    assert_eq!(cfg.printer.ip, "");
}

#[test]
fn settings_update_refusals() {
    let mut cfg = AppConfig::default();
    cfg.server.port = 1234;
    let mut u = no_update();
    u.printers = Some(vec![profile("a", "A", "10.0.0.1", "", "nope")]);
    u.server_port = Some(80);
    assert_eq!(apply_settings_update(&mut cfg, u), Err(invalid_pincode()));
    assert!(cfg.printers.is_empty());
    assert_eq!(cfg.server.port, 1234);

    let mut u = no_update();
    u.printers = Some(vec![profile("a", "A", "10.0.0.1", "", "")]);
    u.printer = Some(PrinterFieldsUpdate { ip: Some("10.0.0.7".to_string()), printer_id: None, pincode: Some("x".to_string()) });
    u.server_port = Some(80);
    assert_eq!(apply_settings_update(&mut cfg, u), Err(invalid_pincode()));
    // the steps before the refusal took effect, the later ones did not
    assert_eq!(cfg.printers.len(), 1);
    assert_eq!(cfg.printer.ip, "10.0.0.7");
    assert_eq!(cfg.server.port, 1234);
}

#[test]
fn import_is_trimmed_synced_and_checked() {
    let mut cfg = AppConfig::default();
    cfg.printer.ip = " 10.0.0.1 ".to_string();
    cfg.printers = vec![profile(" a ", " A ", " 10.0.0.1 ", " PA ", " abc123 ")];
    assert!(validate_import_config(&mut cfg).is_ok());
    assert_eq!(cfg.active_printer_id, "a");
    assert_eq!(cfg.printer.ip, "10.0.0.1");
    assert_eq!(cfg.printer.printer_id, "PA");
    assert_eq!(cfg.printers[0].label, "A");

    let mut bad = AppConfig::default();
    bad.printers = vec![profile("a", "A", "10.0.0.1", "", "12345")];
    assert_eq!(validate_import_config(&mut bad), Err(invalid_pincode()));
}

fn hook(id: &str, interval: u8) -> NotificationDestination {
    NotificationDestination {
        id: id.to_string(),
        kind: DestinationKind::Webhook,
        enabled: true,
        label: "hook".to_string(),
        ntfy_server: None,
        ntfy_topic: None,
        ntfy_tap_url: None,
        discord_webhook_url: None,
        telegram_bot_token: None,
        telegram_chat_id: None,
        telegram_thread_id: None,
        webhook_url: Some("http://x".to_string()),
        progress_interval: interval,
        attach_snapshot: false,
        toggles: EventToggles::default(),
    }
}

#[test]
fn import_clamps_progress_intervals() {
    let mut cfg = AppConfig::default();
    cfg.notifications.destinations = vec![hook("a", 2), hook("b", 150), hook("c", 0), hook("d", 40)];
    assert!(validate_import_config(&mut cfg).is_ok());
    let got: Vec<u8> = cfg.notifications.destinations.iter().map(|d| d.progress_interval).collect();
    assert_eq!(got, vec![5, 100, 0, 40]);
    assert_eq!(cfg.notifications.destinations[0].id, "a");

    let mut bad = AppConfig::default();
    bad.printer.pincode = "bad".to_string();
    bad.notifications.destinations = vec![hook("a", 2)];
    assert!(validate_import_config(&mut bad).is_err());
    assert_eq!(bad.notifications.destinations[0].progress_interval, 2);
}
