use cc2_monitor::config::{
    default_printer_label, find_profile, printer_profile_id, sync_active_printer_profile,
    upsert_active_printer_profile, validate_pincode, AppConfig, PrinterConfig, PrinterProfile,
};
use cc2_monitor::error::ConfigError;

fn base_config() -> AppConfig {
    AppConfig::default()
}

fn profile(id: &str, label: &str, ip: &str, printer_id: &str, pincode: &str) -> PrinterProfile {
    PrinterProfile {
        id: id.to_string(),
        label: label.to_string(),
        ip: ip.to_string(),
        printer_id: printer_id.to_string(),
        pincode: pincode.to_string(),
    }
}

#[test]
fn validate_pincode_accepts_valid() {
    assert!(validate_pincode("ABC123").is_ok());
    assert!(validate_pincode("Abc123").is_ok());
    assert!(validate_pincode("abc123").is_ok());
    assert!(validate_pincode("000000").is_ok());
    assert!(validate_pincode("ZZZZZZ").is_ok());
}

#[test]
fn validate_pincode_rejects_short_or_invalid() {
    assert!(validate_pincode("ABC12").is_err());
    assert!(validate_pincode("ABC1234").is_err());
    assert!(validate_pincode("AB-C12").is_err());
    assert!(validate_pincode("AB C12").is_err());
    assert!(validate_pincode("ABC12!").is_err());
}

#[test]
fn printer_password_uses_pincode_when_set() {
    let mut cfg = base_config();
    cfg.printer.pincode = "Abc123".to_string();
    assert_eq!(cfg.printer_password(), "Abc123");
}

#[test]
fn printer_password_defaults_to_123456() {
    let cfg = base_config();
    assert_eq!(cfg.printer_password(), "123456");
}

#[test]
fn validate_pincode_error_value() {
    assert_eq!(validate_pincode(""), Err(ConfigError::InvalidPincode));
    assert_eq!(validate_pincode("ÄBC123"), Err(ConfigError::InvalidPincode));
}

#[test]
fn default_config_values() {
    let cfg = base_config();
    assert!(cfg.printer.ip.is_empty());
    assert!(cfg.printers.is_empty());
    assert!(cfg.active_printer_id.is_empty());
    assert!(cfg.detection.enabled);
    assert_eq!(cfg.detection.interval_secs, 15);
    assert_eq!(f64::from_bits(cfg.detection.notify_threshold_bits), 0.5);
    assert_eq!(f64::from_bits(cfg.detection.pause_threshold_bits), 0.7);
    assert_eq!(cfg.detection.confirmation_frames, 2);
    assert_eq!(cfg.detection.obico_url, "http://localhost:3333");
    assert_eq!(cfg.server.host, "0.0.0.0");
    assert_eq!(cfg.server.port, 8484);
    assert_eq!(cfg.logging.level, "info");
    assert!(!cfg.onboarding_complete);
    assert!(cfg.notifications.destinations.is_empty());
}

#[test]
fn profile_id_prefers_printer_id() {
    assert_eq!(printer_profile_id("192.168.1.20", " ABC "), "cc2-ABC");
    assert_eq!(printer_profile_id(" 192.168.1.20 ", ""), "cc2-192-168-1-20");
    assert_eq!(printer_profile_id("10.0.0.5", "   "), "cc2-10-0-0-5");
}

#[test]
fn default_label_cases() {
    assert_eq!(default_printer_label("192.168.1.20", "XYZ"), "CC2 XYZ");
    assert_eq!(default_printer_label("192.168.1.20", ""), "CC2 192.168.1.20");
    assert_eq!(default_printer_label("", ""), "Elegoo CC2");
}

#[test]
fn profile_config_round_trip() {
    let cfg = PrinterConfig {
        ip: "192.168.1.20".to_string(),
        printer_id: "P1".to_string(),
        pincode: "abc123".to_string(),
    };
    let p = PrinterProfile::from_config("cc2-P1".to_string(), &cfg);
    assert_eq!(p.id, "cc2-P1");
    assert_eq!(p.label, "CC2 P1");
    let back = p.to_config();
    assert_eq!(back.ip, cfg.ip);
    assert_eq!(back.printer_id, cfg.printer_id);
    assert_eq!(back.pincode, cfg.pincode);
}

#[test]
fn find_profile_finds_first() {
    let ps = vec![
        profile("a", "A", "1.1.1.1", "", ""),
        profile("b", "B", "2.2.2.2", "", ""),
        profile("b", "B2", "3.3.3.3", "", ""),
    ];
    assert_eq!(find_profile(&ps, "b"), Some(1));
    assert_eq!(find_profile(&ps, "c"), None);
}

#[test]
fn upsert_creates_profile_for_live_printer() {
    let mut cfg = base_config();
    cfg.printer.ip = "192.168.1.20".to_string();
    cfg.printer.printer_id = "P1".to_string();
    upsert_active_printer_profile(&mut cfg);
    assert_eq!(cfg.active_printer_id, "cc2-P1");
    assert_eq!(cfg.printers.len(), 1);
    assert_eq!(cfg.printers[0].id, "cc2-P1");
    assert_eq!(cfg.printers[0].label, "CC2 P1");
    assert_eq!(cfg.printers[0].ip, "192.168.1.20");
    // a second upsert changes nothing
    upsert_active_printer_profile(&mut cfg);
    assert_eq!(cfg.printers.len(), 1);
}

#[test]
fn upsert_keeps_stored_label() {
    let mut cfg = base_config();
    cfg.printers = vec![profile("cc2-P1", "Workshop", "10.0.0.1", "P1", "")];
    cfg.active_printer_id = "cc2-P1".to_string();
    cfg.printer.ip = "10.0.0.9".to_string();
    cfg.printer.printer_id = "P1".to_string();
    upsert_active_printer_profile(&mut cfg);
    assert_eq!(cfg.printers.len(), 1);
    assert_eq!(cfg.printers[0].label, "Workshop");
    assert_eq!(cfg.printers[0].ip, "10.0.0.9");
}

#[test]
fn upsert_without_address_changes_nothing() {
    let mut cfg = base_config();
    upsert_active_printer_profile(&mut cfg);
    assert!(cfg.printers.is_empty());
    assert!(cfg.active_printer_id.is_empty());
}

#[test]
fn sync_picks_first_profile_when_none_active() {
    let mut cfg = base_config();
    cfg.printers = vec![
        profile("b", "B", "2.2.2.2", "PB", "abc123"),
        profile("a", "A", "1.1.1.1", "PA", ""),
    ];
    sync_active_printer_profile(&mut cfg);
    assert_eq!(cfg.active_printer_id, "b");
    assert_eq!(cfg.printer.ip, "2.2.2.2");
    assert_eq!(cfg.printer.printer_id, "PB");
    assert_eq!(cfg.printer.pincode, "abc123");
}

#[test]
fn sync_records_live_printer_as_profile() {
    let mut cfg = base_config();
    cfg.active_printer_id = "missing".to_string();
    cfg.printer.ip = "192.168.0.7".to_string();
    sync_active_printer_profile(&mut cfg);
    assert_eq!(cfg.active_printer_id, "cc2-192-168-0-7");
    assert_eq!(cfg.printers.len(), 1);
    assert_eq!(cfg.printers[0].label, "CC2 192.168.0.7");
}

#[test]
fn sync_loads_the_active_profile() {
    let mut cfg = base_config();
    cfg.printers = vec![
        profile("a", "A", "1.1.1.1", "PA", ""),
        profile("b", "B", "2.2.2.2", "PB", "Abc123"),
    ];
    cfg.active_printer_id = "b".to_string();
    cfg.printer.ip = "9.9.9.9".to_string();
    sync_active_printer_profile(&mut cfg);
    assert_eq!(cfg.active_printer_id, "b");
    assert_eq!(cfg.printers.len(), 2);
    assert_eq!(cfg.printer.ip, "2.2.2.2");
    assert_eq!(cfg.printer.pincode, "Abc123");
}
