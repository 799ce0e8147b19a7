use cc2_monitor::config::{AppConfig, DestinationKind, EventToggles, NotificationDestination, PrinterProfile};
use cc2_monitor::error::{AppError, SetupError};
use cc2_monitor::host_subnets::{
    add_addr_line, add_ip_addr_subnets, add_ip_route_subnets, add_route_line, detect_local_subnets,
};
use cc2_monitor::setup::{
    access_password, apply_onboarding, printer_start_failed, build_docker_command, default_subnets, discovered_printer,
    host_os_response, push_ipv4_subnet, requested_subnet, save_printer_settings, scan_addresses,
    setup_check, sort_by_ip, verification_failed, verify_response, DiscoveredPrinter,
    SaveConfigRequest,
};

fn found(ip: &str, id: Option<&str>) -> DiscoveredPrinter {
    DiscoveredPrinter { ip: ip.to_string(), printer_id: id.map(|s| s.to_string()), verified: id.is_some(), needs_pincode: false }
}

fn blank_dest(id: &str) -> NotificationDestination {
    NotificationDestination {
        id: id.to_string(),
        kind: DestinationKind::Webhook,
        enabled: true,
        label: "hook".to_string(),
        ntfy_server: None,
        ntfy_topic: None,
        ntfy_tap_url: None,
        discord_webhook_url: None,
        telegram_bot_token: None,
        telegram_chat_id: None,
        telegram_thread_id: None,
        webhook_url: Some("http://x".to_string()),
        progress_interval: 0,
        attach_snapshot: false,
        toggles: EventToggles::default(),
    }
}

#[test]
fn setup_check_reports_configuration() {
    let mut cfg = AppConfig::default();
    let r = setup_check(&cfg);
    assert!(!r.configured);
    assert!(!r.onboarding_complete);
    cfg.printer.ip = "10.0.0.2".to_string();
    cfg.onboarding_complete = true;
    let r = setup_check(&cfg);
    assert!(r.configured);
    assert!(r.onboarding_complete);
}

#[test]
fn docker_command_per_os() {
    assert!(build_docker_command("linux").starts_with("docker run -d --name obico-ml"));
    assert_eq!(build_docker_command("linux"), build_docker_command("macos"));
    assert_eq!(build_docker_command("windows"), "");
    let r = host_os_response("linux", "x86_64");
    assert_eq!(r.os, "linux");
    assert_eq!(r.arch, "x86_64");
    assert!(!r.gpu_supported);
    assert_eq!(
        r.docker_command,
        "docker run -d --name obico-ml --restart unless-stopped \\\n  --network host \\\n  ghcr.io/thespaghettidetective/ml_api:latest"
    );
}

#[test]
fn passwords_for_discovery() {
    assert_eq!(access_password(&None).unwrap(), "123456");
    assert_eq!(access_password(&Some("   ".to_string())).unwrap(), "123456");
    assert_eq!(access_password(&Some(" Abc123 ".to_string())).unwrap(), "Abc123");
    assert_eq!(access_password(&Some("12".to_string())).unwrap_err(), AppError::Setup(SetupError::InvalidPincode));
}

#[test]
fn scan_results() {
    let p = discovered_printer("10.0.0.5".to_string(), Some("ID1".to_string()), "123456");
    assert!(p.verified);
    assert!(!p.needs_pincode);
    let p = discovered_printer("10.0.0.5".to_string(), None, "123456");
    assert!(!p.verified);
    assert!(p.needs_pincode);
    let p = discovered_printer("10.0.0.5".to_string(), None, "Abc123");
    assert!(!p.needs_pincode);
}

#[test]
fn verify_answers() {
    let r = verify_response("PID".to_string());
    assert!(r.success);
    assert_eq!(r.printer_id, "PID");
    assert_eq!(r.model, "Centauri Carbon 2");
    assert_eq!(
        verification_failed(true, "ignored"),
        AppError::Setup(SetupError::VerificationFailed(
            "No response from printer. Check the IP address and that the printer is on.".to_string()
        ))
    );
    assert_eq!(
        verification_failed(false, "refused"),
        AppError::Setup(SetupError::VerificationFailed("Connection failed: refused".to_string()))
    );
}

#[test]
fn requested_subnets() {
    assert_eq!(requested_subnet("192.168.5.77"), Some("192.168.5".to_string()));
    assert_eq!(requested_subnet("192.168.5"), Some("192.168.5".to_string()));
    assert_eq!(requested_subnet("192.168"), None);
    assert_eq!(requested_subnet("a.b.c.d.e"), Some("a.b.c".to_string()));
}

#[test]
fn ipv4_subnets_are_collected_once() {
    let mut v: Vec<String> = Vec::new();
    push_ipv4_subnet(&mut v, "192.168.1.20");
    push_ipv4_subnet(&mut v, "192.168.1.30");
    push_ipv4_subnet(&mut v, "127.0.0.1");
    push_ipv4_subnet(&mut v, "10.1.2");
    push_ipv4_subnet(&mut v, "10.1.2.3.4");
    push_ipv4_subnet(&mut v, "10.1.2.3");
    assert_eq!(v, vec!["192.168.1".to_string(), "10.1.2".to_string()]);
}

#[test]
fn scan_address_list() {
    let a = scan_addresses(&vec!["10.0.0".to_string(), "192.168.1".to_string()]);
    assert_eq!(a.len(), 508);
    assert_eq!(a[0], "10.0.0.1");
    assert_eq!(a[253], "10.0.0.254");
    assert_eq!(a[254], "192.168.1.1");
    let d = default_subnets();
    assert_eq!(d, vec!["192.168.1", "192.168.0", "192.168.129", "10.0.0"]);
}

#[test]
fn scan_results_sorted_by_address() {
    let ps = vec![found("10.0.0.9", None), found("10.0.0.10", Some("A")), found("10.0.0.9", Some("B"))];
    let r = sort_by_ip(&ps);
    let ips: Vec<&str> = r.iter().map(|p| p.ip.as_str()).collect();
    assert_eq!(ips, vec!["10.0.0.10", "10.0.0.9", "10.0.0.9"]);
    assert_eq!(r[1].printer_id, None);
    assert_eq!(r[2].printer_id, Some("B".to_string()));
}

#[test]
fn ip_addr_output_is_parsed() {
    let out = "1: lo: <LOOPBACK,UP> mtu 65536\n    inet 127.0.0.1/8 scope host lo\n2: eth0: <UP>\n    inet 192.168.1.23/24 brd 192.168.1.255 scope global eth0\r\n    inet6 fe80::1/64 scope link\n    inet 10.8.0.2/24 scope global tun0\n    inet 192.168.1.99/24 scope global secondary eth0\n";
    let mut v: Vec<String> = Vec::new();
    add_ip_addr_subnets(&mut v, out);
    assert_eq!(v, vec!["192.168.1".to_string(), "10.8.0".to_string()]);
    let mut w: Vec<String> = Vec::new();
    add_addr_line(&mut w, "   inet 172.16.4.1/16");
    add_addr_line(&mut w, "inet");
    add_addr_line(&mut w, "inetx 1.2.3.4/8");
    assert_eq!(w, vec!["172.16.4".to_string()]);
}

#[test]
fn ip_route_output_is_parsed() {
    let out = "default via 192.168.0.1 dev eth0\n192.168.0.0/24 dev eth0 proto kernel\n172.17.0.0/16 dev docker0";
    let mut v: Vec<String> = Vec::new();
    add_ip_route_subnets(&mut v, out);
    assert_eq!(v, vec!["192.168.0".to_string(), "172.17.0".to_string()]);
    let mut w: Vec<String> = Vec::new();
    add_route_line(&mut w, "defaults 1.2.3.4");
    add_route_line(&mut w, "   ");
    assert!(w.is_empty());
}

#[test]
fn local_subnet_detection_order_and_fallbacks() {
    let r = detect_local_subnets(Some("192.168.1.5"), Some("    inet 192.168.1.5/24\n    inet 10.0.3.4/8\n"), Some("9.9.9.0/24 dev x"));
    assert_eq!(r, vec!["192.168.1".to_string(), "10.0.3".to_string()]);
    let r = detect_local_subnets(None, Some("nothing here"), Some("default via 1.1.1.1\n172.20.0.0/16 dev br0\n"));
    assert_eq!(r, vec!["172.20.0".to_string()]);
    let r = detect_local_subnets(None, None, None);
    assert_eq!(r, vec!["192.168.1", "192.168.0", "192.168.129", "10.0.0"]);
    let r = detect_local_subnets(Some("127.0.0.1"), None, Some("default via 1.1.1.1"));
    assert_eq!(r.len(), 4);
}

#[test]
fn save_config_writes_printer_and_profile() {
    let mut cfg = AppConfig::default();
    cfg.printers = vec![PrinterProfile {
        id: "cc2-P1".to_string(),
        label: "Garage".to_string(),
        ip: "1.1.1.1".to_string(),
        printer_id: "P1".to_string(),
        pincode: String::new(),
    }];
    let req = SaveConfigRequest { ip: "10.0.0.7".to_string(), printer_id: "P1".to_string(), pincode: Some(" abc123 ".to_string()) };
    assert!(save_printer_settings(&mut cfg, req).is_ok());
    assert_eq!(cfg.printer.ip, "10.0.0.7");
    assert_eq!(cfg.printer.pincode, "abc123");
    assert_eq!(cfg.active_printer_id, "cc2-P1");
    assert_eq!(cfg.printers.len(), 1);
    assert_eq!(cfg.printers[0].label, "Garage");
    assert_eq!(cfg.printers[0].ip, "10.0.0.7");

    let req = SaveConfigRequest { ip: "10.0.0.8".to_string(), printer_id: "P2".to_string(), pincode: None };
    assert!(save_printer_settings(&mut cfg, req).is_ok());
    assert_eq!(cfg.printers.len(), 2);
    assert_eq!(cfg.printers[1].id, "cc2-P2");
    assert_eq!(cfg.printers[1].label, "CC2 P2");
}

#[test]
fn save_config_refusals() {
    let mut cfg = AppConfig::default();
    let r = save_printer_settings(&mut cfg, SaveConfigRequest { ip: String::new(), printer_id: "P".to_string(), pincode: None });
    assert_eq!(r, Err(AppError::Setup(SetupError::VerificationFailed("IP address is required".to_string()))));
    let r = save_printer_settings(&mut cfg, SaveConfigRequest { ip: "1.2.3.4".to_string(), printer_id: String::new(), pincode: None });
    assert_eq!(r, Err(AppError::Setup(SetupError::VerificationFailed("Printer ID is required".to_string()))));
    let r = save_printer_settings(&mut cfg, SaveConfigRequest { ip: "1.2.3.4".to_string(), printer_id: "P".to_string(), pincode: Some("bad".to_string()) });
    assert_eq!(r, Err(AppError::Setup(SetupError::InvalidPincode)));
    assert!(cfg.printer.ip.is_empty());
    assert!(cfg.printers.is_empty());
}

#[test]
fn onboarding_assigns_ids_and_completes() {
    let mut cfg = AppConfig::default();
    apply_onboarding(&mut cfg, Some("http://ml:3333".to_string()), Some(vec![blank_dest(""), blank_dest("keep")]));
    assert!(cfg.onboarding_complete);
    assert_eq!(cfg.detection.obico_url, "http://ml:3333");
    assert_eq!(cfg.notifications.destinations.len(), 2);
    assert_eq!(cfg.notifications.destinations[0].id.len(), 8);
    assert_eq!(cfg.notifications.destinations[1].id, "keep");

    let mut cfg2 = AppConfig::default();
    apply_onboarding(&mut cfg2, None, None);
    assert!(cfg2.onboarding_complete);
    assert_eq!(cfg2.detection.obico_url, "http://localhost:3333");
    assert!(cfg2.notifications.destinations.is_empty());
}

#[test]
fn start_failure_message() {
    assert_eq!(
        printer_start_failed("refused"),
        AppError::Setup(SetupError::VerificationFailed("Failed to start printer connection: refused".to_string()))
    );
}

#[test]
fn onboarding_clamps_progress_intervals() {
    let mut cfg = AppConfig::default();
    let mut a = blank_dest("a");
    a.progress_interval = 3;
    let mut b = blank_dest("");
    b.progress_interval = 200;
    let mut c = blank_dest("c");
    c.progress_interval = 0;
    let mut d = blank_dest("d");
    d.progress_interval = 25;
    apply_onboarding(&mut cfg, None, Some(vec![a, b, c, d]));
    let ds = &cfg.notifications.destinations;
    assert_eq!(ds[0].progress_interval, 5);
    assert_eq!(ds[1].progress_interval, 100);
    assert_eq!(ds[1].id.len(), 8);
    assert_eq!(ds[2].progress_interval, 0);
    assert_eq!(ds[3].progress_interval, 25);
    assert_eq!(ds[3].label, "hook");
}
