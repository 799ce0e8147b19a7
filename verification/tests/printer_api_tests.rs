use cc2_monitor::camera::encode_mjpeg_chunk;
use cc2_monitor::config::AppConfig;
use cc2_monitor::debug::debug_response;
use cc2_monitor::error::{AppError, PrinterError};
use cc2_monitor::events::{NormalizedStatus, PrintState};
use cc2_monitor::printer_api::{
    canvas_slot_info, check_timelapse_state, join_under, timelapse_candidate_urls, clamp, CanvasSlotRequest, ThumbnailCache, clamp_nozzle_temp, default_plate, timelapse_disposition,
    timelapse_target, TimelapseSearch, default_true, ensure_canvas_safe, file_page,
    is_stream_content_type, led_on, normalize_filament_color, require_filename, storage_or_local,
    temperature_targets, timelapse_busy_message, timelapse_file_name, timelapse_path,
    timelapse_status_allowed, validate_canvas_ids, validate_home_axes,
    validate_jog_axis, FileListQuery, LedRequest, PrintRequest, TemperatureRequest,
};

fn v(msg: &str) -> AppError {
    AppError::Validation(msg.to_string())
}

#[test]
fn defaults_for_requests() {
    assert_eq!(default_plate(), "textured");
    assert!(default_true());
    let req: PrintRequest<u32> = PrintRequest {
        filename: "a.gcode".to_string(),
        storage_media: "local".to_string(),
        plate: default_plate(),
        tray_id: None,
        tray_slot: Some(1),
        canvas_id: 0,
        slot_map: vec![1, 2],
        timelapse: false,
        bedlevel_force: default_true(),
    };
    assert_eq!(req.plate, "textured");
    assert!(req.bedlevel_force);
}

#[test]
fn axes() {
    assert_eq!(validate_home_axes(" XyZ ").unwrap(), "xyz");
    assert_eq!(validate_home_axes("x").unwrap(), "x");
    assert_eq!(validate_home_axes("").unwrap_err(), v("axes must be a non-empty combination of x, y, z"));
    assert_eq!(validate_home_axes("xa").unwrap_err(), v("axes must be a non-empty combination of x, y, z"));
    assert_eq!(validate_jog_axis(" Z").unwrap(), "z");
    assert_eq!(validate_jog_axis("xy").unwrap_err(), v("axis must be x, y, or z"));
    assert_eq!(validate_jog_axis("e").unwrap_err(), v("axis must be x, y, or z"));
}

#[test]
fn led_power() {
    assert!(led_on(&LedRequest { power: 1 }));
    assert!(led_on(&LedRequest { power: -3 }));
    assert!(!led_on(&LedRequest { power: 0 }));
}

#[test]
fn temperatures_are_clamped() {
    assert_eq!(clamp(5, 0, 3), 3);
    assert_eq!(clamp(-5, 0, 3), 0);
    assert_eq!(clamp(2, 0, 3), 2);
    assert_eq!(clamp_nozzle_temp(400), 350);
    assert_eq!(clamp_nozzle_temp(-1), 0);
    assert_eq!(
        temperature_targets(&TemperatureRequest { nozzle: Some(500), bed: Some(-20) }).unwrap(),
        (Some(350), Some(0))
    );
    assert_eq!(temperature_targets(&TemperatureRequest { nozzle: None, bed: Some(60) }).unwrap(), (None, Some(60)));
    assert_eq!(
        temperature_targets(&TemperatureRequest { nozzle: None, bed: None }).unwrap_err(),
        v("nozzle or bed target is required")
    );
}

#[test]
fn file_pages() {
    let q = FileListQuery { storage: None, page_number: Some(0), page_size: Some(-4), offset: None, limit: None };
    let p = file_page(&q);
    assert_eq!(p.storage, "local");
    assert_eq!((p.page_number, p.page_size), (1, 1));
    let q = FileListQuery { storage: Some("usb".to_string()), page_number: Some(3), page_size: None, offset: Some(120), limit: Some(50) };
    let p = file_page(&q);
    assert_eq!(p.storage, "usb");
    assert_eq!((p.page_number, p.page_size), (3, 50));
    let q = FileListQuery { storage: None, page_number: None, page_size: None, offset: Some(-5), limit: None };
    let p = file_page(&q);
    assert_eq!((p.page_number, p.page_size), (1, 50));
    assert_eq!(storage_or_local(&None), "local");
    assert_eq!(require_filename(""), Err(v("filename is required")));
    assert!(require_filename("a.gcode").is_ok());
}

#[test]
fn canvas_checks() {
    assert_eq!(ensure_canvas_safe(false, PrintState::Inactive), Err(AppError::Printer(PrinterError::NotConnected)));
    assert_eq!(
        ensure_canvas_safe(true, PrintState::Paused),
        Err(v("Canvas changes are disabled during an active print"))
    );
    assert!(ensure_canvas_safe(true, PrintState::Inactive).is_ok());
    assert_eq!(validate_canvas_ids(-1, 0, 0), Err(v("canvas_id must be >= 0")));
    assert_eq!(validate_canvas_ids(0, -1, 0), Err(v("tray_id must be >= 0")));
    assert_eq!(validate_canvas_ids(0, 0, 4), Err(v("tray_slot must be between 0 and 3")));
    assert!(validate_canvas_ids(0, 1, 3).is_ok());
}

#[test]
fn filament_colors() {
    assert_eq!(normalize_filament_color(&Some(" ##FF00aa ".to_string())).unwrap(), "FF00aa");
    assert_eq!(normalize_filament_color(&None).unwrap(), "");
    assert_eq!(
        normalize_filament_color(&Some("#12345".to_string())).unwrap_err(),
        v("filament_color must be a 6 digit hex color")
    );
    assert_eq!(
        normalize_filament_color(&Some("GG0000".to_string())).unwrap_err(),
        v("filament_color must be a 6 digit hex color")
    );
}

#[test]
fn timelapse_rules() {
    assert!(timelapse_status_allowed(NormalizedStatus::Idle, PrintState::Inactive));
    assert!(!timelapse_status_allowed(NormalizedStatus::Idle, PrintState::Printing));
    assert!(!timelapse_status_allowed(NormalizedStatus::Busy, PrintState::Inactive));
    assert_eq!(timelapse_path(" //video/a.mp4 ").unwrap(), "video/a.mp4");
    assert_eq!(timelapse_path("video/../x").unwrap_err(), v("invalid timelapse path"));
    assert_eq!(timelapse_path("video\\x").unwrap_err(), v("invalid timelapse path"));
    assert_eq!(timelapse_path("  ").unwrap_err(), v("invalid timelapse path"));
    assert_eq!(timelapse_path("etc/passwd").unwrap_err(), v("timelapse path must start with video/ or picture/"));
    assert_eq!(timelapse_file_name("video/my\"clip\".mp4"), "my'clip'.mp4");
    assert_eq!(timelapse_file_name("video/"), "timelapse.mp4");
    assert!(is_stream_content_type("Multipart/X-Mixed-Replace; boundary=x"));
    assert!(!is_stream_content_type("video/mp4"));
    assert_eq!(
        timelapse_busy_message("Printing"),
        "Timelapse download is only available when the printer is idle (current status: Printing)"
    );
}

#[test]
fn mjpeg_chunk_layout() {
    let chunk = encode_mjpeg_chunk(&vec![1u8, 2, 3]);
    let mut expected = b"--frame\r\nContent-Type: image/jpeg\r\nContent-Length: 3\r\n\r\n".to_vec();
    expected.extend_from_slice(&[1, 2, 3]);
    expected.extend_from_slice(b"\r\n");
    assert_eq!(chunk, expected);
    let empty = encode_mjpeg_chunk(&Vec::new());
    assert_eq!(empty, b"--frame\r\nContent-Type: image/jpeg\r\nContent-Length: 0\r\n\r\n\r\n".to_vec());
}

#[test]
fn debug_report() {
    let mut cfg = AppConfig::default();
    cfg.printer.ip = "10.0.0.3".to_string();
    cfg.printer.printer_id = "P9".to_string();
    cfg.active_printer_id = "cc2-P9".to_string();
    let r = debug_response(&cfg, "1.2.3", true, false, true, vec!["10.0.0".to_string()]);
    assert_eq!(r.version, "1.2.3");
    assert!(r.configured);
    assert_eq!(r.active_printer_id, "cc2-P9");
    assert_eq!(r.printer_count, 0);
    assert_eq!(r.printer_ip, "10.0.0.3");
    assert_eq!(r.printer_id, "P9");
    assert!(r.connected && !r.connected_raw && r.connected_ws);
    assert_eq!(r.detected_subnets, vec!["10.0.0".to_string()]);
    assert!(r.detection_enabled);
    assert_eq!(r.obico_url, "http://localhost:3333");
    assert_eq!(r.notification_destinations, 0);
}

#[test]
fn timelapse_download_steps() {
    assert!(check_timelapse_state(false, NormalizedStatus::Busy, PrintState::Printing, "Busy").is_ok());
    assert!(check_timelapse_state(true, NormalizedStatus::PrintCompleted, PrintState::Inactive, "Done").is_ok());
    assert_eq!(
        check_timelapse_state(true, NormalizedStatus::Busy, PrintState::Inactive, "Leveling"),
        Err(v("Timelapse download is only available when the printer is idle (current status: Leveling)"))
    );

    let mut cfg = AppConfig::default();
    assert_eq!(timelapse_target(&cfg), Err(AppError::Printer(PrinterError::NotConnected)));
    cfg.printer.ip = " 10.0.0.4 ".to_string();
    assert_eq!(timelapse_target(&cfg).unwrap(), ("10.0.0.4".to_string(), "123456".to_string()));
    cfg.printer.pincode = "Abc123".to_string();
    assert_eq!(timelapse_target(&cfg).unwrap().1, "Abc123");

    let mut search = TimelapseSearch::new();
    assert_eq!(search.unavailable(), v("timelapse unavailable: no response"));
    assert!(!search.consider(false, "404 Not Found", "text/plain"));
    assert_eq!(search.unavailable(), v("timelapse unavailable: 404 Not Found"));
    assert!(!search.consider(true, "200 OK", "multipart/x-mixed-replace; boundary=x"));
    assert_eq!(search.unavailable(), v("timelapse unavailable: 502 Bad Gateway"));
    assert!(search.consider(true, "200 OK", "video/mp4"));

    assert_eq!(timelapse_disposition("video/a\"b.mp4"), "attachment; filename=\"a'b.mp4\"");
}

#[test]
fn canvas_slot_information() {
    let req = CanvasSlotRequest {
        canvas_id: 0,
        tray_id: 1,
        tray_slot: 2,
        filament_name: Some("PLA Basic".to_string()),
        filament_type: None,
        filament_color: Some(" #00ff00".to_string()),
        brand: Some("Elegoo".to_string()),
        filament_code: None,
        min_nozzle_temp: Some(-10),
        max_nozzle_temp: Some(400),
    };
    let info = canvas_slot_info(&req).unwrap();
    assert_eq!(info.filament_name, "PLA Basic");
    assert_eq!(info.filament_type, "");
    assert_eq!(info.filament_color, "00ff00");
    assert_eq!(info.brand, "Elegoo");
    assert_eq!(info.filament_code, "");
    assert_eq!(info.min_nozzle_temp, Some(0));
    assert_eq!(info.max_nozzle_temp, Some(350));

    let mut bad = req.clone();
    bad.tray_slot = 7;
    assert_eq!(canvas_slot_info(&bad).unwrap_err(), v("tray_slot must be between 0 and 3"));
    let mut bad = req.clone();
    bad.filament_color = Some("red".to_string());
    assert_eq!(canvas_slot_info(&bad).unwrap_err(), v("filament_color must be a 6 digit hex color"));
}

#[test]
fn thumbnail_cache() {
    let mut c = ThumbnailCache::new();
    assert_eq!(c.cached("a.gcode"), None);
    c.remember("a.gcode".to_string(), String::new());
    assert_eq!(c.cached("a.gcode"), None);
    c.remember("a.gcode".to_string(), "data1".to_string());
    c.remember("b.gcode".to_string(), "data2".to_string());
    c.remember("a.gcode".to_string(), "data3".to_string());
    assert_eq!(c.cached("a.gcode"), Some("data3".to_string()));
    assert_eq!(c.cached("b.gcode"), Some("data2".to_string()));
}

#[test]
fn timelapse_urls_in_order() {
    let urls = timelapse_candidate_urls("10.0.0.4", "ab c", "video/a b.mp4").unwrap();
    assert_eq!(
        urls,
        vec![
            "http://10.0.0.4/download?X-Token=ab+c&file_name=video%2Fa+b.mp4".to_string(),
            "http://10.0.0.4/downloadFile/video/a%20b.mp4".to_string(),
            "http://10.0.0.4/download/video/a%20b.mp4".to_string(),
            "http://10.0.0.4/video/a%20b.mp4".to_string(),
        ]
    );
    assert_eq!(timelapse_candidate_urls("bad host", "t", "video/a.mp4"), Err(v("invalid printer url")));
    assert_eq!(join_under("/downloadFile/", "video/a.mp4"), "downloadFile/video/a.mp4");
    assert_eq!(join_under("//a/b//", "x"), "a/b/x");
    assert_eq!(join_under("/", "video/a.mp4"), "video/a.mp4");
}
