//! The diagnostics report: a summary of the configuration, the printer link
//! and the subnets that a scan would probe.
use vstd::prelude::*;

use crate::config::AppConfig;
use crate::text::{copy_string, lit};

verus! {

#[derive(Debug, Clone)]
pub struct DebugResponse {
    pub version: String,
    pub configured: bool,
    pub active_printer_id: String,
    pub printer_count: usize,
    pub printer_ip: String,
    pub printer_id: String,
    pub connected: bool,
    pub connected_raw: bool,
    pub connected_ws: bool,
    pub detected_subnets: Vec<String>,
    pub detection_enabled: bool,
    pub obico_url: String,
    pub notification_destinations: usize,
}

/// `get_debug`: the report for a configuration, the link flags of the printer
/// state and the subnets detected on this host.
pub fn debug_response(
    config: &AppConfig,
    version: &str,
    connected: bool,
    connected_raw: bool,
    connected_ws: bool,
    detected_subnets: Vec<String>,
) -> (r: DebugResponse)
    ensures
        r.version@ == version@,
        r.configured == (config.printer.ip@.len() > 0),
        r.active_printer_id@ == config.active_printer_id@,
        r.printer_count == config.printers@.len(),
        r.printer_ip@ == config.printer.ip@,
        r.printer_id@ == config.printer.printer_id@,
        r.connected == connected,
        r.connected_raw == connected_raw,
        r.connected_ws == connected_ws,
        r.detected_subnets@ == detected_subnets@,
        r.detection_enabled == config.detection.enabled,
        r.obico_url@ == config.detection.obico_url@,
        r.notification_destinations == config.notifications.destinations@.len(),
{
    DebugResponse {
        version: lit(version),
        configured: !config.printer.ip.as_str().is_empty(),
        active_printer_id: copy_string(&config.active_printer_id),
        printer_count: config.printers.len(),
        printer_ip: copy_string(&config.printer.ip),
        printer_id: copy_string(&config.printer.printer_id),
        connected,
        connected_raw,
        connected_ws,
        detected_subnets,
        detection_enabled: config.detection.enabled,
        obico_url: copy_string(&config.detection.obico_url),
        notification_destinations: config.notifications.destinations.len(),
    }
}

} // verus!
