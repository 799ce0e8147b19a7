//! The application configuration: printer profiles, detection, notification
//! destinations, server and logging settings, and the rules that keep the
//! active printer and its stored profile in agreement.
use vstd::prelude::*;

use crate::error::ConfigError;
use crate::text::{
    all_ascii_alnum, blank, chars_of, concat2, is_ascii_alnum, is_ascii_alphanumeric, is_blank, is_ws, lit,
    push_char, same_text, trim, trim_end, trim_start, trim_str,
};

verus! {

// ---------------------------------------------------------------------------
// Types
// ---------------------------------------------------------------------------

#[derive(Debug, Clone)]
pub struct AppConfig {
    pub printer: PrinterConfig,
    pub printers: Vec<PrinterProfile>,
    pub active_printer_id: String,
    pub detection: DetectionConfig,
    pub notifications: NotificationsConfig,
    pub server: ServerConfig,
    pub logging: LoggingConfig,
    pub onboarding_complete: bool,
}

#[derive(Debug, Clone)]
pub struct PrinterConfig {
    pub ip: String,
    pub printer_id: String,
    pub pincode: String,
}

#[derive(Debug, Clone)]
pub struct PrinterProfile {
    pub id: String,
    pub label: String,
    pub ip: String,
    pub printer_id: String,
    pub pincode: String,
}

/// A rectangle of the camera image, in normalized coordinates. Each
/// coordinate is held as the IEEE-754 bit pattern of an `f64`.
#[derive(Debug, Clone, Copy)]
pub struct ExcludeZone {
    pub x1_bits: u64,
    pub y1_bits: u64,
    pub x2_bits: u64,
    pub y2_bits: u64,
}

/// Failure detection settings. The two thresholds (warn, then pause) are held
/// as the IEEE-754 bit patterns of `f64` values.
#[derive(Debug, Clone)]
pub struct DetectionConfig {
    pub enabled: bool,
    pub interval_secs: u32,
    pub notify_threshold_bits: u64,
    pub pause_threshold_bits: u64,
    pub confirmation_frames: u32,
    pub obico_url: String,
    pub exclude_zones: Vec<ExcludeZone>,
}

#[derive(Debug, Clone, Copy, PartialEq, Eq, Structural)]
pub enum DestinationKind {
    Ntfy,
    Discord,
    Telegram,
    Webhook,
}

/// Which printer events a destination is told about.
#[derive(Debug, Clone, Copy, PartialEq, Eq, Structural)]
pub struct EventToggles {
    pub print_started: bool,
    pub print_finished: bool,
    pub print_paused: bool,
    pub failure_notify: bool,
    pub failure_pause: bool,
    pub auto_paused: bool,
    pub camera_lost: bool,
    pub camera_restored: bool,
    pub emergency_stop: bool,
    pub machine_error: bool,
    pub id_not_match: bool,
    pub auth_error: bool,
    pub print_resumed: bool,
    pub print_stopped: bool,
    pub print_finished_ok: bool,
    pub progress_milestone: bool,
    pub connected: bool,
    pub disconnected: bool,
    pub detection_engine_error: bool,
}

#[derive(Debug, Clone)]
pub struct NotificationDestination {
    pub id: String,
    pub kind: DestinationKind,
    pub enabled: bool,
    pub label: String,
    pub ntfy_server: Option<String>,
    pub ntfy_topic: Option<String>,
    /// URL opened when user taps the notification
    pub ntfy_tap_url: Option<String>,
    pub discord_webhook_url: Option<String>,
    pub telegram_bot_token: Option<String>,
    pub telegram_chat_id: Option<String>,
    pub telegram_thread_id: Option<String>,
    pub webhook_url: Option<String>,
    /// 0 disables percentage notifications. Values are clamped to 5..100.
    pub progress_interval: u8,
    pub attach_snapshot: bool,
    pub toggles: EventToggles,
}

#[derive(Debug, Clone)]
pub struct NotificationsConfig {
    pub destinations: Vec<NotificationDestination>,
}

#[derive(Debug, Clone)]
pub struct ServerConfig {
    pub host: String,
    pub port: u16,
}

#[derive(Debug, Clone)]
pub struct LoggingConfig {
    pub level: String,
}

// ---------------------------------------------------------------------------
// Views
// ---------------------------------------------------------------------------

pub struct PrinterConfigView {
    pub ip: Seq<char>,
    pub printer_id: Seq<char>,
    pub pincode: Seq<char>,
}

pub struct ProfileView {
    pub id: Seq<char>,
    pub label: Seq<char>,
    pub ip: Seq<char>,
    pub printer_id: Seq<char>,
    pub pincode: Seq<char>,
}

/// The part of the configuration that names and selects printers.
pub struct ProfilesModel {
    pub printer: PrinterConfigView,
    pub printers: Seq<ProfileView>,
    pub active: Seq<char>,
}

impl View for PrinterConfig {
    type V = PrinterConfigView;

    open spec fn view(&self) -> PrinterConfigView {
        PrinterConfigView { ip: self.ip@, printer_id: self.printer_id@, pincode: self.pincode@ }
    }
}

impl View for PrinterProfile {
    type V = ProfileView;

    open spec fn view(&self) -> ProfileView {
        ProfileView {
            id: self.id@,
            label: self.label@,
            ip: self.ip@,
            printer_id: self.printer_id@,
            pincode: self.pincode@,
        }
    }
}

pub open spec fn profiles_view(s: Seq<PrinterProfile>) -> Seq<ProfileView> {
    s.map_values(|p: PrinterProfile| p@)
}

impl AppConfig {
    pub open spec fn profiles_model(&self) -> ProfilesModel {
        ProfilesModel {
            printer: self.printer@,
            printers: profiles_view(self.printers@),
            active: self.active_printer_id@,
        }
    }

    /// Everything outside the printer selection is the same in both.
    pub open spec fn same_settings(&self, other: &AppConfig) -> bool {
        &&& self.detection == other.detection
        &&& self.notifications == other.notifications
        &&& self.server == other.server
        &&& self.logging == other.logging
        &&& self.onboarding_complete == other.onboarding_complete
    }
}

// ---------------------------------------------------------------------------
// Profile rules, stated over views
// ---------------------------------------------------------------------------

/// `default_printer_label`.
pub open spec fn label_spec(ip: Seq<char>, printer_id: Seq<char>) -> Seq<char> {
    if printer_id.len() > 0 {
        "CC2 "@ + printer_id
    } else if ip.len() > 0 {
        "CC2 "@ + ip
    } else {
        "Elegoo CC2"@
    }
}

pub open spec fn dots_to_dashes(s: Seq<char>) -> Seq<char> {
    s.map_values(|c: char| if c == '.' { '-' } else { c })
}

/// `printer_profile_id`.
pub open spec fn profile_id_spec(ip: Seq<char>, printer_id: Seq<char>) -> Seq<char> {
    if !is_blank(printer_id) {
        "cc2-"@ + trim(printer_id)
    } else {
        "cc2-"@ + dots_to_dashes(trim(ip))
    }
}

/// `PrinterProfile::from_config`.
pub open spec fn profile_of(id: Seq<char>, cfg: PrinterConfigView) -> ProfileView {
    ProfileView {
        id,
        label: label_spec(cfg.ip, cfg.printer_id),
        ip: cfg.ip,
        printer_id: cfg.printer_id,
        pincode: cfg.pincode,
    }
}

/// `PrinterProfile::to_config`.
pub open spec fn config_of(p: ProfileView) -> PrinterConfigView {
    PrinterConfigView { ip: p.ip, printer_id: p.printer_id, pincode: p.pincode }
}

pub open spec fn is_first_with_id(ps: Seq<ProfileView>, id: Seq<char>, i: int) -> bool {
    &&& 0 <= i < ps.len()
    &&& ps[i].id == id
    &&& forall|j: int| 0 <= j < i ==> ps[j].id != id
}

pub open spec fn has_id(ps: Seq<ProfileView>, id: Seq<char>) -> bool {
    exists|i: int| 0 <= i < ps.len() && ps[i].id == id
}

/// Index of the first profile with the given id (meaningful when `has_id`).
pub open spec fn first_with_id(ps: Seq<ProfileView>, id: Seq<char>) -> int {
    choose|i: int| is_first_with_id(ps, id, i)
}

pub proof fn lemma_first_with_id(ps: Seq<ProfileView>, id: Seq<char>)
    requires
        has_id(ps, id),
    ensures
        is_first_with_id(ps, id, first_with_id(ps, id)),
    decreases ps.len(),
{
    if ps[0].id == id {
        assert(is_first_with_id(ps, id, 0));
    } else {
        let k = choose|i: int| 0 <= i < ps.len() && ps[i].id == id;
        assert(has_id(ps.drop_first(), id)) by {
            assert(ps.drop_first()[k - 1] == ps[k]);
        }
        lemma_first_with_id(ps.drop_first(), id);
        let j = first_with_id(ps.drop_first(), id);
        assert(is_first_with_id(ps, id, j + 1)) by {
            assert forall|m: int| 0 <= m < j + 1 implies ps[m].id != id by {
                if m > 0 {
                    assert(ps[m] == ps.drop_first()[m - 1]);
                }
            }
        }
    }
}

pub proof fn lemma_first_unique(ps: Seq<ProfileView>, id: Seq<char>, i: int)
    requires
        is_first_with_id(ps, id, i),
    ensures
        first_with_id(ps, id) == i,
        has_id(ps, id),
{
    assert(has_id(ps, id));
    lemma_first_with_id(ps, id);
    let k = first_with_id(ps, id);
    if k < i {
        assert(ps[k].id != id);
    } else if k > i {
        assert(ps[i].id != id);
    }
}

/// `sync_active_printer_profile`: pick a profile when none is active, load the
/// active profile into the live printer settings, or record the live printer
/// as a new profile.
pub open spec fn sync_model(m: ProfilesModel) -> ProfilesModel {
    let a0 = if m.active.len() == 0 && m.printers.len() > 0 {
        m.printers[0].id
    } else {
        m.active
    };
    if has_id(m.printers, a0) {
        ProfilesModel {
            printer: config_of(m.printers[first_with_id(m.printers, a0)]),
            printers: m.printers,
            active: a0,
        }
    } else if m.printer.ip.len() > 0 {
        let id = profile_id_spec(m.printer.ip, m.printer.printer_id);
        ProfilesModel {
            printer: m.printer,
            printers: m.printers.push(profile_of(id, m.printer)),
            active: id,
        }
    } else {
        ProfilesModel { printer: m.printer, printers: m.printers, active: a0 }
    }
}

/// The profile that `upsert_active_printer_profile` stores under `id`: the live
/// printer settings, keeping the stored label when it is not blank.
pub open spec fn upserted_profile(ps: Seq<ProfileView>, id: Seq<char>, printer: PrinterConfigView) -> ProfileView {
    let base = profile_of(id, printer);
    if has_id(ps, id) && !is_blank(ps[first_with_id(ps, id)].label) {
        ProfileView { label: ps[first_with_id(ps, id)].label, ..base }
    } else {
        base
    }
}

/// `upsert_active_printer_profile`: store the live printer settings in the
/// active profile, creating it when missing.
pub open spec fn upsert_model(m: ProfilesModel) -> ProfilesModel {
    if m.printer.ip.len() == 0 {
        m
    } else {
        let id = if m.active.len() == 0 {
            profile_id_spec(m.printer.ip, m.printer.printer_id)
        } else {
            m.active
        };
        let p = upserted_profile(m.printers, id, m.printer);
        let printers = if has_id(m.printers, id) {
            m.printers.update(first_with_id(m.printers, id), p)
        } else {
            m.printers.push(p)
        };
        ProfilesModel { printer: m.printer, printers, active: id }
    }
}

// ---------------------------------------------------------------------------
// Executable functions
// ---------------------------------------------------------------------------

impl PrinterConfig {
    pub fn duplicate(&self) -> (r: PrinterConfig)
        ensures
            r@ == self@,
    {
        PrinterConfig {
            ip: self.ip.clone(),
            printer_id: self.printer_id.clone(),
            pincode: self.pincode.clone(),
        }
    }
}

impl PrinterProfile {
    pub fn from_config(id: String, cfg: &PrinterConfig) -> (r: PrinterProfile)
        ensures
            r@ == profile_of(id@, cfg@),
    {
        PrinterProfile {
            id,
            label: default_printer_label(cfg.ip.as_str(), cfg.printer_id.as_str()),
            ip: cfg.ip.clone(),
            printer_id: cfg.printer_id.clone(),
            pincode: cfg.pincode.clone(),
        }
    }

    pub fn to_config(&self) -> (r: PrinterConfig)
        ensures
            r@ == config_of(self@),
    {
        PrinterConfig {
            ip: self.ip.clone(),
            printer_id: self.printer_id.clone(),
            pincode: self.pincode.clone(),
        }
    }

    pub fn duplicate(&self) -> (r: PrinterProfile)
        ensures
            r@ == self@,
    {
        PrinterProfile {
            id: self.id.clone(),
            label: self.label.clone(),
            ip: self.ip.clone(),
            printer_id: self.printer_id.clone(),
            pincode: self.pincode.clone(),
        }
    }
}

pub fn default_printer_label(ip: &str, printer_id: &str) -> (r: String)
    ensures
        r@ == label_spec(ip@, printer_id@),
{
    if !printer_id.is_empty() {
        concat2("CC2 ", printer_id)
    } else if !ip.is_empty() {
        concat2("CC2 ", ip)
    } else {
        lit("Elegoo CC2")
    }
}

fn dashes_for_dots(s: &String) -> (r: String)
    ensures
        r@ == dots_to_dashes(s@),
{
    let v = chars_of(s.as_str());
    let mut r = String::new();
    let mut i: usize = 0;
    while i < v.len()
        invariant
            v@ == s@,
            0 <= i <= v.len(),
            r@ == dots_to_dashes(v@.take(i as int)),
        decreases v.len() - i,
    {
        let c = if v[i] == '.' { '-' } else { v[i] };
        push_char(&mut r, c);
        assert(dots_to_dashes(v@.take(i + 1)) =~= dots_to_dashes(v@.take(i as int)).push(c));
        i = i + 1;
    }
    assert(v@.take(v@.len() as int) =~= v@);
    r
}

pub fn printer_profile_id(ip: &str, printer_id: &str) -> (r: String)
    ensures
        r@ == profile_id_spec(ip@, printer_id@),
{
    let pid = trim_str(printer_id);
    if !pid.as_str().is_empty() {
        concat2("cc2-", pid.as_str())
    } else {
        let t = trim_str(ip);
        let d = dashes_for_dots(&t);
        concat2("cc2-", d.as_str())
    }
}

/// Index of the first profile with the given id.
pub fn find_profile(ps: &Vec<PrinterProfile>, id: &str) -> (r: Option<usize>)
    ensures
        match r {
            Some(i) => is_first_with_id(profiles_view(ps@), id@, i as int),
            None => !has_id(profiles_view(ps@), id@),
        },
{
    let ghost pv = profiles_view(ps@);
    let mut i: usize = 0;
    while i < ps.len()
        invariant
            0 <= i <= ps.len(),
            pv == profiles_view(ps@),
            forall|j: int| 0 <= j < i ==> pv[j].id != id@,
        decreases ps.len() - i,
    {
        if same_text(ps[i].id.as_str(), id) {
            return Some(i);
        }
        i = i + 1;
    }
    None
}

proof fn lemma_profiles_view_update(ps: Seq<PrinterProfile>, i: int, p: PrinterProfile)
    requires
        0 <= i < ps.len(),
    ensures
        profiles_view(ps.update(i, p)) == profiles_view(ps).update(i, p@),
{
    assert(profiles_view(ps.update(i, p)) =~= profiles_view(ps).update(i, p@));
}

proof fn lemma_profiles_view_push(ps: Seq<PrinterProfile>, p: PrinterProfile)
    ensures
        profiles_view(ps.push(p)) == profiles_view(ps).push(p@),
{
    assert(profiles_view(ps.push(p)) =~= profiles_view(ps).push(p@));
}

pub fn sync_active_printer_profile(config: &mut AppConfig)
    ensures
        final(config).profiles_model() == sync_model(old(config).profiles_model()),
        final(config).same_settings(old(config)),
{
    let ghost m = old(config).profiles_model();
    if config.active_printer_id.as_str().is_empty() && config.printers.len() > 0 {
        config.active_printer_id = config.printers[0].id.clone();
    }
    let found = find_profile(&config.printers, config.active_printer_id.as_str());
    match found {
        Some(i) => {
            proof {
                lemma_first_unique(profiles_view(config.printers@), config.active_printer_id@, i as int);
            }
            config.printer = config.printers[i].to_config();
            return;
        },
        None => {},
    }
    if !config.printer.ip.as_str().is_empty() {
        let id = printer_profile_id(config.printer.ip.as_str(), config.printer.printer_id.as_str());
        config.active_printer_id = id.clone();
        let p = PrinterProfile::from_config(id, &config.printer);
        proof {
            lemma_profiles_view_push(config.printers@, p);
        }
        config.printers.push(p);
    }
}

pub fn upsert_active_printer_profile(config: &mut AppConfig)
    ensures
        final(config).profiles_model() == upsert_model(old(config).profiles_model()),
        final(config).same_settings(old(config)),
{
    if config.printer.ip.as_str().is_empty() {
        return;
    }
    let id = if config.active_printer_id.as_str().is_empty() {
        printer_profile_id(config.printer.ip.as_str(), config.printer.printer_id.as_str())
    } else {
        config.active_printer_id.clone()
    };
    config.active_printer_id = id.clone();
    let mut profile = PrinterProfile::from_config(id.clone(), &config.printer);
    let found = find_profile(&config.printers, id.as_str());
    match found {
        Some(i) => {
            proof {
                lemma_first_unique(profiles_view(config.printers@), id@, i as int);
            }
            if !blank(config.printers[i].label.as_str()) {
                profile.label = config.printers[i].label.clone();
            }
            proof {
                lemma_profiles_view_update(config.printers@, i as int, profile);
            }
            config.printers.set(i, profile);
        },
        None => {
            proof {
                lemma_profiles_view_push(config.printers@, profile);
            }
            config.printers.push(profile);
        },
    }
}

/// The printer access code used when none is configured.
pub open spec fn default_password() -> Seq<char> {
    "123456"@
}

/// A printer access code: six ASCII letters or digits.
pub open spec fn valid_pincode(p: Seq<char>) -> bool {
    p.len() == 6 && all_ascii_alnum(p)
}

impl AppConfig {
    /// The access code of the live printer, or the factory default.
    pub fn printer_password(&self) -> (r: &str)
        ensures
            r@ == (if self.printer.pincode@.len() > 0 { self.printer.pincode@ } else { default_password() }),
    {
        if !self.printer.pincode.as_str().is_empty() {
            self.printer.pincode.as_str()
        } else {
            "123456"
        }
    }
}

/// pincode: 6 ascii alnum
pub fn validate_pincode(p: &str) -> (r: Result<(), ConfigError>)
    ensures
        r is Ok <==> valid_pincode(p@),
        r is Err ==> r == Err::<(), ConfigError>(ConfigError::InvalidPincode),
{
    let v = chars_of(p);
    let mut i: usize = 0;
    while i < v.len()
        invariant
            v@ == p@,
            0 <= i <= v.len(),
            forall|j: int| 0 <= j < i ==> is_ascii_alnum(#[trigger] v@[j]),
        decreases v.len() - i,
    {
        if !is_ascii_alphanumeric(v[i]) {
            return Err(ConfigError::InvalidPincode);
        }
        i = i + 1;
    }
    proof {
        assert(vstd::string::is_ascii(p)) by {
            assert forall|j: int| 0 <= j < p@.len() implies '\0' <= #[trigger] p@[j] <= '\u{7f}' by {
                assert(is_ascii_alnum(v@[j]));
            }
        }
        vstd::string::is_ascii_spec_bytes(p);
    }
    if p.len() != 6 {
        return Err(ConfigError::InvalidPincode);
    }
    Ok(())
}

pub fn default_true() -> (r: bool)
    ensures
        r,
{
    true
}

/// Bit pattern of the default warning threshold, 0.5.
pub fn default_notify_threshold_bits() -> (r: u64)
    ensures
        r == 0x3FE0_0000_0000_0000u64,
{
    0x3FE0_0000_0000_0000u64
}

/// Bit pattern of the default pause threshold, 0.7.
pub fn default_pause_threshold_bits() -> (r: u64)
    ensures
        r == 0x3FE6_6666_6666_6666u64,
{
    0x3FE6_6666_6666_6666u64
}

impl EventToggles {
    /// Every event on except progress milestones.
    pub open spec fn is_default(self) -> bool {
        &&& self.print_started
        &&& self.print_finished
        &&& self.print_paused
        &&& self.failure_notify
        &&& self.failure_pause
        &&& self.auto_paused
        &&& self.camera_lost
        &&& self.camera_restored
        &&& self.emergency_stop
        &&& self.machine_error
        &&& self.id_not_match
        &&& self.auth_error
        &&& self.print_resumed
        &&& self.print_stopped
        &&& self.print_finished_ok
        &&& !self.progress_milestone
        &&& self.connected
        &&& self.disconnected
        &&& self.detection_engine_error
    }
}

impl Default for EventToggles {
    fn default() -> (r: Self)
        ensures
            r.is_default(),
    {
        Self {
            print_started: true,
            print_finished: true,
            print_paused: true,
            failure_notify: true,
            failure_pause: true,
            auto_paused: true,
            camera_lost: true,
            camera_restored: true,
            emergency_stop: true,
            machine_error: true,
            id_not_match: true,
            auth_error: true,
            print_resumed: true,
            print_stopped: true,
            print_finished_ok: true,
            progress_milestone: false,
            connected: true,
            disconnected: true,
            detection_engine_error: true,
        }
    }
}

impl Default for ExcludeZone {
    fn default() -> (r: Self)
        ensures
            r.x1_bits == 0 && r.y1_bits == 0 && r.x2_bits == 0 && r.y2_bits == 0,
    {
        ExcludeZone { x1_bits: 0, y1_bits: 0, x2_bits: 0, y2_bits: 0 }
    }
}

impl Default for NotificationsConfig {
    fn default() -> (r: Self)
        ensures
            r.destinations@.len() == 0,
    {
        NotificationsConfig { destinations: Vec::new() }
    }
}

impl AppConfig {
    /// The configuration of a fresh installation.
    pub open spec fn is_factory_default(&self) -> bool {
        &&& self.printer.ip@.len() == 0
        &&& self.printer.printer_id@.len() == 0
        &&& self.printer.pincode@.len() == 0
        &&& self.printers@.len() == 0
        &&& self.active_printer_id@.len() == 0
        &&& self.detection.enabled
        &&& self.detection.interval_secs == 15
        &&& self.detection.notify_threshold_bits == 0x3FE0_0000_0000_0000u64
        &&& self.detection.pause_threshold_bits == 0x3FE6_6666_6666_6666u64
        &&& self.detection.confirmation_frames == 2
        &&& self.detection.obico_url@ == "http://localhost:3333"@
        &&& self.detection.exclude_zones@.len() == 0
        &&& self.notifications.destinations@.len() == 0
        &&& self.server.host@ == "0.0.0.0"@
        &&& self.server.port == 8484
        &&& self.logging.level@ == "info"@
        &&& !self.onboarding_complete
    }
}

impl Default for AppConfig {
    fn default() -> (r: Self)
        ensures
            r.is_factory_default(),
    {
        Self {
            printer: PrinterConfig { ip: String::new(), printer_id: String::new(), pincode: String::new() },
            printers: Vec::new(),
            active_printer_id: String::new(),
            detection: DetectionConfig {
                enabled: true,
                interval_secs: 15,
                notify_threshold_bits: default_notify_threshold_bits(),
                pause_threshold_bits: default_pause_threshold_bits(),
                confirmation_frames: 2,
                obico_url: lit("http://localhost:3333"),
                exclude_zones: Vec::new(),
            },
            notifications: NotificationsConfig { destinations: Vec::new() },
            server: ServerConfig { host: lit("0.0.0.0"), port: 8484 },
            logging: LoggingConfig { level: lit("info") },
            onboarding_complete: false,
        }
    }
}

// ---------------------------------------------------------------------------
// Laws
// ---------------------------------------------------------------------------

proof fn lemma_not_blank(s: Seq<char>)
    requires
        s.len() > 0,
        !is_ws(s[0]),
    ensures
        !is_blank(s),
    decreases s.len(),
{
    assert(trim_start(s) == s);
    lemma_trim_end_keeps_first(s);
}

proof fn lemma_trim_end_keeps_first(s: Seq<char>)
    requires
        s.len() > 0,
        !is_ws(s[0]),
    ensures
        trim_end(s).len() > 0,
    decreases s.len(),
{
    if is_ws(s.last()) {
        assert(s.len() > 1);
        lemma_trim_end_keeps_first(s.drop_last());
    }
}

/// Every default printer label has a visible character.
pub proof fn lemma_label_not_blank(ip: Seq<char>, printer_id: Seq<char>)
    ensures
        !is_blank(label_spec(ip, printer_id)),
{
    reveal_strlit("CC2 ");
    reveal_strlit("Elegoo CC2");
    let l = label_spec(ip, printer_id);
    assert(l[0] == 'C' || l[0] == 'E');
    lemma_not_blank(l);
}

/// A profile made from printer settings gives those settings back.
pub proof fn law_profile_config_round_trip(id: Seq<char>, cfg: PrinterConfigView)
    ensures
        config_of(profile_of(id, cfg)) == cfg,
{
}

/// After an upsert the active id names a stored profile that holds exactly the
/// live printer settings.
pub proof fn law_upsert_stores_live_printer(m: ProfilesModel)
    requires
        m.printer.ip.len() > 0,
    ensures
        has_id(upsert_model(m).printers, upsert_model(m).active),
        config_of(upsert_model(m).printers[first_with_id(upsert_model(m).printers, upsert_model(m).active)])
            == m.printer,
{
    let r = upsert_model(m);
    let id = r.active;
    if has_id(m.printers, id) {
        lemma_first_with_id(m.printers, id);
        let i = first_with_id(m.printers, id);
        assert(is_first_with_id(r.printers, id, i));
        lemma_first_unique(r.printers, id, i);
    } else {
        let i = m.printers.len() as int;
        assert(is_first_with_id(r.printers, id, i));
        lemma_first_unique(r.printers, id, i);
    }
}

/// Upserting the active profile twice changes nothing the second time.
pub proof fn law_upsert_idempotent(m: ProfilesModel)
    ensures
        upsert_model(upsert_model(m)) == upsert_model(m),
{
    if m.printer.ip.len() > 0 {
        let r = upsert_model(m);
        let id = r.active;
        law_upsert_stores_live_printer(m);
        assert(id.len() > 0) by {
            reveal_strlit("cc2-");
        }
        let i = first_with_id(r.printers, id);
        lemma_first_with_id(r.printers, id);
        let p = r.printers[i];
        if has_id(m.printers, id) {
            lemma_first_with_id(m.printers, id);
            assert(is_first_with_id(r.printers, id, first_with_id(m.printers, id)));
            lemma_first_unique(r.printers, id, first_with_id(m.printers, id));
        } else {
            assert(is_first_with_id(r.printers, id, m.printers.len() as int));
            lemma_first_unique(r.printers, id, m.printers.len() as int);
        }
        lemma_label_not_blank(m.printer.ip, m.printer.printer_id);
        assert(!is_blank(p.label));
        assert(upserted_profile(r.printers, id, m.printer) == p);
        assert(r.printers.update(i, p) =~= r.printers);
    }
}

/// When the (non-empty) active id names a stored profile, syncing loads that profile's
/// settings into the live printer settings and keeps the selection.
pub proof fn law_sync_loads_active_profile(m: ProfilesModel)
    requires
        m.active.len() > 0,
        has_id(m.printers, m.active),
    ensures
        sync_model(m).active == m.active,
        sync_model(m).printers == m.printers,
        sync_model(m).printer == config_of(m.printers[first_with_id(m.printers, m.active)]),
{
}

/// After a sync the active id names a stored profile whenever the live printer
/// has an address, the previous active id named a profile, or no printer was
/// active while profiles existed.
pub proof fn law_sync_selects_profile(m: ProfilesModel)
    requires
        m.printer.ip.len() > 0 || has_id(m.printers, m.active) || (m.active.len() == 0
            && m.printers.len() > 0),
    ensures
        has_id(sync_model(m).printers, sync_model(m).active),
{
    let a0 = if m.active.len() == 0 && m.printers.len() > 0 {
        m.printers[0].id
    } else {
        m.active
    };
    if m.active.len() == 0 && m.printers.len() > 0 {
        assert(has_id(m.printers, a0));
    }
    if !has_id(m.printers, a0) {
        let r = sync_model(m);
        assert(r.printers[m.printers.len() as int].id == r.active);
    }
}

} // verus!
