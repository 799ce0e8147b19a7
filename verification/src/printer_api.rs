//! Checks and derived values of the printer control API: axes, temperature
//! targets, file list paging, canvas (multi-material unit) edits and
//! timelapse downloads.
use vstd::prelude::*;

use crate::config::{default_password, AppConfig};
use crate::error::{AppError, PrinterError};
use crate::keyed::{find_key, key_map, lemma_key_index, set_key};
use crate::events::{NormalizedStatus, PrintState};
use crate::text::{
    all_ascii_hex, ascii_lower_seq, ascii_lowercase, chars_of, is_ascii_hex, is_ascii_hexdigit, lit,
    push_char, push_text, string_of_range, trim, trim_str, starts_with, text_starts_with,
    contains_chars, contains_text,
};

verus! {

// ---------------------------------------------------------------------------
// Request bodies and queries
// ---------------------------------------------------------------------------

/// A request to start a print. The entries of `slot_map` (which canvas slot
/// feeds which tool) are of the type that the printer link defines for them.
#[derive(Debug, Clone)]
pub struct PrintRequest<S> {
    pub filename: String,
    pub storage_media: String,
    pub plate: String,
    pub tray_id: Option<i64>,
    /// 0-based canvas slot
    pub tray_slot: Option<i64>,
    pub canvas_id: i64,
    pub slot_map: Vec<S>,
    pub timelapse: bool,
    pub bedlevel_force: bool,
}

#[derive(Debug, Clone)]
pub struct HomeRequest {
    pub axes: String,
}

#[derive(Debug, Clone)]
pub struct LedRequest {
    pub power: i64,
}

#[derive(Debug, Clone)]
pub struct FanRequest {
    pub name: String,
    pub speed: u8,
}

#[derive(Debug, Clone)]
pub struct SpeedModeRequest {
    pub mode: u8,
}

#[derive(Debug, Clone)]
pub struct TemperatureRequest {
    pub nozzle: Option<i64>,
    pub bed: Option<i64>,
}

#[derive(Debug, Clone)]
pub struct FileListQuery {
    pub storage: Option<String>,
    // native page semantics (1-based)
    pub page_number: Option<i64>,
    pub page_size: Option<i64>,
    // legacy offset/limit  -  translated to page for backwards compat
    pub offset: Option<i64>,
    pub limit: Option<i64>,
}

#[derive(Debug, Clone)]
pub struct FileDetailQuery {
    pub storage: Option<String>,
    pub filename: String,
}

#[derive(Debug, Clone)]
pub struct AutoRefillRequest {
    pub enabled: bool,
}

#[derive(Debug, Clone)]
pub struct CanvasTrayRequest {
    pub canvas_id: i64,
    pub tray_id: i64,
    pub tray_slot: i64,
}

#[derive(Debug, Clone)]
pub struct CanvasSlotRequest {
    pub canvas_id: i64,
    pub tray_id: i64,
    pub tray_slot: i64,
    pub filament_name: Option<String>,
    pub filament_type: Option<String>,
    pub filament_color: Option<String>,
    pub brand: Option<String>,
    pub filament_code: Option<String>,
    pub min_nozzle_temp: Option<i64>,
    pub max_nozzle_temp: Option<i64>,
}

#[derive(Debug, Clone)]
pub struct ThumbnailQuery {
    pub storage: Option<String>,
    pub filename: String,
}

#[derive(Debug, Clone)]
pub struct TimelapseQuery {
    pub path: String,
}

pub fn default_plate() -> (r: String)
    ensures
        r@ == "textured"@,
{
    lit("textured")
}

pub fn default_true() -> (r: bool)
    ensures
        r,
{
    true
}

fn validation(msg: &str) -> (r: AppError)
    ensures
        r matches AppError::Validation(m) && m@ == msg@,
{
    AppError::Validation(lit(msg))
}

// ---------------------------------------------------------------------------
// Axes
// ---------------------------------------------------------------------------

pub open spec fn is_axis_char(c: char) -> bool {
    c == 'x' || c == 'y' || c == 'z' || c == 'X' || c == 'Y' || c == 'Z'
}

/// Only `x`, `y`, `z`, `X`, `Y` and `Z` lowercase to `x`, `y` or `z`; so a
/// trimmed text lowercases to a combination of x, y, z exactly when this holds.
pub open spec fn axes_valid(t: Seq<char>) -> bool {
    t.len() > 0 && forall|i: int| 0 <= i < t.len() ==> is_axis_char(#[trigger] t[i])
}

fn all_axis_chars(s: &str) -> (r: bool)
    ensures
        r == (forall|i: int| 0 <= i < s@.len() ==> is_axis_char(#[trigger] s@[i])),
{
    let v = chars_of(s);
    let mut i: usize = 0;
    while i < v.len()
        invariant
            v@ == s@,
            0 <= i <= v.len(),
            forall|j: int| 0 <= j < i ==> is_axis_char(#[trigger] v@[j]),
        decreases v.len() - i,
    {
        let c = v[i];
        if !(c == 'x' || c == 'y' || c == 'z' || c == 'X' || c == 'Y' || c == 'Z') {
            return false;
        }
        i = i + 1;
    }
    true
}

/// `home_axes`: the axes to home, lowercased; a non-empty combination of x, y, z.
pub fn validate_home_axes(axes: &str) -> (r: Result<String, AppError>)
    ensures
        match r {
            Ok(a) => axes_valid(trim(axes@)) && a@ == ascii_lower_seq(trim(axes@)),
            Err(e) => !axes_valid(trim(axes@)) && (e matches AppError::Validation(m) && m@
                == "axes must be a non-empty combination of x, y, z"@),
        },
{
    let t = trim_str(axes);
    if t.as_str().is_empty() || !all_axis_chars(t.as_str()) {
        return Err(validation("axes must be a non-empty combination of x, y, z"));
    }
    Ok(ascii_lowercase(t.as_str()))
}

/// `jog_axis`: the axis to move, lowercased; exactly one of x, y, z.
pub fn validate_jog_axis(axis: &str) -> (r: Result<String, AppError>)
    ensures
        match r {
            Ok(a) => trim(axis@).len() == 1 && is_axis_char(trim(axis@)[0]) && a@ == ascii_lower_seq(
                trim(axis@),
            ),
            Err(e) => !(trim(axis@).len() == 1 && is_axis_char(trim(axis@)[0])) && (e matches AppError::Validation(
                m,
            ) && m@ == "axis must be x, y, or z"@),
        },
{
    let t = trim_str(axis);
    let v = chars_of(t.as_str());
    if v.len() != 1 || !all_axis_chars(t.as_str()) {
        return Err(validation("axis must be x, y, or z"));
    }
    Ok(ascii_lowercase(t.as_str()))
}

/// `set_led`: any non-zero power turns the light on.
pub fn led_on(req: &LedRequest) -> (r: bool)
    ensures
        r == (req.power != 0),
{
    req.power != 0
}

// ---------------------------------------------------------------------------
// Temperatures
// ---------------------------------------------------------------------------

pub open spec fn clamp_spec(v: i64, lo: i64, hi: i64) -> i64 {
    if v < lo {
        lo
    } else if v > hi {
        hi
    } else {
        v
    }
}

pub fn clamp(v: i64, lo: i64, hi: i64) -> (r: i64)
    requires
        lo <= hi,
    ensures
        r == clamp_spec(v, lo, hi),
{
    if v < lo {
        lo
    } else if v > hi {
        hi
    } else {
        v
    }
}

pub const MAX_NOZZLE_TEMP: i64 = 350;

pub const MAX_BED_TEMP: i64 = 120;

pub open spec fn opt_clamp(o: Option<i64>, hi: i64) -> Option<i64> {
    match o {
        Some(v) => Some(clamp_spec(v, 0, hi)),
        None => None,
    }
}

/// `set_temperatures`: targets clamped to 0..=350 (nozzle) and 0..=120 (bed);
/// at least one is required.
pub fn temperature_targets(req: &TemperatureRequest) -> (r: Result<(Option<i64>, Option<i64>), AppError>)
    ensures
        match r {
            Ok((n, b)) => n == opt_clamp(req.nozzle, MAX_NOZZLE_TEMP) && b == opt_clamp(req.bed, MAX_BED_TEMP)
                && (req.nozzle is Some || req.bed is Some),
            Err(e) => req.nozzle is None && req.bed is None && (e matches AppError::Validation(m) && m@
                == "nozzle or bed target is required"@),
        },
{
    let nozzle = match req.nozzle {
        Some(v) => Some(clamp(v, 0, MAX_NOZZLE_TEMP)),
        None => None,
    };
    let bed = match req.bed {
        Some(v) => Some(clamp(v, 0, MAX_BED_TEMP)),
        None => None,
    };
    if nozzle.is_none() && bed.is_none() {
        return Err(validation("nozzle or bed target is required"));
    }
    Ok((nozzle, bed))
}

// ---------------------------------------------------------------------------
// Files
// ---------------------------------------------------------------------------

pub fn storage_or_local(storage: &Option<String>) -> (r: String)
    ensures
        r@ == (match storage {
            Some(s) => s@,
            None => "local"@,
        }),
{
    match storage {
        Some(s) => s.clone(),
        None => lit("local"),
    }
}

/// The page of the printer's file list a query asks for.
#[derive(Debug, Clone)]
pub struct FilePage {
    pub storage: String,
    pub page_number: i64,
    pub page_size: i64,
}

pub open spec fn at_least_one(v: i64) -> int {
    if v < 1 {
        1
    } else {
        v as int
    }
}

/// The legacy paging of a query: page size from `limit` (50 when absent),
/// first item from `offset` (0 when absent).
pub open spec fn legacy_page(q: FileListQuery) -> (int, int) {
    let size = at_least_one(match q.limit {
        Some(l) => l,
        None => 50,
    });
    let offset = match q.offset {
        Some(o) => if o < 0 {
            0
        } else {
            o as int
        },
        None => 0,
    };
    (offset / size + 1, size)
}

/// The page number fits in an `i64`: false only for the last possible offset
/// with a page size of 1.
pub open spec fn paging_fits(q: FileListQuery) -> bool {
    (q.page_number is Some && q.page_size is Some) || legacy_page(q).0 <= i64::MAX
}

pub fn file_page(q: &FileListQuery) -> (r: FilePage)
    requires
        paging_fits(*q),
    ensures
        r.storage@ == (match q.storage {
            Some(s) => s@,
            None => "local"@,
        }),
        match (q.page_number, q.page_size) {
            (Some(pn), Some(ps)) => r.page_number == at_least_one(pn) && r.page_size == at_least_one(ps),
            _ => r.page_number == legacy_page(*q).0 && r.page_size == legacy_page(*q).1,
        },
{
    let storage = storage_or_local(&q.storage);
    match (q.page_number, q.page_size) {
        (Some(pn), Some(ps)) => FilePage {
            storage,
            page_number: if pn < 1 { 1 } else { pn },
            page_size: if ps < 1 { 1 } else { ps },
        },
        _ => {
            let limit = match q.limit {
                Some(l) => l,
                None => 50,
            };
            let page_size: i64 = if limit < 1 { 1 } else { limit };
            let offset: i64 = match q.offset {
                Some(o) => if o < 0 { 0 } else { o },
                None => 0,
            };
            let page_number = offset / page_size + 1;
            FilePage { storage, page_number, page_size }
        },
    }
}

/// File detail and thumbnail requests need a file name.
pub fn require_filename(filename: &str) -> (r: Result<(), AppError>)
    ensures
        r is Ok <==> filename@.len() > 0,
        r matches Err(e) ==> (e matches AppError::Validation(m) && m@ == "filename is required"@),
{
    if filename.is_empty() {
        return Err(validation("filename is required"));
    }
    Ok(())
}

// ---------------------------------------------------------------------------
// Thumbnails
// ---------------------------------------------------------------------------

/// Thumbnails already fetched from the printer, by file name. The printer
/// often stops answering thumbnail requests once a print started, so a
/// thumbnail is kept from before.
pub struct ThumbnailCache {
    entries: Vec<(String, String)>,
}

impl View for ThumbnailCache {
    type V = Map<Seq<char>, Seq<char>>;

    closed spec fn view(&self) -> Map<Seq<char>, Seq<char>> {
        key_map(self.entries@).map_values(|t: String| t@)
    }
}

impl ThumbnailCache {
    pub fn new() -> (r: ThumbnailCache)
        ensures
            r@ == Map::<Seq<char>, Seq<char>>::empty(),
    {
        let r = ThumbnailCache { entries: Vec::new() };
        assert(r@ =~= Map::<Seq<char>, Seq<char>>::empty());
        r
    }

    /// The kept thumbnail of a file, if any.
    pub fn cached(&self, filename: &str) -> (r: Option<String>)
        ensures
            match r {
                Some(t) => self@.contains_key(filename@) && self@[filename@] == t@,
                None => !self@.contains_key(filename@),
            },
    {
        match find_key(&self.entries, filename) {
            Some(i) => {
                proof {
                    lemma_key_index(self.entries@, filename@, i as int);
                }
                Some(self.entries[i].1.clone())
            },
            None => None,
        }
    }

    /// Keeps a fetched thumbnail; an empty answer is not kept.
    pub fn remember(&mut self, filename: String, thumbnail: String)
        ensures
            final(self)@ == (if thumbnail@.len() > 0 {
                old(self)@.insert(filename@, thumbnail@)
            } else {
                old(self)@
            }),
    {
        if !thumbnail.as_str().is_empty() {
            let ghost before = self.entries@;
            let ghost t = thumbnail@;
            let ghost k = filename@;
            set_key(&mut self.entries, filename, thumbnail);
            assert(key_map(self.entries@).map_values(|x: String| x@) =~= key_map(before).map_values(
                |x: String| x@,
            ).insert(k, t));
        }
    }
}

// ---------------------------------------------------------------------------
// Canvas
// ---------------------------------------------------------------------------

pub open spec fn print_active(s: PrintState) -> bool {
    s == PrintState::Printing || s == PrintState::Paused
}

/// Canvas changes need a connected printer without an active print.
pub fn ensure_canvas_safe(connected: bool, print_state: PrintState) -> (r: Result<(), AppError>)
    ensures
        r is Ok <==> connected && !print_active(print_state),
        !connected ==> r == Err::<(), AppError>(AppError::Printer(PrinterError::NotConnected)),
        connected && print_active(print_state) ==> (r matches Err(AppError::Validation(m)) && m@
            == "Canvas changes are disabled during an active print"@),
{
    if !connected {
        return Err(AppError::Printer(PrinterError::NotConnected));
    }
    if print_state == PrintState::Printing || print_state == PrintState::Paused {
        return Err(validation("Canvas changes are disabled during an active print"));
    }
    Ok(())
}

/// The refusal of canvas ids that are out of range: the first bad one is named.
pub open spec fn canvas_ids_message(canvas_id: i64, tray_id: i64) -> Seq<char> {
    if canvas_id < 0 {
        "canvas_id must be >= 0"@
    } else if tray_id < 0 {
        "tray_id must be >= 0"@
    } else {
        "tray_slot must be between 0 and 3"@
    }
}

pub fn validate_canvas_ids(canvas_id: i64, tray_id: i64, tray_slot: i64) -> (r: Result<(), AppError>)
    ensures
        r is Ok <==> canvas_id >= 0 && tray_id >= 0 && 0 <= tray_slot <= 3,
        canvas_id < 0 ==> (r matches Err(AppError::Validation(m)) && m@ == "canvas_id must be >= 0"@),
        canvas_id >= 0 && tray_id < 0 ==> (r matches Err(AppError::Validation(m)) && m@
            == "tray_id must be >= 0"@),
        canvas_id >= 0 && tray_id >= 0 && !(0 <= tray_slot <= 3) ==> (r matches Err(
            AppError::Validation(m),
        ) && m@ == "tray_slot must be between 0 and 3"@),
{
    if canvas_id < 0 {
        return Err(validation("canvas_id must be >= 0"));
    }
    if tray_id < 0 {
        return Err(validation("tray_id must be >= 0"));
    }
    if !(0 <= tray_slot && tray_slot <= 3) {
        return Err(validation("tray_slot must be between 0 and 3"));
    }
    Ok(())
}

/// `s` without its leading `#` characters.
pub open spec fn strip_hashes(s: Seq<char>) -> Seq<char>
    decreases s.len(),
{
    if s.len() > 0 && s[0] == '#' {
        strip_hashes(s.drop_first())
    } else {
        s
    }
}

proof fn lemma_strip_hashes(s: Seq<char>, k: int)
    requires
        0 <= k <= s.len(),
        forall|j: int| 0 <= j < k ==> #[trigger] s[j] == '#',
        k == s.len() || s[k] != '#',
    ensures
        strip_hashes(s) == s.skip(k),
    decreases k,
{
    if k > 0 {
        lemma_strip_hashes(s.drop_first(), k - 1);
        assert(s.drop_first().skip(k - 1) =~= s.skip(k));
    } else {
        assert(s.skip(0) =~= s);
    }
}

/// The stored form of a filament color: trimmed and without leading `#`.
pub open spec fn color_text(c: Option<String>) -> Seq<char> {
    strip_hashes(
        trim(
            match c {
                Some(s) => s@,
                None => Seq::empty(),
            },
        ),
    )
}

/// An empty color, or six hexadecimal digits.
pub open spec fn color_valid(t: Seq<char>) -> bool {
    t.len() == 0 || (t.len() == 6 && all_ascii_hex(t))
}

/// `canvas_set_slot`: the filament color, trimmed and without `#`; empty or six
/// hex digits.
pub fn normalize_filament_color(color: &Option<String>) -> (r: Result<String, AppError>)
    ensures
        match r {
            Ok(c) => color_valid(color_text(*color)) && c@ == color_text(*color),
            Err(e) => !color_valid(color_text(*color)) && (e matches AppError::Validation(m) && m@
                == "filament_color must be a 6 digit hex color"@),
        },
{
    let raw = match color {
        Some(s) => s.clone(),
        None => String::new(),
    };
    let t = trim_str(raw.as_str());
    let v = chars_of(t.as_str());
    let mut k: usize = 0;
    while k < v.len() && v[k] == '#'
        invariant
            0 <= k <= v.len(),
            forall|j: int| 0 <= j < k ==> #[trigger] v@[j] == '#',
        decreases v.len() - k,
    {
        k = k + 1;
    }
    proof {
        lemma_strip_hashes(v@, k as int);
        assert(v@.skip(k as int) =~= v@.subrange(k as int, v@.len() as int));
    }
    let c = string_of_range(&v, k, v.len());
    let cv = chars_of(c.as_str());
    if cv.len() == 0 {
        return Ok(c);
    }
    if cv.len() != 6 {
        return Err(validation("filament_color must be a 6 digit hex color"));
    }
    let mut i: usize = 0;
    while i < cv.len()
        invariant
            0 <= i <= cv.len(),
            cv@ == color_text(*color),
            cv@.len() == 6,
            forall|j: int| 0 <= j < i ==> is_ascii_hex(#[trigger] cv@[j]),
        decreases cv.len() - i,
    {
        if !is_ascii_hexdigit(cv[i]) {
            assert(!is_ascii_hex(cv@[i as int]));
            return Err(validation("filament_color must be a 6 digit hex color"));
        }
        i = i + 1;
    }
    Ok(c)
}

/// What a canvas slot is told about its filament.
#[derive(Debug, Clone)]
pub struct CanvasSlotInfo {
    pub filament_name: String,
    pub filament_type: String,
    pub filament_color: String,
    pub brand: String,
    pub filament_code: String,
    pub min_nozzle_temp: Option<i64>,
    pub max_nozzle_temp: Option<i64>,
}

pub open spec fn text_or_empty(o: Option<String>) -> Seq<char> {
    match o {
        Some(s) => s@,
        None => Seq::empty(),
    }
}

fn string_or_empty(o: &Option<String>) -> (r: String)
    ensures
        r@ == text_or_empty(*o),
{
    match o {
        Some(s) => s.clone(),
        None => String::new(),
    }
}

/// `canvas_set_slot`: the checked slot request (ids, color) as the filament
/// information sent to the printer; absent texts are empty and nozzle
/// temperatures are clamped to 0..=350.
pub fn canvas_slot_info(req: &CanvasSlotRequest) -> (r: Result<CanvasSlotInfo, AppError>)
    ensures
        match r {
            Ok(info) => {
                &&& req.canvas_id >= 0 && req.tray_id >= 0 && 0 <= req.tray_slot <= 3
                &&& color_valid(color_text(req.filament_color))
                &&& info.filament_name@ == text_or_empty(req.filament_name)
                &&& info.filament_type@ == text_or_empty(req.filament_type)
                &&& info.filament_color@ == color_text(req.filament_color)
                &&& info.brand@ == text_or_empty(req.brand)
                &&& info.filament_code@ == text_or_empty(req.filament_code)
                &&& info.min_nozzle_temp == opt_clamp(req.min_nozzle_temp, MAX_NOZZLE_TEMP)
                &&& info.max_nozzle_temp == opt_clamp(req.max_nozzle_temp, MAX_NOZZLE_TEMP)
            },
            Err(e) => if !(req.canvas_id >= 0 && req.tray_id >= 0 && 0 <= req.tray_slot <= 3) {
                e matches AppError::Validation(m) && m@ == canvas_ids_message(
                    req.canvas_id,
                    req.tray_id,
                )
            } else {
                !color_valid(color_text(req.filament_color)) && (e matches AppError::Validation(m) && m@
                    == "filament_color must be a 6 digit hex color"@)
            },
        },
{
    validate_canvas_ids(req.canvas_id, req.tray_id, req.tray_slot)?;
    let color = normalize_filament_color(&req.filament_color)?;
    Ok(
        CanvasSlotInfo {
            filament_name: string_or_empty(&req.filament_name),
            filament_type: string_or_empty(&req.filament_type),
            filament_color: color,
            brand: string_or_empty(&req.brand),
            filament_code: string_or_empty(&req.filament_code),
            min_nozzle_temp: match req.min_nozzle_temp {
                Some(v) => Some(clamp_nozzle_temp(v)),
                None => None,
            },
            max_nozzle_temp: match req.max_nozzle_temp {
                Some(v) => Some(clamp_nozzle_temp(v)),
                None => None,
            },
        },
    )
}

/// Nozzle temperature limits of a filament slot, clamped to 0..=350.
pub fn clamp_nozzle_temp(v: i64) -> (r: i64)
    ensures
        r == clamp_spec(v, 0, MAX_NOZZLE_TEMP),
{
    clamp(v, 0, MAX_NOZZLE_TEMP)
}

// ---------------------------------------------------------------------------
// Timelapse downloads
// ---------------------------------------------------------------------------

/// Timelapse files may be fetched when the printer is idle or done.
pub open spec fn timelapse_allowed(status: NormalizedStatus, print_state: PrintState) -> bool {
    !print_active(print_state) && (status == NormalizedStatus::Idle || status == NormalizedStatus::Printing
        || status == NormalizedStatus::PrintCompleted || status == NormalizedStatus::Canceled)
}

pub fn timelapse_status_allowed(status: NormalizedStatus, print_state: PrintState) -> (r: bool)
    ensures
        r == timelapse_allowed(status, print_state),
{
    if print_state == PrintState::Printing || print_state == PrintState::Paused {
        return false;
    }
    status == NormalizedStatus::Idle || status == NormalizedStatus::Printing || status
        == NormalizedStatus::PrintCompleted || status == NormalizedStatus::Canceled
}

/// A print counts as active while it runs or is paused, and as inactive otherwise.
pub proof fn law_print_active_states(s: PrintState)
    ensures
        print_active(PrintState::Printing),
        print_active(PrintState::Paused),
        !print_active(PrintState::Inactive),
        print_active(s) <==> (s == PrintState::Printing || s == PrintState::Paused),
{
}

/// Timelapse downloads: never while a print runs or is paused; otherwise
/// exactly for the statuses idle, printing, print completed and canceled, and
/// not for any other status.
pub proof fn law_timelapse_status_table(status: NormalizedStatus, s: PrintState)
    ensures
        s == PrintState::Printing ==> !timelapse_allowed(status, s),
        s == PrintState::Paused ==> !timelapse_allowed(status, s),
        timelapse_allowed(NormalizedStatus::Idle, PrintState::Inactive),
        timelapse_allowed(NormalizedStatus::Printing, PrintState::Inactive),
        timelapse_allowed(NormalizedStatus::PrintCompleted, PrintState::Inactive),
        timelapse_allowed(NormalizedStatus::Canceled, PrintState::Inactive),
        !timelapse_allowed(NormalizedStatus::Busy, PrintState::Inactive),
        s == PrintState::Inactive ==> (timelapse_allowed(status, s) <==> status
            != NormalizedStatus::Busy),
{
}

/// `s` without its leading `/` characters.
pub open spec fn strip_slashes(s: Seq<char>) -> Seq<char>
    decreases s.len(),
{
    if s.len() > 0 && s[0] == '/' {
        strip_slashes(s.drop_first())
    } else {
        s
    }
}

proof fn lemma_strip_slashes(s: Seq<char>, k: int)
    requires
        0 <= k <= s.len(),
        forall|j: int| 0 <= j < k ==> #[trigger] s[j] == '/',
        k == s.len() || s[k] != '/',
    ensures
        strip_slashes(s) == s.skip(k),
    decreases k,
{
    if k > 0 {
        lemma_strip_slashes(s.drop_first(), k - 1);
        assert(s.drop_first().skip(k - 1) =~= s.skip(k));
    } else {
        assert(s.skip(0) =~= s);
    }
}

pub open spec fn has_double_dot(s: Seq<char>) -> bool {
    exists|i: int| 0 <= i < s.len() - 1 && #[trigger] s[i] == '.' && s[i + 1] == '.'
}


/// The file path of a timelapse query: trimmed, without leading `/`.
pub open spec fn timelapse_raw(p: Seq<char>) -> Seq<char> {
    strip_slashes(trim(p))
}

pub open spec fn timelapse_path_safe(raw: Seq<char>) -> bool {
    raw.len() > 0 && !has_double_dot(raw) && !raw.contains('\\')
}

pub open spec fn timelapse_path_allowed(raw: Seq<char>) -> bool {
    starts_with(raw, "video/"@) || starts_with(raw, "picture/"@)
}


/// `download_timelapse`: the printer-side path of the requested file. Paths
/// with `..` or `\` are refused, and only the `video/` and `picture/` folders
/// may be read.
pub fn timelapse_path(path: &str) -> (r: Result<String, AppError>)
    ensures
        match r {
            Ok(raw) => raw@ == timelapse_raw(path@) && timelapse_path_safe(raw@) && timelapse_path_allowed(raw@),
            Err(AppError::Validation(m)) => if !timelapse_path_safe(timelapse_raw(path@)) {
                m@ == "invalid timelapse path"@
            } else {
                !timelapse_path_allowed(timelapse_raw(path@)) && m@
                    == "timelapse path must start with video/ or picture/"@
            },
            Err(_) => false,
        },
{
    let t = trim_str(path);
    let v = chars_of(t.as_str());
    let mut k: usize = 0;
    while k < v.len() && v[k] == '/'
        invariant
            0 <= k <= v.len(),
            forall|j: int| 0 <= j < k ==> #[trigger] v@[j] == '/',
        decreases v.len() - k,
    {
        k = k + 1;
    }
    proof {
        lemma_strip_slashes(v@, k as int);
        assert(v@.skip(k as int) =~= v@.subrange(k as int, v@.len() as int));
    }
    let raw = string_of_range(&v, k, v.len());
    let rv = chars_of(raw.as_str());
    if rv.len() == 0 {
        return Err(validation("invalid timelapse path"));
    }
    let mut i: usize = 0;
    while i < rv.len()
        invariant
            0 <= i <= rv.len(),
            rv@ == timelapse_raw(path@),
            forall|j: int| 0 <= j < i ==> #[trigger] rv@[j] != '\\',
            forall|j: int| 0 <= j < i && j + 1 < rv@.len() ==> !(#[trigger] rv@[j] == '.' && rv@[j + 1] == '.'),
        decreases rv.len() - i,
    {
        if rv[i] == '\\' {
            assert(rv@.contains('\\')) by {
                assert(rv@[i as int] == '\\');
            }
            return Err(validation("invalid timelapse path"));
        }
        if i + 1 < rv.len() && rv[i] == '.' && rv[i + 1] == '.' {
            assert(has_double_dot(rv@)) by {
                assert(rv@[i as int] == '.');
            }
            return Err(validation("invalid timelapse path"));
        }
        i = i + 1;
    }
    if !(text_starts_with(&rv, "video/") || text_starts_with(&rv, "picture/")) {
        return Err(validation("timelapse path must start with video/ or picture/"));
    }
    Ok(raw)
}

/// The part of `s` after its last `/`.
pub open spec fn last_segment(s: Seq<char>) -> Seq<char>
    decreases s.len(),
{
    if s.len() == 0 || s.last() == '/' {
        Seq::empty()
    } else {
        last_segment(s.drop_last()).push(s.last())
    }
}

proof fn lemma_last_segment(s: Seq<char>, k: int)
    requires
        0 <= k <= s.len(),
        k == 0 || s[k - 1] == '/',
        forall|j: int| k <= j < s.len() ==> #[trigger] s[j] != '/',
    ensures
        last_segment(s) == s.skip(k),
    decreases s.len(),
{
    if s.len() > k {
        lemma_last_segment(s.drop_last(), k);
        assert(s.drop_last().skip(k).push(s.last()) =~= s.skip(k));
    } else {
        assert(s.skip(k) =~= Seq::<char>::empty());
    }
}

pub open spec fn quotes_to_apostrophes(s: Seq<char>) -> Seq<char> {
    s.map_values(|c: char| if c == '"' { '\'' } else { c })
}

/// The download file name: the last path segment ("timelapse.mp4" when
/// empty), with `"` replaced by `'`.
pub open spec fn timelapse_file_name_spec(raw: Seq<char>) -> Seq<char> {
    quotes_to_apostrophes(
        if last_segment(raw).len() == 0 {
            "timelapse.mp4"@
        } else {
            last_segment(raw)
        },
    )
}

fn replace_quotes(s: &str) -> (r: String)
    ensures
        r@ == quotes_to_apostrophes(s@),
{
    let v = chars_of(s);
    let mut r = String::new();
    let mut i: usize = 0;
    while i < v.len()
        invariant
            v@ == s@,
            0 <= i <= v.len(),
            r@ == quotes_to_apostrophes(v@.take(i as int)),
        decreases v.len() - i,
    {
        let c = if v[i] == '"' { '\'' } else { v[i] };
        push_char(&mut r, c);
        assert(quotes_to_apostrophes(v@.take(i + 1)) =~= quotes_to_apostrophes(v@.take(i as int)).push(c));
        i = i + 1;
    }
    assert(v@.take(v@.len() as int) =~= v@);
    r
}

pub fn timelapse_file_name(raw: &str) -> (r: String)
    ensures
        r@ == timelapse_file_name_spec(raw@),
{
    let v = chars_of(raw);
    let mut k: usize = v.len();
    while k > 0 && v[k - 1] != '/'
        invariant
            0 <= k <= v.len(),
            forall|j: int| k <= j < v@.len() ==> #[trigger] v@[j] != '/',
        decreases k,
    {
        k = k - 1;
    }
    proof {
        lemma_last_segment(v@, k as int);
        assert(v@.skip(k as int) =~= v@.subrange(k as int, v@.len() as int));
    }
    let seg = string_of_range(&v, k, v.len());
    if seg.as_str().is_empty() {
        replace_quotes("timelapse.mp4")
    } else {
        replace_quotes(seg.as_str())
    }
}

/// A response of this content type is a live stream, not a file.
pub fn is_stream_content_type(content_type: &str) -> (r: bool)
    ensures
        r == contains_text(ascii_lower_seq(content_type@), "multipart/x-mixed-replace"@),
{
    let low = ascii_lowercase(content_type);
    let s = chars_of(low.as_str());
    let p = chars_of("multipart/x-mixed-replace");
    contains_chars(&s, &p)
}

/// "Timelapse download is only available when the printer is idle (current status: {label})"
pub fn timelapse_busy_message(status_label: &str) -> (r: String)
    ensures
        r@ == "Timelapse download is only available when the printer is idle (current status: "@
            + status_label@ + ")"@,
{
    let mut r = lit("Timelapse download is only available when the printer is idle (current status: ");
    push_text(&mut r, status_label);
    push_text(&mut r, ")");
    r
}

/// `download_timelapse`: a connected printer must be idle or done; a printer
/// that is not connected is not asked.
pub fn check_timelapse_state(
    connected: bool,
    status: NormalizedStatus,
    print_state: PrintState,
    status_label: &str,
) -> (r: Result<(), AppError>)
    ensures
        r is Ok <==> (!connected || timelapse_allowed(status, print_state)),
        r matches Err(e) ==> (e matches AppError::Validation(m) && m@
            == "Timelapse download is only available when the printer is idle (current status: "@
            + status_label@ + ")"@),
{
    if connected && !timelapse_status_allowed(status, print_state) {
        return Err(AppError::Validation(timelapse_busy_message(status_label)));
    }
    Ok(())
}

/// `download_timelapse`: the printer's address (trimmed) and the access code
/// to send; refused when no printer address is configured.
pub fn timelapse_target(config: &AppConfig) -> (r: Result<(String, String), AppError>)
    ensures
        match r {
            Ok((ip, token)) => {
                &&& trim(config.printer.ip@).len() > 0
                &&& ip@ == trim(config.printer.ip@)
                &&& token@ == (if config.printer.pincode@.len() > 0 {
                    config.printer.pincode@
                } else {
                    default_password()
                })
            },
            Err(e) => trim(config.printer.ip@).len() == 0 && e == AppError::Printer(PrinterError::NotConnected),
        },
{
    let ip = trim_str(config.printer.ip.as_str());
    if ip.as_str().is_empty() {
        return Err(AppError::Printer(PrinterError::NotConnected));
    }
    let token = lit(config.printer_password());
    Ok((ip, token))
}

/// The search for a downloadable timelapse file among the printer's URLs: the
/// status of the last answer that was not taken.
#[derive(Debug, Clone)]
pub struct TimelapseSearch {
    pub last_status: Option<String>,
}

impl TimelapseSearch {
    pub fn new() -> (r: TimelapseSearch)
        ensures
            r.last_status is None,
    {
        TimelapseSearch { last_status: None }
    }

    /// Looks at one answer: it is taken when it succeeded and is not a live
    /// stream. An unsuccessful answer records its status; a live stream counts
    /// as `502 Bad Gateway`.
    pub fn consider(&mut self, success: bool, status_text: &str, content_type: &str) -> (taken: bool)
        ensures
            taken == (success && !contains_text(ascii_lower_seq(content_type@), "multipart/x-mixed-replace"@)),
            taken ==> final(self).last_status.deep_view() == old(self).last_status.deep_view(),
            !success ==> final(self).last_status.deep_view() == Some(status_text@),
            success && !taken ==> final(self).last_status.deep_view() == Some("502 Bad Gateway"@),
    {
        if !success {
            self.last_status = Some(lit(status_text));
            return false;
        }
        if is_stream_content_type(content_type) {
            self.last_status = Some(lit("502 Bad Gateway"));
            return false;
        }
        true
    }

    /// The error when no answer was taken.
    pub fn unavailable(&self) -> (r: AppError)
        ensures
            r matches AppError::Validation(m) && m@ == "timelapse unavailable: "@ + (match self.last_status {
                Some(s) => s@,
                None => "no response"@,
            }),
    {
        let mut m = lit("timelapse unavailable: ");
        match &self.last_status {
            Some(s) => push_text(&mut m, s.as_str()),
            None => push_text(&mut m, "no response"),
        }
        AppError::Validation(m)
    }
}

/// The `Content-Disposition` header of a relayed timelapse file.
pub fn timelapse_disposition(raw: &str) -> (r: String)
    ensures
        r@ == "attachment; filename=\""@ + timelapse_file_name_spec(raw@) + "\""@,
{
    let mut r = lit("attachment; filename=\"");
    let name = timelapse_file_name(raw);
    push_text(&mut r, name.as_str());
    push_text(&mut r, "\"");
    r
}

// ---------------------------------------------------------------------------
// Timelapse download URLs
// ---------------------------------------------------------------------------

/// The serialized URL that `reqwest::Url` gives for `url` after setting its
/// path to `path` (percent-encoded as the URL standard asks); `None` when
/// `url` does not parse.
pub uninterp spec fn url_with_path(url: Seq<char>, path: Seq<char>) -> Option<Seq<char>>;

/// The serialized URL that `reqwest::Url` gives for `url` after appending the
/// query pairs `k1=v1` and `k2=v2` (form-urlencoded); `None` when `url` does
/// not parse.
pub uninterp spec fn url_with_query_pairs(
    url: Seq<char>,
    k1: Seq<char>,
    v1: Seq<char>,
    k2: Seq<char>,
    v2: Seq<char>,
) -> Option<Seq<char>>;

/// The path of `url` as `reqwest::Url` parses it; `None` when it does not parse.
pub uninterp spec fn url_path_of(url: Seq<char>) -> Option<Seq<char>>;

/// `reqwest::Url::parse(url)`, then `set_path(path)`, serialized. The result is
/// named, not spelled out: it follows the URL standard's parsing and
/// percent-encoding. The bounds keep the serialization (at most twelve bytes
/// per character once percent-encoded) within the 4 GB of `u32` offsets that
/// `set_path` unwraps.
#[verifier::external_body]
fn set_url_path(url: &str, path: &str) -> (r: Option<String>)
    requires
        url@.len() < 0x0100_0000,
        path@.len() < 0x0100_0000,
    ensures
        r.deep_view() == url_with_path(url@, path@),
{
    match reqwest::Url::parse(url) {
        Ok(mut u) => {
            u.set_path(path);
            Some(u.to_string())
        },
        Err(_) => None,
    }
}

/// `reqwest::Url::parse(url)`, then `query_pairs_mut().append_pair(k1, v1)
/// .append_pair(k2, v2)`, serialized. The result is named, not spelled out.
/// The bound keeps the serialization within the `u32` offsets of the URL.
#[verifier::external_body]
fn append_query_pairs(url: &str, k1: &str, v1: &str, k2: &str, v2: &str) -> (r: Option<String>)
    requires
        url@.len() + k1@.len() + v1@.len() + k2@.len() + v2@.len() < 0x0100_0000,
    ensures
        r.deep_view() == url_with_query_pairs(url@, k1@, v1@, k2@, v2@),
{
    match reqwest::Url::parse(url) {
        Ok(mut u) => {
            u.query_pairs_mut().append_pair(k1, v1).append_pair(k2, v2);
            Some(u.to_string())
        },
        Err(_) => None,
    }
}

/// `reqwest::Url::parse(url)`, then `path()`. The result is named, not spelled out.
#[verifier::external_body]
fn url_path(url: &str) -> (r: Option<String>)
    ensures
        r.deep_view() == url_path_of(url@),
{
    match reqwest::Url::parse(url) {
        Ok(u) => Some(u.path().to_string()),
        Err(_) => None,
    }
}

/// `s` without its trailing `/` characters.
pub open spec fn strip_trailing_slashes(s: Seq<char>) -> Seq<char>
    decreases s.len(),
{
    if s.len() > 0 && s.last() == '/' {
        strip_trailing_slashes(s.drop_last())
    } else {
        s
    }
}

proof fn lemma_strip_trailing_slashes(s: Seq<char>, k: int)
    requires
        0 <= k <= s.len(),
        forall|j: int| k <= j < s.len() ==> #[trigger] s[j] == '/',
        k == 0 || s[k - 1] != '/',
    ensures
        strip_trailing_slashes(s) == s.take(k),
    decreases s.len() - k,
{
    if k < s.len() {
        lemma_strip_trailing_slashes(s.drop_last(), k);
        assert(s.drop_last().take(k) =~= s.take(k));
    } else {
        assert(s.take(k) =~= s);
    }
}

/// Where a file lies under a base URL's path: the path without its leading
/// and trailing `/`, a `/`, and the file path; the file path alone under the
/// root.
pub open spec fn path_under(base_path: Seq<char>, raw: Seq<char>) -> Seq<char> {
    let prefix = strip_trailing_slashes(strip_slashes(base_path));
    if prefix.len() == 0 {
        raw
    } else {
        prefix + "/"@ + raw
    }
}

/// `download_timelapse`: the path set on a base URL for a file.
pub fn join_under(base_path: &str, raw: &str) -> (r: String)
    ensures
        r@ == path_under(base_path@, raw@),
        r@.len() <= base_path@.len() + 1 + raw@.len(),
{
    let v = chars_of(base_path);
    let mut a: usize = 0;
    while a < v.len() && v[a] == '/'
        invariant
            0 <= a <= v.len(),
            v@ == base_path@,
            forall|j: int| 0 <= j < a ==> #[trigger] v@[j] == '/',
        decreases v.len() - a,
    {
        a = a + 1;
    }
    proof {
        lemma_strip_slashes(v@, a as int);
    }
    let ghost t = v@.skip(a as int);
    let mut b: usize = v.len();
    while b > a && v[b - 1] == '/'
        invariant
            a <= b <= v.len(),
            v@ == base_path@,
            t == v@.skip(a as int),
            forall|j: int| b <= j < v.len() ==> #[trigger] v@[j] == '/',
        decreases b,
    {
        b = b - 1;
    }
    proof {
        assert forall|j: int| b - a <= j < t.len() implies #[trigger] t[j] == '/' by {
            assert(t[j] == v@[a + j]);
        }
        if b > a {
            assert(t[b - a - 1] == v@[b - 1]);
        }
        lemma_strip_trailing_slashes(t, b - a);
        assert(t.take(b - a) =~= v@.subrange(a as int, b as int));
    }
    if b == a {
        lit(raw)
    } else {
        proof {
            reveal_strlit("/");
        }
        let mut r = string_of_range(&v, a, b);
        push_text(&mut r, "/");
        push_text(&mut r, raw);
        r
    }
}

/// The base URLs tried after the `download` endpoint, in order.
pub open spec fn timelapse_bases(ip: Seq<char>) -> Seq<Seq<char>> {
    seq!["http://"@ + ip + "/downloadFile/"@, "http://"@ + ip + "/download/"@, "http://"@ + ip + "/"@]
}

/// Base paths this long are refused; a base URL built from a bounded address
/// never has one.
pub const MAX_BASE_PATH: usize = 0x0040_0000;

/// A base URL with its path set to the file under it.
pub open spec fn url_under(base: Seq<char>, raw: Seq<char>) -> Option<Seq<char>> {
    match url_path_of(base) {
        Some(p) => if p.len() < MAX_BASE_PATH {
            url_with_path(base, path_under(p, raw))
        } else {
            None
        },
        None => None,
    }
}

/// The URLs tried for a timelapse file, in order, when all of them can be
/// built: the `download` endpoint with the access code and the file name as
/// query parameters, then the file under each base URL.
pub open spec fn timelapse_urls(ip: Seq<char>, token: Seq<char>, raw: Seq<char>) -> Option<Seq<Seq<char>>> {
    let bases = timelapse_bases(ip);
    match (
        url_with_query_pairs("http://"@ + ip + "/download"@, "X-Token"@, token, "file_name"@, raw),
        url_under(bases[0], raw),
        url_under(bases[1], raw),
        url_under(bases[2], raw),
    ) {
        (Some(a), Some(b), Some(c), Some(d)) => Some(seq![a, b, c, d]),
        _ => None,
    }
}

pub open spec fn texts_of(v: Seq<String>) -> Seq<Seq<char>> {
    v.map_values(|s: String| s@)
}

fn url_under_base(base: &str, raw: &str) -> (r: Option<String>)
    requires
        base@.len() < 0x0080_0000,
        raw@.len() < 0x0040_0000,
    ensures
        r.deep_view() == url_under(base@, raw@),
{
    match url_path(base) {
        Some(p) => {
            let pv = chars_of(p.as_str());
            if pv.len() >= MAX_BASE_PATH {
                return None;
            }
            let path = join_under(p.as_str(), raw);
            set_url_path(base, path.as_str())
        },
        None => None,
    }
}

fn http_url(ip: &str, path: &str) -> (r: String)
    ensures
        r@ == "http://"@ + ip@ + path@,
{
    let mut r = lit("http://");
    push_text(&mut r, ip);
    push_text(&mut r, path);
    r
}

/// `download_timelapse`: the URLs tried for a timelapse file, in order; refused
/// as an invalid printer URL when one of them cannot be built.
pub fn timelapse_candidate_urls(ip: &str, token: &str, raw: &str) -> (r: Result<Vec<String>, AppError>)
    requires
        ip@.len() + token@.len() + raw@.len() < 0x0040_0000,
    ensures
        match r {
            Ok(v) => timelapse_urls(ip@, token@, raw@) == Some(texts_of(v@)),
            Err(e) => timelapse_urls(ip@, token@, raw@) is None && (e matches AppError::Validation(m) && m@
                == "invalid printer url"@),
        },
{
    let ghost bases = timelapse_bases(ip@);
    proof {
        reveal_strlit("http://");
        reveal_strlit("/download");
        reveal_strlit("X-Token");
        reveal_strlit("file_name");
        reveal_strlit("/downloadFile/");
        reveal_strlit("/download/");
        reveal_strlit("/");
    }
    let first = match append_query_pairs(http_url(ip, "/download").as_str(), "X-Token", token, "file_name", raw) {
        Some(u) => u,
        None => return Err(validation("invalid printer url")),
    };
    let b0 = http_url(ip, "/downloadFile/");
    let b1 = http_url(ip, "/download/");
    let b2 = http_url(ip, "/");
    assert(b0@ == bases[0] && b1@ == bases[1] && b2@ == bases[2]);
    let u0 = match url_under_base(b0.as_str(), raw) {
        Some(u) => u,
        None => return Err(validation("invalid printer url")),
    };
    let u1 = match url_under_base(b1.as_str(), raw) {
        Some(u) => u,
        None => return Err(validation("invalid printer url")),
    };
    let u2 = match url_under_base(b2.as_str(), raw) {
        Some(u) => u,
        None => return Err(validation("invalid printer url")),
    };
    let mut v: Vec<String> = Vec::new();
    v.push(first);
    v.push(u0);
    v.push(u1);
    v.push(u2);
    assert(texts_of(v@) =~= seq![v@[0]@, v@[1]@, v@[2]@, v@[3]@]);
    Ok(v)
}

} // verus!
