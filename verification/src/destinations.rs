//! Notification destinations as the API creates, edits, tests and deletes
//! them: identifiers, normalization of their text fields and partial updates.
use rand::Rng;
use vstd::prelude::*;

use crate::config::{DestinationKind, EventToggles, NotificationDestination};
use crate::error::AppError;
use crate::settings::lemma_filter_all;
use crate::text::{
    concat2, copy_opt, hex8, hex_n, lemma_trim_idempotent, push_text, same_text, trim, trim_str,
};

verus! {

pub struct DestinationView {
    pub id: Seq<char>,
    pub kind: DestinationKind,
    pub enabled: bool,
    pub label: Seq<char>,
    pub ntfy_server: Option<Seq<char>>,
    pub ntfy_topic: Option<Seq<char>>,
    pub ntfy_tap_url: Option<Seq<char>>,
    pub discord_webhook_url: Option<Seq<char>>,
    pub telegram_bot_token: Option<Seq<char>>,
    pub telegram_chat_id: Option<Seq<char>>,
    pub telegram_thread_id: Option<Seq<char>>,
    pub webhook_url: Option<Seq<char>>,
    pub progress_interval: u8,
    pub attach_snapshot: bool,
    pub toggles: EventToggles,
}

impl View for NotificationDestination {
    type V = DestinationView;

    open spec fn view(&self) -> DestinationView {
        DestinationView {
            id: self.id@,
            kind: self.kind,
            enabled: self.enabled,
            label: self.label@,
            ntfy_server: self.ntfy_server.deep_view(),
            ntfy_topic: self.ntfy_topic.deep_view(),
            ntfy_tap_url: self.ntfy_tap_url.deep_view(),
            discord_webhook_url: self.discord_webhook_url.deep_view(),
            telegram_bot_token: self.telegram_bot_token.deep_view(),
            telegram_chat_id: self.telegram_chat_id.deep_view(),
            telegram_thread_id: self.telegram_thread_id.deep_view(),
            webhook_url: self.webhook_url.deep_view(),
            progress_interval: self.progress_interval,
            attach_snapshot: self.attach_snapshot,
            toggles: self.toggles,
        }
    }
}

pub open spec fn destinations_view(s: Seq<NotificationDestination>) -> Seq<DestinationView> {
    s.map_values(|d: NotificationDestination| d@)
}

impl NotificationDestination {
    /// A copy that equals `self` in every field.
    pub fn duplicate_exact(&self) -> (r: NotificationDestination)
        ensures
            r == *self,
    {
        NotificationDestination {
            id: self.id.clone(),
            kind: self.kind,
            enabled: self.enabled,
            label: self.label.clone(),
            ntfy_server: copy_opt(&self.ntfy_server),
            ntfy_topic: copy_opt(&self.ntfy_topic),
            ntfy_tap_url: copy_opt(&self.ntfy_tap_url),
            discord_webhook_url: copy_opt(&self.discord_webhook_url),
            telegram_bot_token: copy_opt(&self.telegram_bot_token),
            telegram_chat_id: copy_opt(&self.telegram_chat_id),
            telegram_thread_id: copy_opt(&self.telegram_thread_id),
            webhook_url: copy_opt(&self.webhook_url),
            progress_interval: self.progress_interval,
            attach_snapshot: self.attach_snapshot,
            toggles: self.toggles,
        }
    }

    pub fn duplicate(&self) -> (r: NotificationDestination)
        ensures
            r@ == self@,
    {
        NotificationDestination {
            id: self.id.clone(),
            kind: self.kind,
            enabled: self.enabled,
            label: self.label.clone(),
            ntfy_server: copy_opt(&self.ntfy_server),
            ntfy_topic: copy_opt(&self.ntfy_topic),
            ntfy_tap_url: copy_opt(&self.ntfy_tap_url),
            discord_webhook_url: copy_opt(&self.discord_webhook_url),
            telegram_bot_token: copy_opt(&self.telegram_bot_token),
            telegram_chat_id: copy_opt(&self.telegram_chat_id),
            telegram_thread_id: copy_opt(&self.telegram_thread_id),
            webhook_url: copy_opt(&self.webhook_url),
            progress_interval: self.progress_interval,
            attach_snapshot: self.attach_snapshot,
            toggles: self.toggles,
        }
    }
}

// ---------------------------------------------------------------------------
// Normalization
// ---------------------------------------------------------------------------

/// A text trimmed, or nothing when it is blank.
pub open spec fn empty_to_none_spec(s: Seq<char>) -> Option<Seq<char>> {
    if trim(s).len() == 0 {
        None
    } else {
        Some(trim(s))
    }
}

pub open spec fn opt_norm(o: Option<Seq<char>>) -> Option<Seq<char>> {
    match o {
        Some(s) => empty_to_none_spec(s),
        None => None,
    }
}

/// 0 stays 0 (off); 1 to 4 become 5; above 100 becomes 100.
pub open spec fn interval_spec(v: u8) -> u8 {
    if v == 0 {
        0
    } else if v <= 4 {
        5
    } else if v <= 100 {
        v
    } else {
        100
    }
}

pub open spec fn normalize_view(d: DestinationView) -> DestinationView {
    DestinationView {
        label: trim(d.label),
        ntfy_server: opt_norm(d.ntfy_server),
        ntfy_topic: opt_norm(d.ntfy_topic),
        ntfy_tap_url: opt_norm(d.ntfy_tap_url),
        discord_webhook_url: opt_norm(d.discord_webhook_url),
        telegram_bot_token: opt_norm(d.telegram_bot_token),
        telegram_chat_id: opt_norm(d.telegram_chat_id),
        telegram_thread_id: opt_norm(d.telegram_thread_id),
        webhook_url: opt_norm(d.webhook_url),
        progress_interval: interval_spec(d.progress_interval),
        ..d
    }
}

pub fn empty_to_none(value: String) -> (r: Option<String>)
    ensures
        r.deep_view() == empty_to_none_spec(value@),
{
    let trimmed = trim_str(value.as_str());
    if trimmed.as_str().is_empty() {
        None
    } else {
        Some(trimmed)
    }
}

fn norm_opt(o: Option<String>) -> (r: Option<String>)
    ensures
        r.deep_view() == opt_norm(o.deep_view()),
{
    match o {
        Some(v) => empty_to_none(v),
        None => None,
    }
}

pub fn normalize_progress_interval(value: u8) -> (r: u8)
    ensures
        r == interval_spec(value),
{
    if value == 0 {
        0
    } else if value <= 4 {
        5
    } else if value <= 100 {
        value
    } else {
        100
    }
}

/// A destination with its progress interval clamped: 0 stays 0 (percentage
/// notifications off), other values are clamped to 5..100.
pub open spec fn with_clamped_interval(d: DestinationView) -> DestinationView {
    DestinationView { progress_interval: interval_spec(d.progress_interval), ..d }
}

/// Clamps the progress interval of every destination; nothing else changes.
pub fn clamp_progress_intervals(ds: &mut Vec<NotificationDestination>)
    ensures
        final(ds)@.len() == old(ds)@.len(),
        destinations_view(final(ds)@) == destinations_view(old(ds)@).map_values(
            |d: DestinationView| with_clamped_interval(d),
        ),
{
    let ghost start = destinations_view(ds@);
    let mut i: usize = 0;
    while i < ds.len()
        invariant
            0 <= i <= ds.len(),
            ds@.len() == start.len(),
            start == destinations_view(old(ds)@),
            forall|j: int| 0 <= j < i ==> (#[trigger] ds@[j])@ == with_clamped_interval(start[j]),
            forall|j: int| i <= j < ds@.len() ==> (#[trigger] ds@[j])@ == start[j],
        decreases ds.len() - i,
    {
        let mut d = ds[i].duplicate();
        d.progress_interval = normalize_progress_interval(d.progress_interval);
        ds.set(i, d);
        i = i + 1;
    }
    assert(destinations_view(ds@) =~= start.map_values(|d: DestinationView| with_clamped_interval(d)));
}

pub fn normalize_destination(dest: &mut NotificationDestination)
    ensures
        final(dest)@ == normalize_view(old(dest)@),
{
    dest.label = trim_str(dest.label.as_str());
    dest.ntfy_server = norm_opt(dest.ntfy_server.take());
    dest.ntfy_topic = norm_opt(dest.ntfy_topic.take());
    dest.ntfy_tap_url = norm_opt(dest.ntfy_tap_url.take());
    dest.discord_webhook_url = norm_opt(dest.discord_webhook_url.take());
    dest.telegram_bot_token = norm_opt(dest.telegram_bot_token.take());
    dest.telegram_chat_id = norm_opt(dest.telegram_chat_id.take());
    dest.telegram_thread_id = norm_opt(dest.telegram_thread_id.take());
    dest.webhook_url = norm_opt(dest.webhook_url.take());
    dest.progress_interval = normalize_progress_interval(dest.progress_interval);
}

proof fn lemma_opt_norm_idempotent(o: Option<Seq<char>>)
    ensures
        opt_norm(opt_norm(o)) == opt_norm(o),
{
    if let Some(s) = o {
        lemma_trim_idempotent(s);
    }
}

/// Normalizing a destination a second time changes nothing.
pub proof fn law_normalize_idempotent(d: DestinationView)
    ensures
        normalize_view(normalize_view(d)) == normalize_view(d),
{
    lemma_trim_idempotent(d.label);
    lemma_opt_norm_idempotent(d.ntfy_server);
    lemma_opt_norm_idempotent(d.ntfy_topic);
    lemma_opt_norm_idempotent(d.ntfy_tap_url);
    lemma_opt_norm_idempotent(d.discord_webhook_url);
    lemma_opt_norm_idempotent(d.telegram_bot_token);
    lemma_opt_norm_idempotent(d.telegram_chat_id);
    lemma_opt_norm_idempotent(d.telegram_thread_id);
    lemma_opt_norm_idempotent(d.webhook_url);
}

/// A normalized destination stores only trimmed, non-blank optional texts and
/// a progress interval that is off or between 5 and 100.
pub proof fn law_normalized_fields(d: DestinationView)
    ensures
        normalize_view(d).progress_interval == 0 || 5 <= normalize_view(d).progress_interval <= 100,
        normalize_view(d).telegram_chat_id matches Some(s) ==> s.len() > 0 && trim(s) == s,
        normalize_view(d).telegram_bot_token matches Some(s) ==> s.len() > 0 && trim(s) == s,
        normalize_view(d).ntfy_topic matches Some(s) ==> s.len() > 0 && trim(s) == s,
        trim(normalize_view(d).label) == normalize_view(d).label,
{
    lemma_trim_idempotent(d.label);
    if let Some(s) = d.telegram_chat_id {
        lemma_trim_idempotent(s);
    }
    if let Some(s) = d.telegram_bot_token {
        lemma_trim_idempotent(s);
    }
    if let Some(s) = d.ntfy_topic {
        lemma_trim_idempotent(s);
    }
}

// ---------------------------------------------------------------------------
// Identifiers
// ---------------------------------------------------------------------------

/// A random number from the thread-local generator (`rand::thread_rng().gen::<u32>()`).
/// Nothing is stated of its value.
#[verifier::external_body]
fn random_u32() -> u32 {
    rand::thread_rng().gen::<u32>()
}

/// The identifier written for a random number: eight lowercase hex digits.
pub fn id_from_random(x: u32) -> (r: String)
    ensures
        r@ == hex_n(x as nat, 8),
        r@.len() == 8,
{
    hex8(x)
}

/// A fresh random destination identifier.
pub fn gen_id() -> (r: String)
    ensures
        exists|x: u32| r@ == hex_n(x as nat, 8),
        r@.len() == 8,
{
    let x = random_u32();
    id_from_random(x)
}

// ---------------------------------------------------------------------------
// Lookup, update, removal
// ---------------------------------------------------------------------------

pub open spec fn is_first_dest(ds: Seq<DestinationView>, id: Seq<char>, i: int) -> bool {
    &&& 0 <= i < ds.len()
    &&& ds[i].id == id
    &&& forall|j: int| 0 <= j < i ==> ds[j].id != id
}

pub open spec fn has_dest(ds: Seq<DestinationView>, id: Seq<char>) -> bool {
    exists|i: int| 0 <= i < ds.len() && ds[i].id == id
}

pub fn find_destination_index(ds: &Vec<NotificationDestination>, id: &str) -> (r: Option<usize>)
    ensures
        match r {
            Some(i) => is_first_dest(destinations_view(ds@), id@, i as int),
            None => !has_dest(destinations_view(ds@), id@),
        },
{
    let ghost dv = destinations_view(ds@);
    let mut i: usize = 0;
    while i < ds.len()
        invariant
            0 <= i <= ds.len(),
            dv == destinations_view(ds@),
            forall|j: int| 0 <= j < i ==> dv[j].id != id@,
        decreases ds.len() - i,
    {
        if same_text(ds[i].id.as_str(), id) {
            return Some(i);
        }
        i = i + 1;
    }
    None
}

/// "destination {id} not found"
pub open spec fn not_found_msg(id: Seq<char>) -> Seq<char> {
    "destination "@ + id + " not found"@
}

/// "destination '{id}' not found"
pub open spec fn not_found_quoted_msg(id: Seq<char>) -> Seq<char> {
    "destination '"@ + id + "' not found"@
}

fn not_found(id: &str) -> (r: String)
    ensures
        r@ == not_found_msg(id@),
{
    let mut r = concat2("destination ", id);
    push_text(&mut r, " not found");
    r
}

fn not_found_quoted(id: &str) -> (r: String)
    ensures
        r@ == not_found_quoted_msg(id@),
{
    let mut r = concat2("destination '", id);
    push_text(&mut r, "' not found");
    r
}

/// The destination with the given id, as `test_destination` looks it up.
pub fn find_destination(ds: &Vec<NotificationDestination>, id: &str) -> (r: Result<NotificationDestination, AppError>)
    ensures
        match r {
            Ok(d) => exists|i: int| is_first_dest(destinations_view(ds@), id@, i) && d@ == ds@[i]@,
            Err(e) => !has_dest(destinations_view(ds@), id@) && (e matches AppError::Validation(m)
                && m@ == not_found_msg(id@)),
        },
{
    match find_destination_index(ds, id) {
        Some(i) => Ok(ds[i].duplicate()),
        None => Err(AppError::Validation(not_found(id))),
    }
}

/// The fields an API client may change on a destination; absent fields stay.
#[derive(Debug, Clone)]
pub struct UpdateDestinationReq {
    pub enabled: Option<bool>,
    pub label: Option<String>,
    pub ntfy_server: Option<String>,
    pub ntfy_topic: Option<String>,
    pub ntfy_tap_url: Option<String>,
    pub discord_webhook_url: Option<String>,
    pub telegram_bot_token: Option<String>,
    pub telegram_chat_id: Option<String>,
    pub telegram_thread_id: Option<String>,
    pub webhook_url: Option<String>,
    pub progress_interval: Option<u8>,
    pub attach_snapshot: Option<bool>,
    pub toggles: Option<EventToggles>,
}

pub open spec fn pick<T>(o: Option<T>, d: T) -> T {
    match o {
        Some(v) => v,
        None => d,
    }
}

/// A requested value for a field that keeps whatever was given.
pub open spec fn set_some(o: Option<Seq<char>>, d: Option<Seq<char>>) -> Option<Seq<char>> {
    match o {
        Some(v) => Some(v),
        None => d,
    }
}

/// A requested value for a field where an empty text clears it.
pub open spec fn set_nonempty(o: Option<Seq<char>>, d: Option<Seq<char>>) -> Option<Seq<char>> {
    match o {
        Some(v) => if v.len() == 0 { None } else { Some(v) },
        None => d,
    }
}

/// A requested value for a field where a blank text clears it.
pub open spec fn set_trimmed(o: Option<Seq<char>>, d: Option<Seq<char>>) -> Option<Seq<char>> {
    match o {
        Some(v) => empty_to_none_spec(v),
        None => d,
    }
}

/// The destination after the requested fields are written, before normalization.
pub open spec fn applied_view(d: DestinationView, req: UpdateDestinationReq) -> DestinationView {
    DestinationView {
        enabled: pick(req.enabled, d.enabled),
        label: match req.label {
            Some(v) => v@,
            None => d.label,
        },
        ntfy_server: set_some(req.ntfy_server.deep_view(), d.ntfy_server),
        ntfy_topic: set_some(req.ntfy_topic.deep_view(), d.ntfy_topic),
        ntfy_tap_url: set_nonempty(req.ntfy_tap_url.deep_view(), d.ntfy_tap_url),
        discord_webhook_url: set_some(req.discord_webhook_url.deep_view(), d.discord_webhook_url),
        telegram_bot_token: set_trimmed(req.telegram_bot_token.deep_view(), d.telegram_bot_token),
        telegram_chat_id: set_trimmed(req.telegram_chat_id.deep_view(), d.telegram_chat_id),
        telegram_thread_id: set_trimmed(req.telegram_thread_id.deep_view(), d.telegram_thread_id),
        webhook_url: set_some(req.webhook_url.deep_view(), d.webhook_url),
        progress_interval: match req.progress_interval {
            Some(v) => interval_spec(v),
            None => d.progress_interval,
        },
        attach_snapshot: pick(req.attach_snapshot, d.attach_snapshot),
        toggles: pick(req.toggles, d.toggles),
        ..d
    }
}

/// An update writes each field the request supplies and keeps the others: the
/// id and kind never change; a supplied `enabled`, `attach_snapshot` or set of
/// toggles is stored as given; a supplied label is stored trimmed; a supplied
/// progress interval is stored with 0 kept (off), 1 to 4 raised to 5 and values
/// above 100 lowered to 100; a supplied Telegram chat is stored trimmed, and a
/// blank one clears it.
pub proof fn law_update_writes_request(d: DestinationView, req: UpdateDestinationReq)
    ensures
        ({
            let r = normalize_view(applied_view(d, req));
            &&& r.id == d.id
            &&& r.kind == d.kind
            &&& req.enabled matches Some(e) ==> r.enabled == e
            &&& req.enabled is None ==> r.enabled == d.enabled
            &&& req.attach_snapshot matches Some(a) ==> r.attach_snapshot == a
            &&& req.attach_snapshot is None ==> r.attach_snapshot == d.attach_snapshot
            &&& req.toggles matches Some(t) ==> r.toggles == t
            &&& req.toggles is None ==> r.toggles == d.toggles
            &&& req.label matches Some(l) ==> r.label == trim(l@)
            &&& req.progress_interval matches Some(p) ==> {
                &&& p == 0 ==> r.progress_interval == 0
                &&& 1 <= p <= 4 ==> r.progress_interval == 5
                &&& 5 <= p <= 100 ==> r.progress_interval == p
                &&& p > 100 ==> r.progress_interval == 100
            }
            &&& req.progress_interval is None && (d.progress_interval == 0 || 5
                <= d.progress_interval <= 100) ==> r.progress_interval == d.progress_interval
            &&& req.telegram_chat_id matches Some(c) ==> (if trim(c@).len() == 0 {
                r.telegram_chat_id is None
            } else {
                r.telegram_chat_id == Some(trim(c@))
            })
        }),
{
    if let Some(c) = req.telegram_chat_id {
        lemma_trim_idempotent(c@);
    }
}

fn write_some(o: Option<String>, d: Option<String>) -> (r: Option<String>)
    ensures
        r.deep_view() == set_some(o.deep_view(), d.deep_view()),
{
    match o {
        Some(v) => Some(v),
        None => d,
    }
}

fn write_nonempty(o: Option<String>, d: Option<String>) -> (r: Option<String>)
    ensures
        r.deep_view() == set_nonempty(o.deep_view(), d.deep_view()),
{
    match o {
        Some(v) => if v.as_str().is_empty() { None } else { Some(v) },
        None => d,
    }
}

fn write_trimmed(o: Option<String>, d: Option<String>) -> (r: Option<String>)
    ensures
        r.deep_view() == set_trimmed(o.deep_view(), d.deep_view()),
{
    match o {
        Some(v) => empty_to_none(v),
        None => d,
    }
}

fn apply_request(dest: NotificationDestination, req: UpdateDestinationReq) -> (r: NotificationDestination)
    ensures
        r@ == applied_view(dest@, req),
{
    let enabled = match req.enabled {
        Some(v) => v,
        None => dest.enabled,
    };
    let label = match req.label {
        Some(v) => v,
        None => dest.label,
    };
    let progress_interval = match req.progress_interval {
        Some(v) => normalize_progress_interval(v),
        None => dest.progress_interval,
    };
    let attach_snapshot = match req.attach_snapshot {
        Some(v) => v,
        None => dest.attach_snapshot,
    };
    let toggles = match req.toggles {
        Some(v) => v,
        None => dest.toggles,
    };
    NotificationDestination {
        id: dest.id,
        kind: dest.kind,
        enabled,
        label,
        ntfy_server: write_some(req.ntfy_server, dest.ntfy_server),
        ntfy_topic: write_some(req.ntfy_topic, dest.ntfy_topic),
        ntfy_tap_url: write_nonempty(req.ntfy_tap_url, dest.ntfy_tap_url),
        discord_webhook_url: write_some(req.discord_webhook_url, dest.discord_webhook_url),
        telegram_bot_token: write_trimmed(req.telegram_bot_token, dest.telegram_bot_token),
        telegram_chat_id: write_trimmed(req.telegram_chat_id, dest.telegram_chat_id),
        telegram_thread_id: write_trimmed(req.telegram_thread_id, dest.telegram_thread_id),
        webhook_url: write_some(req.webhook_url, dest.webhook_url),
        progress_interval,
        attach_snapshot,
        toggles,
    }
}

proof fn lemma_destinations_view_update(ds: Seq<NotificationDestination>, i: int, d: NotificationDestination)
    requires
        0 <= i < ds.len(),
    ensures
        destinations_view(ds.update(i, d)) == destinations_view(ds).update(i, d@),
{
    assert(destinations_view(ds.update(i, d)) =~= destinations_view(ds).update(i, d@));
}

/// `update_destination`: write the requested fields into the first destination
/// with the given id and normalize it; the updated destination is returned.
pub fn apply_destination_update(
    ds: &mut Vec<NotificationDestination>,
    id: &str,
    req: UpdateDestinationReq,
) -> (r: Result<NotificationDestination, AppError>)
    ensures
        match r {
            Ok(d) => {
                &&& exists|i: int|
                    {
                        &&& is_first_dest(destinations_view(old(ds)@), id@, i)
                        &&& d@ == normalize_view(applied_view(old(ds)@[i]@, req))
                        &&& destinations_view(final(ds)@) == destinations_view(old(ds)@).update(i, d@)
                    }
                &&& req.enabled matches Some(e) ==> d.enabled == e
                &&& req.attach_snapshot matches Some(a) ==> d.attach_snapshot == a
                &&& req.toggles matches Some(t) ==> d.toggles == t
            },
            Err(e) => {
                &&& !has_dest(destinations_view(old(ds)@), id@)
                &&& final(ds)@ == old(ds)@
                &&& e matches AppError::Validation(m) && m@ == not_found_quoted_msg(id@)
            },
        },
{
    match find_destination_index(ds, id) {
        None => Err(AppError::Validation(not_found_quoted(id))),
        Some(i) => {
            proof {
                law_update_writes_request(ds@[i as int]@, req);
            }
            let mut d = apply_request(ds[i].duplicate(), req);
            normalize_destination(&mut d);
            let out = d.duplicate();
            proof {
                lemma_destinations_view_update(ds@, i as int, d);
            }
            ds.set(i, d);
            Ok(out)
        },
    }
}

/// `create_destination`: give the destination a fresh id, normalize it and
/// append it; the new id is returned.
pub fn create_destination(ds: &mut Vec<NotificationDestination>, dest: NotificationDestination) -> (r: String)
    ensures
        final(ds)@.len() == old(ds)@.len() + 1,
        final(ds)@.take(old(ds)@.len() as int) == old(ds)@,
        final(ds)@.last()@ == normalize_view(DestinationView { id: r@, ..dest@ }),
        r@.len() == 8,
        exists|x: u32| r@ == hex_n(x as nat, 8),
{
    let mut dest = dest;
    dest.id = gen_id();
    normalize_destination(&mut dest);
    let id = dest.id.clone();
    ds.push(dest);
    assert(ds@.take(old(ds)@.len() as int) =~= old(ds)@);
    id
}

pub open spec fn keeps_other_ids(id: Seq<char>) -> spec_fn(NotificationDestination) -> bool {
    |d: NotificationDestination| d.id@ != id
}

/// `delete_destination`: drop every destination with the given id; refused
/// when there is none.
pub fn remove_destination(ds: &mut Vec<NotificationDestination>, id: &str) -> (r: Result<(), AppError>)
    ensures
        final(ds)@ == old(ds)@.filter(keeps_other_ids(id@)),
        r is Ok <==> has_dest(destinations_view(old(ds)@), id@),
        r matches Err(e) ==> (e matches AppError::Validation(m) && m@ == not_found_msg(id@)),
{
    let ghost pred = keeps_other_ids(id@);
    let mut kept: Vec<NotificationDestination> = Vec::new();
    let mut found = false;
    let mut i: usize = 0;
    while i < ds.len()
        invariant
            pred == keeps_other_ids(id@),
            0 <= i <= ds.len(),
            kept@ == ds@.take(i as int).filter(pred),
            found == has_dest(destinations_view(ds@.take(i as int)), id@),
        decreases ds.len() - i,
    {
        proof {
            reveal_with_fuel(Seq::<_>::filter, 1);
            assert(ds@.take(i + 1).drop_last() =~= ds@.take(i as int));
        }
        let ghost dv_prev = destinations_view(ds@.take(i as int));
        let ghost dv_next = destinations_view(ds@.take(i + 1));
        assert(dv_next =~= dv_prev.push(ds@[i as int]@));
        if same_text(ds[i].id.as_str(), id) {
            found = true;
            assert(dv_next[i as int].id == id@);
        } else {
            kept.push(ds[i].duplicate_exact());
            proof {
                if has_dest(dv_next, id@) {
                    let k = choose|k: int| 0 <= k < dv_next.len() && dv_next[k].id == id@;
                    assert(k < i);
                    assert(dv_prev[k] == dv_next[k]);
                }
            }
        }
        proof {
            if found && has_dest(dv_prev, id@) {
                let k = choose|k: int| 0 <= k < dv_prev.len() && dv_prev[k].id == id@;
                assert(dv_next[k] == dv_prev[k]);
            }
        }
        i = i + 1;
    }
    assert(ds@.take(ds@.len() as int) =~= ds@);
    *ds = kept;
    if !found {
        return Err(AppError::Validation(not_found(id)));
    }
    Ok(())
}

/// Deleting a destination right after creating it gives the list back, when
/// its fresh id was not in use before.
pub proof fn law_remove_undoes_create(ds: Seq<NotificationDestination>, d: NotificationDestination)
    requires
        !has_dest(destinations_view(ds), d.id@),
    ensures
        ds.push(d).filter(keeps_other_ids(d.id@)) == ds,
{
    let pred = keeps_other_ids(d.id@);
    reveal_with_fuel(Seq::<_>::filter, 1);
    assert(ds.push(d).drop_last() =~= ds);
    assert forall|i: int| 0 <= i < ds.len() implies pred(#[trigger] ds[i]) by {
        assert(destinations_view(ds)[i].id == ds[i].id@);
    }
    lemma_filter_all(ds, pred);
}

} // verus!
