//! Which printer events reach which notification destinations, and when:
//! per-destination event toggles, progress intervals, a cooldown per
//! destination and event, and a delay that hides short connection drops.
//!
//! Time is given by the caller as milliseconds on a monotonic clock.
use vstd::prelude::*;

use crate::config::{EventToggles, NotificationDestination};
use crate::events::{EventKind, PrinterEvent};
use crate::keyed::{find_key, key_map, lemma_key_index, set_key};
use crate::text::{dec, lit, push_text, u64_text};

verus! {

pub const COOLDOWN_SECS: u64 = 120;

pub const CONNECTION_EVENT_DELAY_SECS: u64 = 60;

pub const COOLDOWN_MS: u64 = 120_000;

pub const CONNECTION_EVENT_DELAY_MS: u64 = 60_000;

// ---------------------------------------------------------------------------
// Event labels and filters
// ---------------------------------------------------------------------------

pub open spec fn kind_label(kind: EventKind) -> Seq<char> {
    match kind {
        EventKind::PrintStarted => "print_started"@,
        EventKind::PrintFinished => "print_finished_ok"@,
        EventKind::PrintPaused => "print_paused"@,
        EventKind::PrintResumed => "print_resumed"@,
        EventKind::PrintStopped => "print_stopped"@,
        EventKind::ProgressMilestone(_) => "progress_milestone"@,
        EventKind::FailureNotifyThreshold => "failure_notify"@,
        EventKind::FailurePauseThreshold => "failure_pause"@,
        EventKind::AutoPaused => "auto_paused"@,
        EventKind::CameraLost => "camera_lost"@,
        EventKind::CameraRestored => "camera_restored"@,
        EventKind::Connected => "connected"@,
        EventKind::Disconnected => "disconnected"@,
        EventKind::PhaseChanged(code, _) => if code == 19 {
            "emergency_stop"@
        } else if code == 999 {
            "machine_error"@
        } else if code == 1000 {
            "id_not_match"@
        } else if code == 1001 {
            "auth_error"@
        } else {
            "other"@
        },
        EventKind::DetectionEngineError => "detection_engine_error"@,
    }
}

pub open spec fn cooldown_label_spec(kind: EventKind) -> Seq<char> {
    match kind {
        EventKind::ProgressMilestone(p) => "progress_milestone_"@ + dec(p as nat),
        _ => kind_label(kind),
    }
}

pub open spec fn toggles_allow(kind: EventKind, t: EventToggles) -> bool {
    match kind {
        EventKind::PrintStarted => t.print_started,
        EventKind::PrintFinished => t.print_finished_ok,
        EventKind::PrintPaused => t.print_paused,
        EventKind::PrintResumed => t.print_resumed,
        EventKind::PrintStopped => t.print_stopped,
        EventKind::ProgressMilestone(_) => t.progress_milestone,
        EventKind::FailureNotifyThreshold => t.failure_notify,
        EventKind::FailurePauseThreshold => t.failure_pause,
        EventKind::AutoPaused => t.auto_paused,
        EventKind::CameraLost => t.camera_lost,
        EventKind::CameraRestored => t.camera_restored,
        EventKind::Connected => t.connected,
        EventKind::Disconnected => t.disconnected,
        EventKind::PhaseChanged(code, _) => if code == 19 {
            t.emergency_stop
        } else if code == 999 {
            t.machine_error
        } else if code == 1000 {
            t.id_not_match
        } else if code == 1001 {
            t.auth_error
        } else {
            false
        },
        EventKind::DetectionEngineError => t.detection_engine_error,
    }
}

/// Progress milestones reach a destination only at non-zero multiples of its
/// interval; an interval of 0 turns them off.
pub open spec fn options_allow(kind: EventKind, interval: u8) -> bool {
    match kind {
        EventKind::ProgressMilestone(p) => interval > 0 && p > 0 && p % interval == 0,
        _ => true,
    }
}

pub fn event_kind_label(kind: &EventKind) -> (r: &'static str)
    ensures
        r@ == kind_label(*kind),
{
    match kind {
        EventKind::PrintStarted => "print_started",
        EventKind::PrintFinished => "print_finished_ok",
        EventKind::PrintPaused => "print_paused",
        EventKind::PrintResumed => "print_resumed",
        EventKind::PrintStopped => "print_stopped",
        EventKind::ProgressMilestone(_) => "progress_milestone",
        EventKind::FailureNotifyThreshold => "failure_notify",
        EventKind::FailurePauseThreshold => "failure_pause",
        EventKind::AutoPaused => "auto_paused",
        EventKind::CameraLost => "camera_lost",
        EventKind::CameraRestored => "camera_restored",
        EventKind::Connected => "connected",
        EventKind::Disconnected => "disconnected",
        EventKind::PhaseChanged(code, _) => if *code == 19 {
            "emergency_stop"
        } else if *code == 999 {
            "machine_error"
        } else if *code == 1000 {
            "id_not_match"
        } else if *code == 1001 {
            "auth_error"
        } else {
            "other"
        },
        EventKind::DetectionEngineError => "detection_engine_error",
    }
}

pub fn cooldown_label(kind: &EventKind) -> (r: String)
    ensures
        r@ == cooldown_label_spec(*kind),
{
    match kind {
        EventKind::ProgressMilestone(p) => {
            let mut r = lit("progress_milestone_");
            let n = u64_text(*p as u64);
            push_text(&mut r, n.as_str());
            r
        },
        _ => lit(event_kind_label(kind)),
    }
}

pub fn event_matches_destination_options(kind: &EventKind, dest: &NotificationDestination) -> (r: bool)
    ensures
        r == options_allow(*kind, dest.progress_interval),
{
    match kind {
        EventKind::ProgressMilestone(percent) => {
            let interval = dest.progress_interval;
            interval > 0 && *percent > 0 && *percent % interval == 0
        },
        _ => true,
    }
}

pub fn event_matches_toggles(kind: &EventKind, t: &EventToggles) -> (r: bool)
    ensures
        r == toggles_allow(*kind, *t),
{
    match kind {
        EventKind::PrintStarted => t.print_started,
        EventKind::PrintFinished => t.print_finished_ok,
        EventKind::PrintPaused => t.print_paused,
        EventKind::PrintResumed => t.print_resumed,
        EventKind::PrintStopped => t.print_stopped,
        EventKind::ProgressMilestone(_) => t.progress_milestone,
        EventKind::FailureNotifyThreshold => t.failure_notify,
        EventKind::FailurePauseThreshold => t.failure_pause,
        EventKind::AutoPaused => t.auto_paused,
        EventKind::CameraLost => t.camera_lost,
        EventKind::CameraRestored => t.camera_restored,
        EventKind::Connected => t.connected,
        EventKind::Disconnected => t.disconnected,
        EventKind::PhaseChanged(code, _) => if *code == 19 {
            t.emergency_stop
        } else if *code == 999 {
            t.machine_error
        } else if *code == 1000 {
            t.id_not_match
        } else if *code == 1001 {
            t.auth_error
        } else {
            false
        },
        EventKind::DetectionEngineError => t.detection_engine_error,
    }
}

/// The snapshot file to attach for an event: only for destinations that ask
/// for snapshots.
pub fn snapshot_file(dest: &NotificationDestination, event: &PrinterEvent) -> (r: Option<String>)
    ensures
        r == (if dest.attach_snapshot { event.snapshot } else { None }),
{
    if dest.attach_snapshot {
        match &event.snapshot {
            Some(s) => Some(s.clone()),
            None => None,
        }
    } else {
        None
    }
}

// ---------------------------------------------------------------------------
// Cooldown table
// ---------------------------------------------------------------------------

/// The cooldown key of an event at a destination: "{dest id}:{cooldown label}".
pub open spec fn cooldown_key(dest_id: Seq<char>, kind: EventKind) -> Seq<char> {
    dest_id + ":"@ + cooldown_label_spec(kind)
}

// ---------------------------------------------------------------------------
// The notification manager
// ---------------------------------------------------------------------------

/// A connection event held back until its delay has passed.
#[derive(Debug, Clone)]
pub struct PendingConnectionEvent {
    pub event: PrinterEvent,
    pub due_at_ms: u64,
}

pub struct NotificationManager {
    /// last events_total
    last_processed_total: u64,
    cooldowns: Vec<(String, u64)>,
    pending_connection: Option<PendingConnectionEvent>,
    connection_outage_notified: bool,
}

pub struct ManagerView {
    /// The printer's event counter at the last look.
    pub last_processed_total: u64,
    /// When each destination last got each kind of event.
    pub cooldowns: Map<Seq<char>, u64>,
    /// A connection event waiting for its delay, and when it is due.
    pub pending: Option<(PrinterEvent, u64)>,
    /// Whether a disconnect has been announced and not yet followed by a reconnect.
    pub outage_notified: bool,
}

impl View for NotificationManager {
    type V = ManagerView;

    closed spec fn view(&self) -> ManagerView {
        ManagerView {
            last_processed_total: self.last_processed_total,
            cooldowns: key_map(self.cooldowns@),
            pending: match self.pending_connection {
                Some(p) => Some((p.event, p.due_at_ms)),
                None => None,
            },
            outage_notified: self.connection_outage_notified,
        }
    }
}

pub open spec fn is_disconnected(e: PrinterEvent) -> bool {
    e.kind matches EventKind::Disconnected
}

pub open spec fn is_connected(e: PrinterEvent) -> bool {
    e.kind matches EventKind::Connected
}

/// `queue_connection_event`: connection events are held back. A disconnect is
/// held for the delay; a reconnect cancels a held disconnect, and is itself
/// held only when an outage was announced. Other events are not held.
pub open spec fn queue_spec(v: ManagerView, e: PrinterEvent, now: u64) -> (ManagerView, bool) {
    if is_disconnected(e) {
        (ManagerView { pending: Some((e, (now + CONNECTION_EVENT_DELAY_MS) as u64)), ..v }, true)
    } else if is_connected(e) {
        if v.pending matches Some(p) && is_disconnected(p.0) {
            (ManagerView { pending: None, ..v }, true)
        } else if v.outage_notified {
            (ManagerView { pending: Some((e, (now + CONNECTION_EVENT_DELAY_MS) as u64)), ..v }, true)
        } else {
            (v, true)
        }
    } else {
        (v, false)
    }
}

/// `dispatch_due_connection_event`: the held event is released. A disconnect is
/// announced only if the printer is still offline, a reconnect only if it is
/// online; announcing either updates the outage flag.
pub open spec fn take_due_spec(v: ManagerView, connected: bool) -> (ManagerView, Option<PrinterEvent>) {
    match v.pending {
        None => (v, None),
        Some(p) => if is_disconnected(p.0) && !connected {
            (ManagerView { pending: None, outage_notified: true, ..v }, Some(p.0))
        } else if is_connected(p.0) && connected {
            (ManagerView { pending: None, outage_notified: false, ..v }, Some(p.0))
        } else {
            (ManagerView { pending: None, ..v }, None)
        },
    }
}

/// Whether the cooldown of `key` is still running at `now`.
pub open spec fn cooling(v: ManagerView, key: Seq<char>, now: u64) -> bool {
    v.cooldowns.contains_key(key) && (if now >= v.cooldowns[key] {
        now - v.cooldowns[key]
    } else {
        0
    }) < COOLDOWN_MS
}

/// Whether an event goes to a destination at `now`, and the manager after the
/// decision: enabled destinations get the events their toggles and progress
/// interval let through, once per cooldown per event label.
pub open spec fn admit_spec(v: ManagerView, kind: EventKind, d: NotificationDestination, now: u64) -> (
    ManagerView,
    bool,
) {
    let key = cooldown_key(d.id@, kind);
    if d.enabled && toggles_allow(kind, d.toggles) && options_allow(kind, d.progress_interval)
        && !cooling(v, key, now) {
        (ManagerView { cooldowns: v.cooldowns.insert(key, now), ..v }, true)
    } else {
        (v, false)
    }
}

/// How many events the printer buffer holds that were not yet looked at.
pub open spec fn unseen_count(v: ManagerView, total: u64, len: nat) -> int {
    let unprocessed = if total >= v.last_processed_total {
        total - v.last_processed_total
    } else {
        0
    };
    if unprocessed < len {
        unprocessed
    } else {
        len as int
    }
}

impl NotificationManager {
    /// A manager that regards the first `events_total` printer events as seen.
    pub fn new(events_total: u64) -> (r: NotificationManager)
        ensures
            r@.last_processed_total == events_total,
            r@.cooldowns == Map::<Seq<char>, u64>::empty(),
            r@.pending is None,
            !r@.outage_notified,
    {
        let r = NotificationManager {
            last_processed_total: events_total,
            cooldowns: Vec::new(),
            pending_connection: None,
            connection_outage_notified: false,
        };
        assert(key_map(r.cooldowns@) =~= Map::<Seq<char>, u64>::empty());
        r
    }

    /// How long until the held connection event is due, if one is held.
    pub fn connection_delay_until_due(&self, now_ms: u64) -> (r: Option<u64>)
        ensures
            r == (match self@.pending {
                Some(p) => Some(if p.1 >= now_ms { (p.1 - now_ms) as u64 } else { 0 }),
                None => None,
            }),
    {
        match &self.pending_connection {
            Some(p) => Some(p.due_at_ms.saturating_sub(now_ms)),
            None => None,
        }
    }

    /// The events of the printer's buffer that were added since the last look:
    /// the newest `events_total - last total` of them, at most the whole buffer.
    pub fn take_new_events(&mut self, events_total: u64, events: &Vec<PrinterEvent>) -> (r: Vec<PrinterEvent>)
        ensures
            final(self)@ == (ManagerView { last_processed_total: events_total, ..old(self)@ }),
            r@ == events@.subrange(
                events@.len() - unseen_count(old(self)@, events_total, events@.len()),
                events@.len() as int,
            ),
    {
        let unprocessed = events_total.saturating_sub(self.last_processed_total);
        let to_take: usize = if unprocessed < events.len() as u64 {
            unprocessed as usize
        } else {
            events.len()
        };
        let start = events.len() - to_take;
        let mut r: Vec<PrinterEvent> = Vec::new();
        let mut i = start;
        while i < events.len()
            invariant
                start <= i <= events.len(),
                r@ == events@.subrange(start as int, i as int),
            decreases events.len() - i,
        {
            r.push(events[i].duplicate());
            assert(events@.subrange(start as int, i + 1) =~= events@.subrange(start as int, i as int).push(events@[i as int]));
            i = i + 1;
        }
        self.last_processed_total = events_total;
        r
    }

    /// Holds back connection events; true when the event was a connection event.
    pub fn queue_connection_event(&mut self, event: &PrinterEvent, now_ms: u64) -> (r: bool)
        requires
            now_ms <= u64::MAX - CONNECTION_EVENT_DELAY_MS,
        ensures
            (final(self)@, r) == queue_spec(old(self)@, *event, now_ms),
    {
        match &event.kind {
            EventKind::Disconnected => {
                self.pending_connection = Some(
                    PendingConnectionEvent {
                        event: event.duplicate(),
                        due_at_ms: now_ms + CONNECTION_EVENT_DELAY_MS,
                    },
                );
                true
            },
            EventKind::Connected => {
                let held_disconnect = match &self.pending_connection {
                    Some(p) => match &p.event.kind {
                        EventKind::Disconnected => true,
                        _ => false,
                    },
                    None => false,
                };
                if held_disconnect {
                    self.pending_connection = None;
                    return true;
                }
                if self.connection_outage_notified {
                    self.pending_connection = Some(
                        PendingConnectionEvent {
                            event: event.duplicate(),
                            due_at_ms: now_ms + CONNECTION_EVENT_DELAY_MS,
                        },
                    );
                }
                true
            },
            _ => false,
        }
    }

    /// Releases the held connection event once it is due; returns the event to
    /// announce, if any.
    pub fn take_due_connection_event(&mut self, connected: bool) -> (r: Option<PrinterEvent>)
        ensures
            (final(self)@, r) == take_due_spec(old(self)@, connected),
    {
        let pending = self.pending_connection.take();
        match pending {
            None => None,
            Some(p) => {
                let announce = match &p.event.kind {
                    EventKind::Disconnected => {
                        if !connected {
                            self.connection_outage_notified = true;
                            true
                        } else {
                            false
                        }
                    },
                    EventKind::Connected => {
                        if connected {
                            self.connection_outage_notified = false;
                            true
                        } else {
                            false
                        }
                    },
                    _ => false,
                };
                if announce {
                    Some(p.event)
                } else {
                    None
                }
            },
        }
    }

    /// Decides whether `kind` goes to `dest` now, and starts that cooldown when it does.
    pub fn admit_dispatch(&mut self, kind: &EventKind, dest: &NotificationDestination, now_ms: u64) -> (r: bool)
        ensures
            (final(self)@, r) == admit_spec(old(self)@, *kind, *dest, now_ms),
    {
        if !dest.enabled {
            return false;
        }
        if !event_matches_toggles(kind, &dest.toggles) {
            return false;
        }
        if !event_matches_destination_options(kind, dest) {
            return false;
        }
        let mut key = dest.id.clone();
        push_text(&mut key, ":");
        let label = cooldown_label(kind);
        push_text(&mut key, label.as_str());
        assert(key@ == cooldown_key(dest.id@, *kind));
        let found = find_key(&self.cooldowns, key.as_str());
        if let Some(i) = found {
            proof {
                lemma_key_index(self.cooldowns@, key@, i as int);
            }
            if now_ms.saturating_sub(self.cooldowns[i].1) < COOLDOWN_MS {
                return false;
            }
        }
        set_key(&mut self.cooldowns, key, now_ms);
        true
    }

    /// `process_new_events`: looks at the printer's new events, in order.
    /// Connection events are held back (or dropped) by
    /// `queue_connection_event`; every other event goes to the destinations
    /// that `dispatch_targets` picks. Returns each dispatched event with the
    /// positions of its destinations.
    pub fn process_new_events(
        &mut self,
        events_total: u64,
        events: &Vec<PrinterEvent>,
        destinations: &Vec<NotificationDestination>,
        now_ms: u64,
    ) -> (r: Vec<(PrinterEvent, Vec<usize>)>)
        requires
            now_ms <= u64::MAX - CONNECTION_EVENT_DELAY_MS,
        ensures
            (final(self)@, routed_view(r@)) == route_spec(
                ManagerView { last_processed_total: events_total, ..old(self)@ },
                events@.subrange(
                    events@.len() - unseen_count(old(self)@, events_total, events@.len()),
                    events@.len() as int,
                ),
                destinations@,
                now_ms,
            ),
    {
        let new_events = self.take_new_events(events_total, events);
        let ghost seen = self@;
        let mut out: Vec<(PrinterEvent, Vec<usize>)> = Vec::new();
        let mut i: usize = 0;
        assert(new_events@.take(0) =~= Seq::<PrinterEvent>::empty());
        assert(routed_view(out@) =~= Seq::<(PrinterEvent, Seq<usize>)>::empty());
        while i < new_events.len()
            invariant
                0 <= i <= new_events.len(),
                now_ms <= u64::MAX - CONNECTION_EVENT_DELAY_MS,
                (self@, routed_view(out@)) == route_spec(seen, new_events@.take(i as int), destinations@, now_ms),
            decreases new_events.len() - i,
        {
            assert(new_events@.take(i + 1).drop_last() =~= new_events@.take(i as int));
            let e = &new_events[i];
            let held = self.queue_connection_event(e, now_ms);
            if !held {
                let targets = self.dispatch_targets(e, destinations, now_ms);
                let ghost before = out@;
                let ghost tv = targets@;
                out.push((e.duplicate(), targets));
                assert(routed_view(out@) =~= routed_view(before).push((*e, tv)));
            }
            i = i + 1;
        }
        assert(new_events@.take(new_events@.len() as int) =~= new_events@);
        out
    }

    /// The destinations (by index) that an event goes to now, in order; the
    /// cooldown of each is started.
    pub fn dispatch_targets(
        &mut self,
        event: &PrinterEvent,
        destinations: &Vec<NotificationDestination>,
        now_ms: u64,
    ) -> (r: Vec<usize>)
        ensures
            (final(self)@, r@) == dispatch_spec(old(self)@, event.kind, destinations@, now_ms),
    {
        let mut r: Vec<usize> = Vec::new();
        let mut i: usize = 0;
        assert(destinations@.take(0) =~= Seq::<NotificationDestination>::empty());
        while i < destinations.len()
            invariant
                0 <= i <= destinations.len(),
                (self@, r@) == dispatch_spec(old(self)@, event.kind, destinations@.take(i as int), now_ms),
            decreases destinations.len() - i,
        {
            assert(destinations@.take(i + 1).drop_last() =~= destinations@.take(i as int));
            if self.admit_dispatch(&event.kind, &destinations[i], now_ms) {
                r.push(i);
            }
            i = i + 1;
        }
        assert(destinations@.take(destinations@.len() as int) =~= destinations@);
        r
    }
}

/// What one look at new events decides, event by event: connection events
/// are held back or dropped (`queue_spec`); every other event is dispatched
/// (`dispatch_spec`). The manager afterwards, and each dispatched event with
/// the positions of its destinations.
pub open spec fn route_spec(v: ManagerView, events: Seq<PrinterEvent>, ds: Seq<NotificationDestination>, now: u64) -> (
    ManagerView,
    Seq<(PrinterEvent, Seq<usize>)>,
)
    decreases events.len(),
{
    if events.len() == 0 {
        (v, Seq::empty())
    } else {
        let (v1, out) = route_spec(v, events.drop_last(), ds, now);
        let e = events.last();
        let (v2, held) = queue_spec(v1, e, now);
        if held {
            (v2, out)
        } else {
            let (v3, targets) = dispatch_spec(v2, e.kind, ds, now);
            (v3, out.push((e, targets)))
        }
    }
}

/// The dispatched events with the positions of their destinations.
pub open spec fn routed_view(r: Seq<(PrinterEvent, Vec<usize>)>) -> Seq<(PrinterEvent, Seq<usize>)> {
    r.map_values(|p: (PrinterEvent, Vec<usize>)| (p.0, p.1@))
}

/// The decisions about a list of destinations, taken in order: the manager
/// afterwards, and the positions of the destinations that get the event.
pub open spec fn dispatch_spec(v: ManagerView, kind: EventKind, ds: Seq<NotificationDestination>, now: u64) -> (
    ManagerView,
    Seq<usize>,
)
    decreases ds.len(),
{
    if ds.len() == 0 {
        (v, Seq::empty())
    } else {
        let (v1, earlier) = dispatch_spec(v, kind, ds.drop_last(), now);
        let (v2, admitted) = admit_spec(v1, kind, ds.last(), now);
        (v2, if admitted {
            earlier.push((ds.len() - 1) as usize)
        } else {
            earlier
        })
    }
}

// ---------------------------------------------------------------------------
// Laws
// ---------------------------------------------------------------------------

/// A destination that just got an event does not get an event with the same
/// cooldown label again before the cooldown has run out.
pub proof fn law_cooldown_blocks_repeat(
    v: ManagerView,
    kind: EventKind,
    later: EventKind,
    d: NotificationDestination,
    t: u64,
    t2: u64,
)
    requires
        admit_spec(v, kind, d, t).1,
        cooldown_label_spec(later) == cooldown_label_spec(kind),
        t <= t2 < t + COOLDOWN_MS,
    ensures
        !admit_spec(admit_spec(v, kind, d, t).0, later, d, t2).1,
{
    let v1 = admit_spec(v, kind, d, t).0;
    assert(v1.cooldowns.contains_key(cooldown_key(d.id@, later)));
}

/// Deciding about one destination and label leaves every other cooldown as it was.
pub proof fn law_admit_keeps_other_cooldowns(
    v: ManagerView,
    kind: EventKind,
    d: NotificationDestination,
    t: u64,
    key: Seq<char>,
)
    requires
        key != cooldown_key(d.id@, kind),
    ensures
        admit_spec(v, kind, d, t).0.cooldowns.contains_key(key) == v.cooldowns.contains_key(key),
        v.cooldowns.contains_key(key) ==> admit_spec(v, kind, d, t).0.cooldowns[key] == v.cooldowns[key],
{
}

/// Once the cooldown has run out, an enabled destination whose toggles and
/// interval allow the event gets it again.
pub proof fn law_cooldown_expires(v: ManagerView, kind: EventKind, d: NotificationDestination, t: u64, t2: u64)
    requires
        admit_spec(v, kind, d, t).1,
        t2 >= t + COOLDOWN_MS,
    ensures
        admit_spec(admit_spec(v, kind, d, t).0, kind, d, t2).1,
{
}

/// A disconnect followed by a reconnect before the delay ran out is never
/// announced: nothing is held afterwards and the outage flag is unchanged.
pub proof fn law_short_outage_is_silent(v: ManagerView, down: PrinterEvent, up: PrinterEvent, t1: u64, t2: u64)
    requires
        is_disconnected(down),
        is_connected(up),
        t1 <= u64::MAX - CONNECTION_EVENT_DELAY_MS,
    ensures
        queue_spec(queue_spec(v, down, t1).0, up, t2).0 == (ManagerView { pending: None, ..v }),
        queue_spec(v, down, t1).1,
        queue_spec(queue_spec(v, down, t1).0, up, t2).1,
{
}

/// An announced disconnect means the printer was offline when the delay ran
/// out; an announced reconnect means it was online again.
pub proof fn law_announcements_match_state(v: ManagerView, connected: bool)
    ensures
        take_due_spec(v, connected).1 matches Some(e) ==> (is_disconnected(e) && !connected) || (
        is_connected(e) && connected),
        take_due_spec(v, connected).0.pending is None,
{
}

/// A reconnect is held for announcement only after an announced outage.
pub proof fn law_reconnect_needs_outage(v: ManagerView, up: PrinterEvent, t: u64)
    requires
        is_connected(up),
        !v.outage_notified,
        !(v.pending matches Some(p) && is_disconnected(p.0)),
    ensures
        queue_spec(v, up, t).0 == v,
{
}

/// Events other than connection changes are never held back.
pub proof fn law_other_events_pass(v: ManagerView, e: PrinterEvent, t: u64)
    requires
        !is_connected(e),
        !is_disconnected(e),
    ensures
        queue_spec(v, e, t) == (v, false),
{
}

/// Printer events are handed out once: after a look, a second look with the
/// same event counter finds nothing new.
pub proof fn law_events_taken_once(v: ManagerView, total: u64, len: nat)
    ensures
        unseen_count(ManagerView { last_processed_total: total, ..v }, total, len) == 0,
{
}

/// Whether a destination gets an event at `now`, given the cooldowns of `v`:
/// it is enabled, its toggles and progress interval let the event through,
/// and the cooldown of its key is not running.
pub open spec fn gets_event(v: ManagerView, kind: EventKind, d: NotificationDestination, now: u64) -> bool {
    &&& d.enabled
    &&& toggles_allow(kind, d.toggles)
    &&& options_allow(kind, d.progress_interval)
    &&& !cooling(v, cooldown_key(d.id@, kind), now)
}

/// No two destinations share an id.
pub open spec fn distinct_ids(ds: Seq<NotificationDestination>) -> bool {
    forall|a: int, b: int| 0 <= a < b < ds.len() ==> ds[a].id@ != ds[b].id@
}

proof fn lemma_cooldown_key_injective(a: Seq<char>, b: Seq<char>, kind: EventKind)
    requires
        cooldown_key(a, kind) == cooldown_key(b, kind),
    ensures
        a == b,
{
    let l = ":"@ + cooldown_label_spec(kind);
    assert(cooldown_key(a, kind) =~= a + l);
    assert(cooldown_key(b, kind) =~= b + l);
    assert(a =~= (a + l).take(a.len() as int));
    assert(b =~= (b + l).take(b.len() as int));
}

/// The manager after dispatching an event over `ds`.
pub open spec fn dispatched_state(v: ManagerView, kind: EventKind, ds: Seq<NotificationDestination>, now: u64) -> ManagerView {
    dispatch_spec(v, kind, ds, now).0
}

/// The positions of the destinations that get an event dispatched over `ds`.
pub open spec fn dispatched_to(v: ManagerView, kind: EventKind, ds: Seq<NotificationDestination>, now: u64) -> Seq<usize> {
    dispatch_spec(v, kind, ds, now).1
}

/// Every listed position is a destination that gets the event.
pub open spec fn only_getters_listed(v: ManagerView, kind: EventKind, ds: Seq<NotificationDestination>, now: u64) -> bool {
    forall|k: int|
        0 <= k < dispatched_to(v, kind, ds, now).len() ==> #[trigger] dispatched_to(v, kind, ds, now)[k]
            < ds.len() && gets_event(v, kind, ds[dispatched_to(v, kind, ds, now)[k] as int], now)
}

/// The listed positions are in list order.
pub open spec fn listed_in_order(v: ManagerView, kind: EventKind, ds: Seq<NotificationDestination>, now: u64) -> bool {
    forall|a: int, b: int|
        0 <= a < b < dispatched_to(v, kind, ds, now).len() ==> #[trigger] dispatched_to(v, kind, ds, now)[a]
            < #[trigger] dispatched_to(v, kind, ds, now)[b]
}

/// Every destination that gets the event is listed, and its cooldown starts now.
pub open spec fn getters_listed(v: ManagerView, kind: EventKind, ds: Seq<NotificationDestination>, now: u64) -> bool {
    forall|i: int|
        0 <= i < ds.len() && #[trigger] gets_event(v, kind, ds[i], now) ==> {
            &&& dispatched_to(v, kind, ds, now).contains(i as usize)
            &&& dispatched_state(v, kind, ds, now).cooldowns.contains_key(cooldown_key(ds[i].id@, kind))
            &&& dispatched_state(v, kind, ds, now).cooldowns[cooldown_key(ds[i].id@, kind)] == now
        }
}

/// `key` is the cooldown key of no destination of `ds` that gets the event.
pub open spec fn not_a_getter_key(
    v: ManagerView,
    kind: EventKind,
    ds: Seq<NotificationDestination>,
    now: u64,
    key: Seq<char>,
) -> bool {
    forall|i: int| 0 <= i < ds.len() && #[trigger] gets_event(v, kind, ds[i], now) ==> key != cooldown_key(ds[i].id@, kind)
}

/// Every other cooldown, and the rest of the manager, stays as it was.
pub open spec fn others_kept(v: ManagerView, kind: EventKind, ds: Seq<NotificationDestination>, now: u64) -> bool {
    &&& forall|key: Seq<char>|
        #[trigger] not_a_getter_key(v, kind, ds, now, key) ==> {
            &&& dispatched_state(v, kind, ds, now).cooldowns.contains_key(key) == v.cooldowns.contains_key(key)
            &&& v.cooldowns.contains_key(key) ==> dispatched_state(v, kind, ds, now).cooldowns[key]
                == v.cooldowns[key]
        }
    &&& dispatched_state(v, kind, ds, now).last_processed_total == v.last_processed_total
    &&& dispatched_state(v, kind, ds, now).pending == v.pending
    &&& dispatched_state(v, kind, ds, now).outage_notified == v.outage_notified
}

/// The last destination of a list with distinct ids is admitted exactly when
/// it gets the event under the cooldowns before the whole dispatch.
proof fn lemma_dispatch_last_admitted(v: ManagerView, kind: EventKind, ds: Seq<NotificationDestination>, now: u64)
    requires
        ds.len() > 0,
        distinct_ids(ds),
        others_kept(v, kind, ds.drop_last(), now),
    ensures
        admit_spec(dispatched_state(v, kind, ds.drop_last(), now), kind, ds.last(), now).1 == gets_event(
            v,
            kind,
            ds.last(),
            now,
        ),
{
    let p = ds.drop_last();
    let n = ds.len() - 1;
    let d = ds.last();
    let kd = cooldown_key(d.id@, kind);
    assert(not_a_getter_key(v, kind, p, now, kd)) by {
        assert forall|i: int| 0 <= i < p.len() && #[trigger] gets_event(v, kind, p[i], now) implies kd
            != cooldown_key(p[i].id@, kind) by {
            if cooldown_key(p[i].id@, kind) == kd {
                lemma_cooldown_key_injective(p[i].id@, d.id@, kind);
                assert(ds[i].id@ != ds[n].id@);
            }
        }
    }
}

proof fn lemma_dispatch_step_kept(v: ManagerView, kind: EventKind, ds: Seq<NotificationDestination>, now: u64)
    requires
        ds.len() > 0,
        distinct_ids(ds),
        others_kept(v, kind, ds.drop_last(), now),
    ensures
        others_kept(v, kind, ds, now),
{
    let p = ds.drop_last();
    let n = ds.len() - 1;
    let d = ds.last();
    lemma_dispatch_last_admitted(v, kind, ds, now);
    assert forall|key: Seq<char>| #[trigger] not_a_getter_key(v, kind, ds, now, key) implies {
        &&& dispatched_state(v, kind, ds, now).cooldowns.contains_key(key) == v.cooldowns.contains_key(key)
        &&& v.cooldowns.contains_key(key) ==> dispatched_state(v, kind, ds, now).cooldowns[key]
            == v.cooldowns[key]
    } by {
        assert(not_a_getter_key(v, kind, p, now, key)) by {
            assert forall|i: int| 0 <= i < p.len() && #[trigger] gets_event(v, kind, p[i], now) implies key
                != cooldown_key(p[i].id@, kind) by {
                assert(p[i] == ds[i]);
                assert(gets_event(v, kind, ds[i], now));
            }
        }
        if gets_event(v, kind, d, now) {
            assert(ds[n] == d);
            assert(gets_event(v, kind, ds[n], now));
        }
    }
}

proof fn lemma_dispatch_step_listed(v: ManagerView, kind: EventKind, ds: Seq<NotificationDestination>, now: u64)
    requires
        ds.len() > 0,
        ds.len() <= usize::MAX,
        distinct_ids(ds),
        others_kept(v, kind, ds.drop_last(), now),
        only_getters_listed(v, kind, ds.drop_last(), now),
        listed_in_order(v, kind, ds.drop_last(), now),
        getters_listed(v, kind, ds.drop_last(), now),
    ensures
        only_getters_listed(v, kind, ds, now),
        listed_in_order(v, kind, ds, now),
        getters_listed(v, kind, ds, now),
{
    let p = ds.drop_last();
    let n = ds.len() - 1;
    let d = ds.last();
    lemma_dispatch_last_admitted(v, kind, ds, now);
    let earlier = dispatched_to(v, kind, p, now);
    let r = dispatched_to(v, kind, ds, now);
    let w = dispatched_state(v, kind, ds, now);
    let v1 = dispatched_state(v, kind, p, now);
    let kd = cooldown_key(d.id@, kind);
    let admitted = gets_event(v, kind, d, now);
    assert((n as usize) as int == n);
    assert(r == (if admitted { earlier.push(n as usize) } else { earlier }));
    assert(w.cooldowns == (if admitted { v1.cooldowns.insert(kd, now) } else { v1.cooldowns }));
    assert(ds[n] == d);
    assert forall|k: int| 0 <= k < r.len() implies #[trigger] r[k] < ds.len() && gets_event(
        v,
        kind,
        ds[r[k] as int],
        now,
    ) by {
        if k < earlier.len() {
            assert(r[k] == earlier[k]);
            assert(p[earlier[k] as int] == ds[earlier[k] as int]);
        } else {
            assert(r[k] == n as usize);
        }
    }
    assert forall|a: int, b: int| 0 <= a < b < r.len() implies #[trigger] r[a] < #[trigger] r[b] by {
        assert(r[a] == earlier[a]);
        if b < earlier.len() {
            assert(r[b] == earlier[b]);
        } else {
            assert(earlier[a] < p.len());
        }
    }
    assert forall|i: int| 0 <= i < ds.len() && #[trigger] gets_event(v, kind, ds[i], now) implies {
        &&& r.contains(i as usize)
        &&& w.cooldowns.contains_key(cooldown_key(ds[i].id@, kind))
        &&& w.cooldowns[cooldown_key(ds[i].id@, kind)] == now
    } by {
        if i < n {
            assert(p[i] == ds[i]);
            assert(gets_event(v, kind, p[i], now));
            assert(earlier.contains(i as usize));
            let k = choose|k: int| 0 <= k < earlier.len() && earlier[k] == i as usize;
            assert(r[k] == earlier[k]);
            if cooldown_key(ds[i].id@, kind) == kd {
                lemma_cooldown_key_injective(ds[i].id@, d.id@, kind);
            }
        } else {
            assert(r[r.len() - 1] == n as usize);
        }
    }
}

/// Dispatching an event over a list of destinations with distinct ids: it
/// goes to exactly the destinations that get it (enabled, let through by
/// their toggles and progress interval, not cooling down), in list order;
/// exactly their cooldowns are set to `now`, and nothing else changes. (The
/// list is bounded as a `Vec` is.)
pub proof fn law_dispatch_list(v: ManagerView, kind: EventKind, ds: Seq<NotificationDestination>, now: u64)
    requires
        distinct_ids(ds),
        ds.len() <= usize::MAX,
    ensures
        only_getters_listed(v, kind, ds, now),
        listed_in_order(v, kind, ds, now),
        getters_listed(v, kind, ds, now),
        others_kept(v, kind, ds, now),
    decreases ds.len(),
{
    if ds.len() > 0 {
        let p = ds.drop_last();
        assert(distinct_ids(p)) by {
            assert forall|a: int, b: int| 0 <= a < b < p.len() implies p[a].id@ != p[b].id@ by {
                assert(p[a] == ds[a] && p[b] == ds[b]);
            }
        }
        law_dispatch_list(v, kind, p, now);
        lemma_dispatch_step_kept(v, kind, ds, now);
        lemma_dispatch_step_listed(v, kind, ds, now);
    } else {
        assert(dispatched_to(v, kind, ds, now).len() == 0);
        assert(dispatched_state(v, kind, ds, now) == v);
    }
}

/// The event toggle with the given name (`false` for a name no toggle has).
pub open spec fn toggle_named(t: EventToggles, name: Seq<char>) -> bool {
    if name == "print_started"@ {
        t.print_started
    } else if name == "print_finished_ok"@ {
        t.print_finished_ok
    } else if name == "print_paused"@ {
        t.print_paused
    } else if name == "print_resumed"@ {
        t.print_resumed
    } else if name == "print_stopped"@ {
        t.print_stopped
    } else if name == "progress_milestone"@ {
        t.progress_milestone
    } else if name == "failure_notify"@ {
        t.failure_notify
    } else if name == "failure_pause"@ {
        t.failure_pause
    } else if name == "auto_paused"@ {
        t.auto_paused
    } else if name == "camera_lost"@ {
        t.camera_lost
    } else if name == "camera_restored"@ {
        t.camera_restored
    } else if name == "connected"@ {
        t.connected
    } else if name == "disconnected"@ {
        t.disconnected
    } else if name == "emergency_stop"@ {
        t.emergency_stop
    } else if name == "machine_error"@ {
        t.machine_error
    } else if name == "id_not_match"@ {
        t.id_not_match
    } else if name == "auth_error"@ {
        t.auth_error
    } else if name == "detection_engine_error"@ {
        t.detection_engine_error
    } else {
        false
    }
}

/// The event labels are distinct texts.
proof fn lemma_labels_distinct()
    ensures
        "print_started"@ != "print_finished_ok"@,
        "print_started"@ != "print_paused"@,
        "print_started"@ != "print_resumed"@,
        "print_started"@ != "print_stopped"@,
        "print_started"@ != "progress_milestone"@,
        "print_started"@ != "failure_notify"@,
        "print_started"@ != "failure_pause"@,
        "print_started"@ != "auto_paused"@,
        "print_started"@ != "camera_lost"@,
        "print_started"@ != "camera_restored"@,
        "print_started"@ != "connected"@,
        "print_started"@ != "disconnected"@,
        "print_started"@ != "emergency_stop"@,
        "print_started"@ != "machine_error"@,
        "print_started"@ != "id_not_match"@,
        "print_started"@ != "auth_error"@,
        "print_started"@ != "detection_engine_error"@,
        "print_started"@ != "other"@,
        "print_finished_ok"@ != "print_paused"@,
        "print_finished_ok"@ != "print_resumed"@,
        "print_finished_ok"@ != "print_stopped"@,
        "print_finished_ok"@ != "progress_milestone"@,
        "print_finished_ok"@ != "failure_notify"@,
        "print_finished_ok"@ != "failure_pause"@,
        "print_finished_ok"@ != "auto_paused"@,
        "print_finished_ok"@ != "camera_lost"@,
        "print_finished_ok"@ != "camera_restored"@,
        "print_finished_ok"@ != "connected"@,
        "print_finished_ok"@ != "disconnected"@,
        "print_finished_ok"@ != "emergency_stop"@,
        "print_finished_ok"@ != "machine_error"@,
        "print_finished_ok"@ != "id_not_match"@,
        "print_finished_ok"@ != "auth_error"@,
        "print_finished_ok"@ != "detection_engine_error"@,
        "print_finished_ok"@ != "other"@,
        "print_paused"@ != "print_resumed"@,
        "print_paused"@ != "print_stopped"@,
        "print_paused"@ != "progress_milestone"@,
        "print_paused"@ != "failure_notify"@,
        "print_paused"@ != "failure_pause"@,
        "print_paused"@ != "auto_paused"@,
        "print_paused"@ != "camera_lost"@,
        "print_paused"@ != "camera_restored"@,
        "print_paused"@ != "connected"@,
        "print_paused"@ != "disconnected"@,
        "print_paused"@ != "emergency_stop"@,
        "print_paused"@ != "machine_error"@,
        "print_paused"@ != "id_not_match"@,
        "print_paused"@ != "auth_error"@,
        "print_paused"@ != "detection_engine_error"@,
        "print_paused"@ != "other"@,
        "print_resumed"@ != "print_stopped"@,
        "print_resumed"@ != "progress_milestone"@,
        "print_resumed"@ != "failure_notify"@,
        "print_resumed"@ != "failure_pause"@,
        "print_resumed"@ != "auto_paused"@,
        "print_resumed"@ != "camera_lost"@,
        "print_resumed"@ != "camera_restored"@,
        "print_resumed"@ != "connected"@,
        "print_resumed"@ != "disconnected"@,
        "print_resumed"@ != "emergency_stop"@,
        "print_resumed"@ != "machine_error"@,
        "print_resumed"@ != "id_not_match"@,
        "print_resumed"@ != "auth_error"@,
        "print_resumed"@ != "detection_engine_error"@,
        "print_resumed"@ != "other"@,
        "print_stopped"@ != "progress_milestone"@,
        "print_stopped"@ != "failure_notify"@,
        "print_stopped"@ != "failure_pause"@,
        "print_stopped"@ != "auto_paused"@,
        "print_stopped"@ != "camera_lost"@,
        "print_stopped"@ != "camera_restored"@,
        "print_stopped"@ != "connected"@,
        "print_stopped"@ != "disconnected"@,
        "print_stopped"@ != "emergency_stop"@,
        "print_stopped"@ != "machine_error"@,
        "print_stopped"@ != "id_not_match"@,
        "print_stopped"@ != "auth_error"@,
        "print_stopped"@ != "detection_engine_error"@,
        "print_stopped"@ != "other"@,
        "progress_milestone"@ != "failure_notify"@,
        "progress_milestone"@ != "failure_pause"@,
        "progress_milestone"@ != "auto_paused"@,
        "progress_milestone"@ != "camera_lost"@,
        "progress_milestone"@ != "camera_restored"@,
        "progress_milestone"@ != "connected"@,
        "progress_milestone"@ != "disconnected"@,
        "progress_milestone"@ != "emergency_stop"@,
        "progress_milestone"@ != "machine_error"@,
        "progress_milestone"@ != "id_not_match"@,
        "progress_milestone"@ != "auth_error"@,
        "progress_milestone"@ != "detection_engine_error"@,
        "progress_milestone"@ != "other"@,
        "failure_notify"@ != "failure_pause"@,
        "failure_notify"@ != "auto_paused"@,
        "failure_notify"@ != "camera_lost"@,
        "failure_notify"@ != "camera_restored"@,
        "failure_notify"@ != "connected"@,
        "failure_notify"@ != "disconnected"@,
        "failure_notify"@ != "emergency_stop"@,
        "failure_notify"@ != "machine_error"@,
        "failure_notify"@ != "id_not_match"@,
        "failure_notify"@ != "auth_error"@,
        "failure_notify"@ != "detection_engine_error"@,
        "failure_notify"@ != "other"@,
        "failure_pause"@ != "auto_paused"@,
        "failure_pause"@ != "camera_lost"@,
        "failure_pause"@ != "camera_restored"@,
        "failure_pause"@ != "connected"@,
        "failure_pause"@ != "disconnected"@,
        "failure_pause"@ != "emergency_stop"@,
        "failure_pause"@ != "machine_error"@,
        "failure_pause"@ != "id_not_match"@,
        "failure_pause"@ != "auth_error"@,
        "failure_pause"@ != "detection_engine_error"@,
        "failure_pause"@ != "other"@,
        "auto_paused"@ != "camera_lost"@,
        "auto_paused"@ != "camera_restored"@,
        "auto_paused"@ != "connected"@,
        "auto_paused"@ != "disconnected"@,
        "auto_paused"@ != "emergency_stop"@,
        "auto_paused"@ != "machine_error"@,
        "auto_paused"@ != "id_not_match"@,
        "auto_paused"@ != "auth_error"@,
        "auto_paused"@ != "detection_engine_error"@,
        "auto_paused"@ != "other"@,
        "camera_lost"@ != "camera_restored"@,
        "camera_lost"@ != "connected"@,
        "camera_lost"@ != "disconnected"@,
        "camera_lost"@ != "emergency_stop"@,
        "camera_lost"@ != "machine_error"@,
        "camera_lost"@ != "id_not_match"@,
        "camera_lost"@ != "auth_error"@,
        "camera_lost"@ != "detection_engine_error"@,
        "camera_lost"@ != "other"@,
        "camera_restored"@ != "connected"@,
        "camera_restored"@ != "disconnected"@,
        "camera_restored"@ != "emergency_stop"@,
        "camera_restored"@ != "machine_error"@,
        "camera_restored"@ != "id_not_match"@,
        "camera_restored"@ != "auth_error"@,
        "camera_restored"@ != "detection_engine_error"@,
        "camera_restored"@ != "other"@,
        "connected"@ != "disconnected"@,
        "connected"@ != "emergency_stop"@,
        "connected"@ != "machine_error"@,
        "connected"@ != "id_not_match"@,
        "connected"@ != "auth_error"@,
        "connected"@ != "detection_engine_error"@,
        "connected"@ != "other"@,
        "disconnected"@ != "emergency_stop"@,
        "disconnected"@ != "machine_error"@,
        "disconnected"@ != "id_not_match"@,
        "disconnected"@ != "auth_error"@,
        "disconnected"@ != "detection_engine_error"@,
        "disconnected"@ != "other"@,
        "emergency_stop"@ != "machine_error"@,
        "emergency_stop"@ != "id_not_match"@,
        "emergency_stop"@ != "auth_error"@,
        "emergency_stop"@ != "detection_engine_error"@,
        "emergency_stop"@ != "other"@,
        "machine_error"@ != "id_not_match"@,
        "machine_error"@ != "auth_error"@,
        "machine_error"@ != "detection_engine_error"@,
        "machine_error"@ != "other"@,
        "id_not_match"@ != "auth_error"@,
        "id_not_match"@ != "detection_engine_error"@,
        "id_not_match"@ != "other"@,
        "auth_error"@ != "detection_engine_error"@,
        "auth_error"@ != "other"@,
        "detection_engine_error"@ != "other"@,
{
    reveal_strlit("print_started");
    reveal_strlit("print_finished_ok");
    reveal_strlit("print_paused");
    reveal_strlit("print_resumed");
    reveal_strlit("print_stopped");
    reveal_strlit("progress_milestone");
    reveal_strlit("failure_notify");
    reveal_strlit("failure_pause");
    reveal_strlit("auto_paused");
    reveal_strlit("camera_lost");
    reveal_strlit("camera_restored");
    reveal_strlit("connected");
    reveal_strlit("disconnected");
    reveal_strlit("emergency_stop");
    reveal_strlit("machine_error");
    reveal_strlit("id_not_match");
    reveal_strlit("auth_error");
    reveal_strlit("detection_engine_error");
    reveal_strlit("other");
    assert("print_started"@.len() != "print_finished_ok"@.len());
    assert("print_started"@.len() != "print_paused"@.len());
    assert("print_started"@[6] != "print_resumed"@[6]);
    assert("print_started"@[8] != "print_stopped"@[8]);
    assert("print_started"@.len() != "progress_milestone"@.len());
    assert("print_started"@.len() != "failure_notify"@.len());
    assert("print_started"@[0] != "failure_pause"@[0]);
    assert("print_started"@.len() != "auto_paused"@.len());
    assert("print_started"@.len() != "camera_lost"@.len());
    assert("print_started"@.len() != "camera_restored"@.len());
    assert("print_started"@.len() != "connected"@.len());
    assert("print_started"@.len() != "disconnected"@.len());
    assert("print_started"@.len() != "emergency_stop"@.len());
    assert("print_started"@[0] != "machine_error"@[0]);
    assert("print_started"@.len() != "id_not_match"@.len());
    assert("print_started"@.len() != "auth_error"@.len());
    assert("print_started"@.len() != "detection_engine_error"@.len());
    assert("print_started"@.len() != "other"@.len());
    assert("print_finished_ok"@.len() != "print_paused"@.len());
    assert("print_finished_ok"@.len() != "print_resumed"@.len());
    assert("print_finished_ok"@.len() != "print_stopped"@.len());
    assert("print_finished_ok"@.len() != "progress_milestone"@.len());
    assert("print_finished_ok"@.len() != "failure_notify"@.len());
    assert("print_finished_ok"@.len() != "failure_pause"@.len());
    assert("print_finished_ok"@.len() != "auto_paused"@.len());
    assert("print_finished_ok"@.len() != "camera_lost"@.len());
    assert("print_finished_ok"@.len() != "camera_restored"@.len());
    assert("print_finished_ok"@.len() != "connected"@.len());
    assert("print_finished_ok"@.len() != "disconnected"@.len());
    assert("print_finished_ok"@.len() != "emergency_stop"@.len());
    assert("print_finished_ok"@.len() != "machine_error"@.len());
    assert("print_finished_ok"@.len() != "id_not_match"@.len());
    assert("print_finished_ok"@.len() != "auth_error"@.len());
    assert("print_finished_ok"@.len() != "detection_engine_error"@.len());
    assert("print_finished_ok"@.len() != "other"@.len());
    assert("print_paused"@.len() != "print_resumed"@.len());
    assert("print_paused"@.len() != "print_stopped"@.len());
    assert("print_paused"@.len() != "progress_milestone"@.len());
    assert("print_paused"@.len() != "failure_notify"@.len());
    assert("print_paused"@.len() != "failure_pause"@.len());
    assert("print_paused"@.len() != "auto_paused"@.len());
    assert("print_paused"@.len() != "camera_lost"@.len());
    assert("print_paused"@.len() != "camera_restored"@.len());
    assert("print_paused"@.len() != "connected"@.len());
    assert("print_paused"@[0] != "disconnected"@[0]);
    assert("print_paused"@.len() != "emergency_stop"@.len());
    assert("print_paused"@.len() != "machine_error"@.len());
    assert("print_paused"@[0] != "id_not_match"@[0]);
    assert("print_paused"@.len() != "auth_error"@.len());
    assert("print_paused"@.len() != "detection_engine_error"@.len());
    assert("print_paused"@.len() != "other"@.len());
    assert("print_resumed"@[6] != "print_stopped"@[6]);
    assert("print_resumed"@.len() != "progress_milestone"@.len());
    assert("print_resumed"@.len() != "failure_notify"@.len());
    assert("print_resumed"@[0] != "failure_pause"@[0]);
    assert("print_resumed"@.len() != "auto_paused"@.len());
    assert("print_resumed"@.len() != "camera_lost"@.len());
    assert("print_resumed"@.len() != "camera_restored"@.len());
    assert("print_resumed"@.len() != "connected"@.len());
    assert("print_resumed"@.len() != "disconnected"@.len());
    assert("print_resumed"@.len() != "emergency_stop"@.len());
    assert("print_resumed"@[0] != "machine_error"@[0]);
    assert("print_resumed"@.len() != "id_not_match"@.len());
    assert("print_resumed"@.len() != "auth_error"@.len());
    assert("print_resumed"@.len() != "detection_engine_error"@.len());
    assert("print_resumed"@.len() != "other"@.len());
    assert("print_stopped"@.len() != "progress_milestone"@.len());
    assert("print_stopped"@.len() != "failure_notify"@.len());
    assert("print_stopped"@[0] != "failure_pause"@[0]);
    assert("print_stopped"@.len() != "auto_paused"@.len());
    assert("print_stopped"@.len() != "camera_lost"@.len());
    assert("print_stopped"@.len() != "camera_restored"@.len());
    assert("print_stopped"@.len() != "connected"@.len());
    assert("print_stopped"@.len() != "disconnected"@.len());
    assert("print_stopped"@.len() != "emergency_stop"@.len());
    assert("print_stopped"@[0] != "machine_error"@[0]);
    assert("print_stopped"@.len() != "id_not_match"@.len());
    assert("print_stopped"@.len() != "auth_error"@.len());
    assert("print_stopped"@.len() != "detection_engine_error"@.len());
    assert("print_stopped"@.len() != "other"@.len());
    assert("progress_milestone"@.len() != "failure_notify"@.len());
    assert("progress_milestone"@.len() != "failure_pause"@.len());
    assert("progress_milestone"@.len() != "auto_paused"@.len());
    assert("progress_milestone"@.len() != "camera_lost"@.len());
    assert("progress_milestone"@.len() != "camera_restored"@.len());
    assert("progress_milestone"@.len() != "connected"@.len());
    assert("progress_milestone"@.len() != "disconnected"@.len());
    assert("progress_milestone"@.len() != "emergency_stop"@.len());
    assert("progress_milestone"@.len() != "machine_error"@.len());
    assert("progress_milestone"@.len() != "id_not_match"@.len());
    assert("progress_milestone"@.len() != "auth_error"@.len());
    assert("progress_milestone"@.len() != "detection_engine_error"@.len());
    assert("progress_milestone"@.len() != "other"@.len());
    assert("failure_notify"@.len() != "failure_pause"@.len());
    assert("failure_notify"@.len() != "auto_paused"@.len());
    assert("failure_notify"@.len() != "camera_lost"@.len());
    assert("failure_notify"@.len() != "camera_restored"@.len());
    assert("failure_notify"@.len() != "connected"@.len());
    assert("failure_notify"@.len() != "disconnected"@.len());
    assert("failure_notify"@[0] != "emergency_stop"@[0]);
    assert("failure_notify"@.len() != "machine_error"@.len());
    assert("failure_notify"@.len() != "id_not_match"@.len());
    assert("failure_notify"@.len() != "auth_error"@.len());
    assert("failure_notify"@.len() != "detection_engine_error"@.len());
    assert("failure_notify"@.len() != "other"@.len());
    assert("failure_pause"@.len() != "auto_paused"@.len());
    assert("failure_pause"@.len() != "camera_lost"@.len());
    assert("failure_pause"@.len() != "camera_restored"@.len());
    assert("failure_pause"@.len() != "connected"@.len());
    assert("failure_pause"@.len() != "disconnected"@.len());
    assert("failure_pause"@.len() != "emergency_stop"@.len());
    assert("failure_pause"@[0] != "machine_error"@[0]);
    assert("failure_pause"@.len() != "id_not_match"@.len());
    assert("failure_pause"@.len() != "auth_error"@.len());
    assert("failure_pause"@.len() != "detection_engine_error"@.len());
    assert("failure_pause"@.len() != "other"@.len());
    assert("auto_paused"@[0] != "camera_lost"@[0]);
    assert("auto_paused"@.len() != "camera_restored"@.len());
    assert("auto_paused"@.len() != "connected"@.len());
    assert("auto_paused"@.len() != "disconnected"@.len());
    assert("auto_paused"@.len() != "emergency_stop"@.len());
    assert("auto_paused"@.len() != "machine_error"@.len());
    assert("auto_paused"@.len() != "id_not_match"@.len());
    assert("auto_paused"@.len() != "auth_error"@.len());
    assert("auto_paused"@.len() != "detection_engine_error"@.len());
    assert("auto_paused"@.len() != "other"@.len());
    assert("camera_lost"@.len() != "camera_restored"@.len());
    assert("camera_lost"@.len() != "connected"@.len());
    assert("camera_lost"@.len() != "disconnected"@.len());
    assert("camera_lost"@.len() != "emergency_stop"@.len());
    assert("camera_lost"@.len() != "machine_error"@.len());
    assert("camera_lost"@.len() != "id_not_match"@.len());
    assert("camera_lost"@.len() != "auth_error"@.len());
    assert("camera_lost"@.len() != "detection_engine_error"@.len());
    assert("camera_lost"@.len() != "other"@.len());
    assert("camera_restored"@.len() != "connected"@.len());
    assert("camera_restored"@.len() != "disconnected"@.len());
    assert("camera_restored"@.len() != "emergency_stop"@.len());
    assert("camera_restored"@.len() != "machine_error"@.len());
    assert("camera_restored"@.len() != "id_not_match"@.len());
    assert("camera_restored"@.len() != "auth_error"@.len());
    assert("camera_restored"@.len() != "detection_engine_error"@.len());
    assert("camera_restored"@.len() != "other"@.len());
    assert("connected"@.len() != "disconnected"@.len());
    assert("connected"@.len() != "emergency_stop"@.len());
    assert("connected"@.len() != "machine_error"@.len());
    assert("connected"@.len() != "id_not_match"@.len());
    assert("connected"@.len() != "auth_error"@.len());
    assert("connected"@.len() != "detection_engine_error"@.len());
    assert("connected"@.len() != "other"@.len());
    assert("disconnected"@.len() != "emergency_stop"@.len());
    assert("disconnected"@.len() != "machine_error"@.len());
    assert("disconnected"@[0] != "id_not_match"@[0]);
    assert("disconnected"@.len() != "auth_error"@.len());
    assert("disconnected"@.len() != "detection_engine_error"@.len());
    assert("disconnected"@.len() != "other"@.len());
    assert("emergency_stop"@.len() != "machine_error"@.len());
    assert("emergency_stop"@.len() != "id_not_match"@.len());
    assert("emergency_stop"@.len() != "auth_error"@.len());
    assert("emergency_stop"@.len() != "detection_engine_error"@.len());
    assert("emergency_stop"@.len() != "other"@.len());
    assert("machine_error"@.len() != "id_not_match"@.len());
    assert("machine_error"@.len() != "auth_error"@.len());
    assert("machine_error"@.len() != "detection_engine_error"@.len());
    assert("machine_error"@.len() != "other"@.len());
    assert("id_not_match"@.len() != "auth_error"@.len());
    assert("id_not_match"@.len() != "detection_engine_error"@.len());
    assert("id_not_match"@.len() != "other"@.len());
    assert("auth_error"@.len() != "detection_engine_error"@.len());
    assert("auth_error"@.len() != "other"@.len());
    assert("detection_engine_error"@.len() != "other"@.len());
}

/// Toggles are read through the event's label: an event is let through
/// exactly when its label is not `other` and the toggle of that name is on.
/// So a phase change with an unknown code is never let through, the
/// `print_finished` toggle is never read, and all toggles off let nothing
/// through.
pub proof fn law_toggles_follow_label(kind: EventKind, t: EventToggles)
    ensures
        toggles_allow(kind, t) == (kind_label(kind) != "other"@ && toggle_named(t, kind_label(kind))),
{
    lemma_labels_distinct();
}

/// Connection events are never dispatched directly: every event that a look
/// at new events dispatches is neither a connect nor a disconnect.
pub proof fn law_connection_events_held(
    v: ManagerView,
    events: Seq<PrinterEvent>,
    ds: Seq<NotificationDestination>,
    now: u64,
)
    ensures
        forall|k: int|
            0 <= k < route_spec(v, events, ds, now).1.len() ==> !is_connected(
                #[trigger] route_spec(v, events, ds, now).1[k].0,
            ) && !is_disconnected(route_spec(v, events, ds, now).1[k].0),
    decreases events.len(),
{
    if events.len() > 0 {
        law_connection_events_held(v, events.drop_last(), ds, now);
        let out = route_spec(v, events.drop_last(), ds, now).1;
        let r = route_spec(v, events, ds, now).1;
        assert forall|k: int| 0 <= k < r.len() implies !is_connected(#[trigger] r[k].0) && !is_disconnected(r[k].0) by {
            if k < out.len() {
                assert(r[k] == out[k]);
            }
        }
    }
}

/// The cooldown label of an event is the kind's own label from the fixed label
/// table, for every kind but a progress milestone, whose label also names its
/// percentage. So, for instance, a restored camera is rate-limited under
/// "camera_restored" and a lost camera under "camera_lost".
pub proof fn law_cooldown_label_table(kind: EventKind)
    ensures
        !(kind is ProgressMilestone) ==> cooldown_label_spec(kind) == kind_label(kind),
        kind matches EventKind::ProgressMilestone(p) ==> cooldown_label_spec(kind)
            == "progress_milestone_"@ + dec(p as nat),
        cooldown_label_spec(EventKind::PrintStarted) == "print_started"@,
        cooldown_label_spec(EventKind::PrintFinished) == "print_finished_ok"@,
        cooldown_label_spec(EventKind::PrintPaused) == "print_paused"@,
        cooldown_label_spec(EventKind::PrintResumed) == "print_resumed"@,
        cooldown_label_spec(EventKind::PrintStopped) == "print_stopped"@,
        cooldown_label_spec(EventKind::FailureNotifyThreshold) == "failure_notify"@,
        cooldown_label_spec(EventKind::FailurePauseThreshold) == "failure_pause"@,
        cooldown_label_spec(EventKind::AutoPaused) == "auto_paused"@,
        cooldown_label_spec(EventKind::CameraLost) == "camera_lost"@,
        cooldown_label_spec(EventKind::CameraRestored) == "camera_restored"@,
        cooldown_label_spec(EventKind::Connected) == "connected"@,
        cooldown_label_spec(EventKind::Disconnected) == "disconnected"@,
        cooldown_label_spec(EventKind::DetectionEngineError) == "detection_engine_error"@,
        kind matches EventKind::PhaseChanged(c, _) ==> {
            &&& c == 19 ==> cooldown_label_spec(kind) == "emergency_stop"@
            &&& c == 999 ==> cooldown_label_spec(kind) == "machine_error"@
            &&& c == 1000 ==> cooldown_label_spec(kind) == "id_not_match"@
            &&& c == 1001 ==> cooldown_label_spec(kind) == "auth_error"@
            &&& (c != 19 && c != 999 && c != 1000 && c != 1001) ==> cooldown_label_spec(kind)
                == "other"@
        },
{
}

/// Two events of different kinds (neither a progress milestone, and not both
/// phase changes) have different cooldown labels, and so different cooldown
/// keys at every destination.
pub proof fn law_cooldown_labels_distinct(first: EventKind, later: EventKind, dest_id: Seq<char>)
    requires
        first != later,
        !(first is ProgressMilestone),
        !(later is ProgressMilestone),
        !(first is PhaseChanged && later is PhaseChanged),
    ensures
        cooldown_label_spec(first) != cooldown_label_spec(later),
        cooldown_key(dest_id, first) != cooldown_key(dest_id, later),
{
    lemma_labels_distinct();
    if cooldown_key(dest_id, first) == cooldown_key(dest_id, later) {
        let p = dest_id + ":"@;
        let l1 = cooldown_label_spec(first);
        let l2 = cooldown_label_spec(later);
        assert(cooldown_key(dest_id, first) =~= p + l1);
        assert(cooldown_key(dest_id, later) =~= p + l2);
        assert(l1 =~= (p + l1).subrange(p.len() as int, (p + l1).len() as int));
        assert(l2 =~= (p + l2).subrange(p.len() as int, (p + l2).len() as int));
    }
}

/// Cooldowns are kept per destination and event label: sending an event to a
/// destination never holds back an event of another kind there (neither a
/// progress milestone, and not both phase changes), at any later time.
pub proof fn law_cooldown_spares_other_kinds(
    v: ManagerView,
    first: EventKind,
    later: EventKind,
    d: NotificationDestination,
    t: u64,
    t2: u64,
)
    requires
        first != later,
        !(first is ProgressMilestone),
        !(later is ProgressMilestone),
        !(first is PhaseChanged && later is PhaseChanged),
    ensures
        admit_spec(admit_spec(v, first, d, t).0, later, d, t2).1 == admit_spec(v, later, d, t2).1,
{
    law_cooldown_labels_distinct(first, later, d.id@);
}

} // verus!
