//! Telegram bot commands: which destinations are polled, which incoming
//! messages are commands for them, what each command is answered with, and
//! the update offsets that keep every command from being answered twice.
use vstd::prelude::*;

use crate::config::{DestinationKind, NotificationDestination};
use crate::destinations::{destinations_view, DestinationView};
use crate::keyed::{find_key, key_map, lemma_key_index, set_key};
use crate::telegram::{configured, TelegramMessage, TelegramUpdate};
use crate::text::{
    ascii_lower_seq, ascii_lowercase, blank, chars_of, i64_text, int_text, is_whitespace, is_ws,
    lemma_take_until, lemma_trim_start_fixed, lemma_trim_start_skip, lit, parse_i64,
    parse_i64_spec, prefix_until_ws, push_text, same_text, string_of_range, take_until, trim,
    trim_start, trim_str,
};

verus! {

// ---------------------------------------------------------------------------
// Recognizing commands
// ---------------------------------------------------------------------------

/// The command word of a message: its first whitespace-separated word, without
/// a `@botname` suffix, in ASCII lowercase.
pub open spec fn command_of(text: Seq<char>) -> Seq<char> {
    ascii_lower_seq(
        take_until(take_until(trim_start(text), |c: char| is_ws(c)), |c: char| c == '@'),
    )
}

pub fn normalize_command(text: &str) -> (r: String)
    ensures
        r@ == command_of(text@),
{
    let v = chars_of(text);
    let n = v.len();
    let mut a: usize = 0;
    while a < n && is_whitespace(v[a])
        invariant
            0 <= a <= n,
            n == v.len(),
            forall|j: int| 0 <= j < a ==> is_ws(#[trigger] v@[j]),
        decreases n - a,
    {
        a = a + 1;
    }
    proof {
        lemma_trim_start_skip(v@, a as int);
        if a < n {
            assert(!is_ws(v@.skip(a as int)[0]));
        }
        lemma_trim_start_fixed(v@.skip(a as int));
    }
    let b = prefix_until_ws(&v, a);
    let mut c = a;
    while c < b && v[c] != '@'
        invariant
            a <= c <= b <= n,
            n == v.len(),
            forall|j: int| a <= j < c ==> v@[j] != '@',
        decreases b - c,
    {
        c = c + 1;
    }
    proof {
        let w = v@.subrange(a as int, b as int);
        assert forall|j: int| 0 <= j < c - a implies !((|ch: char| ch == '@')(#[trigger] w[j])) by {
            assert(w[j] == v@[a + j]);
        }
        if c < b {
            assert(w[c - a] == '@');
        }
        lemma_take_until(w, |ch: char| ch == '@', c - a);
        assert(w.take(c - a) =~= v@.subrange(a as int, c as int));
    }
    let word = string_of_range(&v, a, c);
    ascii_lowercase(word.as_str())
}

/// What the bot answers to a command.
#[derive(Debug, Clone, Copy, PartialEq, Eq, Structural)]
pub enum CommandReply {
    /// The printer status as text.
    Status,
    /// The printer status with the current camera image.
    StatusPhoto,
    /// The list of commands.
    Help,
}

pub open spec fn reply_of(cmd: Seq<char>) -> Option<CommandReply> {
    if cmd == "/status"@ {
        Some(CommandReply::Status)
    } else if cmd == "/statusbild"@ || cmd == "/statuspic"@ || cmd == "/snapshot"@ || cmd
        == "/bild"@ || cmd == "/photo"@ {
        Some(CommandReply::StatusPhoto)
    } else if cmd == "/help"@ || cmd == "/start"@ {
        Some(CommandReply::Help)
    } else {
        None
    }
}

/// The bot answers exactly the documented commands: "/status" with the status
/// text; "/statusbild", "/statuspic", "/snapshot", "/bild" and "/photo" with the
/// status and the camera image; "/help" and "/start" with the command list; any
/// other command gets no answer.
pub proof fn law_command_table(cmd: Seq<char>)
    ensures
        reply_of("/status"@) == Some(CommandReply::Status),
        reply_of("/statusbild"@) == Some(CommandReply::StatusPhoto),
        reply_of("/statuspic"@) == Some(CommandReply::StatusPhoto),
        reply_of("/snapshot"@) == Some(CommandReply::StatusPhoto),
        reply_of("/bild"@) == Some(CommandReply::StatusPhoto),
        reply_of("/photo"@) == Some(CommandReply::StatusPhoto),
        reply_of("/help"@) == Some(CommandReply::Help),
        reply_of("/start"@) == Some(CommandReply::Help),
        reply_of(cmd) == Some(CommandReply::Status) <==> cmd == "/status"@,
        reply_of(cmd) == Some(CommandReply::StatusPhoto) <==> (cmd == "/statusbild"@ || cmd
            == "/statuspic"@ || cmd == "/snapshot"@ || cmd == "/bild"@ || cmd == "/photo"@),
        reply_of(cmd) == Some(CommandReply::Help) <==> (cmd == "/help"@ || cmd == "/start"@),
        reply_of(cmd) is None <==> !(cmd == "/status"@ || cmd == "/statusbild"@ || cmd
            == "/statuspic"@ || cmd == "/snapshot"@ || cmd == "/bild"@ || cmd == "/photo"@ || cmd
            == "/help"@ || cmd == "/start"@),
{
    reveal_strlit("/status");
    reveal_strlit("/statusbild");
    reveal_strlit("/statuspic");
    reveal_strlit("/snapshot");
    reveal_strlit("/bild");
    reveal_strlit("/photo");
    reveal_strlit("/help");
    reveal_strlit("/start");
    assert("/status"@.len() == 7);
    assert("/snapshot"@.len() == 9);
    assert("/statusbild"@.len() == 11);
    assert("/statuspic"@.len() == 10);
    assert("/bild"@.len() == 5);
    assert("/photo"@.len() == 6);
    assert("/help"@.len() == 5);
    assert("/start"@.len() == 6);
    assert("/bild"@[1] != "/help"@[1]);
    assert("/photo"@[1] != "/start"@[1]);
    assert("/photo"@ != "/start"@);
    assert("/bild"@ != "/help"@);
    assert("/status"@ != "/snapshot"@);
    assert("/status"@ != "/photo"@);
    assert("/status"@ != "/bild"@);
    assert("/status"@ != "/statusbild"@);
    assert("/status"@ != "/statuspic"@);
    assert("/status"@ != "/help"@);
    assert("/status"@ != "/start"@);
    assert("/statusbild"@ != "/help"@);
    assert("/statusbild"@ != "/start"@);
    assert("/statuspic"@ != "/help"@);
    assert("/statuspic"@ != "/start"@);
    assert("/snapshot"@ != "/help"@);
    assert("/snapshot"@ != "/start"@);
    assert("/bild"@ != "/start"@);
    assert("/photo"@ != "/help"@);
}

pub fn command_reply(cmd: &str) -> (r: Option<CommandReply>)
    ensures
        r == reply_of(cmd@),
{
    if same_text(cmd, "/status") {
        Some(CommandReply::Status)
    } else if same_text(cmd, "/statusbild") || same_text(cmd, "/statuspic") || same_text(
        cmd,
        "/snapshot",
    ) || same_text(cmd, "/bild") || same_text(cmd, "/photo") {
        Some(CommandReply::StatusPhoto)
    } else if same_text(cmd, "/help") || same_text(cmd, "/start") {
        Some(CommandReply::Help)
    } else {
        None
    }
}

pub open spec fn chat_matches_spec(chat_id: Option<Seq<char>>, m: TelegramMessage) -> bool {
    match chat_id {
        Some(id) => trim(id) == int_text(m.chat.id as int),
        None => false,
    }
}

pub open spec fn thread_matches_spec(thread_id: Option<Seq<char>>, m: TelegramMessage) -> bool {
    match thread_id {
        Some(t) => match parse_i64_spec(trim(t)) {
            Some(expected) => m.message_thread_id == Some(expected as i64),
            None => true,
        },
        None => true,
    }
}

/// The message comes from the chat the destination names.
pub fn chat_matches(dest: &NotificationDestination, message: &TelegramMessage) -> (r: bool)
    ensures
        r == chat_matches_spec(dest.telegram_chat_id.deep_view(), *message),
{
    match &dest.telegram_chat_id {
        Some(id) => {
            let t = trim_str(id.as_str());
            let s = i64_text(message.chat.id);
            same_text(t.as_str(), s.as_str())
        },
        None => false,
    }
}

/// The message is in the forum thread the destination names, if it names one.
pub fn thread_matches(dest: &NotificationDestination, message: &TelegramMessage) -> (r: bool)
    ensures
        r == thread_matches_spec(dest.telegram_thread_id.deep_view(), *message),
{
    let expected = match &dest.telegram_thread_id {
        Some(v) => {
            let t = trim_str(v.as_str());
            parse_i64(t.as_str())
        },
        None => None,
    };
    match expected {
        Some(e) => match message.message_thread_id {
            Some(got) => got == e,
            None => false,
        },
        None => true,
    }
}

/// The answer an update asks for at a destination, if any.
pub open spec fn update_reply(dest: NotificationDestination, u: TelegramUpdate) -> Option<CommandReply> {
    match u.message {
        Some(m) => if chat_matches_spec(dest.telegram_chat_id.deep_view(), m) && thread_matches_spec(
            dest.telegram_thread_id.deep_view(),
            m,
        ) {
            match m.text {
                Some(t) => if trim(t@).len() > 0 {
                    reply_of(command_of(trim(t@)))
                } else {
                    None
                },
                None => None,
            }
        } else {
            None
        },
        None => None,
    }
}

pub open spec fn replies_spec(dest: NotificationDestination, us: Seq<TelegramUpdate>) -> Seq<CommandReply>
    decreases us.len(),
{
    if us.len() == 0 {
        Seq::empty()
    } else {
        let prev = replies_spec(dest, us.drop_last());
        match update_reply(dest, us.last()) {
            Some(r) => prev.push(r),
            None => prev,
        }
    }
}

fn reply_for_update(dest: &NotificationDestination, u: &TelegramUpdate) -> (r: Option<CommandReply>)
    ensures
        r == update_reply(*dest, *u),
{
    match &u.message {
        Some(m) => {
            if !chat_matches(dest, m) || !thread_matches(dest, m) {
                return None;
            }
            match &m.text {
                Some(t) => {
                    let trimmed = trim_str(t.as_str());
                    if trimmed.as_str().is_empty() {
                        return None;
                    }
                    let cmd = normalize_command(trimmed.as_str());
                    command_reply(cmd.as_str())
                },
                None => None,
            }
        },
        None => None,
    }
}

// ---------------------------------------------------------------------------
// Destinations that are polled for commands
// ---------------------------------------------------------------------------

/// An enabled Telegram destination with a bot token and a chat id.
pub open spec fn polls_commands(d: DestinationView) -> bool {
    &&& d.enabled
    &&& d.kind == DestinationKind::Telegram
    &&& configured(d.telegram_bot_token)
    &&& configured(d.telegram_chat_id)
}

fn is_configured(o: &Option<String>) -> (r: bool)
    ensures
        r == configured(o.deep_view()),
{
    match o {
        Some(v) => !blank(v.as_str()),
        None => false,
    }
}

/// The destinations whose bots are asked for commands, in configuration order.
pub fn telegram_destinations(ds: &Vec<NotificationDestination>) -> (r: Vec<NotificationDestination>)
    ensures
        destinations_view(r@) == destinations_view(ds@).filter(|d: DestinationView| polls_commands(d)),
{
    let ghost pred = |d: DestinationView| polls_commands(d);
    let mut r: Vec<NotificationDestination> = Vec::new();
    let mut i: usize = 0;
    while i < ds.len()
        invariant
            0 <= i <= ds.len(),
            pred == (|d: DestinationView| polls_commands(d)),
            destinations_view(r@) == destinations_view(ds@.take(i as int)).filter(pred),
        decreases ds.len() - i,
    {
        proof {
            reveal_with_fuel(Seq::<_>::filter, 1);
            assert(destinations_view(ds@.take(i + 1)) =~= destinations_view(ds@.take(i as int)).push(
                ds@[i as int]@,
            ));
            assert(destinations_view(ds@.take(i + 1)).drop_last() =~= destinations_view(
                ds@.take(i as int),
            ));
        }
        let d = &ds[i];
        let keep = d.enabled && d.kind == DestinationKind::Telegram && is_configured(
            &d.telegram_bot_token,
        ) && is_configured(&d.telegram_chat_id);
        if keep {
            let ghost before = r@;
            r.push(d.duplicate());
            assert(destinations_view(r@) =~= destinations_view(before).push(d@));
        }
        i = i + 1;
    }
    assert(ds@.take(ds@.len() as int) =~= ds@);
    r
}

// ---------------------------------------------------------------------------
// The poller's bookkeeping
// ---------------------------------------------------------------------------

/// Per destination: the next update offset, and whether the first poll is done.
pub struct TelegramCommandPoller {
    offsets: Vec<(String, i64)>,
    initialized: Vec<(String, ())>,
}

pub struct PollerView {
    pub offsets: Map<Seq<char>, i64>,
    pub initialized: Set<Seq<char>>,
}

impl View for TelegramCommandPoller {
    type V = PollerView;

    closed spec fn view(&self) -> PollerView {
        PollerView { offsets: key_map(self.offsets@), initialized: key_map(self.initialized@).dom() }
    }
}

/// The parameters of the next `getUpdates` call for a destination.
#[derive(Debug, Clone, Copy)]
pub struct PollRequest {
    pub offset: Option<i64>,
    /// 0 for the first poll, which only learns where the update stream stands.
    pub timeout_secs: u64,
}

/// The largest update id of a non-empty batch.
pub open spec fn max_update_id(us: Seq<TelegramUpdate>) -> int
    decreases us.len(),
{
    if us.len() <= 1 {
        if us.len() == 1 {
            us[0].update_id as int
        } else {
            0
        }
    } else {
        let m = max_update_id(us.drop_last());
        if us.last().update_id > m {
            us.last().update_id as int
        } else {
            m
        }
    }
}

/// What handling a `getUpdates` answer does: an empty answer marks the
/// destination as polled; otherwise the offset moves past the newest update,
/// and, unless this was the first poll, the commands are answered.
pub open spec fn handle_spec(v: PollerView, dest: NotificationDestination, us: Seq<TelegramUpdate>) -> (
    PollerView,
    Seq<CommandReply>,
) {
    let id = dest.id@;
    if us.len() == 0 {
        (PollerView { initialized: v.initialized.insert(id), ..v }, Seq::empty())
    } else {
        let v1 = PollerView { offsets: v.offsets.insert(id, (max_update_id(us) + 1) as i64), ..v };
        if !v.initialized.contains(id) {
            (PollerView { initialized: v1.initialized.insert(id), ..v1 }, Seq::empty())
        } else {
            (v1, replies_spec(dest, us))
        }
    }
}

proof fn lemma_max_update_id(us: Seq<TelegramUpdate>)
    requires
        us.len() > 0,
    ensures
        forall|i: int| 0 <= i < us.len() ==> us[i].update_id <= max_update_id(us),
        exists|i: int| 0 <= i < us.len() && us[i].update_id == max_update_id(us),
    decreases us.len(),
{
    if us.len() > 1 {
        lemma_max_update_id(us.drop_last());
        let m = max_update_id(us.drop_last());
        assert forall|i: int| 0 <= i < us.len() implies us[i].update_id <= max_update_id(us) by {
            if i < us.len() - 1 {
                assert(us[i] == us.drop_last()[i]);
            }
        }
        if us.last().update_id <= m {
            let k = choose|k: int| 0 <= k < us.drop_last().len() && us.drop_last()[k].update_id == m;
            assert(us[k] == us.drop_last()[k]);
        }
    }
}

impl TelegramCommandPoller {
    pub fn new() -> (r: TelegramCommandPoller)
        ensures
            r@.offsets == Map::<Seq<char>, i64>::empty(),
            r@.initialized == Set::<Seq<char>>::empty(),
    {
        let r = TelegramCommandPoller { offsets: Vec::new(), initialized: Vec::new() };
        assert(key_map(r.offsets@) =~= Map::<Seq<char>, i64>::empty());
        assert(key_map(r.initialized@).dom() =~= Set::<Seq<char>>::empty());
        r
    }

    /// The next `getUpdates` call for a destination: from the stored offset,
    /// waiting 20 seconds for updates once the first poll is done.
    pub fn poll_request(&self, dest_id: &str) -> (r: PollRequest)
        ensures
            r.offset == (if self@.offsets.contains_key(dest_id@) {
                Some(self@.offsets[dest_id@])
            } else {
                None
            }),
            r.timeout_secs == (if self@.initialized.contains(dest_id@) { 20u64 } else { 0u64 }),
    {
        let offset = match find_key(&self.offsets, dest_id) {
            Some(i) => {
                proof {
                    lemma_key_index(self.offsets@, dest_id@, i as int);
                }
                Some(self.offsets[i].1)
            },
            None => None,
        };
        let first_poll = match find_key(&self.initialized, dest_id) {
            Some(i) => {
                proof {
                    lemma_key_index(self.initialized@, dest_id@, i as int);
                }
                false
            },
            None => true,
        };
        PollRequest { offset, timeout_secs: if first_poll { 0 } else { 20 } }
    }

    /// Records a `getUpdates` answer for a destination and returns the answers
    /// to send, in the order of the updates.
    pub fn handle_updates(&mut self, dest: &NotificationDestination, updates: &Vec<TelegramUpdate>) -> (r: Vec<
        CommandReply,
    >)
        requires
            forall|i: int| 0 <= i < updates@.len() ==> #[trigger] updates@[i].update_id < i64::MAX,
        ensures
            (final(self)@, r@) == handle_spec(old(self)@, *dest, updates@),
    {
        let first_poll = match find_key(&self.initialized, dest.id.as_str()) {
            Some(i) => {
                proof {
                    lemma_key_index(self.initialized@, dest.id@, i as int);
                }
                false
            },
            None => true,
        };
        if updates.len() == 0 {
            set_key(&mut self.initialized, dest.id.clone(), ());
            return Vec::new();
        }
        let mut max_id = updates[0].update_id;
        let mut i: usize = 1;
        while i < updates.len()
            invariant
                1 <= i <= updates.len(),
                max_id as int == max_update_id(updates@.take(i as int)),
            decreases updates.len() - i,
        {
            assert(updates@.take(i + 1).drop_last() =~= updates@.take(i as int));
            if updates[i].update_id > max_id {
                max_id = updates[i].update_id;
            }
            i = i + 1;
        }
        proof {
            assert(updates@.take(updates@.len() as int) =~= updates@);
            lemma_max_update_id(updates@);
            let k = choose|k: int| 0 <= k < updates@.len() && updates@[k].update_id == max_update_id(updates@);
            assert(updates@[k].update_id < i64::MAX);
        }
        let next_offset = max_id + 1;
        set_key(&mut self.offsets, dest.id.clone(), next_offset);
        if first_poll {
            set_key(&mut self.initialized, dest.id.clone(), ());
            return Vec::new();
        }
        let mut replies: Vec<CommandReply> = Vec::new();
        let mut j: usize = 0;
        while j < updates.len()
            invariant
                0 <= j <= updates.len(),
                replies@ == replies_spec(*dest, updates@.take(j as int)),
            decreases updates.len() - j,
        {
            assert(updates@.take(j + 1).drop_last() =~= updates@.take(j as int));
            match reply_for_update(dest, &updates[j]) {
                Some(reply) => replies.push(reply),
                None => {},
            }
            j = j + 1;
        }
        assert(updates@.take(updates@.len() as int) =~= updates@);
        replies
    }
}

/// After a batch of updates, the stored offset is past every update in it, so
/// no command of the batch is fetched, or answered, again.
pub proof fn law_offset_passes_batch(v: PollerView, dest: NotificationDestination, us: Seq<TelegramUpdate>)
    requires
        us.len() > 0,
        forall|i: int| 0 <= i < us.len() ==> #[trigger] us[i].update_id < i64::MAX,
    ensures
        forall|i: int| 0 <= i < us.len() ==> #[trigger] us[i].update_id < handle_spec(v, dest, us).0.offsets[dest.id@],
{
    lemma_max_update_id(us);
    let k = choose|k: int| 0 <= k < us.len() && us[k].update_id == max_update_id(us);
    assert(us[k].update_id < i64::MAX);
}

/// The first poll of a destination answers nothing: commands sent before the
/// poller started are skipped.
pub proof fn law_first_poll_is_silent(v: PollerView, dest: NotificationDestination, us: Seq<TelegramUpdate>)
    requires
        !v.initialized.contains(dest.id@),
    ensures
        handle_spec(v, dest, us).1.len() == 0,
        handle_spec(v, dest, us).0.initialized.contains(dest.id@),
{
}

/// Handling an answer never forgets that a destination was polled.
pub proof fn law_initialized_grows(v: PollerView, dest: NotificationDestination, us: Seq<TelegramUpdate>)
    ensures
        v.initialized.subset_of(handle_spec(v, dest, us).0.initialized),
{
}

// ---------------------------------------------------------------------------
// Answer texts
// ---------------------------------------------------------------------------

/// What the status answer reports. Temperatures and the detection score are
/// already written out as text.
#[derive(Debug, Clone)]
pub struct StatusSnapshot {
    pub printer_ip: String,
    pub connected: bool,
    pub connected_raw: bool,
    pub connected_ws: bool,
    pub camera_connected: bool,
    pub phase_label: String,
    pub progress: i64,
    pub filename: String,
    /// "{temperature}/{target}C"
    pub nozzle: String,
    /// "{temperature}/{target}C"
    pub bed: String,
    /// The detection score in percent.
    pub ai_score: String,
}

pub open spec fn dash_if(cond: bool, s: Seq<char>) -> Seq<char> {
    if cond {
        "-"@
    } else {
        s
    }
}

pub open spec fn on_off(b: bool, on: Seq<char>, off: Seq<char>) -> Seq<char> {
    if b {
        on
    } else {
        off
    }
}

pub open spec fn clamp_progress(p: i64) -> int {
    if p < 0 {
        0
    } else if p > 100 {
        100
    } else {
        p as int
    }
}

pub open spec fn status_text_spec(s: StatusSnapshot) -> Seq<char> {
    "Printer: "@ + dash_if(s.printer_ip@.len() == 0, s.printer_ip@) + "\nConnection: "@ + on_off(
        s.connected,
        "online"@,
        "offline"@,
    ) + " (raw "@ + on_off(s.connected_raw, "ok"@, "off"@) + ", ws "@ + on_off(
        s.connected_ws,
        "ok"@,
        "off"@,
    ) + ")\nCamera: "@ + on_off(s.camera_connected, "ok"@, "off"@) + "\nState: "@ + s.phase_label@
        + "\nProgress: "@ + int_text(clamp_progress(s.progress)) + "%\nFile: "@ + dash_if(
        trim(s.filename@).len() == 0,
        s.filename@,
    ) + "\nNozzle: "@ + s.nozzle@ + "\nBed: "@ + s.bed@ + "\nAI score: "@ + s.ai_score@ + "%"@
}

fn pick_text<'a>(b: bool, on: &'a str, off: &'a str) -> (r: &'a str)
    ensures
        r@ == on_off(b, on@, off@),
{
    if b {
        on
    } else {
        off
    }
}

/// The text of the `/status` answer.
pub fn status_text(s: &StatusSnapshot) -> (r: String)
    ensures
        r@ == status_text_spec(*s),
{
    let mut r = lit("Printer: ");
    push_text(&mut r, if s.printer_ip.as_str().is_empty() { "-" } else { s.printer_ip.as_str() });
    push_text(&mut r, "\nConnection: ");
    push_text(&mut r, pick_text(s.connected, "online", "offline"));
    push_text(&mut r, " (raw ");
    push_text(&mut r, pick_text(s.connected_raw, "ok", "off"));
    push_text(&mut r, ", ws ");
    push_text(&mut r, pick_text(s.connected_ws, "ok", "off"));
    push_text(&mut r, ")\nCamera: ");
    push_text(&mut r, pick_text(s.camera_connected, "ok", "off"));
    push_text(&mut r, "\nState: ");
    push_text(&mut r, s.phase_label.as_str());
    push_text(&mut r, "\nProgress: ");
    let p: i64 = if s.progress < 0 {
        0
    } else if s.progress > 100 {
        100
    } else {
        s.progress
    };
    let pt = i64_text(p);
    push_text(&mut r, pt.as_str());
    push_text(&mut r, "%\nFile: ");
    push_text(&mut r, if blank(s.filename.as_str()) { "-" } else { s.filename.as_str() });
    push_text(&mut r, "\nNozzle: ");
    push_text(&mut r, s.nozzle.as_str());
    push_text(&mut r, "\nBed: ");
    push_text(&mut r, s.bed.as_str());
    push_text(&mut r, "\nAI score: ");
    push_text(&mut r, s.ai_score.as_str());
    push_text(&mut r, "%");
    r
}

/// The title of status answers.
pub fn status_title() -> (r: String)
    ensures
        r@ == "CC2 Status"@,
{
    lit("CC2 Status")
}

/// Title and body of the `/help` answer.
pub fn help_message() -> (r: (String, String))
    ensures
        r.0@ == "CC2 Telegram Commands"@,
        r.1@ == "/status - printer status as text\n/statusbild - printer status with current camera image\n/bild - current status image"@,
{
    (
        lit("CC2 Telegram Commands"),
        lit(
            "/status - printer status as text\n/statusbild - printer status with current camera image\n/bild - current status image",
        ),
    )
}

/// The status text sent instead of a photo when no camera image is available.
pub fn no_camera_text(body: &str) -> (r: String)
    ensures
        r@ == body@ + "\n\nCamera image is not available right now."@,
{
    let mut r = lit(body);
    push_text(&mut r, "\n\nCamera image is not available right now.");
    r
}

} // verus!
