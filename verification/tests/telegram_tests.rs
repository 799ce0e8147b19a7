use cc2_monitor::commands::{
    chat_matches, command_reply, help_message, no_camera_text, normalize_command, status_text,
    status_title, telegram_destinations, thread_matches, CommandReply, StatusSnapshot,
    TelegramCommandPoller,
};
use cc2_monitor::config::{DestinationKind, EventToggles, NotificationDestination};
use cc2_monitor::error::NotificationError;
use cc2_monitor::telegram::{
    attachment_name, message_text, method_url, server_error, telegram_target, test_message,
    thread_id_value, webhook_test_message, TelegramChat, TelegramMessage, TelegramUpdate,
};
use cc2_monitor::text::escape_html;

fn tg(id: &str, token: Option<&str>, chat: Option<&str>, thread: Option<&str>) -> NotificationDestination {
    NotificationDestination {
        id: id.to_string(),
        kind: DestinationKind::Telegram,
        enabled: true,
        label: id.to_string(),
        ntfy_server: None,
        ntfy_topic: None,
        ntfy_tap_url: None,
        discord_webhook_url: None,
        telegram_bot_token: token.map(|s| s.to_string()),
        telegram_chat_id: chat.map(|s| s.to_string()),
        telegram_thread_id: thread.map(|s| s.to_string()),
        webhook_url: None,
        progress_interval: 0,
        attach_snapshot: false,
        toggles: EventToggles::default(),
    }
}

fn msg(chat: i64, thread: Option<i64>, text: Option<&str>) -> TelegramMessage {
    TelegramMessage {
        chat: TelegramChat { id: chat },
        message_thread_id: thread,
        text: text.map(|s| s.to_string()),
    }
}

fn upd(id: i64, m: TelegramMessage) -> TelegramUpdate {
    TelegramUpdate { update_id: id, message: Some(m) }
}

#[test]
fn html_escaping() {
    assert_eq!(escape_html("a<b>&c"), "a&lt;b&gt;&amp;c");
    assert_eq!(escape_html("plain"), "plain");
    assert_eq!(message_text("T<1>", "x & y"), "<b>T&lt;1&gt;</b>\nx &amp; y");
}

#[test]
fn urls_and_names() {
    assert_eq!(method_url("123:abc", "sendMessage"), "https://api.telegram.org/bot123:abc/sendMessage");
    assert_eq!(attachment_name(None), "snapshot.jpg");
    assert_eq!(attachment_name(Some("a.jpg".to_string())), "a.jpg");
    let (t, b) = test_message();
    assert_eq!(t, "CC2 Monitor");
    assert_eq!(b, "Test notification - Telegram bot is working");
    let (t, b) = webhook_test_message();
    assert_eq!(t, "CC2 Monitor");
    assert_eq!(b, "Test notification - webhook is working");
    assert_eq!(
        server_error("400 Bad Request"),
        NotificationError::TelegramFailed("server returned 400 Bad Request".to_string())
    );
}

#[test]
fn thread_ids() {
    assert_eq!(thread_id_value(&Some(" 42 ".to_string())), Some(42));
    assert_eq!(thread_id_value(&Some("-7".to_string())), Some(-7));
    assert_eq!(thread_id_value(&Some("x1".to_string())), None);
    assert_eq!(thread_id_value(&None), None);
}

#[test]
fn target_requires_token_and_chat() {
    let ok = telegram_target(&tg("a", Some("tok"), Some(" 5 "), None)).unwrap();
    assert_eq!(ok, ("tok".to_string(), " 5 ".to_string()));
    assert_eq!(
        telegram_target(&tg("a", Some("  "), Some("5"), None)).unwrap_err(),
        NotificationError::TelegramFailed("bot token is not configured".to_string())
    );
    assert_eq!(
        telegram_target(&tg("a", Some("tok"), None, None)).unwrap_err(),
        NotificationError::TelegramFailed("chat id is not configured".to_string())
    );
}

#[test]
fn commands_are_recognized() {
    assert_eq!(normalize_command("  /Status@CC2Bot please"), "/status");
    assert_eq!(normalize_command("/BILD"), "/bild");
    assert_eq!(command_reply("/status"), Some(CommandReply::Status));
    assert_eq!(command_reply("/photo"), Some(CommandReply::StatusPhoto));
    assert_eq!(command_reply("/statusbild"), Some(CommandReply::StatusPhoto));
    assert_eq!(command_reply("/start"), Some(CommandReply::Help));
    assert_eq!(command_reply("/nope"), None);
}

#[test]
fn chat_and_thread_matching() {
    let d = tg("a", Some("t"), Some(" -100 "), Some("7"));
    assert!(chat_matches(&d, &msg(-100, Some(7), None)));
    assert!(!chat_matches(&d, &msg(100, Some(7), None)));
    assert!(thread_matches(&d, &msg(-100, Some(7), None)));
    assert!(!thread_matches(&d, &msg(-100, None, None)));
    let no_thread = tg("a", Some("t"), Some("-100"), None);
    assert!(thread_matches(&no_thread, &msg(-100, None, None)));
    let bad_thread = tg("a", Some("t"), Some("-100"), Some("abc"));
    assert!(thread_matches(&bad_thread, &msg(-100, Some(3), None)));
}

#[test]
fn polled_destinations() {
    let mut off = tg("b", Some("t"), Some("1"), None);
    off.enabled = false;
    let mut other = tg("c", Some("t"), Some("1"), None);
    other.kind = DestinationKind::Discord;
    let ds = vec![tg("a", Some("t"), Some("1"), None), off, other, tg("d", Some("t"), Some(" "), None), tg("e", Some("t"), Some("2"), None)];
    let r = telegram_destinations(&ds);
    let ids: Vec<&str> = r.iter().map(|d| d.id.as_str()).collect();
    assert_eq!(ids, vec!["a", "e"]);
}

#[test]
fn first_poll_only_seeds_offset() {
    let mut p = TelegramCommandPoller::new();
    let d = tg("a", Some("t"), Some("1"), None);
    let req = p.poll_request("a");
    assert_eq!(req.offset, None);
    assert_eq!(req.timeout_secs, 0);
    let replies = p.handle_updates(&d, &vec![upd(10, msg(1, None, Some("/status"))), upd(12, msg(1, None, Some("/help")))]);
    assert!(replies.is_empty());
    let req = p.poll_request("a");
    assert_eq!(req.offset, Some(13));
    assert_eq!(req.timeout_secs, 20);
}

#[test]
fn later_polls_answer_commands_in_order() {
    let mut p = TelegramCommandPoller::new();
    let d = tg("a", Some("t"), Some("1"), None);
    assert!(p.handle_updates(&d, &vec![]).is_empty());
    assert_eq!(p.poll_request("a").timeout_secs, 20);
    let replies = p.handle_updates(
        &d,
        &vec![
            upd(20, msg(1, None, Some("/help"))),
            upd(21, msg(2, None, Some("/status"))),
            upd(22, msg(1, None, Some("   "))),
            upd(23, msg(1, None, Some("/bild"))),
            TelegramUpdate { update_id: 24, message: None },
        ],
    );
    assert_eq!(replies, vec![CommandReply::Help, CommandReply::StatusPhoto]);
    assert_eq!(p.poll_request("a").offset, Some(25));
    assert_eq!(p.poll_request("zz").offset, None);
}

#[test]
fn status_texts() {
    let s = StatusSnapshot {
        printer_ip: String::new(),
        connected: true,
        connected_raw: true,
        connected_ws: false,
        camera_connected: false,
        phase_label: "Printing".to_string(),
        progress: 150,
        filename: "  ".to_string(),
        nozzle: "210/215C".to_string(),
        bed: "60/60C".to_string(),
        ai_score: "3".to_string(),
    };
    assert_eq!(
        status_text(&s),
        "Printer: -\nConnection: online (raw ok, ws off)\nCamera: off\nState: Printing\nProgress: 100%\nFile: -\nNozzle: 210/215C\nBed: 60/60C\nAI score: 3%"
    );
    assert_eq!(status_title(), "CC2 Status");
    assert_eq!(help_message().0, "CC2 Telegram Commands");
    assert_eq!(no_camera_text("x"), "x\n\nCamera image is not available right now.");
}
