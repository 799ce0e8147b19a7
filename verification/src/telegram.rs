//! What goes into a Telegram Bot API request: the bot and chat a destination
//! names, the request URL, the HTML message text and the forum thread.
use vstd::prelude::*;

use crate::config::NotificationDestination;
use crate::error::NotificationError;
use crate::text::{
    blank, escape_html, escape_html_spec, is_blank, lit, parse_i64, parse_i64_spec, push_text, trim,
    trim_str,
};

verus! {

/// A chat, as the Bot API reports it.
#[derive(Debug, Clone)]
pub struct TelegramChat {
    pub id: i64,
}

/// A message received by the bot.
#[derive(Debug, Clone)]
pub struct TelegramMessage {
    pub chat: TelegramChat,
    pub message_thread_id: Option<i64>,
    pub text: Option<String>,
}

/// One entry of a `getUpdates` answer.
#[derive(Debug, Clone)]
pub struct TelegramUpdate {
    pub update_id: i64,
    pub message: Option<TelegramMessage>,
}

/// A configured text: present and not blank.
pub open spec fn configured(o: Option<Seq<char>>) -> bool {
    o matches Some(s) && !is_blank(s)
}

/// The bot token and chat id of a destination, as configured (untrimmed).
pub fn telegram_target(dest: &NotificationDestination) -> (r: Result<(String, String), NotificationError>)
    ensures
        match r {
            Ok((token, chat)) => {
                &&& configured(dest.telegram_bot_token.deep_view())
                &&& configured(dest.telegram_chat_id.deep_view())
                &&& Some(token@) == dest.telegram_bot_token.deep_view()
                &&& Some(chat@) == dest.telegram_chat_id.deep_view()
            },
            Err(NotificationError::TelegramFailed(m)) => if !configured(
                dest.telegram_bot_token.deep_view(),
            ) {
                m@ == "bot token is not configured"@
            } else {
                !configured(dest.telegram_chat_id.deep_view()) && m@ == "chat id is not configured"@
            },
        },
{
    let token = match &dest.telegram_bot_token {
        Some(v) => if blank(v.as_str()) {
            None
        } else {
            Some(v.clone())
        },
        None => None,
    };
    let token = match token {
        Some(t) => t,
        None => {
            return Err(NotificationError::TelegramFailed(lit("bot token is not configured")));
        },
    };
    let chat = match &dest.telegram_chat_id {
        Some(v) => if blank(v.as_str()) {
            None
        } else {
            Some(v.clone())
        },
        None => None,
    };
    match chat {
        Some(c) => Ok((token, c)),
        None => Err(NotificationError::TelegramFailed(lit("chat id is not configured"))),
    }
}

pub open spec fn method_url_spec(token: Seq<char>, method: Seq<char>) -> Seq<char> {
    "https://api.telegram.org/bot"@ + token + "/"@ + method
}

/// `https://api.telegram.org/bot{token}/{method}`
pub fn method_url(token: &str, method: &str) -> (r: String)
    ensures
        r@ == method_url_spec(token@, method@),
{
    let mut r = lit("https://api.telegram.org/bot");
    push_text(&mut r, token);
    push_text(&mut r, "/");
    push_text(&mut r, method);
    r
}

pub open spec fn message_text_spec(title: Seq<char>, body: Seq<char>) -> Seq<char> {
    "<b>"@ + escape_html_spec(title) + "</b>\n"@ + escape_html_spec(body)
}

/// The HTML text of a message or photo caption: the title in bold, then the body.
pub fn message_text(title: &str, body: &str) -> (r: String)
    ensures
        r@ == message_text_spec(title@, body@),
{
    let mut r = lit("<b>");
    let t = escape_html(title);
    push_text(&mut r, t.as_str());
    push_text(&mut r, "</b>\n");
    let b = escape_html(body);
    push_text(&mut r, b.as_str());
    r
}

/// The forum thread a message goes to: the configured thread id, when it is an integer.
pub fn thread_id_value(thread_id: &Option<String>) -> (r: Option<i64>)
    ensures
        match thread_id.deep_view() {
            Some(s) => match parse_i64_spec(trim(s)) {
                Some(v) => r == Some(v as i64),
                None => r is None,
            },
            None => r is None,
        },
{
    match thread_id {
        Some(v) => {
            let t = trim_str(v.as_str());
            parse_i64(t.as_str())
        },
        None => None,
    }
}

/// The file name given to an uploaded snapshot.
pub fn attachment_name(file_name: Option<String>) -> (r: String)
    ensures
        r@ == (match file_name {
            Some(n) => n@,
            None => "snapshot.jpg"@,
        }),
{
    match file_name {
        Some(n) => n,
        None => lit("snapshot.jpg"),
    }
}

/// The error for an unsuccessful Bot API answer, given the text of its HTTP
/// status (such as `400 Bad Request`).
pub fn server_error(status: &str) -> (r: NotificationError)
    ensures
        r matches NotificationError::TelegramFailed(m) && m@ == "server returned "@ + status@,
{
    let mut m = lit("server returned ");
    push_text(&mut m, status);
    NotificationError::TelegramFailed(m)
}

/// Title and body of the test message of `send_test`.
pub fn test_message() -> (r: (String, String))
    ensures
        r.0@ == "CC2 Monitor"@,
        r.1@ == "Test notification - Telegram bot is working"@,
{
    (lit("CC2 Monitor"), lit("Test notification - Telegram bot is working"))
}

/// Title and body of the test message sent to a webhook.
pub fn webhook_test_message() -> (r: (String, String))
    ensures
        r.0@ == "CC2 Monitor"@,
        r.1@ == "Test notification - webhook is working"@,
{
    (lit("CC2 Monitor"), lit("Test notification - webhook is working"))
}

} // verus!
