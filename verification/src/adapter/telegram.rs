//! Telegram: external chat ids (with forum topics), how request failures
//! classify, and the manifest.

use vstd::prelude::*;
use std::time::Duration;
use crate::adapter::common::{bare_manifest, config_field, parse_i64, parsed_signed, ExternalIdError};
use crate::error::{ChannelError, ChannelErrorKind};
use crate::hitl::{find_char_from, strings_view, HitlKind};
use crate::render::{decimal, decimal_chars};
use crate::models::ChannelManifest;
use crate::markdown::{fence_tables, markdown_events_of, plain_text, tables_fenced, to_plain};
use crate::split::{fenced_split_of, silent_split_bytes, silent_split_plain, TelegramMarkdownV2Splitter};
use crate::text::{chars_of, encodings_of, equals_str, string_from_chars, views_of};

verus! {

/// The configuration of a Telegram channel.
#[derive(Debug, Clone)]
pub struct TelegramConfig {
    pub bot_token: String,
}

/// The factory of Telegram channels.
pub struct TelegramAdapterFactory;

impl TelegramAdapterFactory {
    /// The bot token is the one field, required and secret.
    pub fn manifest(&self) -> (m: ChannelManifest)
        ensures
            m.id@ == "telegram"@,
            m.display_name@ == "Telegram Bot"@,
            m.config_fields@.len() == 1,
            m.config_fields@[0].name@ == "bot_token"@,
            m.config_fields@[0].is_required,
            m.config_fields@[0].is_secret,
    {
        let mut m = bare_manifest("telegram", "Telegram Bot", "Chat with your agent through a Telegram bot.");
        m.config_fields.push(config_field("bot_token", true, true, None));
        m
    }
}

/// Telegram caps one message at this many characters.
pub const TELEGRAM_MAX_MESSAGE_LEN: usize = 4096;

/// The chat and forum topic that a Telegram chat id names: `dm:{chat}`,
/// `group:{chat}` or `group:{chat}:topic:{thread}`, with an `i64` chat and an
/// `i32` thread. `Err(true)` when a number does not parse, `Err(false)` for
/// any other shape.
pub open spec fn telegram_chat_of(s: Seq<char>) -> Result<(int, Option<int>), bool> {
    let c1 = find_char_from(s, ':', 0);
    let c2 = find_char_from(s, ':', c1 + 1);
    let c3 = find_char_from(s, ':', c2 + 1);
    let c4 = find_char_from(s, ':', c3 + 1);
    if c1 >= s.len() {
        Err(false)
    } else if c2 >= s.len() {
        let kind = s.subrange(0, c1);
        if kind == "dm"@ || kind == "group"@ {
            match parsed_signed(s.subrange(c1 + 1, s.len() as int), i64::MIN as int, i64::MAX as int) {
                Some(n) => Ok((n, None)),
                None => Err(true),
            }
        } else {
            Err(false)
        }
    } else if c3 < s.len() && c4 >= s.len() && s.subrange(0, c1) == "group"@ && s.subrange(c2 + 1, c3) == "topic"@ {
        match parsed_signed(s.subrange(c1 + 1, c2), i64::MIN as int, i64::MAX as int) {
            None => Err(true),
            Some(chat) => match parsed_signed(s.subrange(c3 + 1, s.len() as int), i32::MIN as int, i32::MAX as int) {
                None => Err(true),
                Some(thread) => Ok((chat, Some(thread))),
            },
        }
    } else {
        Err(false)
    }
}

fn next_colon(v: &Vec<char>, from: usize) -> (r: usize)
    requires
        from <= v@.len(),
    ensures
        r == find_char_from(v@, ':', from as int),
        from <= r <= v@.len(),
{
    let mut i = from;
    while i < v.len() && v[i] != ':'
        invariant
            from <= i <= v@.len(),
            find_char_from(v@, ':', i as int) == find_char_from(v@, ':', from as int),
        decreases v@.len() - i,
    {
        i = i + 1;
    }
    i
}

fn range_eq(v: &Vec<char>, lo: usize, hi: usize, lit: &str) -> (r: bool)
    requires
        lo <= hi <= v@.len(),
    ensures
        r == (v@.subrange(lo as int, hi as int) == lit@),
{
    let piece = string_from_chars(v, lo, hi);
    let pv = chars_of(piece.as_str());
    equals_str(&pv, lit)
}

/// Reads a Telegram chat id into the chat and, for a forum topic, the
/// thread.
pub fn parse_external_id(s: &str) -> (r: Result<(i64, Option<i32>), ExternalIdError>)
    ensures
        match r {
            Ok((chat, None)) => telegram_chat_of(s@) == Ok::<(int, Option<int>), bool>((chat as int, None)),
            Ok((chat, Some(t))) => telegram_chat_of(s@) == Ok::<(int, Option<int>), bool>((chat as int, Some(t as int))),
            Err(ExternalIdError::InvalidNumber(t)) => telegram_chat_of(s@) == Err::<(int, Option<int>), bool>(true) && t@ == s@,
            Err(ExternalIdError::Unrecognised(t)) => telegram_chat_of(s@) == Err::<(int, Option<int>), bool>(false) && t@ == s@,
        },
{
    let v = chars_of(s);
    let n = v.len();
    let c1 = next_colon(&v, 0);
    if c1 >= n {
        return Err(ExternalIdError::Unrecognised(String::from_str(s)));
    }
    let c2 = next_colon(&v, c1 + 1);
    if c2 >= n {
        if range_eq(&v, 0, c1, "dm") || range_eq(&v, 0, c1, "group") {
            return match parse_i64(&v, c1 + 1, n) {
                Some(chat) => Ok((chat, None)),
                None => Err(ExternalIdError::InvalidNumber(String::from_str(s))),
            };
        }
        return Err(ExternalIdError::Unrecognised(String::from_str(s)));
    }
    let c3 = next_colon(&v, c2 + 1);
    if c3 >= n {
        return Err(ExternalIdError::Unrecognised(String::from_str(s)));
    }
    let c4 = next_colon(&v, c3 + 1);
    if c4 < n || !range_eq(&v, 0, c1, "group") || !range_eq(&v, c2 + 1, c3, "topic") {
        return Err(ExternalIdError::Unrecognised(String::from_str(s)));
    }
    let chat = match parse_i64(&v, c1 + 1, c2) {
        Some(c) => c,
        None => return Err(ExternalIdError::InvalidNumber(String::from_str(s))),
    };
    match parse_i64(&v, c3 + 1, n) {
        Some(t) => {
            if -2147483648i64 <= t && t <= 2147483647i64 {
                Ok((chat, Some(t as i32)))
            } else {
                Err(ExternalIdError::InvalidNumber(String::from_str(s)))
            }
        },
        None => {
            proof {
                let piece = v@.subrange(c3 + 1, n as int);
                assert(parsed_signed(piece, i64::MIN as int, i64::MAX as int) is None);
            }
            Err(ExternalIdError::InvalidNumber(String::from_str(s)))
        },
    }
}

/// A Telegram Bot API error, by what it means for delivery.
#[derive(Debug, Clone, Copy, PartialEq, Eq, Structural)]
pub enum TelegramApiError {
    BotBlocked,
    BotKicked,
    BotKickedFromSupergroup,
    BotKickedFromChannel,
    UserDeactivated,
    CantInitiateConversation,
    CantTalkWithBots,
    NotEnoughRightsToPostMessages,
    GroupDeactivated,
    MethodNotAvailableInPrivateChats,
    ChatNotFound,
    UserNotFound,
    InvalidToken,
    CantParseEntities,
    CantParseUrl,
    WrongHttpUrl,
    WrongFileId,
    WrongFileIdOrUrl,
    FailedToGetUrlContent,
    ImageProcessFailed,
    PhotoAsInputFileRequired,
    ButtonUrlInvalid,
    ButtonDataInvalid,
    MessageIsTooLong,
    EditedMessageIsTooLong,
    TooMuchMessages,
    RequestEntityTooLarge,
    Other,
}

/// How a Telegram request failed.
#[derive(Debug, Clone, Copy, PartialEq)]
pub enum TelegramFailure {
    /// Flood control: retry after the given time.
    RetryAfter(Duration),
    Network,
    Io,
    /// The group became a supergroup with another id.
    MigrateToChatId,
    Api(TelegramApiError),
    Other,
}

/// The channel error kind of a Telegram failure.
pub open spec fn telegram_kind(f: TelegramFailure) -> ChannelErrorKind {
    match f {
        TelegramFailure::MigrateToChatId => ChannelErrorKind::NotFound,
        TelegramFailure::Api(api) => match api {
            TelegramApiError::BotBlocked | TelegramApiError::BotKicked
            | TelegramApiError::BotKickedFromSupergroup | TelegramApiError::BotKickedFromChannel
            | TelegramApiError::UserDeactivated | TelegramApiError::CantInitiateConversation
            | TelegramApiError::CantTalkWithBots | TelegramApiError::NotEnoughRightsToPostMessages
            | TelegramApiError::GroupDeactivated
            | TelegramApiError::MethodNotAvailableInPrivateChats => ChannelErrorKind::Forbidden,
            TelegramApiError::ChatNotFound | TelegramApiError::UserNotFound => ChannelErrorKind::NotFound,
            TelegramApiError::InvalidToken => ChannelErrorKind::Unauthorized,
            TelegramApiError::CantParseEntities | TelegramApiError::CantParseUrl
            | TelegramApiError::WrongHttpUrl | TelegramApiError::WrongFileId
            | TelegramApiError::WrongFileIdOrUrl | TelegramApiError::FailedToGetUrlContent
            | TelegramApiError::ImageProcessFailed | TelegramApiError::PhotoAsInputFileRequired
            | TelegramApiError::ButtonUrlInvalid
            | TelegramApiError::ButtonDataInvalid => ChannelErrorKind::PayloadInvalid,
            TelegramApiError::MessageIsTooLong | TelegramApiError::EditedMessageIsTooLong
            | TelegramApiError::TooMuchMessages
            | TelegramApiError::RequestEntityTooLarge => ChannelErrorKind::PayloadTooLarge,
            TelegramApiError::Other => ChannelErrorKind::Transient,
        },
        _ => ChannelErrorKind::Transient,
    }
}

/// The channel error for a failed Telegram request with text `msg`: flood
/// control carries Telegram's retry delay; a bot shut out of the chat is
/// forbidden; a missing chat is not found; bad payloads are invalid or too
/// large; anything else is transient.
pub fn classify_telegram_error(failure: &TelegramFailure, msg: String) -> (r: ChannelError)
    ensures
        r.kind == telegram_kind(*failure),
        r.message@ == msg@,
        r.retry_hint == match *failure {
            TelegramFailure::RetryAfter(d) => Some(d),
            _ => None::<Duration>,
        },
{
    match failure {
        TelegramFailure::RetryAfter(d) => ChannelError::transient(msg).with_retry_hint(*d),
        TelegramFailure::Network | TelegramFailure::Io | TelegramFailure::Other => ChannelError::transient(msg),
        TelegramFailure::MigrateToChatId => ChannelError::terminal(msg, ChannelErrorKind::NotFound),
        TelegramFailure::Api(api) => {
            let kind = match api {
                TelegramApiError::BotBlocked | TelegramApiError::BotKicked
                | TelegramApiError::BotKickedFromSupergroup | TelegramApiError::BotKickedFromChannel
                | TelegramApiError::UserDeactivated | TelegramApiError::CantInitiateConversation
                | TelegramApiError::CantTalkWithBots | TelegramApiError::NotEnoughRightsToPostMessages
                | TelegramApiError::GroupDeactivated
                | TelegramApiError::MethodNotAvailableInPrivateChats => ChannelErrorKind::Forbidden,
                TelegramApiError::ChatNotFound | TelegramApiError::UserNotFound => ChannelErrorKind::NotFound,
                TelegramApiError::InvalidToken => ChannelErrorKind::Unauthorized,
                TelegramApiError::CantParseEntities | TelegramApiError::CantParseUrl
                | TelegramApiError::WrongHttpUrl | TelegramApiError::WrongFileId
                | TelegramApiError::WrongFileIdOrUrl | TelegramApiError::FailedToGetUrlContent
                | TelegramApiError::ImageProcessFailed | TelegramApiError::PhotoAsInputFileRequired
                | TelegramApiError::ButtonUrlInvalid
                | TelegramApiError::ButtonDataInvalid => ChannelErrorKind::PayloadInvalid,
                TelegramApiError::MessageIsTooLong | TelegramApiError::EditedMessageIsTooLong
                | TelegramApiError::TooMuchMessages
                | TelegramApiError::RequestEntityTooLarge => ChannelErrorKind::PayloadTooLarge,
                TelegramApiError::Other => ChannelErrorKind::Transient,
            };
            if kind.is_terminal() {
                ChannelError::terminal(msg, kind)
            } else {
                ChannelError::transient(msg)
            }
        },
    }
}


/// A button of an inline keyboard.
#[derive(Debug, Clone, PartialEq)]
pub enum TelegramButton {
    /// Sends `data` back as a callback query.
    Callback { text: String, data: String },
    /// Opens `url`.
    Url { text: String, url: String },
}

/// A button as characters.
pub enum TelegramButtonView {
    Callback { text: Seq<char>, data: Seq<char> },
    Url { text: Seq<char>, url: Seq<char> },
}

pub open spec fn tg_button_view(b: TelegramButton) -> TelegramButtonView {
    match b {
        TelegramButton::Callback { text, data } => TelegramButtonView::Callback { text: text@, data: data@ },
        TelegramButton::Url { text, url } => TelegramButtonView::Url { text: text@, url: url@ },
    }
}

pub open spec fn keyboard_view(rows: Seq<Vec<TelegramButton>>) -> Seq<Seq<TelegramButtonView>> {
    rows.map_values(|r: Vec<TelegramButton>| r@.map_values(|b: TelegramButton| tg_button_view(b)))
}

/// The serialization of `s` as a URL, when url's `Url::parse` accepts it
/// (the parser normalizes, so it may differ from `s`).
pub uninterp spec fn parsed_url(s: Seq<char>) -> Option<Seq<char>>;

/// url's `Url::parse`, then `Url::as_str`: the normalized URL, or `None`
/// when `s` is not a valid absolute URL.
#[verifier::external_body]
fn parse_url(s: &str) -> (r: Option<String>)
    ensures
        match r {
            Some(u) => parsed_url(s@) == Some(u@),
            None => parsed_url(s@) is None,
        },
{
    url::Url::parse(s).ok().map(|u| u.as_str().to_string())
}

/// The row with the link to the request on the web, when `url` parses.
pub open spec fn url_row(url: Seq<char>) -> Seq<Seq<TelegramButtonView>> {
    match parsed_url(url) {
        Some(u) => seq![seq![TelegramButtonView::Url { text: "Open on web →"@, url: u }]],
        None => seq![],
    }
}

/// The inline keyboard for a pending request: an approval is a Yes/No row
/// and the web link; a choice is one row per option, its button sending
/// `r:{tcid}:c:{index}`; an external request is the web link alone.
pub open spec fn keyboard_for(tcid: Seq<char>, kind: HitlKind, url: Seq<char>) -> Seq<Seq<TelegramButtonView>> {
    match kind {
        HitlKind::Approval => seq![seq![
            TelegramButtonView::Callback { text: "Yes"@, data: "r:"@ + tcid + ":y"@ },
            TelegramButtonView::Callback { text: "No"@, data: "r:"@ + tcid + ":n"@ },
        ]] + url_row(url),
        HitlKind::Choice { options } => {
            let opts = strings_view(options@);
            Seq::new(opts.len(), |i: int| seq![TelegramButtonView::Callback {
                text: opts[i],
                data: "r:"@ + tcid + ":c:"@ + decimal(i as nat),
            }])
        },
        HitlKind::External => url_row(url),
    }
}

fn callback_data(tcid: &str, tail: &str) -> (r: String)
    ensures
        r@ == "r:"@ + tcid@ + tail@,
{
    let mut r = String::from_str("r:");
    r.append(tcid);
    r.append(tail);
    r
}

fn push_keyboard_row(rows: &mut Vec<Vec<TelegramButton>>, row: Vec<TelegramButton>)
    ensures
        final(rows)@ == old(rows)@.push(row),
        keyboard_view(final(rows)@) == keyboard_view(old(rows)@).push(row@.map_values(|b: TelegramButton| tg_button_view(b))),
{
    let ghost before = rows@;
    rows.push(row);
    assert(keyboard_view(rows@) =~= keyboard_view(before).push(row@.map_values(|b: TelegramButton| tg_button_view(b))));
}

fn push_url_row(rows: &mut Vec<Vec<TelegramButton>>, url: &str)
    ensures
        keyboard_view(final(rows)@) == keyboard_view(old(rows)@) + url_row(url@),
{
    match parse_url(url) {
        Some(u) => {
            let mut row: Vec<TelegramButton> = Vec::new();
            row.push(TelegramButton::Url { text: String::from_str("Open on web →"), url: u });
            assert(row@.map_values(|b: TelegramButton| tg_button_view(b)) =~= seq![TelegramButtonView::Url { text: "Open on web →"@, url: parsed_url(url@)->0 }]);
            push_keyboard_row(rows, row);
            assert(keyboard_view(rows@) =~= keyboard_view(old(rows)@) + url_row(url@));
        },
        None => {
            assert(keyboard_view(rows@) =~= keyboard_view(old(rows)@) + url_row(url@));
        },
    }
}

/// Builds the inline keyboard for a pending request, see [`keyboard_for`].
pub fn build_inline_keyboard(tcid: &str, kind: &HitlKind, url: &str) -> (rows: Vec<Vec<TelegramButton>>)
    ensures
        keyboard_view(rows@) =~~= keyboard_for(tcid@, *kind, url@),
{
    let mut rows: Vec<Vec<TelegramButton>> = Vec::new();
    assert(keyboard_view(rows@) =~= Seq::<Seq<TelegramButtonView>>::empty());
    match kind {
        HitlKind::Approval => {
            let mut row: Vec<TelegramButton> = Vec::new();
            row.push(TelegramButton::Callback { text: String::from_str("Yes"), data: callback_data(tcid, ":y") });
            row.push(TelegramButton::Callback { text: String::from_str("No"), data: callback_data(tcid, ":n") });
            assert(row@.map_values(|b: TelegramButton| tg_button_view(b)) =~= seq![
                TelegramButtonView::Callback { text: "Yes"@, data: "r:"@ + tcid@ + ":y"@ },
                TelegramButtonView::Callback { text: "No"@, data: "r:"@ + tcid@ + ":n"@ },
            ]);
            push_keyboard_row(&mut rows, row);
            push_url_row(&mut rows, url);
            rows
        },
        HitlKind::Choice { options } => {
            let mut i: usize = 0;
            while i < options.len()
                invariant
                    i <= options@.len(),
                    rows@.len() == i,
                    forall|j: int| 0 <= j < i ==> #[trigger] keyboard_view(rows@)[j] =~~= seq![TelegramButtonView::Callback {
                        text: options@[j]@,
                        data: "r:"@ + tcid@ + ":c:"@ + decimal(j as nat),
                    }],
                decreases options@.len() - i,
            {
                let digits = decimal_chars(i as u64);
                let d = string_from_chars(&digits, 0, digits.len());
                let mut data = callback_data(tcid, ":c:");
                data.append(d.as_str());
                let mut row: Vec<TelegramButton> = Vec::new();
                row.push(TelegramButton::Callback { text: options[i].clone(), data });
                proof {
                    assert(d@ =~= decimal(i as nat));
                    assert(row@.map_values(|b: TelegramButton| tg_button_view(b)) =~= seq![TelegramButtonView::Callback {
                        text: options@[i as int]@,
                        data: "r:"@ + tcid@ + ":c:"@ + decimal(i as nat),
                    }]);
                }
                push_keyboard_row(&mut rows, row);
                i = i + 1;
            }
            rows
        },
        HitlKind::External => {
            push_url_row(&mut rows, url);
            rows
        },
    }
}

/// What telegram_markdown_v2's `convert_with_strategy` makes of markdown
/// with the `Escape` strategy; `None` when it fails.
pub uninterp spec fn telegram_v2_escaped(markdown: Seq<char>) -> Option<Seq<char>>;

/// telegram_markdown_v2's `convert_with_strategy(markdown, Escape)`:
/// MarkdownV2 text, or `None` when the conversion fails.
#[verifier::external_body]
fn telegram_escape(markdown: &str) -> (r: Option<String>)
    ensures
        match r {
            Some(s) => telegram_v2_escaped(markdown@) == Some(s@),
            None => telegram_v2_escaped(markdown@) is None,
        },
{
    telegram_markdown_v2::convert_with_strategy(markdown, telegram_markdown_v2::UnsupportedTagsStrategy::Escape).ok()
}

/// The messages a reply goes out as, and whether they are MarkdownV2: the
/// reply with its tables fenced, converted to MarkdownV2 and split by
/// `splitter`; when the conversion fails, the reply as plain text split at
/// Telegram's limit.
pub fn bubble_chunks(splitter: &TelegramMarkdownV2Splitter, text: &str) -> (r: (Vec<String>, bool))
    ensures
        match telegram_v2_escaped(tables_fenced(text)) {
            Some(v2) => r.1 && views_of(r.0@) == fenced_split_of(v2, splitter.provider_limit as int, true),
            None => !r.1 && encodings_of(r.0@) == silent_split_bytes(
                vstd::utf8::encode_utf8(plain_text(markdown_events_of(text@))),
                TELEGRAM_MAX_MESSAGE_LEN as int,
            ),
        },
{
    let fenced = fence_tables(text);
    match telegram_escape(fenced.as_str()) {
        Some(v2) => (splitter.split(v2.as_str()), true),
        None => {
            let plain = to_plain(text);
            (silent_split_plain(plain.as_str(), TELEGRAM_MAX_MESSAGE_LEN), false)
        },
    }
}

} // verus!
