//! WhatsApp Cloud API: media kinds, interactive request payloads, webhook
//! signatures, external ids and which send failures are worth a retry.

use vstd::prelude::*;
use vstd::string::StringSliceAdditionalSpecFns;
use hmac::{Hmac, Mac};
use sha2::Sha256;
use subtle::ConstantTimeEq;
use crate::adapter::sms::{form_decoded, form_pairs};
use crate::adapter::common::{after_prefix, bare_manifest, config_field, link, strip_id_prefix, ExternalIdError};
use crate::error::AppError;
use crate::hitl::{digits_value, strings_view, HitlKind};
use crate::render::{decimal, decimal_chars, digit_run};
use crate::models::ChannelManifest;
use crate::text::{
    chars_of, equals_str, has_prefix, lower_chars, lowercase_chars, starts_with_str,
    string_from_chars, pair_views, truncate_chars, truncated,
};

verus! {

/// The media kind WhatsApp sends a file of content type `ct` as.
pub open spec fn media_kind(ct: Seq<char>) -> Seq<char> {
    let l = lower_chars(ct);
    if has_prefix(l, "image/"@) {
        "image"@
    } else if has_prefix(l, "audio/"@) {
        "audio"@
    } else if has_prefix(l, "video/"@) {
        "video"@
    } else {
        "document"@
    }
}

pub fn wa_media_kind(content_type: &str) -> (r: &'static str)
    ensures
        r@ == media_kind(content_type@),
{
    let lower = lowercase_chars(content_type);
    if starts_with_str(&lower, "image/") {
        "image"
    } else if starts_with_str(&lower, "audio/") {
        "audio"
    } else if starts_with_str(&lower, "video/") {
        "video"
    } else {
        "document"
    }
}

/// The content type assumed for inbound media of kind `kind` that came
/// without one.
pub open spec fn default_mime(kind: Seq<char>) -> Seq<char> {
    if kind == "image"@ {
        "image/jpeg"@
    } else if kind == "audio"@ {
        "audio/ogg"@
    } else if kind == "video"@ {
        "video/mp4"@
    } else if kind == "sticker"@ {
        "image/webp"@
    } else {
        "application/octet-stream"@
    }
}

pub fn default_mime_for(kind: &str) -> (r: &'static str)
    ensures
        r@ == default_mime(kind@),
{
    let k = chars_of(kind);
    if equals_str(&k, "image") {
        "image/jpeg"
    } else if equals_str(&k, "audio") {
        "audio/ogg"
    } else if equals_str(&k, "video") {
        "video/mp4"
    } else if equals_str(&k, "sticker") {
        "image/webp"
    } else {
        "application/octet-stream"
    }
}

/// The file extension for content type `ct`.
pub open spec fn extension(ct: Seq<char>) -> Seq<char> {
    if has_prefix(ct, "image/jpeg"@) {
        "jpg"@
    } else if has_prefix(ct, "image/png"@) {
        "png"@
    } else if has_prefix(ct, "image/webp"@) {
        "webp"@
    } else if has_prefix(ct, "image/gif"@) {
        "gif"@
    } else if has_prefix(ct, "audio/ogg"@) {
        "ogg"@
    } else if has_prefix(ct, "audio/mpeg"@) {
        "mp3"@
    } else if has_prefix(ct, "video/mp4"@) {
        "mp4"@
    } else if ct == "application/pdf"@ {
        "pdf"@
    } else {
        "bin"@
    }
}

/// `"{id}.{ext}"` for inbound media that came without a file name.
pub fn default_filename(id: &str, content_type: &str) -> (r: String)
    ensures
        r@ == id@ + "."@ + extension(content_type@),
{
    let ct = chars_of(content_type);
    let ext = if starts_with_str(&ct, "image/jpeg") {
        "jpg"
    } else if starts_with_str(&ct, "image/png") {
        "png"
    } else if starts_with_str(&ct, "image/webp") {
        "webp"
    } else if starts_with_str(&ct, "image/gif") {
        "gif"
    } else if starts_with_str(&ct, "audio/ogg") {
        "ogg"
    } else if starts_with_str(&ct, "audio/mpeg") {
        "mp3"
    } else if starts_with_str(&ct, "video/mp4") {
        "mp4"
    } else if equals_str(&ct, "application/pdf") {
        "pdf"
    } else {
        "bin"
    };
    let mut r = String::from_str(id);
    r.append(".");
    r.append(ext);
    r
}

/// The phone number of a WhatsApp Cloud chat id `wa:{number}`.
pub fn parse_external_id(s: &str) -> (r: Result<String, ExternalIdError>)
    ensures
        match r {
            Ok(n) => after_prefix(s@, "wa:"@) == Some(n@),
            Err(ExternalIdError::Unrecognised(t)) => after_prefix(s@, "wa:"@) is None && t@ == s@,
            Err(_) => false,
        },
{
    strip_id_prefix(s, "wa:")
}

/// The interactive part of an inbound message: the reply's kind and the id
/// carried by a button reply or a list reply.
#[derive(Debug, Clone)]
pub struct InteractivePayload {
    pub kind: String,
    pub button_reply: Option<String>,
    pub list_reply: Option<String>,
}

/// The callback id that an interactive reply carries: a button reply's id
/// for `button_reply`, a list row's id for `list_reply`; nothing for another
/// kind or when the reply of that kind is missing.
pub open spec fn interactive_reply_id(kind: Seq<char>, button: Option<Seq<char>>, list: Option<Seq<char>>) -> Option<Seq<char>> {
    if kind == "button_reply"@ {
        button
    } else if kind == "list_reply"@ {
        list
    } else {
        None
    }
}

impl InteractivePayload {
    /// The callback id of the reply, see [`interactive_reply_id`].
    pub fn reply_id(&self) -> (r: Option<String>)
        ensures
            match r {
                Some(id) => interactive_reply_id(
                    self.kind@,
                    match self.button_reply { Some(b) => Some(b@), None => None },
                    match self.list_reply { Some(l) => Some(l@), None => None },
                ) == Some(id@),
                None => interactive_reply_id(
                    self.kind@,
                    match self.button_reply { Some(b) => Some(b@), None => None },
                    match self.list_reply { Some(l) => Some(l@), None => None },
                ) is None,
            },
    {
        let k = chars_of(self.kind.as_str());
        let chosen = if equals_str(&k, "button_reply") {
            &self.button_reply
        } else if equals_str(&k, "list_reply") {
            &self.list_reply
        } else {
            return None;
        };
        match chosen {
            Some(id) => Some(id.clone()),
            None => None,
        }
    }
}

/// A hex digit, in either case.
pub open spec fn is_hex_digit(c: char) -> bool {
    (48 <= c as u32 <= 57) || (97 <= c as u32 <= 102) || (65 <= c as u32 <= 70)
}

/// The value of a hex digit.
pub open spec fn hex_digit_value(c: char) -> int {
    if 48 <= c as u32 <= 57 {
        c as u32 - 48
    } else if 97 <= c as u32 <= 102 {
        c as u32 - 87
    } else {
        c as u32 - 55
    }
}

/// The bytes that the hex string `s` encodes: an even number of hex digits
/// (either case, mixed too), two per byte, high nibble first; `None` for
/// anything else.
pub open spec fn hex_decoded(s: Seq<char>) -> Option<Seq<u8>> {
    if s.len() % 2 == 0 && forall|i: int| 0 <= i < s.len() ==> is_hex_digit(#[trigger] s[i]) {
        Some(Seq::new(s.len() / 2, |i: int| (16 * hex_digit_value(s[2 * i]) + hex_digit_value(s[2 * i + 1])) as u8))
    } else {
        None
    }
}

/// The HMAC-SHA256 tag of `msg` under `key`.
pub uninterp spec fn hmac_sha256_tag(key: Seq<u8>, msg: Seq<u8>) -> Seq<u8>;

/// hex's `decode`: the bytes of a hex string. It reads the string's bytes
/// two at a time, each a digit `0-9`, `a-f` or `A-F`, and fails on an odd
/// length or any other byte (a non-ASCII character's bytes among them), so
/// over characters it is [`hex_decoded`].
#[verifier::external_body]
fn hex_decode(s: &str) -> (r: Option<Vec<u8>>)
    ensures
        match r {
            Some(b) => hex_decoded(s@) == Some(b@),
            None => hex_decoded(s@) is None,
        },
{
    hex::decode(s).ok()
}

/// hmac's `Hmac::<Sha256>::new_from_slice`, `update` and `verify_slice`:
/// whether `tag` is the whole HMAC-SHA256 tag of `msg` under `key`, compared
/// in constant time. `new_from_slice` accepts keys of any length, and
/// `verify_slice` rejects a tag of another length than the output's.
#[verifier::external_body]
fn hmac_sha256_verify(key: &[u8], msg: &[u8], tag: &[u8]) -> (r: bool)
    ensures
        r == (tag@ == hmac_sha256_tag(key@, msg@)),
{
    match Hmac::<Sha256>::new_from_slice(key) {
        Ok(mut mac) => {
            mac.update(msg);
            mac.verify_slice(tag).is_ok()
        },
        Err(_) => false,
    }
}

/// Whether `header` (`X-Hub-Signature-256`) is `sha256=` followed by the
/// hex of the HMAC-SHA256 of the request body under the app secret.
pub open spec fn signature_valid(app_secret: Seq<u8>, body: Seq<u8>, header: Seq<char>) -> bool {
    match after_sha256_prefix(header) {
        None => false,
        Some(hex_part) => match hex_decoded(hex_part) {
            None => false,
            Some(provided) => provided == hmac_sha256_tag(app_secret, body),
        },
    }
}

/// The rest of `header` after `sha256=`, when it starts with it.
pub open spec fn after_sha256_prefix(header: Seq<char>) -> Option<Seq<char>> {
    if has_prefix(header, "sha256="@) {
        Some(header.subrange(7, header.len() as int))
    } else {
        None
    }
}

/// Verifies a webhook call's signature header against its raw body.
pub fn verify_signature(app_secret: &str, body: &[u8], header: &str) -> (r: bool)
    ensures
        r == signature_valid(app_secret.spec_bytes(), body@, header@),
{
    let h = chars_of(header);
    if !starts_with_str(&h, "sha256=") {
        return false;
    }
    proof {
        reveal_strlit("sha256=");
    }
    let hex_part = string_from_chars(&h, 7, h.len());
    let provided = match hex_decode(hex_part.as_str()) {
        Some(p) => p,
        None => return false,
    };
    hmac_sha256_verify(app_secret.as_bytes(), body, provided.as_slice())
}

pub open spec fn http_url(s: Seq<char>) -> bool {
    has_prefix(s, "https://"@) || has_prefix(s, "http://"@)
}

pub fn is_http_url(s: &str) -> (r: bool)
    ensures
        r == http_url(s@),
{
    let v = chars_of(s);
    starts_with_str(&v, "https://") || starts_with_str(&v, "http://")
}

/// An outbound WhatsApp Cloud message, as the `messages` endpoint takes it.
#[derive(Debug, Clone, PartialEq)]
pub enum WaPayload {
    /// A plain text message.
    Text { to: String, body: String },
    /// An interactive message with reply buttons `(id, title)`.
    Buttons { to: String, body_text: String, buttons: Vec<(String, String)> },
    /// An interactive list message with one section of rows `(id, title)`.
    List {
        to: String,
        body_text: String,
        section_title: String,
        action_button: String,
        rows: Vec<(String, String)>,
    },
    /// An interactive message with one URL button.
    CtaUrl { to: String, body_text: String, display_text: String, url: String },
}

/// A payload as characters.
pub enum PayloadView {
    Text { to: Seq<char>, body: Seq<char> },
    Buttons { to: Seq<char>, body_text: Seq<char>, buttons: Seq<(Seq<char>, Seq<char>)> },
    List {
        to: Seq<char>,
        body_text: Seq<char>,
        section_title: Seq<char>,
        action_button: Seq<char>,
        rows: Seq<(Seq<char>, Seq<char>)>,
    },
    CtaUrl { to: Seq<char>, body_text: Seq<char>, display_text: Seq<char>, url: Seq<char> },
}

pub open spec fn payload_view(p: WaPayload) -> PayloadView {
    match p {
        WaPayload::Text { to, body } => PayloadView::Text { to: to@, body: body@ },
        WaPayload::Buttons { to, body_text, buttons } => PayloadView::Buttons {
            to: to@,
            body_text: body_text@,
            buttons: pair_views(buttons@),
        },
        WaPayload::List { to, body_text, section_title, action_button, rows } => PayloadView::List {
            to: to@,
            body_text: body_text@,
            section_title: section_title@,
            action_button: action_button@,
            rows: pair_views(rows@),
        },
        WaPayload::CtaUrl { to, body_text, display_text, url } => PayloadView::CtaUrl {
            to: to@,
            body_text: body_text@,
            display_text: display_text@,
            url: url@,
        },
    }
}

/// Meta's limits: body text, reply-button title, list-row title, reply
/// buttons per message, rows per list.
pub const WA_BODY_TEXT_MAX: usize = 1024;

pub const WA_REPLY_BUTTON_TITLE_MAX: usize = 20;

pub const WA_LIST_ROW_TITLE_MAX: usize = 24;

pub const WA_REPLY_BUTTONS_MAX: usize = 3;

pub const WA_LIST_ROWS_MAX: usize = 10;

/// The callback id `r:{tcid}:c:{i}` of option `i`.
pub open spec fn choice_id(tcid: Seq<char>, i: int) -> Seq<char> {
    "r:"@ + tcid + ":c:"@ + decimal(i as nat)
}

/// `(id, title)` of the first `n` options, titles cut to `max`.
pub open spec fn option_rows(tcid: Seq<char>, options: Seq<Seq<char>>, n: int, max: int) -> Seq<(Seq<char>, Seq<char>)> {
    Seq::new(n as nat, |i: int| (choice_id(tcid, i), truncated(options[i], max)))
}

/// The payload that presents a pending request of kind `kind` to `to`:
/// an approval is Yes/No reply buttons (its URL in the body, since Meta
/// refuses reply buttons beside a URL button); a choice of up to three
/// options is reply buttons, a longer one a list of at most ten rows with a
/// notice of the options left out, an empty one plain text; an external
/// request is a URL button, or plain text when the URL is not http(s).
pub open spec fn interactive_payload(to: Seq<char>, tcid: Seq<char>, prompt: Seq<char>, kind: HitlKind, url: Seq<char>) -> PayloadView {
    match kind {
        HitlKind::Approval => PayloadView::Buttons {
            to,
            body_text: if http_url(url) {
                truncated(prompt + "\n\n"@ + url, WA_BODY_TEXT_MAX as int)
            } else {
                truncated(prompt, WA_BODY_TEXT_MAX as int)
            },
            buttons: seq![("r:"@ + tcid + ":y"@, "Yes"@), ("r:"@ + tcid + ":n"@, "No"@)],
        },
        HitlKind::Choice { options } => {
            let opts = strings_view(options@);
            if opts.len() == 0 {
                PayloadView::Text { to, body: truncated(prompt, WA_BODY_TEXT_MAX as int) }
            } else if opts.len() <= WA_REPLY_BUTTONS_MAX {
                PayloadView::Buttons {
                    to,
                    body_text: truncated(prompt, WA_BODY_TEXT_MAX as int),
                    buttons: option_rows(tcid, opts, opts.len() as int, WA_REPLY_BUTTON_TITLE_MAX as int),
                }
            } else {
                let shown = if opts.len() > WA_LIST_ROWS_MAX { WA_LIST_ROWS_MAX as int } else { opts.len() as int };
                PayloadView::List {
                    to,
                    body_text: if opts.len() > WA_LIST_ROWS_MAX {
                        truncated(
                            prompt + "\n\n(+"@ + decimal((opts.len() - WA_LIST_ROWS_MAX as int) as nat)
                                + " more options, please pick from the list)"@,
                            WA_BODY_TEXT_MAX as int,
                        )
                    } else {
                        truncated(prompt, WA_BODY_TEXT_MAX as int)
                    },
                    section_title: "Options"@,
                    action_button: "Choose"@,
                    rows: option_rows(tcid, opts, shown, WA_LIST_ROW_TITLE_MAX as int),
                }
            }
        },
        HitlKind::External => if http_url(url) {
            PayloadView::CtaUrl {
                to,
                body_text: truncated(prompt, WA_BODY_TEXT_MAX as int),
                display_text: "Open on web"@,
                url,
            }
        } else {
            PayloadView::Text { to, body: truncated(prompt + "\n\n"@ + url, WA_BODY_TEXT_MAX as int) }
        },
    }
}

fn callback_id(tcid: &str, tail: &str) -> (r: String)
    ensures
        r@ == "r:"@ + tcid@ + tail@,
{
    let mut r = String::from_str("r:");
    r.append(tcid);
    r.append(tail);
    r
}

fn choice_rows(tcid: &str, options: &Vec<String>, n: usize, max: usize) -> (r: Vec<(String, String)>)
    requires
        n <= options@.len(),
        max >= 1,
    ensures
        pair_views(r@) == option_rows(tcid@, strings_view(options@), n as int, max as int),
{
    let ghost opts = strings_view(options@);
    let mut rows: Vec<(String, String)> = Vec::new();
    let mut i: usize = 0;
    while i < n
        invariant
            i <= n <= options@.len(),
            max >= 1,
            opts == strings_view(options@),
            pair_views(rows@) =~= option_rows(tcid@, opts, i as int, max as int),
        decreases n - i,
    {
        let digits = decimal_chars(i as u64);
        let mut id = callback_id(tcid, ":c:");
        let d = string_from_chars(&digits, 0, digits.len());
        id.append(d.as_str());
        let title = truncate_chars(options[i].as_str(), max);
        proof {
            assert(d@ =~= decimal(i as nat));
            assert(id@ =~= choice_id(tcid@, i as int));
            assert(opts[i as int] == options@[i as int]@);
            assert(pair_views(rows@.push((id, title))) =~= pair_views(rows@).push((id@, title@)));
            assert(option_rows(tcid@, opts, i + 1, max as int) =~= option_rows(tcid@, opts, i as int, max as int).push((choice_id(tcid@, i as int), truncated(opts[i as int], max as int))));
        }
        rows.push((id, title));
        i = i + 1;
    }
    rows
}

fn body_with_url(prompt: &str, url: &str) -> (r: String)
    ensures
        r@ == prompt@ + "\n\n"@ + url@,
{
    let mut r = String::from_str(prompt);
    r.append("\n\n");
    r.append(url);
    r
}

/// Builds the payload for one pending request, see [`interactive_payload`].
pub fn build_interactive_payload(to: &str, tcid: &str, prompt: &str, kind: &HitlKind, url: &str) -> (r: WaPayload)
    ensures
        payload_view(r) == interactive_payload(to@, tcid@, prompt@, *kind, url@),
{
    match kind {
        HitlKind::Approval => {
            let body_text = if is_http_url(url) {
                let full = body_with_url(prompt, url);
                truncate_chars(full.as_str(), WA_BODY_TEXT_MAX)
            } else {
                truncate_chars(prompt, WA_BODY_TEXT_MAX)
            };
            let mut buttons: Vec<(String, String)> = Vec::new();
            let yes = (callback_id(tcid, ":y"), String::from_str("Yes"));
            let no = (callback_id(tcid, ":n"), String::from_str("No"));
            buttons.push(yes);
            buttons.push(no);
            proof {
                assert(pair_views(buttons@) =~= seq![("r:"@ + tcid@ + ":y"@, "Yes"@), ("r:"@ + tcid@ + ":n"@, "No"@)]);
            }
            WaPayload::Buttons { to: String::from_str(to), body_text, buttons }
        },
        HitlKind::Choice { options } => {
            if options.len() == 0 {
                WaPayload::Text { to: String::from_str(to), body: truncate_chars(prompt, WA_BODY_TEXT_MAX) }
            } else if options.len() <= WA_REPLY_BUTTONS_MAX {
                let buttons = choice_rows(tcid, options, options.len(), WA_REPLY_BUTTON_TITLE_MAX);
                WaPayload::Buttons {
                    to: String::from_str(to),
                    body_text: truncate_chars(prompt, WA_BODY_TEXT_MAX),
                    buttons,
                }
            } else {
                let shown = if options.len() > WA_LIST_ROWS_MAX { WA_LIST_ROWS_MAX } else { options.len() };
                let body_text = if options.len() > WA_LIST_ROWS_MAX {
                    let extra = decimal_chars((options.len() - WA_LIST_ROWS_MAX) as u64);
                    let mut full = String::from_str(prompt);
                    full.append("\n\n(+");
                    let e = string_from_chars(&extra, 0, extra.len());
                    assert(e@ =~= decimal((strings_view(options@).len() - WA_LIST_ROWS_MAX) as nat));
                    full.append(e.as_str());
                    full.append(" more options, please pick from the list)");
                    truncate_chars(full.as_str(), WA_BODY_TEXT_MAX)
                } else {
                    truncate_chars(prompt, WA_BODY_TEXT_MAX)
                };
                let rows = choice_rows(tcid, options, shown, WA_LIST_ROW_TITLE_MAX);
                WaPayload::List {
                    to: String::from_str(to),
                    body_text,
                    section_title: String::from_str("Options"),
                    action_button: String::from_str("Choose"),
                    rows,
                }
            }
        },
        HitlKind::External => {
            if is_http_url(url) {
                WaPayload::CtaUrl {
                    to: String::from_str(to),
                    body_text: truncate_chars(prompt, WA_BODY_TEXT_MAX),
                    display_text: String::from_str("Open on web"),
                    url: String::from_str(url),
                }
            } else {
                let full = body_with_url(prompt, url);
                WaPayload::Text { to: String::from_str(to), body: truncate_chars(full.as_str(), WA_BODY_TEXT_MAX) }
            }
        },
    }
}

/// Whether a failed send is worth a retry: an internal error whose text is
/// `WA send {status}...` is retried when the status is 429 or 5xx; any
/// other internal error (transport, response parsing) is retried; other
/// errors are not.
pub open spec fn retryable(err: AppError) -> bool {
    match err {
        AppError::Internal(s) => {
            if has_prefix(s@, "WA send "@) {
                let rest = s@.subrange(8, s@.len() as int);
                let digits = rest.subrange(0, digit_run(rest, 0));
                if digits.len() > 0 && digits_value(digits) <= 65535 {
                    digits_value(digits) == 429 || (500 <= digits_value(digits) <= 599)
                } else {
                    true
                }
            } else {
                true
            }
        },
        _ => false,
    }
}

pub fn is_whatsapp_cloud_retryable_error(err: &AppError) -> (r: bool)
    ensures
        r == retryable(*err),
{
    let s = match err {
        AppError::Internal(s) => s,
        _ => return false,
    };
    let v = chars_of(s.as_str());
    if !starts_with_str(&v, "WA send ") {
        return true;
    }
    proof {
        reveal_strlit("WA send ");
    }
    let ghost rest = v@.subrange(8, v@.len() as int);
    let mut j: usize = 8;
    while j < v.len() && '0' <= v[j] && v[j] <= '9'
        invariant
            8 <= j <= v@.len(),
            rest == v@.subrange(8, v@.len() as int),
            digit_run(rest, 0) == (j - 8) + digit_run(rest, j - 8),
            forall|k: int| 8 <= k < j ==> '0' <= #[trigger] v@[k] <= '9',
        decreases v@.len() - j,
    {
        j = j + 1;
    }
    proof {
        assert(digit_run(rest, j - 8) == 0);
        assert(rest.subrange(0, digit_run(rest, 0)) =~= v@.subrange(8, j as int));
        assert(v@.subrange(8, j as int) =~= v@.subrange(8, v@.len() as int).subrange(0, j - 8));
    }
    if j == 8 {
        return true;
    }
    let code = capped_value(&v, 8, j);
    if code <= 65535 {
        code == 429 || (500 <= code && code <= 599)
    } else {
        true
    }
}

/// The value of the ASCII digits `v[lo..hi]`, or 65536 when it is larger.
fn capped_value(v: &Vec<char>, lo: usize, hi: usize) -> (r: u32)
    requires
        lo <= hi <= v@.len(),
        forall|k: int| lo <= k < hi ==> '0' <= #[trigger] v@[k] <= '9',
    ensures
        r == (if digits_value(v@.subrange(lo as int, hi as int)) <= 65535 {
            digits_value(v@.subrange(lo as int, hi as int))
        } else {
            65536
        }),
{
    let mut acc: u32 = 0;
    let mut i = lo;
    assert(v@.subrange(lo as int, lo as int) =~= Seq::<char>::empty());
    while i < hi
        invariant
            lo <= i <= hi <= v@.len(),
            forall|k: int| lo <= k < hi ==> '0' <= #[trigger] v@[k] <= '9',
            acc == (if digits_value(v@.subrange(lo as int, i as int)) <= 65535 {
                digits_value(v@.subrange(lo as int, i as int))
            } else {
                65536
            }),
        decreases hi - i,
    {
        let d = (v[i] as u32) - 48;
        assert(v@.subrange(lo as int, i + 1).drop_last() =~= v@.subrange(lo as int, i as int));
        assert(v@.subrange(lo as int, i + 1).last() == v@[i as int]);
        let next = acc * 10 + d;
        acc = if next > 65535 {
            65536
        } else {
            next
        };
        i = i + 1;
    }
    acc
}

/// The configuration of a WhatsApp Cloud API channel.
#[derive(Debug, Clone)]
pub struct WhatsAppCloudConfig {
    pub phone_number_id: String,
    pub business_account_id: String,
    pub access_token: String,
    pub verify_token: String,
    pub app_secret: String,
}

/// The factory of WhatsApp Cloud API channels.
pub struct WhatsAppCloudAdapterFactory;

impl WhatsAppCloudAdapterFactory {
    /// Five required fields, the three tokens secret; the webhook URL is
    /// shown for the Meta app settings, with setup instructions and links to
    /// Meta's documentation and policies.
    pub fn manifest(&self) -> (m: ChannelManifest)
        ensures
            m.id@ == "whatsapp_cloud"@,
            m.webhook_url_visible,
            m.setup_instructions is Some,
            m.external_links@.len() > 0,
            m.config_fields@.len() == 5,
            m.config_fields@[0].name@ == "phone_number_id"@ && !m.config_fields@[0].is_secret,
            m.config_fields@[1].name@ == "business_account_id"@ && !m.config_fields@[1].is_secret,
            m.config_fields@[2].name@ == "access_token"@ && m.config_fields@[2].is_secret,
            m.config_fields@[3].name@ == "verify_token"@ && m.config_fields@[3].is_secret,
            m.config_fields@[4].name@ == "app_secret"@ && m.config_fields@[4].is_secret,
            forall|k: int| 0 <= k < 5 ==> (#[trigger] m.config_fields@[k]).is_required,
    {
        let mut m = bare_manifest(
            "whatsapp_cloud",
            "WhatsApp Business (Cloud API)",
            "Chat with your agent from WhatsApp through a Meta WhatsApp Business number.",
        );
        m.webhook_url_visible = true;
        m.setup_instructions = Some(String::from_str(
            "Create a Meta app with the WhatsApp product, then set the webhook URL and the verify token below in its webhook settings.",
        ));
        m.config_fields.push(config_field("phone_number_id", true, false, None));
        m.config_fields.push(config_field("business_account_id", true, false, None));
        m.config_fields.push(config_field("access_token", true, true, None));
        m.config_fields.push(config_field("verify_token", true, true, None));
        m.config_fields.push(config_field("app_secret", true, true, None));
        m.external_links.push(link("Cloud API documentation", "https://developers.facebook.com/docs/whatsapp/cloud-api"));
        m.external_links.push(link("WhatsApp Business policy", "https://business.whatsapp.com/policy"));
        m
    }
}

/// subtle's `ConstantTimeEq::ct_eq` on byte slices, as a `bool`: whether
/// the two slices are equal (slices of different lengths are not). Its
/// running time not depending on the contents is not stated here.
#[verifier::external_body]
fn ct_eq_bytes(a: &[u8], b: &[u8]) -> (r: bool)
    ensures
        r == (a@ == b@),
{
    a.ct_eq(b).into()
}

/// How a webhook verification request is answered.
#[derive(Debug, Clone, PartialEq)]
pub enum VerifyAnswer {
    /// A parameter is missing.
    BadRequest,
    /// Not a subscription, or the verify token does not match.
    Forbidden,
    /// Echo the challenge back.
    Challenge(String),
}

/// The value of the last of the first `n` pairs with key `key`.
pub open spec fn last_param(pairs: Seq<(Seq<char>, Seq<char>)>, n: int, key: Seq<char>) -> Option<Seq<char>>
    decreases n,
{
    if n <= 0 || n > pairs.len() {
        None
    } else if pairs[n - 1].0 == key {
        Some(pairs[n - 1].1)
    } else {
        last_param(pairs, n - 1, key)
    }
}

/// The answer to a verification request whose query string decodes to
/// `params`: the challenge when `hub.mode` is `subscribe` and
/// `hub.verify_token` is the channel's token; 400 when one of the three
/// parameters is missing; 403 otherwise. A parameter given twice counts by
/// its last value.
pub open spec fn verification_answer(params: Seq<(Seq<char>, Seq<char>)>, verify_token: Seq<char>) -> Option<Option<Seq<char>>> {
    let n = params.len() as int;
    match (last_param(params, n, "hub.mode"@), last_param(params, n, "hub.verify_token"@), last_param(params, n, "hub.challenge"@)) {
        (Some(m), Some(t), Some(c)) => if m == "subscribe"@ && vstd::utf8::encode_utf8(t) == vstd::utf8::encode_utf8(verify_token) {
            Some(Some(c))
        } else {
            Some(None)
        },
        _ => None,
    }
}

/// Answers Meta's webhook verification request with query string `query`
/// (see [`verification_answer`]; `None` is 400, `Some(None)` 403); the
/// tokens are compared in constant time.
pub fn answer_verification(query: Option<&str>, verify_token: &str) -> (r: VerifyAnswer)
    ensures
        ({
            let params = match query {
                Some(q) => form_decoded(q.spec_bytes()),
                None => seq![],
            };
            match verification_answer(params, verify_token@) {
                None => r == VerifyAnswer::BadRequest,
                Some(None) => r == VerifyAnswer::Forbidden,
                Some(Some(c)) => r matches VerifyAnswer::Challenge(rc) && rc@ == c,
            }
        }),
{
    let pairs: Vec<(String, String)> = match query {
        Some(q) => form_pairs(q),
        None => Vec::new(),
    };
    let ghost params = pair_views(pairs@);
    let mut mode: Option<usize> = None;
    let mut token: Option<usize> = None;
    let mut challenge: Option<usize> = None;
    let mut i: usize = 0;
    while i < pairs.len()
        invariant
            i <= pairs@.len(),
            params == pair_views(pairs@),
            match mode {
                Some(k) => k < i && last_param(params, i as int, "hub.mode"@) == Some(params[k as int].1),
                None => last_param(params, i as int, "hub.mode"@) is None,
            },
            match token {
                Some(k) => k < i && last_param(params, i as int, "hub.verify_token"@) == Some(params[k as int].1),
                None => last_param(params, i as int, "hub.verify_token"@) is None,
            },
            match challenge {
                Some(k) => k < i && last_param(params, i as int, "hub.challenge"@) == Some(params[k as int].1),
                None => last_param(params, i as int, "hub.challenge"@) is None,
            },
        decreases pairs@.len() - i,
    {
        let k = chars_of(pairs[i].0.as_str());
        proof {
            assert(params[i as int] == (pairs@[i as int].0@, pairs@[i as int].1@));
            reveal_strlit("hub.mode");
            reveal_strlit("hub.verify_token");
            reveal_strlit("hub.challenge");
            assert("hub.mode"@.len() != "hub.verify_token"@.len());
            assert("hub.mode"@.len() != "hub.challenge"@.len());
            assert("hub.verify_token"@.len() != "hub.challenge"@.len());
        }
        if equals_str(&k, "hub.mode") {
            mode = Some(i);
        } else if equals_str(&k, "hub.verify_token") {
            token = Some(i);
        } else if equals_str(&k, "hub.challenge") {
            challenge = Some(i);
        }
        i = i + 1;
    }
    proof {
        assert(params.len() == pairs@.len());
    }
    match (mode, token, challenge) {
        (Some(m), Some(t), Some(c)) => {
            proof {
                assert(params[m as int] == (pairs@[m as int].0@, pairs@[m as int].1@));
                assert(params[t as int] == (pairs@[t as int].0@, pairs@[t as int].1@));
                assert(params[c as int] == (pairs@[c as int].0@, pairs@[c as int].1@));
            }
            let mv = chars_of(pairs[m].1.as_str());
            let same = ct_eq_bytes(pairs[t].1.as_str().as_bytes(), verify_token.as_bytes());
            if !equals_str(&mv, "subscribe") || !same {
                VerifyAnswer::Forbidden
            } else {
                VerifyAnswer::Challenge(pairs[c].1.clone())
            }
        },
        _ => VerifyAnswer::BadRequest,
    }
}

} // verus!
