//! Twilio SMS: error classification, webhook payloads, callback URLs and
//! external ids.

use vstd::prelude::*;
use vstd::string::StringSliceAdditionalSpecFns;
use vstd::utf8::encode_utf8;
use base64::Engine;
use hmac::{Hmac, Mac};
use sha1::Sha1;
use crate::delivery::CarrierStatus;
use crate::error::{AppError, ChannelError, ChannelErrorKind};
use crate::models::{ChannelManifest, ExternalMessage};
use crate::adapter::common::{after_prefix, bare_manifest, config_field, strip_id_prefix, ExternalIdError};
use crate::markdown::{markdown_events_of, plain_text, to_plain};
use crate::text::{
    chars_of, equals_str, join_with, key_le, key_sorts_le, lemma_key_le_antisymmetric,
    lemma_key_le_total, lemma_key_le_transitive, pair_views, trim_chars, trim_string,
};

verus! {

/// Twilio credentials and sending number of an SMS channel.
#[derive(Debug, Clone)]
pub struct SmsAdapter {
    pub account_sid: String,
    pub auth_token: String,
    pub from_number: String,
}

/// The Twilio REST API of one account.
#[derive(Debug, Clone)]
pub struct TwilioApi {
    pub account_sid: String,
    pub auth_token: String,
}

impl SmsAdapter {
    pub fn twilio(&self) -> (r: TwilioApi)
        ensures
            r.account_sid@ == self.account_sid@,
            r.auth_token@ == self.auth_token@,
    {
        TwilioApi { account_sid: self.account_sid.clone(), auth_token: self.auth_token.clone() }
    }
}

impl TwilioApi {
    /// `https://api.twilio.com/2010-04-01/Accounts/{sid}/{path}`.
    pub fn url(&self, path: &str) -> (r: String)
        ensures
            r@ == "https://api.twilio.com/2010-04-01/Accounts/"@ + self.account_sid@ + "/"@ + path@,
    {
        let mut r = String::from_str("https://api.twilio.com/2010-04-01/Accounts/");
        r.append(self.account_sid.as_str());
        r.append("/");
        r.append(path);
        r
    }
}

/// The factory of SMS channels.
pub struct SmsAdapterFactory;

impl SmsAdapterFactory {
    /// Account SID and auth token are required secrets, the sending number
    /// is required but not secret; all three default to the server's Twilio
    /// voice settings.
    pub fn manifest(&self) -> (m: ChannelManifest)
        ensures
            m.id@ == "sms"@,
            m.display_name@ == "Twilio SMS"@,
            m.config_fields@.len() == 3,
            m.config_fields@[0].name@ == "account_sid"@ && m.config_fields@[0].is_required
                && m.config_fields@[0].is_secret,
            m.config_fields@[0].default_from matches Some(c) && c.section@ == "voice"@ && c.field@
                == "twilio_account_sid"@,
            m.config_fields@[1].name@ == "auth_token"@ && m.config_fields@[1].is_required
                && m.config_fields@[1].is_secret,
            m.config_fields@[1].default_from matches Some(c) && c.section@ == "voice"@ && c.field@
                == "twilio_auth_token"@,
            m.config_fields@[2].name@ == "from_number"@ && m.config_fields@[2].is_required
                && !m.config_fields@[2].is_secret,
            m.config_fields@[2].default_from matches Some(c) && c.section@ == "voice"@ && c.field@
                == "twilio_from_number"@,
            forall|k: int| 0 <= k < 3 ==> (#[trigger] m.config_fields@[k]).default_resolved is None,
    {
        let mut m = bare_manifest(
            "sms",
            "Twilio SMS",
            "Send and receive SMS through a Twilio phone number.",
        );
        m.config_fields.push(config_field("account_sid", true, true, Some(("voice", "twilio_account_sid"))));
        m.config_fields.push(config_field("auth_token", true, true, Some(("voice", "twilio_auth_token"))));
        m.config_fields.push(config_field("from_number", true, false, Some(("voice", "twilio_from_number"))));
        m
    }
}

/// A Twilio API error, by its documented error code.
#[derive(Debug, Clone, Copy, PartialEq, Eq, Structural)]
pub enum TwilioError {
    Transport,
    HttpStatusOnly(u16),
    /// 20003
    AuthError,
    /// 20404
    NotFound,
    /// 20429
    RateLimit,
    /// 21211
    InvalidToNumber,
    /// 21212
    InvalidFromNumber,
    /// 21408: region not in the Geo Permissions allow-list.
    GeoPermissionDenied,
    /// 21601
    NumberNotSmsCapable,
    /// 21610: the recipient replied STOP.
    RecipientOptedOut,
    /// 21611
    MessageTooLong,
    /// 21612
    ChannelMismatch,
    /// 21617
    SegmentLimitExceeded,
    /// 21703
    MessagingServiceUnusable,
    /// 30003: the phone may come back online.
    HandsetUnreachable,
    /// 30004
    MessageBlocked,
    /// 30005
    UnknownDestination,
    /// 30006
    LandlineOrUnreachable,
    /// 30007
    CarrierFiltered,
    /// 30008: opaque carrier error.
    UnknownCarrierError,
    Unknown,
}

/// The error a Twilio error code stands for.
pub open spec fn twilio_error_of(code: u32) -> TwilioError {
    if code == 20003 {
        TwilioError::AuthError
    } else if code == 20404 {
        TwilioError::NotFound
    } else if code == 20429 {
        TwilioError::RateLimit
    } else if code == 21211 {
        TwilioError::InvalidToNumber
    } else if code == 21212 {
        TwilioError::InvalidFromNumber
    } else if code == 21408 {
        TwilioError::GeoPermissionDenied
    } else if code == 21601 {
        TwilioError::NumberNotSmsCapable
    } else if code == 21610 {
        TwilioError::RecipientOptedOut
    } else if code == 21611 {
        TwilioError::MessageTooLong
    } else if code == 21612 {
        TwilioError::ChannelMismatch
    } else if code == 21617 {
        TwilioError::SegmentLimitExceeded
    } else if code == 21703 {
        TwilioError::MessagingServiceUnusable
    } else if code == 30003 {
        TwilioError::HandsetUnreachable
    } else if code == 30004 {
        TwilioError::MessageBlocked
    } else if code == 30005 {
        TwilioError::UnknownDestination
    } else if code == 30006 {
        TwilioError::LandlineOrUnreachable
    } else if code == 30007 {
        TwilioError::CarrierFiltered
    } else if code == 30008 {
        TwilioError::UnknownCarrierError
    } else {
        TwilioError::Unknown
    }
}

/// The channel error kind of a Twilio error: retryable conditions are
/// transient; an error known only by its HTTP status goes by the status.
pub open spec fn twilio_kind(e: TwilioError) -> ChannelErrorKind {
    match e {
        TwilioError::Transport | TwilioError::Unknown | TwilioError::RateLimit
        | TwilioError::HandsetUnreachable | TwilioError::UnknownCarrierError => ChannelErrorKind::Transient,
        TwilioError::HttpStatusOnly(status) => {
            if status == 401 {
                ChannelErrorKind::Unauthorized
            } else if status == 403 {
                ChannelErrorKind::Forbidden
            } else if status == 404 {
                ChannelErrorKind::NotFound
            } else if status == 413 {
                ChannelErrorKind::PayloadTooLarge
            } else if status == 429 {
                ChannelErrorKind::Transient
            } else if 500 <= status <= 599 {
                ChannelErrorKind::Transient
            } else if status == 400 || status == 422 {
                ChannelErrorKind::PayloadInvalid
            } else {
                ChannelErrorKind::Transient
            }
        },
        TwilioError::AuthError => ChannelErrorKind::Unauthorized,
        TwilioError::GeoPermissionDenied | TwilioError::RecipientOptedOut
        | TwilioError::MessageBlocked | TwilioError::CarrierFiltered
        | TwilioError::MessagingServiceUnusable => ChannelErrorKind::Forbidden,
        TwilioError::NotFound | TwilioError::UnknownDestination
        | TwilioError::LandlineOrUnreachable | TwilioError::NumberNotSmsCapable => ChannelErrorKind::NotFound,
        TwilioError::MessageTooLong | TwilioError::SegmentLimitExceeded => ChannelErrorKind::PayloadTooLarge,
        TwilioError::InvalidToNumber | TwilioError::InvalidFromNumber
        | TwilioError::ChannelMismatch => ChannelErrorKind::PayloadInvalid,
    }
}

impl TwilioError {
    /// The error of a failed API call: by the error code of its JSON body
    /// when the body carries one (`code`, read by the caller), else by the
    /// HTTP status alone.
    pub fn from_http(status: u16, code: Option<u32>) -> (r: TwilioError)
        ensures
            r == match code {
                Some(c) => twilio_error_of(c),
                None => TwilioError::HttpStatusOnly(status),
            },
    {
        match code {
            Some(c) => TwilioError::from_code(c),
            None => TwilioError::HttpStatusOnly(status),
        }
    }

    pub fn from_code(code: u32) -> (r: TwilioError)
        ensures
            r == twilio_error_of(code),
    {
        match code {
            20003 => TwilioError::AuthError,
            20404 => TwilioError::NotFound,
            20429 => TwilioError::RateLimit,
            21211 => TwilioError::InvalidToNumber,
            21212 => TwilioError::InvalidFromNumber,
            21408 => TwilioError::GeoPermissionDenied,
            21601 => TwilioError::NumberNotSmsCapable,
            21610 => TwilioError::RecipientOptedOut,
            21611 => TwilioError::MessageTooLong,
            21612 => TwilioError::ChannelMismatch,
            21617 => TwilioError::SegmentLimitExceeded,
            21703 => TwilioError::MessagingServiceUnusable,
            30003 => TwilioError::HandsetUnreachable,
            30004 => TwilioError::MessageBlocked,
            30005 => TwilioError::UnknownDestination,
            30006 => TwilioError::LandlineOrUnreachable,
            30007 => TwilioError::CarrierFiltered,
            30008 => TwilioError::UnknownCarrierError,
            _ => TwilioError::Unknown,
        }
    }

    /// The channel error, with message `msg`, that this Twilio error is.
    pub fn to_channel_error(&self, msg: String) -> (r: ChannelError)
        ensures
            r.kind == twilio_kind(*self),
            r.message@ == msg@,
            r.retry_hint is None,
    {
        let kind = match self {
            TwilioError::Transport | TwilioError::Unknown | TwilioError::RateLimit
            | TwilioError::HandsetUnreachable | TwilioError::UnknownCarrierError => ChannelErrorKind::Transient,
            TwilioError::HttpStatusOnly(status) => {
                let s = *status;
                if s == 401 {
                    ChannelErrorKind::Unauthorized
                } else if s == 403 {
                    ChannelErrorKind::Forbidden
                } else if s == 404 {
                    ChannelErrorKind::NotFound
                } else if s == 413 {
                    ChannelErrorKind::PayloadTooLarge
                } else if s == 429 {
                    ChannelErrorKind::Transient
                } else if 500 <= s && s <= 599 {
                    ChannelErrorKind::Transient
                } else if s == 400 || s == 422 {
                    ChannelErrorKind::PayloadInvalid
                } else {
                    ChannelErrorKind::Transient
                }
            },
            TwilioError::AuthError => ChannelErrorKind::Unauthorized,
            TwilioError::GeoPermissionDenied | TwilioError::RecipientOptedOut
            | TwilioError::MessageBlocked | TwilioError::CarrierFiltered
            | TwilioError::MessagingServiceUnusable => ChannelErrorKind::Forbidden,
            TwilioError::NotFound | TwilioError::UnknownDestination
            | TwilioError::LandlineOrUnreachable | TwilioError::NumberNotSmsCapable => ChannelErrorKind::NotFound,
            TwilioError::MessageTooLong | TwilioError::SegmentLimitExceeded => ChannelErrorKind::PayloadTooLarge,
            TwilioError::InvalidToNumber | TwilioError::InvalidFromNumber
            | TwilioError::ChannelMismatch => ChannelErrorKind::PayloadInvalid,
        };
        if kind.is_terminal() {
            ChannelError::terminal(msg, kind)
        } else {
            ChannelError::transient(msg)
        }
    }
}

pub fn classify_twilio_error(err: &TwilioError, msg: String) -> (r: ChannelError)
    ensures
        r.kind == twilio_kind(*err),
        r.message@ == msg@,
        r.retry_hint is None,
{
    err.to_channel_error(msg)
}

/// The form fields of a Twilio webhook call that the adapter reads.
#[derive(Debug, Clone)]
pub struct TwilioWebhook {
    pub from: String,
    pub body: String,
    pub message_sid: String,
    pub num_media: String,
    pub message_status: String,
    pub error_code: String,
    pub error_message: String,
}

impl Default for TwilioWebhook {
    fn default() -> (r: TwilioWebhook)
        ensures
            r.from@.len() == 0 && r.body@.len() == 0 && r.message_sid@.len() == 0 && r.num_media@.len()
                == 0 && r.message_status@.len() == 0 && r.error_code@.len() == 0
                && r.error_message@.len() == 0,
    {
        TwilioWebhook {
            from: String::new(),
            body: String::new(),
            message_sid: String::new(),
            num_media: String::new(),
            message_status: String::new(),
            error_code: String::new(),
            error_message: String::new(),
        }
    }
}

/// The value of the last pair with key `key` among the first `n`.
pub open spec fn last_value(pairs: Seq<(Seq<char>, Seq<char>)>, key: Seq<char>, n: int) -> Option<Seq<char>>
    decreases n,
{
    if n <= 0 || n > pairs.len() {
        None
    } else if pairs[n - 1].0 == key {
        Some(pairs[n - 1].1)
    } else {
        last_value(pairs, key, n - 1)
    }
}

/// The value of the last pair with key `key`, or `default`.
pub open spec fn field_of(pairs: Seq<(Seq<char>, Seq<char>)>, key: Seq<char>, default: Seq<char>) -> Seq<char> {
    match last_value(pairs, key, pairs.len() as int) {
        Some(v) => v,
        None => default,
    }
}

impl TwilioWebhook {
    /// Reads the known fields from the decoded form pairs; a later pair
    /// overrides an earlier one, a missing field is empty, and `NumMedia`
    /// defaults to `"0"`.
    pub fn from_pairs(pairs: &[(String, String)]) -> (p: TwilioWebhook)
        ensures
            p.from@ == field_of(pair_views(pairs@), "From"@, seq![]),
            p.body@ == field_of(pair_views(pairs@), "Body"@, seq![]),
            p.message_sid@ == field_of(pair_views(pairs@), "MessageSid"@, seq![]),
            p.num_media@ == field_of(pair_views(pairs@), "NumMedia"@, "0"@),
            p.message_status@ == field_of(pair_views(pairs@), "MessageStatus"@, seq![]),
            p.error_code@ == field_of(pair_views(pairs@), "ErrorCode"@, seq![]),
            p.error_message@ == field_of(pair_views(pairs@), "ErrorMessage"@, seq![]),
    {
        let ghost pv = pair_views(pairs@);
        proof {
            reveal_strlit("From");
            reveal_strlit("Body");
            reveal_strlit("MessageSid");
            reveal_strlit("NumMedia");
            reveal_strlit("MessageStatus");
            reveal_strlit("ErrorCode");
            reveal_strlit("ErrorMessage");
        }
        let mut p = TwilioWebhook::default();
        p.num_media = String::from_str("0");
        let mut i: usize = 0;
        while i < pairs.len()
            invariant
                i <= pairs@.len(),
                pv == pair_views(pairs@),
                p.from@ == field_of(pv.subrange(0, i as int), "From"@, seq![]),
                p.body@ == field_of(pv.subrange(0, i as int), "Body"@, seq![]),
                p.message_sid@ == field_of(pv.subrange(0, i as int), "MessageSid"@, seq![]),
                p.num_media@ == field_of(pv.subrange(0, i as int), "NumMedia"@, "0"@),
                p.message_status@ == field_of(pv.subrange(0, i as int), "MessageStatus"@, seq![]),
                p.error_code@ == field_of(pv.subrange(0, i as int), "ErrorCode"@, seq![]),
                p.error_message@ == field_of(pv.subrange(0, i as int), "ErrorMessage"@, seq![]),
            decreases pairs@.len() - i,
        {
            let ghost pre = pv.subrange(0, i as int);
            let ghost next = pv.subrange(0, i + 1);
            proof {
                assert forall|key: Seq<char>| last_value(next, key, next.len() as int) == (if pv[i as int].0 == key {
                    Some(pv[i as int].1)
                } else {
                    last_value(pre, key, pre.len() as int)
                }) by {
                    lemma_last_value_prefix(next, pre, key, i as int);
                }
            }
            let k = chars_of(pairs[i].0.as_str());
            let v = pairs[i].1.clone();
            if equals_str(&k, "From") {
                p.from = v.clone();
            }
            if equals_str(&k, "Body") {
                p.body = v.clone();
            }
            if equals_str(&k, "MessageSid") {
                p.message_sid = v.clone();
            }
            if equals_str(&k, "NumMedia") {
                p.num_media = v.clone();
            }
            if equals_str(&k, "MessageStatus") {
                p.message_status = v.clone();
            }
            if equals_str(&k, "ErrorCode") {
                p.error_code = v.clone();
            }
            if equals_str(&k, "ErrorMessage") {
                p.error_message = v;
            }
            i = i + 1;
        }
        assert(pv.subrange(0, pairs@.len() as int) =~= pv);
        p
    }

    /// A status callback rather than an inbound message: Twilio sets a
    /// status on inbound messages too, so it is told apart by carrying no
    /// body and no media.
    pub fn is_status_callback(&self) -> (r: bool)
        ensures
            r == (self.message_status@.len() > 0 && self.body@.len() == 0 && self.num_media@ == "0"@),
    {
        let n = chars_of(self.num_media.as_str());
        !self.message_status.as_str().is_empty() && self.body.as_str().is_empty() && equals_str(&n, "0")
    }

    /// `"{message} ({status} {code})"`, or `"Twilio {status} ({code})"` when
    /// Twilio sent no message.
    pub fn format_carrier_error(&self) -> (r: String)
        ensures
            r@ == if self.error_message@.len() == 0 {
                "Twilio "@ + self.message_status@ + " ("@ + self.error_code@ + ")"@
            } else {
                self.error_message@ + " ("@ + self.message_status@ + " "@ + self.error_code@ + ")"@
            },
    {
        if self.error_message.as_str().is_empty() {
            let mut r = String::from_str("Twilio ");
            r.append(self.message_status.as_str());
            r.append(" (");
            r.append(self.error_code.as_str());
            r.append(")");
            r
        } else {
            let mut r = self.error_message.clone();
            r.append(" (");
            r.append(self.message_status.as_str());
            r.append(" ");
            r.append(self.error_code.as_str());
            r.append(")");
            r
        }
    }

    /// What a status callback reports to the delivery record: `delivered`
    /// confirms it, `failed` and `undelivered` fail it with the carrier's
    /// error, and any other status reports nothing.
    pub fn carrier_status(&self) -> (r: Option<CarrierStatus>)
        ensures
            self.message_status@ == "delivered"@ ==> r matches Some(CarrierStatus::Delivered),
            (self.message_status@ == "failed"@ || self.message_status@ == "undelivered"@) ==> (r matches Some(CarrierStatus::Failed { error }) && error@ == (if self.error_message@.len() == 0 {
                "Twilio "@ + self.message_status@ + " ("@ + self.error_code@ + ")"@
            } else {
                self.error_message@ + " ("@ + self.message_status@ + " "@ + self.error_code@ + ")"@
            })),
            !(self.message_status@ == "delivered"@ || self.message_status@ == "failed"@ || self.message_status@ == "undelivered"@) ==> r is None,
    {
        let s = chars_of(self.message_status.as_str());
        proof {
            reveal_strlit("delivered");
            reveal_strlit("failed");
            reveal_strlit("undelivered");
            assert("delivered"@.len() == 9);
            assert("failed"@.len() == 6);
            assert("undelivered"@.len() == 11);
        }
        if equals_str(&s, "delivered") {
            Some(CarrierStatus::Delivered)
        } else if equals_str(&s, "failed") || equals_str(&s, "undelivered") {
            Some(CarrierStatus::Failed { error: self.format_carrier_error() })
        } else {
            None
        }
    }

    /// The inbound message this webhook carries: from the sender's number,
    /// in the chat `sms:{number}`.
    pub fn inbound_message(&self) -> (m: ExternalMessage)
        ensures
            m.external_chat_id@ == "sms:"@ + self.from@,
            m.sender_address@ == self.from@,
            m.sender_external_id matches Some(x) && x@ == self.from@,
            m.sender_display_name matches Some(x) && x@ == self.from@,
            m.content@ == self.body@,
            m.attachments@.len() == 0,
    {
        let mut chat = String::from_str("sms:");
        chat.append(self.from.as_str());
        ExternalMessage {
            external_chat_id: chat,
            sender_address: self.from.clone(),
            sender_external_id: Some(self.from.clone()),
            sender_display_name: Some(self.from.clone()),
            content: self.body.clone(),
            attachments: Vec::new(),
        }
    }
}

proof fn lemma_last_value_prefix(next: Seq<(Seq<char>, Seq<char>)>, pre: Seq<(Seq<char>, Seq<char>)>, key: Seq<char>, i: int)
    requires
        0 <= i,
        next.len() == i + 1,
        pre.len() == i,
        forall|j: int| 0 <= j < i ==> next[j] == pre[j],
    ensures
        last_value(next, key, next.len() as int) == (if next[i].0 == key {
            Some(next[i].1)
        } else {
            last_value(pre, key, pre.len() as int)
        }),
{
    if next[i].0 != key {
        lemma_last_value_same(next, pre, key, i);
    }
}

proof fn lemma_last_value_same(a: Seq<(Seq<char>, Seq<char>)>, b: Seq<(Seq<char>, Seq<char>)>, key: Seq<char>, n: int)
    requires
        0 <= n <= a.len(),
        n <= b.len(),
        forall|j: int| 0 <= j < n ==> a[j] == b[j],
    ensures
        last_value(a, key, n) == last_value(b, key, n),
    decreases n,
{
    if n > 0 {
        lemma_last_value_same(a, b, key, n - 1);
    }
}

/// The characters of an optional query string.
pub open spec fn query_view(query: Option<&str>) -> Option<Seq<char>> {
    match query {
        Some(q) => Some(q@),
        None => None,
    }
}

/// The URL Twilio signed: the webhook URL with the query it was called
/// with, if any.
pub open spec fn canonical_url(webhook_url: Seq<char>, query: Option<Seq<char>>) -> Seq<char> {
    match query {
        Some(q) => if q.len() > 0 {
            webhook_url + "?"@ + q
        } else {
            webhook_url
        },
        None => webhook_url,
    }
}

/// `{webhook_url}?{query}` when a non-empty query came with the request.
pub fn canonical_webhook_url(webhook_url: &str, query: Option<&str>) -> (r: String)
    ensures
        r@ == canonical_url(webhook_url@, query_view(query)),
{
    match query {
        Some(q) => {
            if !q.is_empty() {
                let mut r = String::from_str(webhook_url);
                r.append("?");
                r.append(q);
                r
            } else {
                String::from_str(webhook_url)
            }
        },
        None => String::from_str(webhook_url),
    }
}

/// The number of an SMS chat id `sms:{number}`.
pub fn parse_external_id(s: &str) -> (r: Result<String, ExternalIdError>)
    ensures
        match r {
            Ok(n) => after_prefix(s@, "sms:"@) == Some(n@),
            Err(ExternalIdError::Unrecognised(t)) => after_prefix(s@, "sms:"@) is None && t@ == s@,
            Err(_) => false,
        },
{
    strip_id_prefix(s, "sms:")
}

/// The name/value pairs, percent-decoded, of an
/// `application/x-www-form-urlencoded` byte string (url's
/// `form_urlencoded::parse`).
pub uninterp spec fn form_decoded(input: Seq<u8>) -> Seq<(Seq<char>, Seq<char>)>;

/// An upper-case hex digit of `n`, below 16.
pub open spec fn upper_hex_digit(n: int) -> char {
    if n < 10 {
        (48 + n) as char
    } else {
        (55 + n) as char
    }
}

/// The form serialization of one byte: `*`, `-`, `.`, `_`, ASCII letters
/// and digits stay, a space becomes `+`, any other byte `%XX` in upper-case
/// hex.
pub open spec fn form_byte(b: u8) -> Seq<char> {
    if b == 42 || b == 45 || b == 46 || b == 95 || (48 <= b <= 57) || (65 <= b <= 90) || (97 <= b <= 122) {
        seq![b as char]
    } else if b == 32 {
        seq!['+']
    } else {
        seq!['%', upper_hex_digit(b as int / 16), upper_hex_digit(b as int % 16)]
    }
}

/// The form serialization of a byte string, byte by byte.
pub open spec fn form_bytes(bs: Seq<u8>) -> Seq<char>
    decreases bs.len(),
{
    if bs.len() == 0 {
        Seq::empty()
    } else {
        form_bytes(bs.drop_last()) + form_byte(bs.last())
    }
}

/// The `application/x-www-form-urlencoded` encoding of one name/value pair:
/// the UTF-8 bytes of each serialized, joined by `=`.
pub open spec fn form_encoded_pair(name: Seq<char>, value: Seq<char>) -> Seq<char> {
    form_bytes(encode_utf8(name)) + seq!['='] + form_bytes(encode_utf8(value))
}

/// url's `form_urlencoded::parse`: the decoded pairs of `input`, in order.
#[verifier::external_body]
pub(crate) fn form_pairs(input: &str) -> (r: Vec<(String, String)>)
    ensures
        pair_views(r@) == form_decoded(input.spec_bytes()),
{
    url::form_urlencoded::parse(input.as_bytes()).into_owned().collect()
}

/// url's `form_urlencoded::parse` on raw bytes: the decoded pairs of a
/// request body, in order.
#[verifier::external_body]
fn form_pairs_of_bytes(body: &[u8]) -> (r: Vec<(String, String)>)
    ensures
        pair_views(r@) == form_decoded(body@),
{
    url::form_urlencoded::parse(body).into_owned().collect()
}

/// url's `form_urlencoded::Serializer`: a new serializer over an empty
/// string writes no separator before its first pair, then `append_pair`
/// writes the name's bytes through `byte_serialize`, `=`, and the value's.
#[verifier::external_body]
fn encode_pair(name: &str, value: &str) -> (r: String)
    ensures
        r@ == form_encoded_pair(name@, value@),
{
    url::form_urlencoded::Serializer::new(String::new()).append_pair(name, value).finish()
}

/// The value of the first pair, from index `i` on, with key `key`.
pub open spec fn first_value(pairs: Seq<(Seq<char>, Seq<char>)>, key: Seq<char>, i: int) -> Option<Seq<char>>
    decreases pairs.len() - i,
{
    if i < 0 || i >= pairs.len() {
        None
    } else if pairs[i].0 == key {
        Some(pairs[i].1)
    } else {
        first_value(pairs, key, i + 1)
    }
}

/// The value of the first `msg_id` pair.
pub fn find_msg_id(pairs: &[(String, String)]) -> (r: Option<String>)
    ensures
        match r {
            Some(v) => first_value(pair_views(pairs@), "msg_id"@, 0) == Some(v@),
            None => first_value(pair_views(pairs@), "msg_id"@, 0) is None,
        },
{
    let ghost pv = pair_views(pairs@);
    let mut i: usize = 0;
    while i < pairs.len()
        invariant
            i <= pairs@.len(),
            pv == pair_views(pairs@),
            first_value(pv, "msg_id"@, i as int) == first_value(pv, "msg_id"@, 0),
        decreases pairs@.len() - i,
    {
        let k = chars_of(pairs[i].0.as_str());
        if equals_str(&k, "msg_id") {
            return Some(pairs[i].1.clone());
        }
        i = i + 1;
    }
    None
}

/// Our message id, which the status callback URL carries in its query.
pub fn msg_id_from_query(query: Option<&str>) -> (r: Option<String>)
    ensures
        match query {
            None => r is None,
            Some(q) => match r {
                Some(v) => first_value(form_decoded(q.spec_bytes()), "msg_id"@, 0) == Some(v@),
                None => first_value(form_decoded(q.spec_bytes()), "msg_id"@, 0) is None,
            },
        },
{
    match query {
        None => None,
        Some(q) => {
            let pairs = form_pairs(q);
            find_msg_id(pairs.as_slice())
        },
    }
}

/// The status callback URL for our message `msg_id`: Twilio echoes the
/// query back, so that the carrier status needs no lookup.
pub fn status_callback_url(webhook_url: &str, msg_id: &str) -> (r: String)
    ensures
        r@ == webhook_url@ + "?"@ + form_encoded_pair("msg_id"@, msg_id@),
{
    let encoded = encode_pair("msg_id", msg_id);
    let mut r = String::from_str(webhook_url);
    r.append("?");
    r.append(encoded.as_str());
    r
}


/// One part of an SMS body: markdown `text` as plain text, trimmed.
pub open spec fn sms_part(text: Seq<char>) -> Seq<char> {
    trim_chars(plain_text(markdown_events_of(text)))
}

/// The non-blank parts of the first `n` turn texts.
pub open spec fn sms_parts(texts: Seq<Option<String>>, n: int) -> Seq<Seq<char>>
    decreases n,
{
    if n <= 0 || n > texts.len() {
        seq![]
    } else {
        let prev = sms_parts(texts, n - 1);
        match texts[n - 1] {
            Some(t) => if sms_part(t@).len() > 0 {
                prev.push(sms_part(t@))
            } else {
                prev
            },
            None => prev,
        }
    }
}

/// The SMS body of a reply: the non-blank plain-text turn texts of its tool
/// calls, then its final text, separated by blank lines.
pub open spec fn sms_body(texts: Seq<Option<String>>, trailing: Seq<char>) -> Seq<char> {
    let parts = sms_parts(texts, texts.len() as int);
    let all = if sms_part(trailing).len() > 0 {
        parts.push(sms_part(trailing))
    } else {
        parts
    };
    join_with(all, seq!['\n', '\n'])
}

/// Appends `part` to a body of `count` parts, a blank line apart.
fn append_part(body: &mut String, count: usize, part: &str)
    ensures
        final(body)@ == if count == 0 {
            old(body)@ + part@
        } else {
            old(body)@ + seq!['\n', '\n'] + part@
        },
{
    if count > 0 {
        body.append("\n\n");
        proof {
            reveal_strlit("\n\n");
            assert("\n\n"@ =~= seq!['\n', '\n']);
        }
    }
    body.append(part);
}

proof fn lemma_join_push(parts: Seq<Seq<char>>, p: Seq<char>)
    ensures
        join_with(parts.push(p), seq!['\n', '\n']) == if parts.len() == 0 {
            p
        } else {
            join_with(parts, seq!['\n', '\n']) + seq!['\n', '\n'] + p
        },
{
    assert(parts.push(p).drop_last() =~= parts);
}

/// Composes the SMS body of a reply from the turn texts of its tool calls
/// and its final text, see [`sms_body`].
pub fn compose_sms_body(turn_texts: &[Option<String>], trailing: &str) -> (r: String)
    ensures
        r@ == sms_body(turn_texts@, trailing@),
{
    let mut body = String::new();
    let mut count: usize = 0;
    let mut i: usize = 0;
    while i < turn_texts.len()
        invariant
            i <= turn_texts@.len(),
            count <= i,
            count == sms_parts(turn_texts@, i as int).len(),
            body@ == join_with(sms_parts(turn_texts@, i as int), seq!['\n', '\n']),
        decreases turn_texts@.len() - i,
    {
        if let Some(t) = &turn_texts[i] {
            let plain = to_plain(t.as_str());
            let part = trim_string(plain.as_str());
            if chars_of(part.as_str()).len() > 0 {
                proof {
                    lemma_join_push(sms_parts(turn_texts@, i as int), part@);
                }
                append_part(&mut body, count, part.as_str());
                count = count + 1;
            }
        }
        i = i + 1;
    }
    let plain = to_plain(trailing);
    let part = trim_string(plain.as_str());
    if chars_of(part.as_str()).len() > 0 {
        proof {
            lemma_join_push(sms_parts(turn_texts@, i as int), part@);
        }
        append_part(&mut body, count, part.as_str());
    }
    body
}


/// The HMAC-SHA1 tag of `msg` under `key`.
pub uninterp spec fn hmac_sha1_tag(key: Seq<u8>, msg: Seq<u8>) -> Seq<u8>;

/// The bytes that `s` encodes in standard base64 with padding, if it is
/// valid such base64 (base64's `STANDARD` engine).
pub uninterp spec fn base64_decoded(s: Seq<char>) -> Option<Seq<u8>>;

/// hmac's `Hmac::<Sha1>::new_from_slice`, `update` and `finalize`: the
/// HMAC-SHA1 tag of `msg` under `key`. `new_from_slice` accepts keys of any
/// length (a longer one is hashed first), so the tag is always there.
#[verifier::external_body]
fn hmac_sha1(key: &[u8], msg: &[u8]) -> (r: Option<Vec<u8>>)
    ensures
        match r {
            Some(t) => t@ == hmac_sha1_tag(key@, msg@),
            None => false,
        },
{
    match Hmac::<Sha1>::new_from_slice(key) {
        Ok(mut mac) => {
            mac.update(msg);
            Some(mac.finalize().into_bytes().to_vec())
        },
        Err(_) => None,
    }
}

/// base64's `STANDARD.decode`: the bytes of a padded standard base64
/// string, `None` when it is not one.
#[verifier::external_body]
fn base64_decode(s: &str) -> (r: Option<Vec<u8>>)
    ensures
        match r {
            Some(b) => base64_decoded(s@) == Some(b@),
            None => base64_decoded(s@) is None,
        },
{
    base64::engine::general_purpose::STANDARD.decode(s).ok()
}

/// Sorted `s` with `x` put after every pair whose key sorts with or before
/// its own.
pub open spec fn insert_sorted(s: Seq<(Seq<char>, Seq<char>)>, x: (Seq<char>, Seq<char>)) -> Seq<(Seq<char>, Seq<char>)>
    decreases s.len(),
{
    if s.len() == 0 {
        seq![x]
    } else if key_le(s.last().0, x.0) {
        s.push(x)
    } else {
        insert_sorted(s.drop_last(), x).push(s.last())
    }
}

/// The first `n` pairs sorted by key, pairs of equal keys in their order
/// (a stable sort, as std's `sort_by`).
pub open spec fn sorted_by_key(pairs: Seq<(Seq<char>, Seq<char>)>, n: int) -> Seq<(Seq<char>, Seq<char>)>
    decreases n,
{
    if n <= 0 || n > pairs.len() {
        seq![]
    } else {
        insert_sorted(sorted_by_key(pairs, n - 1), pairs[n - 1])
    }
}

/// The first `n` pairs, each key followed by its value, concatenated.
pub open spec fn concat_pairs(pairs: Seq<(Seq<char>, Seq<char>)>, n: int) -> Seq<char>
    decreases n,
{
    if n <= 0 || n > pairs.len() {
        seq![]
    } else {
        concat_pairs(pairs, n - 1) + pairs[n - 1].0 + pairs[n - 1].1
    }
}

/// What Twilio signs: the webhook URL, then every form parameter's name and
/// value, the parameters sorted by name.
pub open spec fn twilio_canonical(url: Seq<char>, params: Seq<(Seq<char>, Seq<char>)>) -> Seq<char> {
    let sorted = sorted_by_key(params, params.len() as int);
    url + concat_pairs(sorted, sorted.len() as int)
}

/// Whether `provided` (`X-Twilio-Signature`) is the base64 of the
/// HMAC-SHA1, under the auth token, of the request's canonical form.
pub open spec fn twilio_signature_valid(token: Seq<u8>, url: Seq<char>, params: Seq<(Seq<char>, Seq<char>)>, provided: Seq<char>) -> bool {
    match base64_decoded(provided) {
        None => false,
        Some(p) => p == hmac_sha1_tag(token, vstd::utf8::encode_utf8(twilio_canonical(url, params))),
    }
}

/// Inserting `x` at `j` is [`insert_sorted`] when every pair from `j` on
/// sorts after `x` and the one before sorts with or before it.
proof fn lemma_insert_at(s: Seq<(Seq<char>, Seq<char>)>, x: (Seq<char>, Seq<char>), j: int)
    requires
        0 <= j <= s.len(),
        forall|k: int| j <= k < s.len() ==> !key_le(#[trigger] s[k].0, x.0),
        j == 0 || key_le(s[j - 1].0, x.0),
    ensures
        insert_sorted(s, x) == s.subrange(0, j).push(x) + s.subrange(j, s.len() as int),
    decreases s.len(),
{
    if s.len() == j {
        assert(s.subrange(0, j) =~= s);
        assert(s.subrange(j, s.len() as int) =~= Seq::<(Seq<char>, Seq<char>)>::empty());
        if s.len() == 0 {
            assert(s.subrange(0, j).push(x) + s.subrange(j, s.len() as int) =~= seq![x]);
        } else {
            assert(s.subrange(0, j).push(x) + s.subrange(j, s.len() as int) =~= s.push(x));
        }
    } else {
        let d = s.drop_last();
        assert forall|k: int| j <= k < d.len() implies !key_le(#[trigger] d[k].0, x.0) by {
            assert(d[k] == s[k]);
        }
        lemma_insert_at(d, x, j);
        assert(!key_le(s.last().0, x.0));
        assert(d.subrange(0, j) =~= s.subrange(0, j));
        assert((d.subrange(0, j).push(x) + d.subrange(j, d.len() as int)).push(s.last()) =~= s.subrange(0, j).push(x) + s.subrange(j, s.len() as int));
    }
}

/// The form parameters sorted by name, see [`sorted_by_key`].
fn sort_params(params: &[(String, String)]) -> (r: Vec<(String, String)>)
    ensures
        pair_views(r@) == sorted_by_key(pair_views(params@), params@.len() as int),
{
    let ghost pv = pair_views(params@);
    let mut sorted: Vec<(String, String)> = Vec::new();
    let mut i: usize = 0;
    while i < params.len()
        invariant
            i <= params@.len(),
            pv == pair_views(params@),
            pair_views(sorted@) == sorted_by_key(pv, i as int),
        decreases params@.len() - i,
    {
        let x = (params[i].0.clone(), params[i].1.clone());
        let ghost xv = (x.0@, x.1@);
        assert(xv == pv[i as int]);
        let mut j: usize = sorted.len();
        while j > 0 && !key_sorts_le(sorted[j - 1].0.as_str(), x.0.as_str())
            invariant
                j <= sorted@.len(),
                forall|k: int| j <= k < sorted@.len() ==> !key_le(#[trigger] sorted@[k].0@, x.0@),
            decreases j,
        {
            j = j - 1;
        }
        let ghost before = pair_views(sorted@);
        proof {
            assert forall|k: int| j <= k < before.len() implies !key_le(#[trigger] before[k].0, xv.0) by {
                assert(before[k].0 == sorted@[k].0@);
            }
            if j > 0 {
                assert(before[j - 1].0 == sorted@[j - 1].0@);
            }
            lemma_insert_at(before, xv, j as int);
        }
        sorted.insert(j, x);
        assert(pair_views(sorted@) =~= before.subrange(0, j as int).push(xv) + before.subrange(j as int, before.len() as int));
        i = i + 1;
    }
    sorted
}

/// Inserting two pairs with different keys gives the same sequence in
/// either order.
proof fn lemma_insert_commutes(s: Seq<(Seq<char>, Seq<char>)>, x: (Seq<char>, Seq<char>), y: (Seq<char>, Seq<char>))
    requires
        x.0 != y.0,
    ensures
        insert_sorted(insert_sorted(s, x), y) == insert_sorted(insert_sorted(s, y), x),
    decreases s.len(),
{
    lemma_key_le_total(x.0, y.0);
    if key_le(x.0, y.0) && key_le(y.0, x.0) {
        lemma_key_le_antisymmetric(x.0, y.0);
    }
    if s.len() == 0 {
        let e = Seq::<(Seq<char>, Seq<char>)>::empty();
        assert(seq![x].drop_last() =~= e);
        assert(seq![y].drop_last() =~= e);
        assert(insert_sorted(e, x) == seq![x]);
        assert(insert_sorted(e, y) == seq![y]);
        assert(seq![x].push(y) =~= seq![x, y]);
        assert(seq![y].push(x) =~= seq![y, x]);
        assert(insert_sorted(seq![x], y) == (if key_le(x.0, y.0) { seq![x, y] } else { seq![y, x] }));
        assert(insert_sorted(seq![y], x) == (if key_le(y.0, x.0) { seq![y, x] } else { seq![x, y] }));
    } else {
        let l = s.last();
        let s1 = s.drop_last();
        lemma_key_le_total(l.0, x.0);
        lemma_key_le_total(l.0, y.0);
        if key_le(y.0, l.0) && key_le(l.0, x.0) {
            lemma_key_le_transitive(y.0, l.0, x.0);
        }
        if key_le(x.0, l.0) && key_le(l.0, y.0) {
            lemma_key_le_transitive(x.0, l.0, y.0);
        }
        assert(s.push(x).drop_last() =~= s);
        assert(s.push(y).drop_last() =~= s);
        assert(insert_sorted(s1, x).push(l).drop_last() =~= insert_sorted(s1, x));
        assert(insert_sorted(s1, y).push(l).drop_last() =~= insert_sorted(s1, y));
        if !key_le(l.0, x.0) && !key_le(l.0, y.0) {
            lemma_insert_commutes(s1, x, y);
        }
    }
}

/// Sorting agrees on every prefix but the one that ends between two
/// swapped neighbours with different keys.
proof fn lemma_sorted_swap(p: Seq<(Seq<char>, Seq<char>)>, q: Seq<(Seq<char>, Seq<char>)>, i: int, n: int)
    requires
        0 <= i,
        i + 1 < p.len(),
        p[i].0 != p[i + 1].0,
        q == p.update(i, p[i + 1]).update(i + 1, p[i]),
        0 <= n <= p.len(),
        n != i + 1,
    ensures
        sorted_by_key(p, n) == sorted_by_key(q, n),
    decreases n,
{
    if n == i + 2 {
        lemma_sorted_swap(p, q, i, i);
        let base = sorted_by_key(p, i);
        assert(sorted_by_key(p, i + 1) == insert_sorted(base, p[i]));
        assert(sorted_by_key(q, i + 1) == insert_sorted(base, p[i + 1]));
        lemma_insert_commutes(base, p[i], p[i + 1]);
    } else if n > 0 {
        lemma_sorted_swap(p, q, i, n - 1);
    }
}

/// The signed form of a Twilio webhook call does not depend on the order in
/// which two parameters with different names arrive, so neither does
/// whether its signature checks (any order is reached by such swaps).
pub proof fn law_twilio_signature_ignores_parameter_order(
    token: Seq<u8>,
    url: Seq<char>,
    params: Seq<(Seq<char>, Seq<char>)>,
    provided: Seq<char>,
    i: int,
)
    requires
        0 <= i,
        i + 1 < params.len(),
        params[i].0 != params[i + 1].0,
    ensures
        ({
            let swapped = params.update(i, params[i + 1]).update(i + 1, params[i]);
            &&& twilio_canonical(url, swapped) == twilio_canonical(url, params)
            &&& twilio_signature_valid(token, url, swapped, provided) == twilio_signature_valid(token, url, params, provided)
        }),
{
    let swapped = params.update(i, params[i + 1]).update(i + 1, params[i]);
    lemma_sorted_swap(params, swapped, i, params.len() as int);
}

/// Verifies a Twilio webhook call: `provided_b64` must be the signature of
/// `url` and the form `params` under `auth_token` (see
/// [`twilio_signature_valid`]), compared in constant time.
pub fn verify_twilio_signature(auth_token: &str, url: &str, params: &[(String, String)], provided_b64: &str) -> (r: bool)
    ensures
        r == twilio_signature_valid(auth_token.spec_bytes(), url@, pair_views(params@), provided_b64@),
{
    let sorted = sort_params(params);
    let ghost sv = pair_views(sorted@);
    let mut canonical = String::from_str(url);
    let mut i: usize = 0;
    while i < sorted.len()
        invariant
            i <= sorted@.len(),
            sv == pair_views(sorted@),
            canonical@ == url@ + concat_pairs(sv, i as int),
        decreases sorted@.len() - i,
    {
        canonical.append(sorted[i].0.as_str());
        canonical.append(sorted[i].1.as_str());
        i = i + 1;
    }
    let expected = match hmac_sha1(auth_token.as_bytes(), canonical.as_str().as_bytes()) {
        Some(t) => t,
        None => return false,
    };
    let provided = match base64_decode(provided_b64) {
        Some(b) => b,
        None => return false,
    };
    if provided.len() != expected.len() {
        return false;
    }
    let mut diff: u8 = 0;
    let mut k: usize = 0;
    while k < expected.len()
        invariant
            provided@.len() == expected@.len(),
            k <= expected@.len(),
            (diff == 0) == (forall|j: int| 0 <= j < k ==> provided@[j] == expected@[j]),
        decreases expected@.len() - k,
    {
        let a = expected[k];
        let b = provided[k];
        let d = diff | (a ^ b);
        assert((d == 0) == (diff == 0 && a == b)) by (bit_vector)
            requires
                d == diff | (a ^ b),
        ;
        diff = d;
        k = k + 1;
    }
    if diff == 0 {
        assert(provided@ =~= expected@);
    }
    diff == 0
}

/// The webhook fields read from the decoded form pairs `pairs`, as
/// [`TwilioWebhook::from_pairs`] reads them.
pub open spec fn webhook_of(w: TwilioWebhook, pairs: Seq<(Seq<char>, Seq<char>)>) -> bool {
    &&& w.from@ == field_of(pairs, "From"@, seq![])
    &&& w.body@ == field_of(pairs, "Body"@, seq![])
    &&& w.message_sid@ == field_of(pairs, "MessageSid"@, seq![])
    &&& w.num_media@ == field_of(pairs, "NumMedia"@, "0"@)
    &&& w.message_status@ == field_of(pairs, "MessageStatus"@, seq![])
    &&& w.error_code@ == field_of(pairs, "ErrorCode"@, seq![])
    &&& w.error_message@ == field_of(pairs, "ErrorMessage"@, seq![])
}

/// Reads a webhook call from its raw form body: `None` when `signature`
/// (`X-Twilio-Signature`) is not Twilio's signature of the URL called (with
/// its query) and the decoded form pairs, else the webhook those pairs
/// describe.
pub fn authenticated_webhook(
    auth_token: &str,
    webhook_url: &str,
    query: Option<&str>,
    signature: &str,
    body: &[u8],
) -> (r: Option<TwilioWebhook>)
    ensures
        r is Some <==> twilio_signature_valid(
            auth_token.spec_bytes(),
            canonical_url(webhook_url@, query_view(query)),
            form_decoded(body@),
            signature@,
        ),
        r matches Some(w) ==> webhook_of(w, form_decoded(body@)),
{
    let pairs = form_pairs_of_bytes(body);
    let url = canonical_webhook_url(webhook_url, query);
    if !verify_twilio_signature(auth_token, url.as_str(), pairs.as_slice(), signature) {
        return None;
    }
    Some(TwilioWebhook::from_pairs(pairs.as_slice()))
}

/// What an authenticated webhook call asks for.
#[derive(Debug, Clone, PartialEq)]
pub enum WebhookAction {
    /// A delivery report for an outbound message.
    CarrierStatus,
    /// Nothing to pass on: no text and no media.
    Ignore,
    /// An inbound message to pass on.
    Inbound,
}

/// How a webhook call is handled once authenticated: a status callback
/// updates the delivery; a call with no text and no media is acknowledged
/// and dropped; an inbound message needs a sender.
pub fn webhook_action(w: &TwilioWebhook) -> (r: Result<WebhookAction, AppError>)
    ensures
        match r {
            Ok(WebhookAction::CarrierStatus) => w.message_status@.len() > 0 && w.body@.len() == 0 && w.num_media@ == "0"@,
            Ok(WebhookAction::Ignore) => !(w.message_status@.len() > 0 && w.body@.len() == 0 && w.num_media@ == "0"@)
                && w.body@.len() == 0 && w.num_media@ == "0"@,
            Ok(WebhookAction::Inbound) => !(w.body@.len() == 0 && w.num_media@ == "0"@) && w.from@.len() > 0,
            Err(AppError::Validation(m)) => !(w.body@.len() == 0 && w.num_media@ == "0"@) && w.from@.len() == 0
                && m@ == "Twilio webhook missing From"@,
            Err(_) => false,
        },
{
    if w.is_status_callback() {
        return Ok(WebhookAction::CarrierStatus);
    }
    let n = chars_of(w.num_media.as_str());
    if w.body.as_str().is_empty() && equals_str(&n, "0") {
        return Ok(WebhookAction::Ignore);
    }
    if w.from.as_str().is_empty() {
        return Err(AppError::Validation(String::from_str("Twilio webhook missing From")));
    }
    Ok(WebhookAction::Inbound)
}

} // verus!
