//! Discord: message chunking, button components for pending requests,
//! external chat ids and which messages the bot ignores.

use vstd::prelude::*;
use vstd::utf8::*;
use vstd::string::{StrSliceExecFns, StringSliceAdditionalSpecFns};
use crate::adapter::common::{bare_manifest, config_field, lemma_decimal_number, parse_u64, parsed_u64, ExternalIdError};
use crate::hitl::{strings_view, HitlKind};
use crate::models::ChannelManifest;
use crate::render::{decimal, decimal_chars};
use crate::split::{char_ceil, last_byte, NL, SP};
use crate::text::{
    byte_len, chars_of, equals_str, has_prefix, is_blank_str,
    is_whitespace, lemma_piece_chars, starts_with_str, string_from_chars,
    trim_start_chars, truncate_chars, truncated, views_of,
};

verus! {

broadcast use vstd::utf8::group_utf8_lib;

/// The configuration of a Discord channel.
#[derive(Debug, Clone)]
pub struct DiscordConfig {
    pub bot_token: String,
}

/// The factory of Discord channels.
pub struct DiscordAdapterFactory;

impl DiscordAdapterFactory {
    /// The bot token is the one field, required and secret.
    pub fn manifest(&self) -> (m: ChannelManifest)
        ensures
            m.id@ == "discord"@,
            m.display_name@ == "Discord"@,
            m.config_fields@.len() == 1,
            m.config_fields@[0].name@ == "bot_token"@,
            m.config_fields@[0].is_required,
            m.config_fields@[0].is_secret,
    {
        let mut m = bare_manifest("discord", "Discord", "Chat with your agent from a Discord bot.");
        m.config_fields.push(config_field("bot_token", true, true, None));
        m
    }
}

/// Discord refuses messages over this many bytes.
pub const DISCORD_MAX_MESSAGE_LEN: usize = 2000;

/// Chunks are cut near this many bytes, leaving room below the limit.
pub const DISCORD_CHUNK_TARGET: usize = 1900;

/// Where a chunk is cut from the rest `r` of a reply: after the last
/// newline before the end of the character that holds byte 1899, else after
/// the last space, else at that end.
pub open spec fn discord_cut(r: Seq<u8>) -> int {
    let upper = char_ceil(r, DISCORD_CHUNK_TARGET as int);
    if last_byte(r, upper, NL) >= 0 {
        last_byte(r, upper, NL) + 1
    } else if last_byte(r, upper, SP) >= 0 {
        last_byte(r, upper, SP) + 1
    } else {
        upper
    }
}

/// The chunks of the rest `r` of a long reply: each cut by [`discord_cut`],
/// the whitespace after a cut dropped, the last one whatever fits.
pub open spec fn discord_chunks(r: Seq<u8>) -> Seq<Seq<char>>
    decreases r.len(),
{
    if r.len() == 0 {
        seq![]
    } else if r.len() <= DISCORD_MAX_MESSAGE_LEN {
        seq![decode_utf8(r)]
    } else {
        let cut = discord_cut(r);
        let next = encode_utf8(trim_start_chars(decode_utf8(r.subrange(cut, r.len() as int))));
        if cut <= 0 || cut > r.len() || next.len() >= r.len() {
            seq![decode_utf8(r)]
        } else {
            seq![decode_utf8(r.subrange(0, cut))] + discord_chunks(next)
        }
    }
}

/// What [`chunk_for_discord`] returns for a text with bytes `b`.
pub open spec fn discord_split(b: Seq<u8>) -> Seq<Seq<char>> {
    if b.len() <= DISCORD_MAX_MESSAGE_LEN {
        seq![decode_utf8(b)]
    } else {
        discord_chunks(b)
    }
}

proof fn lemma_discord_cut(r: Seq<u8>)
    requires
        valid_utf8(r),
        r.len() > DISCORD_MAX_MESSAGE_LEN,
    ensures
        0 < discord_cut(r) <= r.len(),
        is_char_boundary(r, discord_cut(r)),
{
    let upper = char_ceil(r, DISCORD_CHUNK_TARGET as int);
    crate::split::lemma_char_ceil(r, DISCORD_CHUNK_TARGET as int);
    crate::split::lemma_last_byte(r, upper, NL);
    crate::split::lemma_last_byte(r, upper, SP);
    if last_byte(r, upper, NL) >= 0 {
        crate::text::lemma_ascii_byte_ends_char(r, last_byte(r, upper, NL));
    } else if last_byte(r, upper, SP) >= 0 {
        crate::text::lemma_ascii_byte_ends_char(r, last_byte(r, upper, SP));
    }
}

proof fn lemma_discord_chunks_fit(r: Seq<u8>)
    requires
        valid_utf8(r),
    ensures
        forall|k: int| 0 <= k < discord_chunks(r).len() ==> encode_utf8(#[trigger] discord_chunks(r)[k]).len() <= DISCORD_MAX_MESSAGE_LEN,
    decreases r.len(),
{
    broadcast use vstd::utf8::group_utf8_lib;

    if r.len() == 0 {
    } else if r.len() <= DISCORD_MAX_MESSAGE_LEN {
        assert(encode_utf8(decode_utf8(r)) == r);
    } else {
        lemma_discord_cut(r);
        let cut = discord_cut(r);
        let j = crate::split::lemma_boundary_near(r, DISCORD_CHUNK_TARGET as int);
        crate::split::lemma_char_ceil_le(r, DISCORD_CHUNK_TARGET as int, j);
        crate::split::lemma_last_byte(r, char_ceil(r, DISCORD_CHUNK_TARGET as int), NL);
        crate::split::lemma_last_byte(r, char_ceil(r, DISCORD_CHUNK_TARGET as int), SP);
        assert(cut <= DISCORD_CHUNK_TARGET + 3);
        let tail = decode_utf8(r.subrange(cut, r.len() as int));
        crate::text::lemma_trim_start_encoding(tail);
        assert(encode_utf8(tail) == r.subrange(cut, r.len() as int));
        let next = encode_utf8(trim_start_chars(tail));
        assert(next.len() < r.len());
        lemma_discord_chunks_fit(next);
        let head = decode_utf8(r.subrange(0, cut));
        assert(encode_utf8(head) == r.subrange(0, cut));
        let chunks = discord_chunks(r);
        assert(chunks == seq![head] + discord_chunks(next));
        assert forall|k: int| 0 <= k < chunks.len() implies encode_utf8(#[trigger] chunks[k]).len() <= DISCORD_MAX_MESSAGE_LEN by {
            if k > 0 {
                assert(chunks[k] == discord_chunks(next)[k - 1]);
            }
        }
    }
}

/// Every chunk a reply is split into fits Discord's 2000-byte limit.
pub proof fn law_discord_chunks_fit(text: &str)
    ensures
        forall|k: int| 0 <= k < discord_split(text.spec_bytes()).len() ==> encode_utf8(#[trigger] discord_split(text.spec_bytes())[k]).len() <= DISCORD_MAX_MESSAGE_LEN,
{
    broadcast use vstd::utf8::group_utf8_lib;

    let b = text.spec_bytes();
    if b.len() <= DISCORD_MAX_MESSAGE_LEN {
        assert(encode_utf8(decode_utf8(b)) == b);
    } else {
        lemma_discord_chunks_fit(b);
    }
}

/// The rest of `s` after its leading whitespace.
fn trim_start_str(s: &str) -> (r: &str)
    ensures
        r@ == trim_start_chars(s@),
{
    let n = s.unicode_len();
    let mut k: usize = 0;
    assert(s@.subrange(0, s@.len() as int) =~= s@);
    while k < n && is_whitespace(s.get_char(k))
        invariant
            k <= n == s@.len(),
            trim_start_chars(s@.subrange(k as int, n as int)) == trim_start_chars(s@),
        decreases n - k,
    {
        assert(s@.subrange(k as int, n as int).drop_first() =~= s@.subrange(k + 1, n as int));
        k = k + 1;
    }
    s.substring_char(k, n)
}

/// Splits a reply into Discord-sized chunks: a reply within the limit goes
/// whole; a longer one is cut near 1900 bytes at a newline, else a space,
/// else a character boundary, and the whitespace after each cut is dropped.
pub fn chunk_for_discord(text: &str) -> (chunks: Vec<String>)
    ensures
        views_of(chunks@) == discord_split(text.spec_bytes()),
{
    let mut chunks: Vec<String> = Vec::new();
    if byte_len(text) <= DISCORD_MAX_MESSAGE_LEN {
        chunks.push(String::from_str(text));
        assert(views_of(chunks@) =~= seq![text@]);
        return chunks;
    }
    let ghost b = text.spec_bytes();
    let mut remaining: &str = text;
    assert(views_of(chunks@) =~= Seq::<Seq<char>>::empty());
    while byte_len(remaining) > 0
        invariant
            b == text.spec_bytes(),
            b.len() > DISCORD_MAX_MESSAGE_LEN,
            views_of(chunks@) + discord_chunks(remaining.spec_bytes()) == discord_chunks(b),
        decreases remaining.spec_bytes().len(),
    {
        let ghost r = remaining.spec_bytes();
        let ghost old_chunks = chunks@;
        if byte_len(remaining) <= DISCORD_MAX_MESSAGE_LEN {
            chunks.push(String::from_str(remaining));
            proof {
                assert(views_of(old_chunks.push(chunks@.last())) =~= views_of(old_chunks).push(remaining@));
                assert(chunks@ == old_chunks.push(chunks@.last()));
            }
            let (_all, rest) = remaining.split_at(byte_len(remaining));
            proof {
                assert(rest.spec_bytes().len() == 0);
                assert(discord_chunks(rest.spec_bytes()) =~= Seq::<Seq<char>>::empty());
                assert(views_of(chunks@) + discord_chunks(rest.spec_bytes()) =~= views_of(old_chunks)
                    + discord_chunks(r));
            }
            remaining = rest;
        } else {
            proof {
                lemma_discord_cut(r);
            }
            let bytes = remaining.as_bytes();
            let mut upper: usize = DISCORD_CHUNK_TARGET;
            while upper < bytes.len() && !remaining.is_char_boundary(upper)
                invariant
                    DISCORD_CHUNK_TARGET <= upper <= r.len(),
                    bytes@ == r,
                    r == remaining.spec_bytes(),
                    char_ceil(r, upper as int) == char_ceil(r, DISCORD_CHUNK_TARGET as int),
                decreases r.len() - upper,
            {
                upper = upper + 1;
            }
            let cut = match crate::split::rfind_byte(bytes, upper, NL) {
                Some(i) => i + 1,
                None => match crate::split::rfind_byte(bytes, upper, SP) {
                    Some(i) => i + 1,
                    None => upper,
                },
            };
            assert(cut == discord_cut(r));
            let (head, tail) = remaining.split_at(cut);
            let next = trim_start_str(tail);
            let piece = String::from_str(head);
            proof {
                lemma_piece_chars(head@, r, 0, cut as int);
                lemma_piece_chars(tail@, r, cut as int, r.len() as int);
                crate::text::lemma_trim_start_encoding(tail@);
                assert(next.spec_bytes() == encode_utf8(trim_start_chars(decode_utf8(r.subrange(cut as int, r.len() as int)))));
                assert(views_of(old_chunks.push(piece)) =~= views_of(old_chunks).push(head@));
            }
            chunks.push(piece);
            proof {
                assert(views_of(chunks@) + discord_chunks(next.spec_bytes()) =~= views_of(old_chunks)
                    + discord_chunks(r));
            }
            remaining = next;
        }
    }
    proof {
        assert(discord_chunks(remaining.spec_bytes()) =~= Seq::<Seq<char>>::empty());
        assert(views_of(chunks@) + discord_chunks(remaining.spec_bytes()) =~= views_of(chunks@));
    }
    chunks
}

/// Labels longer than this are cut.
pub const DISCORD_LABEL_MAX: usize = 80;

/// At most this many option buttons are shown.
pub const DISCORD_CHOICE_BUTTON_CAP: usize = 5;

/// A button label cut to Discord's 80 characters.
pub fn truncate_label(s: &str) -> (r: String)
    ensures
        r@ == truncated(s@, DISCORD_LABEL_MAX as int),
{
    truncate_chars(s, DISCORD_LABEL_MAX)
}

/// Whether the bot ignores a message: its own, another bot's, or a blank
/// one.
pub fn should_skip(author_id: u64, author_bot: bool, content: &str, self_id: u64) -> (r: bool)
    ensures
        r == (author_id == self_id || author_bot || crate::text::is_blank(content@)),
{
    author_id == self_id || author_bot || is_blank_str(content)
}

/// `dm:{channel_id}` for a direct message, `group:{channel_id}` otherwise.
pub fn build_external_chat_id(channel_id: u64, is_dm: bool) -> (r: String)
    ensures
        r@ == (if is_dm { "dm:"@ } else { "group:"@ }) + decimal(channel_id as nat),
{
    let mut r = if is_dm {
        String::from_str("dm:")
    } else {
        String::from_str("group:")
    };
    let digits = decimal_chars(channel_id);
    let d = string_from_chars(&digits, 0, digits.len());
    assert(d@ =~= decimal(channel_id as nat));
    r.append(d.as_str());
    r
}

/// The channel id that a Discord chat id names: `dm:{id}` or `group:{id}`
/// with a `u64` id. An id of another shape is `Unrecognised`; a number that
/// does not parse is `InvalidNumber` with its text.
pub open spec fn discord_channel_of(s: Seq<char>) -> Result<nat, (bool, Seq<char>)> {
    let c = crate::hitl::find_char_from(s, ':', 0);
    if c >= s.len() {
        Err((false, s))
    } else {
        let kind = s.subrange(0, c);
        let id = s.subrange(c + 1, s.len() as int);
        if (kind != "dm"@ && kind != "group"@) || id.len() == 0 {
            Err((false, s))
        } else {
            match parsed_u64(id) {
                Some(n) => Ok(n),
                None => Err((true, id)),
            }
        }
    }
}

/// A Discord chat id reads back as the channel it was made from:
/// `parse_external_id` of `build_external_chat_id(c, is_dm)` is `Ok(c)`.
pub proof fn law_discord_external_id_round_trip(channel_id: u64, is_dm: bool)
    ensures
        discord_channel_of((if is_dm { "dm:"@ } else { "group:"@ }) + decimal(channel_id as nat))
            == Ok::<nat, (bool, Seq<char>)>(channel_id as nat),
{
    reveal_strlit("dm:");
    reveal_strlit("group:");
    reveal_strlit("dm");
    reveal_strlit("group");
    let p = if is_dm { "dm:"@ } else { "group:"@ };
    let d = decimal(channel_id as nat);
    lemma_decimal_number(channel_id as nat);
    let s = p + d;
    let c = p.len() - 1;
    crate::hitl::lemma_find_char_at(s, ':', 0, c);
    assert(s.subrange(0, c) =~= p.subrange(0, c));
    assert(s.subrange(c + 1, s.len() as int) =~= d);
    if is_dm {
        assert(p.subrange(0, c) =~= "dm"@);
    } else {
        assert(p.subrange(0, c) =~= "group"@);
    }
}

/// Reads a Discord chat id `dm:{channel}` or `group:{channel}`.
pub fn parse_external_id(s: &str) -> (r: Result<u64, ExternalIdError>)
    ensures
        match r {
            Ok(n) => discord_channel_of(s@) == Ok::<nat, (bool, Seq<char>)>(n as nat),
            Err(ExternalIdError::Unrecognised(t)) => discord_channel_of(s@) == Err::<nat, (bool, Seq<char>)>((false, t@)),
            Err(ExternalIdError::InvalidNumber(t)) => discord_channel_of(s@) == Err::<nat, (bool, Seq<char>)>((true, t@)),
        },
{
    let v = chars_of(s);
    let mut c: usize = 0;
    while c < v.len() && v[c] != ':'
        invariant
            c <= v@.len(),
            crate::hitl::find_char_from(v@, ':', c as int) == crate::hitl::find_char_from(v@, ':', 0),
        decreases v@.len() - c,
    {
        c = c + 1;
    }
    if c >= v.len() {
        return Err(ExternalIdError::Unrecognised(String::from_str(s)));
    }
    let kind = string_from_chars(&v, 0, c);
    let kv = chars_of(kind.as_str());
    if !(equals_str(&kv, "dm") || equals_str(&kv, "group")) || c + 1 >= v.len() {
        return Err(ExternalIdError::Unrecognised(String::from_str(s)));
    }
    match parse_u64(&v, c + 1) {
        Some(n) => Ok(n),
        None => Err(ExternalIdError::InvalidNumber(string_from_chars(&v, c + 1, v.len()))),
    }
}

/// Whether a failed Discord call is worth a retry: an HTTP failure with
/// status 429 or 5xx is; other HTTP failures are permanent; a failure with
/// no HTTP status (network, gateway) is retried.
pub fn is_discord_retryable_error(http_status: Option<u16>) -> (r: bool)
    ensures
        r == match http_status {
            Some(code) => code == 429 || (500 <= code <= 599),
            None => true,
        },
{
    match http_status {
        Some(code) => code == 429 || (500 <= code && code <= 599),
        None => true,
    }
}

#[derive(Debug, Clone, Copy, PartialEq, Eq, Structural)]
pub enum ButtonStyle {
    Primary,
    Success,
    Danger,
}

/// A message component button.
#[derive(Debug, Clone, PartialEq)]
pub enum DiscordButton {
    /// Opens `url`.
    Link { url: String, label: String },
    /// Sends an interaction with `custom_id`.
    Action { custom_id: String, label: String, style: ButtonStyle },
}

/// A button as characters.
pub enum ButtonView {
    Link { url: Seq<char>, label: Seq<char> },
    Action { custom_id: Seq<char>, label: Seq<char>, style: ButtonStyle },
}

pub open spec fn button_view(b: DiscordButton) -> ButtonView {
    match b {
        DiscordButton::Link { url, label } => ButtonView::Link { url: url@, label: label@ },
        DiscordButton::Action { custom_id, label, style } => ButtonView::Action {
            custom_id: custom_id@,
            label: label@,
            style,
        },
    }
}

pub open spec fn rows_view(rows: Seq<Vec<DiscordButton>>) -> Seq<Seq<ButtonView>> {
    rows.map_values(|r: Vec<DiscordButton>| r@.map_values(|b: DiscordButton| button_view(b)))
}

/// The row with the link to the request on the web, when `url` is http(s)
/// (Discord refuses link buttons to other URLs).
pub open spec fn url_rows(url: Seq<char>) -> Seq<Seq<ButtonView>> {
    if has_prefix(url, "http://"@) || has_prefix(url, "https://"@) {
        seq![seq![ButtonView::Link { url, label: "Open on web →"@ }]]
    } else {
        seq![]
    }
}

/// The button rows for a pending request: an approval is a Yes/No row and
/// the web link; a choice is one row per option, at most five, labels cut
/// to 80 characters; an external request is the web link alone.
pub open spec fn components_for(tcid: Seq<char>, kind: HitlKind, url: Seq<char>) -> Seq<Seq<ButtonView>> {
    match kind {
        HitlKind::Approval => seq![seq![
            ButtonView::Action { custom_id: "r:"@ + tcid + ":y"@, label: "Yes"@, style: ButtonStyle::Success },
            ButtonView::Action { custom_id: "r:"@ + tcid + ":n"@, label: "No"@, style: ButtonStyle::Danger },
        ]] + url_rows(url),
        HitlKind::Choice { options } => {
            let opts = strings_view(options@);
            let n = if opts.len() < DISCORD_CHOICE_BUTTON_CAP { opts.len() as int } else { DISCORD_CHOICE_BUTTON_CAP as int };
            Seq::new(n as nat, |i: int| seq![ButtonView::Action {
                custom_id: "r:"@ + tcid + ":c:"@ + decimal(i as nat),
                label: truncated(opts[i], DISCORD_LABEL_MAX as int),
                style: ButtonStyle::Primary,
            }])
        },
        HitlKind::External => url_rows(url),
    }
}

fn prefixed_id(tcid: &str, tail: &str) -> (r: String)
    ensures
        r@ == "r:"@ + tcid@ + tail@,
{
    let mut r = String::from_str("r:");
    r.append(tcid);
    r.append(tail);
    r
}

fn link_row(url: &str) -> (row: Vec<DiscordButton>)
    ensures
        row@.map_values(|b: DiscordButton| button_view(b)) == seq![ButtonView::Link { url: url@, label: "Open on web →"@ }],
{
    let mut row: Vec<DiscordButton> = Vec::new();
    row.push(DiscordButton::Link { url: String::from_str(url), label: String::from_str("Open on web →") });
    assert(row@.map_values(|b: DiscordButton| button_view(b)) =~= seq![ButtonView::Link { url: url@, label: "Open on web →"@ }]);
    row
}

fn push_row(rows: &mut Vec<Vec<DiscordButton>>, row: Vec<DiscordButton>)
    ensures
        final(rows)@ == old(rows)@.push(row),
        rows_view(final(rows)@) == rows_view(old(rows)@).push(row@.map_values(|b: DiscordButton| button_view(b))),
{
    let ghost before = rows@;
    rows.push(row);
    assert(rows_view(rows@) =~= rows_view(before).push(row@.map_values(|b: DiscordButton| button_view(b))));
}

/// Builds the button rows for a pending request, see [`components_for`].
pub fn build_discord_components(tcid: &str, kind: &HitlKind, url: &str) -> (rows: Vec<Vec<DiscordButton>>)
    ensures
        rows_view(rows@) =~~= components_for(tcid@, *kind, url@),
{
    match kind {
        HitlKind::Approval => {
            let mut row: Vec<DiscordButton> = Vec::new();
            row.push(DiscordButton::Action { custom_id: prefixed_id(tcid, ":y"), label: String::from_str("Yes"), style: ButtonStyle::Success });
            row.push(DiscordButton::Action { custom_id: prefixed_id(tcid, ":n"), label: String::from_str("No"), style: ButtonStyle::Danger });
            let mut rows: Vec<Vec<DiscordButton>> = Vec::new();
            assert(row@.map_values(|b: DiscordButton| button_view(b)) =~= seq![
                ButtonView::Action { custom_id: "r:"@ + tcid@ + ":y"@, label: "Yes"@, style: ButtonStyle::Success },
                ButtonView::Action { custom_id: "r:"@ + tcid@ + ":n"@, label: "No"@, style: ButtonStyle::Danger },
            ]);
            assert(rows_view(rows@) =~= Seq::<Seq<ButtonView>>::empty());
            push_row(&mut rows, row);
            let v = chars_of(url);
            if starts_with_str(&v, "http://") || starts_with_str(&v, "https://") {
                push_row(&mut rows, link_row(url));
            }
            rows
        },
        HitlKind::Choice { options } => {
            let n = if options.len() < DISCORD_CHOICE_BUTTON_CAP {
                options.len()
            } else {
                DISCORD_CHOICE_BUTTON_CAP
            };
            let mut rows: Vec<Vec<DiscordButton>> = Vec::new();
            let mut i: usize = 0;
            while i < n
                invariant
                    i <= n <= options@.len(),
                    rows@.len() == i,
                    forall|j: int| 0 <= j < i ==> #[trigger] rows_view(rows@)[j] =~~= seq![ButtonView::Action {
                        custom_id: "r:"@ + tcid@ + ":c:"@ + decimal(j as nat),
                        label: truncated(options@[j]@, DISCORD_LABEL_MAX as int),
                        style: ButtonStyle::Primary,
                    }],
                decreases n - i,
            {
                let digits = decimal_chars(i as u64);
                let d = string_from_chars(&digits, 0, digits.len());
                let mut id = prefixed_id(tcid, ":c:");
                id.append(d.as_str());
                let label = truncate_label(options[i].as_str());
                let mut row: Vec<DiscordButton> = Vec::new();
                row.push(DiscordButton::Action { custom_id: id, label, style: ButtonStyle::Primary });
                proof {
                    assert(d@ =~= decimal(i as nat));
                    assert(row@.map_values(|b: DiscordButton| button_view(b)) =~= seq![ButtonView::Action {
                        custom_id: "r:"@ + tcid@ + ":c:"@ + decimal(i as nat),
                        label: truncated(options@[i as int]@, DISCORD_LABEL_MAX as int),
                        style: ButtonStyle::Primary,
                    }]);
                }
                push_row(&mut rows, row);
                i = i + 1;
            }
            rows
        },
        HitlKind::External => {
            let mut rows: Vec<Vec<DiscordButton>> = Vec::new();
            assert(rows_view(rows@) =~= Seq::<Seq<ButtonView>>::empty());
            let v = chars_of(url);
            if starts_with_str(&v, "http://") || starts_with_str(&v, "https://") {
                push_row(&mut rows, link_row(url));
            }
            rows
        },
    }
}

/// Discord shows at most this many link buttons on one message.
pub const DISCORD_MAX_BUTTONS: usize = 25;

/// Discord's buttons per row.
pub const DISCORD_ROW_WIDTH: usize = 5;

/// How many of `n` buttons do not fit on a message.
pub open spec fn buttons_left_out(n: int) -> int {
    if n > DISCORD_MAX_BUTTONS { n - DISCORD_MAX_BUTTONS } else { 0 }
}

/// The attachment buttons of a message laid out as Discord takes them: the
/// first 25, in rows of five (the last row holding the rest), and the
/// number left out.
pub fn button_rows<T>(buttons: Vec<T>) -> (r: (Vec<Vec<T>>, usize))
    ensures
        r.1 == buttons_left_out(buttons@.len() as int),
        ({
            let kept = buttons@.len() - r.1;
            &&& r.0@.len() == (kept + 4) / 5
            &&& forall|i: int| 0 <= i < r.0@.len() ==> (#[trigger] r.0@[i])@ == buttons@.subrange(
                5 * i,
                if 5 * i + 5 <= kept { 5 * i + 5 } else { kept },
            )
        }),
{
    let n = buttons.len();
    let left_out: usize = if n > DISCORD_MAX_BUTTONS { n - DISCORD_MAX_BUTTONS } else { 0 };
    let mut rest = buttons;
    rest.truncate(DISCORD_MAX_BUTTONS);
    let ghost kept = rest@;
    let ghost k = kept.len() as int;
    let mut rows: Vec<Vec<T>> = Vec::new();
    let mut row: Vec<T> = Vec::new();
    let mut taken: usize = 0;
    while rest.len() > 0
        invariant
            n == buttons@.len(),
            kept.len() == k,
            k == n - left_out,
            k <= 25,
            kept =~= buttons@.subrange(0, k),
            taken + rest@.len() == k,
            rest@ == kept.subrange(taken as int, k),
            rows@.len() * 5 + row@.len() == taken,
            row@.len() < 5,
            row@ == kept.subrange(5 * rows@.len() as int, taken as int),
            forall|i: int| 0 <= i < rows@.len() ==> (#[trigger] rows@[i])@ == kept.subrange(5 * i, 5 * i + 5),
        decreases rest@.len(),
    {
        let ghost before = rest@;
        let b = rest.remove(0);
        proof {
            assert(rest@ == before.remove(0));
            assert(before.remove(0) =~= kept.subrange(taken + 1, k));
        }
        row.push(b);
        proof {
            assert(row@ =~= kept.subrange(5 * rows@.len() as int, taken + 1));
        }
        taken = taken + 1;
        if row.len() == DISCORD_ROW_WIDTH {
            rows.push(row);
            row = Vec::new();
        }
    }
    let ghost full = rows@.len();
    if row.len() > 0 {
        rows.push(row);
    }
    proof {
        assert(rows@.len() == (k + 4) / 5) by (nonlinear_arith)
            requires
                full * 5 + (if rows@.len() > full { k - full * 5 } else { 0 }) == k,
                rows@.len() == full || rows@.len() == full + 1,
                rows@.len() == full + 1 ==> 0 < k - full * 5 < 5,
                rows@.len() == full ==> k == full * 5,
        ;
        assert forall|i: int| 0 <= i < rows@.len() implies (#[trigger] rows@[i])@ == buttons@.subrange(
            5 * i,
            if 5 * i + 5 <= k { 5 * i + 5 } else { k },
        ) by {
            assert(kept.subrange(5 * i, if 5 * i + 5 <= k { 5 * i + 5 } else { k }) =~= buttons@.subrange(
                5 * i,
                if 5 * i + 5 <= k { 5 * i + 5 } else { k },
            ));
        }
    }
    (rows, left_out)
}

/// The body of a message whose attachment buttons did not all fit, with a
/// note of how many were left out.
pub fn with_overflow_note(body: &str, left_out: usize) -> (r: String)
    ensures
        r@ == (if left_out == 0 {
            body@
        } else {
            body@ + "\n\n(plus "@ + decimal(left_out as nat) + " more attachment"@ + (if left_out == 1 {
                ""@
            } else {
                "s"@
            }) + " \u{2014} see in app)"@
        }),
{
    let mut r = String::from_str(body);
    proof {
        reveal_strlit("");
    }
    if left_out > 0 {
        r.append("\n\n(plus ");
        let digits = decimal_chars(left_out as u64);
        let d = string_from_chars(&digits, 0, digits.len());
        r.append(d.as_str());
        r.append(" more attachment");
        if left_out != 1 {
            r.append("s");
        } else {
            assert(r@ + ""@ =~= r@);
        }
        r.append(" \u{2014} see in app)");
    }
    r
}

} // verus!
