//! How outbound attachments are presented on a channel: their kind, the
//! inline list line or button label that carries their link, and whether a
//! browser preview page is needed for them.

use vstd::prelude::*;
use crate::error::AppError;
use crate::handle::{cleaned_handle, valid_handle, Handle};
use crate::text::{
    chars_of, equals_str, has_prefix, join_with, lower_chars, lowercase_chars, starts_with_str,
    string_from_chars,
};

verus! {

/// A stored file attached to a message.
#[derive(Debug, Clone)]
pub struct Attachment {
    pub filename: String,
    pub content_type: String,
    pub size_bytes: u64,
    pub owner: String,
    pub path: String,
    pub url: Option<String>,
}

#[derive(Debug, Clone, Copy, PartialEq, Eq, Structural)]
pub enum AttachmentKind {
    Image,
    Audio,
    Video,
    Document,
}

#[derive(Debug, Clone, Copy, PartialEq, Eq, Structural)]
pub enum ChannelMode {
    /// Telegram, Discord, Slack, WhatsApp Cloud: the link hides behind a
    /// button label.
    Button,
    /// SMS, Signal, WhatsApp User: the link is visible text in the body.
    Inline,
}

/// The kind of an attachment with content type `ct`, by its lowercased
/// top-level type.
pub open spec fn kind_of(ct: Seq<char>) -> AttachmentKind {
    let l = lower_chars(ct);
    if has_prefix(l, "image/"@) {
        AttachmentKind::Image
    } else if has_prefix(l, "audio/"@) {
        AttachmentKind::Audio
    } else if has_prefix(l, "video/"@) {
        AttachmentKind::Video
    } else {
        AttachmentKind::Document
    }
}

pub fn classify(att: &Attachment) -> (r: AttachmentKind)
    ensures
        r == kind_of(att.content_type@),
{
    let ct = lowercase_chars(att.content_type.as_str());
    if starts_with_str(&ct, "image/") {
        AttachmentKind::Image
    } else if starts_with_str(&ct, "audio/") {
        AttachmentKind::Audio
    } else if starts_with_str(&ct, "video/") {
        AttachmentKind::Video
    } else {
        AttachmentKind::Document
    }
}

pub fn is_media(kind: AttachmentKind) -> (r: bool)
    ensures
        r == !(kind is Document),
{
    !matches!(kind, AttachmentKind::Document)
}

/// The icon shown before an attachment of kind `k`.
pub open spec fn icon(k: AttachmentKind) -> Seq<char> {
    match k {
        AttachmentKind::Image => "🖼️"@,
        AttachmentKind::Audio => "🎵"@,
        AttachmentKind::Video => "🎬"@,
        AttachmentKind::Document => "📄"@,
    }
}

fn icon_for(att: &Attachment) -> (r: &'static str)
    ensures
        r@ == icon(kind_of(att.content_type@)),
{
    match classify(att) {
        AttachmentKind::Image => "🖼️",
        AttachmentKind::Audio => "🎵",
        AttachmentKind::Video => "🎬",
        AttachmentKind::Document => "📄",
    }
}

/// `"{icon} {filename} — {url}"`.
pub open spec fn list_line(att: Attachment, url: Seq<char>) -> Seq<char> {
    icon(kind_of(att.content_type@)) + " "@ + att.filename@ + " — "@ + url
}

/// One line of an inline attachment list, e.g.
/// `"📄 report.md — https://app.host/s/8Dbcv_bu"`.
pub fn inline_list_line(att: &Attachment, url: &str) -> (r: String)
    ensures
        r@ == list_line(*att, url@),
{
    let mut r = String::new();
    r.append(icon_for(att));
    r.append(" ");
    r.append(att.filename.as_str());
    r.append(" — ");
    r.append(url);
    r
}

/// The list lines of the attachments paired with the links, as far as both
/// go.
pub open spec fn list_lines(atts: Seq<Attachment>, urls: Seq<String>) -> Seq<Seq<char>> {
    let n = if atts.len() < urls.len() {
        atts.len()
    } else {
        urls.len()
    };
    Seq::new(n, |k: int| list_line(atts[k], urls[k]@))
}

/// The inline list of attachments, one line each, joined by newlines. When
/// `attachments` and `urls` differ in length, the shorter wins.
pub fn inline_list(attachments: &[Attachment], urls: &[String]) -> (r: String)
    ensures
        r@ == join_with(list_lines(attachments@, urls@), "\n"@),
{
    let n = if attachments.len() < urls.len() {
        attachments.len()
    } else {
        urls.len()
    };
    let ghost lines = list_lines(attachments@, urls@);
    let mut r = String::new();
    let mut k: usize = 0;
    while k < n
        invariant
            k <= n,
            n == lines.len(),
            n <= attachments@.len(),
            n <= urls@.len(),
            lines == list_lines(attachments@, urls@),
            r@ == join_with(lines.subrange(0, k as int), "\n"@),
        decreases n - k,
    {
        let line = inline_list_line(&attachments[k], urls[k].as_str());
        proof {
            let pre = lines.subrange(0, k as int);
            let next = lines.subrange(0, k + 1);
            assert(next.drop_last() =~= pre);
            assert(next.last() == line@);
            if k == 0 {
                assert(pre =~= Seq::<Seq<char>>::empty());
            }
        }
        if k > 0 {
            r.append("\n");
        }
        r.append(line.as_str());
        k = k + 1;
    }
    assert(lines.subrange(0, n as int) =~= lines);
    r
}

/// `"{icon} Open {filename}"`.
pub fn button_label(att: &Attachment) -> (r: String)
    ensures
        r@ == icon(kind_of(att.content_type@)) + " Open "@ + att.filename@,
{
    let mut r = String::new();
    r.append(icon_for(att));
    r.append(" Open ");
    r.append(att.filename.as_str());
    r
}

/// Content types that browsers would show as raw text (markdown, source
/// code, structured data) and so get a preview page; compared lowercased.
pub open spec fn previewable(ct: Seq<char>) -> bool {
    let l = lower_chars(ct);
    ||| l == "text/markdown"@
    ||| has_prefix(l, "text/x-"@)
    ||| l == "text/yaml"@
    ||| l == "text/toml"@
    ||| l == "application/json"@
    ||| l == "application/xml"@
}

/// Whether the attachment gets a preview page rather than its raw URL.
/// HTML is left out on purpose: previewing attacker-controlled HTML would
/// run scripts in the app's origin.
pub fn is_previewable(att: &Attachment) -> (r: bool)
    ensures
        r == previewable(att.content_type@),
{
    let ct = lowercase_chars(att.content_type.as_str());
    equals_str(&ct, "text/markdown") || starts_with_str(&ct, "text/x-") || equals_str(
        &ct,
        "text/yaml",
    ) || equals_str(&ct, "text/toml") || equals_str(&ct, "application/json") || equals_str(
        &ct,
        "application/xml",
    )
}


/// `s` without its trailing `/`s.
pub open spec fn trim_slashes_end(s: Seq<char>) -> Seq<char>
    decreases s.len(),
{
    if s.len() > 0 && s.last() == '/' {
        trim_slashes_end(s.drop_last())
    } else {
        s
    }
}

/// The link to an attachment under `base_url` (trailing slashes dropped):
/// inline, by the short id `key` of its share (`/p/` for a preview page,
/// `/s/` otherwise); as a button, by its owner segment `key` (the preview
/// page or the raw file route).
pub open spec fn attachment_link(base_url: Seq<char>, mode: ChannelMode, previewable: bool, key: Seq<char>) -> Seq<char> {
    let base = trim_slashes_end(base_url);
    match mode {
        ChannelMode::Inline => if previewable {
            base + "/p/"@ + key
        } else {
            base + "/s/"@ + key
        },
        ChannelMode::Button => if previewable {
            base + "/p/"@ + key
        } else {
            base + "/api/files/"@ + key
        },
    }
}

/// Builds an attachment's link, see [`attachment_link`]; the caller issues
/// the share id or builds the owner segment that goes in as `key`.
pub fn outbound_url(base_url: &str, mode: ChannelMode, previewable: bool, key: &str) -> (r: String)
    ensures
        r@ == attachment_link(base_url@, mode, previewable, key@),
{
    let v = chars_of(base_url);
    let mut k: usize = v.len();
    assert(v@.subrange(0, v@.len() as int) =~= v@);
    while k > 0 && v[k - 1] == '/'
        invariant
            k <= v@.len(),
            trim_slashes_end(v@.subrange(0, k as int)) == trim_slashes_end(v@),
        decreases k,
    {
        assert(v@.subrange(0, k as int).drop_last() =~= v@.subrange(0, k - 1));
        k = k - 1;
    }
    let mut r = string_from_chars(&v, 0, k);
    let route = match mode {
        ChannelMode::Inline => if previewable {
            "/p/"
        } else {
            "/s/"
        },
        ChannelMode::Button => if previewable {
            "/p/"
        } else {
            "/api/files/"
        },
    };
    r.append(route);
    r.append(key);
    r
}

/// Whose workspace an attachment lives in.
#[derive(Debug)]
pub enum AttachmentOwner {
    /// `user:{handle}`.
    User(Handle),
    /// `agent:{handle}`.
    Agent(Handle),
}

/// The rest of `s` after `prefix`, when `s` starts with it.
pub open spec fn stripped(s: Seq<char>, prefix: Seq<char>) -> Option<Seq<char>> {
    if has_prefix(s, prefix) {
        Some(s.subrange(prefix.len() as int, s.len() as int))
    } else {
        None
    }
}

/// The handle of a `user:` or `agent:` owner `rest`, or the error naming
/// `owner`.
fn owner_handle(owner: &str, rest: &str) -> (r: Result<Handle, AppError>)
    ensures
        match r {
            Ok(h) => h.chars() == cleaned_handle(rest@) && valid_handle(vstd::utf8::encode_utf8(cleaned_handle(rest@))),
            Err(AppError::Validation(m)) => !valid_handle(vstd::utf8::encode_utf8(cleaned_handle(rest@))) && m@
                == "invalid owner handle in "@ + owner@ + ": "@ + "handle '"@ + cleaned_handle(rest@)
                + "' is invalid: must be 2-32 chars, start with a lowercase letter, and contain only a-z, 0-9, hyphens, underscores"@,
            Err(_) => false,
        },
{
    match Handle::try_new(rest) {
        Ok(h) => Ok(h),
        Err(AppError::Validation(detail)) => {
            let mut m = String::from_str("invalid owner handle in ");
            m.append(owner);
            m.append(": ");
            m.append(detail.as_str());
            Err(AppError::Validation(m))
        },
        Err(e) => Err(e),
    }
}

/// Reads an attachment's owner: `user:{handle}` or `agent:{handle}`, the
/// handle validated as [`Handle::try_new`] does; any other owner is refused.
pub fn parse_owner(owner: &str) -> (r: Result<AttachmentOwner, AppError>)
    ensures
        match stripped(owner@, "user:"@) {
            Some(rest) => match r {
                Ok(AttachmentOwner::User(h)) => h.chars() == cleaned_handle(rest),
                Err(AppError::Validation(_)) => !valid_handle(vstd::utf8::encode_utf8(cleaned_handle(rest))),
                _ => false,
            },
            None => match stripped(owner@, "agent:"@) {
                Some(rest) => match r {
                    Ok(AttachmentOwner::Agent(h)) => h.chars() == cleaned_handle(rest),
                    Err(AppError::Validation(_)) => !valid_handle(vstd::utf8::encode_utf8(cleaned_handle(rest))),
                    _ => false,
                },
                None => r matches Err(AppError::Validation(m)) && m@ == "unsupported attachment owner: "@ + owner@,
            },
        },
{
    let v = chars_of(owner);
    proof {
        reveal_strlit("user:");
        reveal_strlit("agent:");
    }
    if starts_with_str(&v, "user:") {
        let rest = string_from_chars(&v, 5, v.len());
        return match owner_handle(owner, rest.as_str()) {
            Ok(h) => Ok(AttachmentOwner::User(h)),
            Err(e) => Err(e),
        };
    }
    if starts_with_str(&v, "agent:") {
        let rest = string_from_chars(&v, 6, v.len());
        return match owner_handle(owner, rest.as_str()) {
            Ok(h) => Ok(AttachmentOwner::Agent(h)),
            Err(e) => Err(e),
        };
    }
    let mut m = String::from_str("unsupported attachment owner: ");
    m.append(owner);
    Err(AppError::Validation(m))
}

/// Whether a relative path climbs out of its workspace (`..` anywhere in it).
pub open spec fn climbs_out(path: Seq<char>) -> bool {
    exists|i: int| 0 <= i < path.len() - 1 && #[trigger] dot_pair(path, i)
}

pub open spec fn dot_pair(path: Seq<char>, i: int) -> bool {
    path[i] == '.' && path[i + 1] == '.'
}

pub fn is_path_traversal(path: &str) -> (r: bool)
    ensures
        r == climbs_out(path@),
{
    let v = chars_of(path);
    let mut i: usize = 0;
    while i < v.len() && i + 1 < v.len()
        invariant
            i <= v@.len(),
            v@ == path@,
            forall|j: int| 0 <= j < i && j < v@.len() - 1 ==> !#[trigger] dot_pair(v@, j),
        decreases v@.len() - i,
    {
        if v[i] == '.' && v[i + 1] == '.' {
            assert(dot_pair(path@, i as int));
            return true;
        }
        i = i + 1;
    }
    false
}

} // verus!
