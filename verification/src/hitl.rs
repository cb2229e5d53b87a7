//! Human-in-the-loop requests on channels: how each request is rendered,
//! how a text reply or a button callback resolves it, and how the chosen
//! response is shown afterwards.

use vstd::prelude::*;
use crate::render::{decimal, lemma_decimal_digits};
use crate::text::{
    chars_of, equals_str, to_lowercase, trim_chars, trim_string, unicode_lowercase,
};

verus! {

/// What a paused tool call asks of the user.
#[derive(Debug, Clone, PartialEq)]
pub enum HitlRequest {
    /// Pick one of `options`.
    Question { options: Vec<String> },
    /// Take over a browser session; done when the user says so.
    Takeover { reason: String, debugger_url: String },
    /// Approve an app action; the manifests are JSON text.
    App { action: String, manifest: String, previous_manifest: Option<String> },
    /// Pick a vault credential, which only the web UI can offer.
    Credential { query: String, reason: String },
}

/// The outcome of a vault credential request.
#[derive(Debug, Clone, PartialEq)]
pub enum VaultGrant {
    Granted { credential_id: String },
    Denied,
}

/// The user's answer to a human-in-the-loop request.
#[derive(Debug, Clone, PartialEq)]
pub enum HitlResponse {
    Approval(bool),
    Choice(String),
    Vault(VaultGrant),
}

#[derive(Debug, Clone, Copy, PartialEq, Eq, Structural)]
pub enum ToolStatus {
    Pending,
    Resolved,
    Denied,
}

/// Where a request was delivered on a channel.
#[derive(Debug, Clone, PartialEq)]
pub struct HitlDelivery {
    pub external_message_id: String,
}

/// A human-in-the-loop request as stored on its tool call.
#[derive(Debug, Clone, PartialEq)]
pub struct Hitl {
    pub prompt: String,
    pub url: String,
    pub request: HitlRequest,
    pub status: ToolStatus,
    pub response: Option<HitlResponse>,
    pub delivery: Option<HitlDelivery>,
}

/// A tool call of a paused message, with its request if it has one.
#[derive(Debug, Clone, PartialEq)]
pub struct ToolCall {
    pub id: String,
    pub hitl: Option<Hitl>,
}

/// Closed render taxonomy: adapters branch on this, never on the request.
#[derive(Debug, Clone, PartialEq)]
pub enum HitlKind {
    Approval,
    Choice { options: Vec<String> },
    /// No in-channel affordance: the adapter posts the URL and the user
    /// resolves on the web.
    External,
}

pub open spec fn strings_view(v: Seq<String>) -> Seq<Seq<char>> {
    v.map_values(|s: String| s@)
}

/// The options a choice offers for request `req` (a takeover offers just
/// `"Done"`), or `None` when `req` is not a choice.
pub open spec fn choice_options(req: HitlRequest) -> Option<Seq<Seq<char>>> {
    match req {
        HitlRequest::Question { options } => Some(strings_view(options@)),
        HitlRequest::Takeover { .. } => Some(seq!["Done"@]),
        _ => None,
    }
}

/// Whether the kind `k` is the one for request `req`.
pub open spec fn kind_matches(k: HitlKind, req: HitlRequest) -> bool {
    match k {
        HitlKind::Approval => req is App,
        HitlKind::Choice { options } => choice_options(req) == Some(strings_view(options@)),
        HitlKind::External => req is Credential,
    }
}

fn copy_strings(v: &Vec<String>) -> (r: Vec<String>)
    ensures
        strings_view(r@) == strings_view(v@),
{
    let mut r: Vec<String> = Vec::new();
    let mut i: usize = 0;
    while i < v.len()
        invariant
            i <= v@.len(),
            strings_view(r@) =~= strings_view(v@.subrange(0, i as int)),
        decreases v@.len() - i,
    {
        let c = v[i].clone();
        proof {
            assert(c@ == v@[i as int]@);
            assert(strings_view(r@.push(c)) =~= strings_view(r@).push(c@));
            assert(v@.subrange(0, i + 1) =~= v@.subrange(0, i as int).push(v@[i as int]));
            assert(strings_view(v@.subrange(0, i as int).push(v@[i as int])) =~= strings_view(
                v@.subrange(0, i as int),
            ).push(v@[i as int]@));
        }
        r.push(c);
        i = i + 1;
    }
    assert(v@.subrange(0, v@.len() as int) =~= v@);
    r
}

/// The render kind of a request.
pub fn kind_for(req: &HitlRequest) -> (r: HitlKind)
    ensures
        kind_matches(r, *req),
{
    match req {
        HitlRequest::Question { options } => HitlKind::Choice { options: copy_strings(options) },
        HitlRequest::Takeover { .. } => {
            let mut options = Vec::new();
            options.push(String::from_str("Done"));
            assert(strings_view(options@) =~= seq!["Done"@]);
            HitlKind::Choice { options }
        },
        HitlRequest::App { .. } => HitlKind::Approval,
        HitlRequest::Credential { .. } => HitlKind::External,
    }
}

/// `"{prompt}\n\n{url}"`.
pub fn render_default_text(hitl: &Hitl) -> (r: String)
    ensures
        r@ == hitl.prompt@ + "\n\n"@ + hitl.url@,
{
    let mut r = hitl.prompt.clone();
    r.append("\n\n");
    r.append(hitl.url.as_str());
    r
}

/// The body of a request on a text-only channel (Signal, WhatsApp user,
/// SMS), which cannot show buttons: an approval asks for a YES or NO reply,
/// a choice is the prompt alone, and anything else is the prompt and URL.
pub fn render_text(hitl: &Hitl) -> (r: String)
    ensures
        r@ == match hitl.request {
            HitlRequest::App { .. } => hitl.prompt@ + "\n\nReply YES or NO"@,
            HitlRequest::Question { .. } | HitlRequest::Takeover { .. } => hitl.prompt@,
            HitlRequest::Credential { .. } => hitl.prompt@ + "\n\n"@ + hitl.url@,
        },
{
    match kind_for(&hitl.request) {
        HitlKind::Approval => {
            let mut r = hitl.prompt.clone();
            r.append("\n\nReply YES or NO");
            r
        },
        HitlKind::Choice { .. } => hitl.prompt.clone(),
        HitlKind::External => render_default_text(hitl),
    }
}

/// The words read as yes.
pub open spec fn yes_words() -> Seq<Seq<char>> {
    seq![
        "yes"@, "y"@, "yeah"@, "yep"@, "ok"@, "okay"@, "sure"@, "approve"@, "approved"@,
        "👍"@, "✅"@, "✔"@,
    ]
}

/// The words read as no.
pub open spec fn no_words() -> Seq<Seq<char>> {
    seq![
        "no"@, "n"@, "nope"@, "nah"@, "cancel"@, "decline"@, "declined"@, "reject"@,
        "rejected"@, "👎"@, "❌"@, "✖"@,
    ]
}

/// The answer that the exact word `t` gives, if it is on either list.
pub open spec fn yes_no_of(t: Seq<char>) -> Option<bool> {
    if yes_words().contains(t) {
        Some(true)
    } else if no_words().contains(t) {
        Some(false)
    } else {
        None
    }
}

/// Whether `v` is one of `words`.
fn is_one_of(v: &Vec<char>, words: &[&str]) -> (r: bool)
    ensures
        r == (exists|k: int| 0 <= k < words@.len() && v@ == (#[trigger] words@[k])@),
{
    let mut k: usize = 0;
    while k < words.len()
        invariant
            k <= words@.len(),
            forall|j: int| 0 <= j < k ==> v@ != (#[trigger] words@[j])@,
        decreases words@.len() - k,
    {
        if equals_str(v, words[k]) {
            return true;
        }
        k = k + 1;
    }
    false
}

/// Reads an already trimmed and lowercased reply as yes or no, by exact
/// match against the word lists (a substring match would take "no problem"
/// for a no).
pub fn yes_no_word(t: &str) -> (r: Option<bool>)
    ensures
        r == yes_no_of(t@),
{
    let v = chars_of(t);
    let yes: [&str; 12] = [
        "yes", "y", "yeah", "yep", "ok", "okay", "sure", "approve", "approved", "👍", "✅", "✔",
    ];
    let no: [&str; 12] = [
        "no", "n", "nope", "nah", "cancel", "decline", "declined", "reject", "rejected", "👎",
        "❌", "✖",
    ];
    let yes_s = yes.as_slice();
    let no_s = no.as_slice();
    proof {
        assert(yes_s@.map_values(|w: &str| w@) =~= yes_words());
        assert(no_s@.map_values(|w: &str| w@) =~= no_words());
        assert(yes_words().contains(v@) <==> exists|k: int| 0 <= k < yes_s@.len() && v@ == (#[trigger] yes_s@[k])@) by {
            if yes_words().contains(v@) {
                let k = choose|k: int| 0 <= k < yes_words().len() && yes_words()[k] == v@;
                assert(yes_s@.map_values(|w: &str| w@)[k] == yes_s@[k]@);
            }
            if exists|k: int| 0 <= k < yes_s@.len() && v@ == (#[trigger] yes_s@[k])@ {
                let k = choose|k: int| 0 <= k < yes_s@.len() && v@ == (#[trigger] yes_s@[k])@;
                assert(yes_s@.map_values(|w: &str| w@)[k] == yes_s@[k]@);
                assert(yes_words()[k] == v@);
            }
        }
        assert(no_words().contains(v@) <==> exists|k: int| 0 <= k < no_s@.len() && v@ == (#[trigger] no_s@[k])@) by {
            if no_words().contains(v@) {
                let k = choose|k: int| 0 <= k < no_words().len() && no_words()[k] == v@;
                assert(no_s@.map_values(|w: &str| w@)[k] == no_s@[k]@);
            }
            if exists|k: int| 0 <= k < no_s@.len() && v@ == (#[trigger] no_s@[k])@ {
                let k = choose|k: int| 0 <= k < no_s@.len() && v@ == (#[trigger] no_s@[k])@;
                assert(no_s@.map_values(|w: &str| w@)[k] == no_s@[k]@);
                assert(no_words()[k] == v@);
            }
        }
    }
    if is_one_of(&v, yes_s) {
        Some(true)
    } else if is_one_of(&v, no_s) {
        Some(false)
    } else {
        None
    }
}

/// The answers a reply gives: each of yes, y, yeah, yep, ok, okay, sure,
/// approve, approved, 👍, ✅, ✔ is a yes; each of no, n, nope, nah, cancel,
/// decline, declined, reject, rejected, 👎, ❌, ✖ is a no.
pub proof fn law_yes_no_words()
    ensures
        yes_no_of("yes"@) == Some(true),
        yes_no_of("y"@) == Some(true),
        yes_no_of("yeah"@) == Some(true),
        yes_no_of("yep"@) == Some(true),
        yes_no_of("ok"@) == Some(true),
        yes_no_of("okay"@) == Some(true),
        yes_no_of("sure"@) == Some(true),
        yes_no_of("approve"@) == Some(true),
        yes_no_of("approved"@) == Some(true),
        yes_no_of("👍"@) == Some(true),
        yes_no_of("✅"@) == Some(true),
        yes_no_of("✔"@) == Some(true),
        yes_no_of("no"@) == Some(false),
        yes_no_of("n"@) == Some(false),
        yes_no_of("nope"@) == Some(false),
        yes_no_of("nah"@) == Some(false),
        yes_no_of("cancel"@) == Some(false),
        yes_no_of("decline"@) == Some(false),
        yes_no_of("declined"@) == Some(false),
        yes_no_of("reject"@) == Some(false),
        yes_no_of("rejected"@) == Some(false),
        yes_no_of("👎"@) == Some(false),
        yes_no_of("❌"@) == Some(false),
        yes_no_of("✖"@) == Some(false),
{
    reveal_strlit("yes");
    reveal_strlit("y");
    reveal_strlit("yeah");
    reveal_strlit("yep");
    reveal_strlit("ok");
    reveal_strlit("okay");
    reveal_strlit("sure");
    reveal_strlit("approve");
    reveal_strlit("approved");
    reveal_strlit("👍");
    reveal_strlit("✅");
    reveal_strlit("✔");
    reveal_strlit("no");
    reveal_strlit("n");
    reveal_strlit("nope");
    reveal_strlit("nah");
    reveal_strlit("cancel");
    reveal_strlit("decline");
    reveal_strlit("declined");
    reveal_strlit("reject");
    reveal_strlit("rejected");
    reveal_strlit("👎");
    reveal_strlit("❌");
    reveal_strlit("✖");
    assert(yes_words()[0] == "yes"@);
    assert(yes_words()[1] == "y"@);
    assert(yes_words()[2] == "yeah"@);
    assert(yes_words()[3] == "yep"@);
    assert(yes_words()[4] == "ok"@);
    assert(yes_words()[5] == "okay"@);
    assert(yes_words()[6] == "sure"@);
    assert(yes_words()[7] == "approve"@);
    assert(yes_words()[8] == "approved"@);
    assert(yes_words()[9] == "👍"@);
    assert(yes_words()[10] == "✅"@);
    assert(yes_words()[11] == "✔"@);
    assert(no_words()[0] == "no"@);
    assert(no_words()[1] == "n"@);
    assert(no_words()[2] == "nope"@);
    assert(no_words()[3] == "nah"@);
    assert(no_words()[4] == "cancel"@);
    assert(no_words()[5] == "decline"@);
    assert(no_words()[6] == "declined"@);
    assert(no_words()[7] == "reject"@);
    assert(no_words()[8] == "rejected"@);
    assert(no_words()[9] == "👎"@);
    assert(no_words()[10] == "❌"@);
    assert(no_words()[11] == "✖"@);
    assert(!yes_words().contains("no"@)) by {
        assert forall|k: int| 0 <= k < yes_words().len() implies yes_words()[k] != "no"@ by {
            assert("no"@[0] != "ok"@[0]);
        }
    }
    assert(!yes_words().contains("n"@)) by {
        assert forall|k: int| 0 <= k < yes_words().len() implies yes_words()[k] != "n"@ by {
            assert("n"@[0] != "y"@[0]);
            assert("n"@[0] != "👍"@[0]);
            assert("n"@[0] != "✅"@[0]);
            assert("n"@[0] != "✔"@[0]);
        }
    }
    assert(!yes_words().contains("nope"@)) by {
        assert forall|k: int| 0 <= k < yes_words().len() implies yes_words()[k] != "nope"@ by {
            assert("nope"@[0] != "yeah"@[0]);
            assert("nope"@[0] != "okay"@[0]);
            assert("nope"@[0] != "sure"@[0]);
        }
    }
    assert(!yes_words().contains("nah"@)) by {
        assert forall|k: int| 0 <= k < yes_words().len() implies yes_words()[k] != "nah"@ by {
            assert("nah"@[0] != "yes"@[0]);
            assert("nah"@[0] != "yep"@[0]);
        }
    }
    assert(!yes_words().contains("cancel"@)) by {
        assert forall|k: int| 0 <= k < yes_words().len() implies yes_words()[k] != "cancel"@ by {
            assert(yes_words()[k].len() != "cancel"@.len());
        }
    }
    assert(!yes_words().contains("decline"@)) by {
        assert forall|k: int| 0 <= k < yes_words().len() implies yes_words()[k] != "decline"@ by {
            assert("decline"@[0] != "approve"@[0]);
        }
    }
    assert(!yes_words().contains("declined"@)) by {
        assert forall|k: int| 0 <= k < yes_words().len() implies yes_words()[k] != "declined"@ by {
            assert("declined"@[0] != "approved"@[0]);
        }
    }
    assert(!yes_words().contains("reject"@)) by {
        assert forall|k: int| 0 <= k < yes_words().len() implies yes_words()[k] != "reject"@ by {
            assert(yes_words()[k].len() != "reject"@.len());
        }
    }
    assert(!yes_words().contains("rejected"@)) by {
        assert forall|k: int| 0 <= k < yes_words().len() implies yes_words()[k] != "rejected"@ by {
            assert("rejected"@[0] != "approved"@[0]);
        }
    }
    assert(!yes_words().contains("👎"@)) by {
        assert forall|k: int| 0 <= k < yes_words().len() implies yes_words()[k] != "👎"@ by {
            assert("👎"@[0] != "y"@[0]);
            assert("👎"@[0] != "👍"@[0]);
            assert("👎"@[0] != "✅"@[0]);
            assert("👎"@[0] != "✔"@[0]);
        }
    }
    assert(!yes_words().contains("❌"@)) by {
        assert forall|k: int| 0 <= k < yes_words().len() implies yes_words()[k] != "❌"@ by {
            assert("❌"@[0] != "y"@[0]);
            assert("❌"@[0] != "👍"@[0]);
            assert("❌"@[0] != "✅"@[0]);
            assert("❌"@[0] != "✔"@[0]);
        }
    }
    assert(!yes_words().contains("✖"@)) by {
        assert forall|k: int| 0 <= k < yes_words().len() implies yes_words()[k] != "✖"@ by {
            assert("✖"@[0] != "y"@[0]);
            assert("✖"@[0] != "👍"@[0]);
            assert("✖"@[0] != "✅"@[0]);
            assert("✖"@[0] != "✔"@[0]);
        }
    }
}

/// What [`parse_yes_no`] reads from the reply `text`.
pub open spec fn reply_answer(text: Seq<char>) -> Option<bool> {
    yes_no_of(unicode_lowercase(trim_chars(text)))
}

/// Parses a free-text reply as yes or no: trimmed, lowercased, then matched
/// exactly against the word lists. Anything else is `None`, so that the
/// caller can treat the reply as a regular user turn.
pub fn parse_yes_no(text: &str) -> (r: Option<bool>)
    ensures
        r == reply_answer(text@),
{
    let trimmed = trim_string(text);
    let t = to_lowercase(trimmed.as_str());
    yes_no_word(t.as_str())
}

/// The label shown for a response once it is resolved.
pub open spec fn response_label(response: HitlResponse) -> Seq<char> {
    match response {
        HitlResponse::Approval(true) => "✅ Yes"@,
        HitlResponse::Approval(false) => "❌ No"@,
        HitlResponse::Choice(text) => text@,
        HitlResponse::Vault(VaultGrant::Granted { .. }) => "🔑 Granted"@,
        HitlResponse::Vault(VaultGrant::Denied) => "🚫 Denied"@,
    }
}

/// User-facing label for a response, so that the edited message shows what
/// was picked rather than a generic "Resolved".
pub fn response_display(response: &HitlResponse) -> (r: String)
    ensures
        r@ == response_label(*response),
{
    match response {
        HitlResponse::Approval(true) => String::from_str("✅ Yes"),
        HitlResponse::Approval(false) => String::from_str("❌ No"),
        HitlResponse::Choice(text) => text.clone(),
        HitlResponse::Vault(VaultGrant::Granted { .. }) => String::from_str("🔑 Granted"),
        HitlResponse::Vault(VaultGrant::Denied) => String::from_str("🚫 Denied"),
    }
}

/// Whether the tool call holds a request that is pending and was delivered
/// on the channel.
pub open spec fn awaiting_reply(tc: ToolCall) -> bool {
    tc.hitl matches Some(h) && h.status == ToolStatus::Pending && h.delivery is Some
}

/// Whether the tool call's request was delivered as the channel message `q`.
pub open spec fn delivered_as(tc: ToolCall, q: Seq<char>) -> bool {
    tc.hitl matches Some(h) && h.delivery matches Some(d) && d.external_message_id@ == q
}

/// The first awaiting tool call, at or after index `i`, whose request was
/// delivered as the message `q`.
pub open spec fn first_quoted(tcs: Seq<ToolCall>, q: Seq<char>, i: int) -> Option<int>
    decreases tcs.len() - i,
{
    if i < 0 || i >= tcs.len() {
        None
    } else if awaiting_reply(tcs[i]) && delivered_as(tcs[i], q) {
        Some(i)
    } else {
        first_quoted(tcs, q, i + 1)
    }
}

/// Number of awaiting tool calls among the first `n`.
pub open spec fn awaiting_count(tcs: Seq<ToolCall>, n: int) -> nat
    decreases n,
{
    if n <= 0 || n > tcs.len() {
        0
    } else if awaiting_reply(tcs[n - 1]) {
        awaiting_count(tcs, n - 1) + 1
    } else {
        awaiting_count(tcs, n - 1)
    }
}

/// The last awaiting tool call among the first `n`.
pub open spec fn last_awaiting(tcs: Seq<ToolCall>, n: int) -> Option<int>
    decreases n,
{
    if n <= 0 || n > tcs.len() {
        None
    } else if awaiting_reply(tcs[n - 1]) {
        Some(n - 1)
    } else {
        last_awaiting(tcs, n - 1)
    }
}

/// The tool call a reply answers: with a quote, the first awaiting one
/// delivered as the quoted message; without, the only awaiting one, if
/// exactly one is.
pub open spec fn reply_target(tcs: Seq<ToolCall>, quoted: Option<Seq<char>>) -> Option<int> {
    match quoted {
        Some(q) => first_quoted(tcs, q, 0),
        None => if awaiting_count(tcs, tcs.len() as int) == 1 {
            last_awaiting(tcs, tcs.len() as int)
        } else {
            None
        },
    }
}

/// Whether a text reply can answer request `req`: a choice takes any text,
/// an approval needs a yes or a no, and a vault request is answered on the
/// web only.
pub open spec fn reply_answers(req: HitlRequest, text: Seq<char>) -> bool {
    match req {
        HitlRequest::Question { .. } | HitlRequest::Takeover { .. } => true,
        HitlRequest::App { .. } => reply_answer(text) is Some,
        HitlRequest::Credential { .. } => false,
    }
}

/// Whether `resp` is the response that the text reply gives to `req`.
pub open spec fn reply_response(resp: HitlResponse, req: HitlRequest, text: Seq<char>) -> bool {
    match req {
        HitlRequest::Question { .. } | HitlRequest::Takeover { .. } => resp matches HitlResponse::Choice(t) && t@ == text,
        HitlRequest::App { .. } => reply_answer(text) matches Some(b) && resp == HitlResponse::Approval(b),
        HitlRequest::Credential { .. } => false,
    }
}

/// The characters of an optional quoted message id.
pub open spec fn quoted_view(q: Option<&str>) -> Option<Seq<char>> {
    match q {
        Some(s) => Some(s@),
        None => None,
    }
}

fn find_quoted(tool_calls: &[ToolCall], q: &str) -> (r: Option<usize>)
    ensures
        match r {
            Some(i) => first_quoted(tool_calls@, q@, 0) == Some(i as int),
            None => first_quoted(tool_calls@, q@, 0) is None,
        },
{
    let mut i: usize = 0;
    while i < tool_calls.len()
        invariant
            i <= tool_calls@.len(),
            first_quoted(tool_calls@, q@, i as int) == first_quoted(tool_calls@, q@, 0),
        decreases tool_calls@.len() - i,
    {
        let tc = &tool_calls[i];
        if let Some(h) = &tc.hitl {
            if h.status == ToolStatus::Pending {
                if let Some(d) = &h.delivery {
                    let id = chars_of(d.external_message_id.as_str());
                    if equals_str(&id, q) {
                        return Some(i);
                    }
                }
            }
        }
        i = i + 1;
    }
    None
}

fn sole_awaiting(tool_calls: &[ToolCall]) -> (r: Option<usize>)
    ensures
        match r {
            Some(i) => awaiting_count(tool_calls@, tool_calls@.len() as int) == 1 && last_awaiting(
                tool_calls@,
                tool_calls@.len() as int,
            ) == Some(i as int),
            None => awaiting_count(tool_calls@, tool_calls@.len() as int) != 1,
        },
{
    let mut count: usize = 0;
    let mut last: Option<usize> = None;
    let mut i: usize = 0;
    while i < tool_calls.len()
        invariant
            i <= tool_calls@.len(),
            count <= i,
            count == awaiting_count(tool_calls@, i as int),
            last is None <==> count == 0,
            match last {
                Some(k) => last_awaiting(tool_calls@, i as int) == Some(k as int),
                None => last_awaiting(tool_calls@, i as int) is None,
            },
        decreases tool_calls@.len() - i,
    {
        let tc = &tool_calls[i];
        let waiting = match &tc.hitl {
            Some(h) => h.status == ToolStatus::Pending && h.delivery.is_some(),
            None => false,
        };
        if waiting {
            count = count + 1;
            last = Some(i);
        }
        i = i + 1;
    }
    if count == 1 {
        last
    } else {
        None
    }
}

/// Resolves a text reply on a text-only channel (WhatsApp, Signal, SMS)
/// against the tool calls of the paused message: picks the target (see
/// [`reply_target`]) and reads the text as its response. `None` when no
/// request is targeted or the text does not answer it, so that the caller
/// treats the reply as a regular user turn.
pub fn resolve_reply(tool_calls: &[ToolCall], quoted_external_message_id: Option<&str>, text: &str) -> (r: Option<(String, HitlResponse)>)
    ensures
        match r {
            None => match reply_target(tool_calls@, quoted_view(quoted_external_message_id)) {
                None => true,
                Some(t) => !reply_answers(tool_calls@[t].hitl->0.request, text@),
            },
            Some((id, resp)) => reply_target(tool_calls@, quoted_view(quoted_external_message_id)) matches Some(t)
                && id@ == tool_calls@[t].id@
                && reply_response(resp, tool_calls@[t].hitl->0.request, text@),
        },
{
    let target = match quoted_external_message_id {
        Some(q) => find_quoted(tool_calls, q),
        None => sole_awaiting(tool_calls),
    };
    let t = match target {
        Some(t) => t,
        None => return None,
    };
    proof {
        assert(reply_target(tool_calls@, quoted_view(quoted_external_message_id)) == Some(t as int));
        lemma_target_awaiting(tool_calls@, quoted_view(quoted_external_message_id));
    }
    let tc = &tool_calls[t];
    let hitl = match &tc.hitl {
        Some(h) => h,
        None => return None,
    };
    let response = match &hitl.request {
        HitlRequest::Question { .. } | HitlRequest::Takeover { .. } => HitlResponse::Choice(
            String::from_str(text),
        ),
        HitlRequest::App { .. } => match parse_yes_no(text) {
            Some(b) => HitlResponse::Approval(b),
            None => return None,
        },
        HitlRequest::Credential { .. } => return None,
    };
    Some((tc.id.clone(), response))
}

proof fn lemma_first_quoted(tcs: Seq<ToolCall>, q: Seq<char>, i: int)
    ensures
        first_quoted(tcs, q, i) matches Some(t) ==> 0 <= t < tcs.len() && awaiting_reply(tcs[t]),
    decreases tcs.len() - i,
{
    if 0 <= i < tcs.len() && !(awaiting_reply(tcs[i]) && delivered_as(tcs[i], q)) {
        lemma_first_quoted(tcs, q, i + 1);
    }
}

proof fn lemma_last_awaiting(tcs: Seq<ToolCall>, n: int)
    ensures
        last_awaiting(tcs, n) matches Some(t) ==> 0 <= t < tcs.len() && awaiting_reply(tcs[t]),
    decreases n,
{
    if 0 < n <= tcs.len() && !awaiting_reply(tcs[n - 1]) {
        lemma_last_awaiting(tcs, n - 1);
    }
}

/// The targeted tool call is one that awaits a reply.
pub proof fn lemma_target_awaiting(tcs: Seq<ToolCall>, quoted: Option<Seq<char>>)
    ensures
        reply_target(tcs, quoted) matches Some(t) ==> 0 <= t < tcs.len() && awaiting_reply(tcs[t]),
{
    match quoted {
        Some(q) => lemma_first_quoted(tcs, q, 0),
        None => lemma_last_awaiting(tcs, tcs.len() as int),
    }
}

/// What a button callback asks for.
#[derive(Debug, Clone, PartialEq)]
pub enum CallbackAction {
    /// `r:{tool_call_id}:y` or `r:{tool_call_id}:n`.
    Approval { tool_call_id: String, approved: bool },
    /// `r:{tool_call_id}:c:{index}`: the option at `index` of the request.
    Choice { tool_call_id: String, index: usize },
}

/// Why a button callback could not be resolved.
#[derive(Debug, Clone, PartialEq)]
pub enum CallbackError {
    /// The choice index is not a number: `bad choice index: {text}`.
    BadChoiceIndex(String),
    /// The data has none of the known shapes: `malformed callback_data: {data}`.
    Malformed(String),
    /// The index is past the request's options.
    OptionOutOfRange(usize),
    /// A choice callback on a request that offers no choice.
    NotChoice,
}

/// Position of the first `c` in `s` at or after `i`, or the length.
pub open spec fn find_char_from(s: Seq<char>, c: char, i: int) -> int
    decreases s.len() - i,
{
    if i < 0 || i >= s.len() {
        s.len() as int
    } else if s[i] == c {
        i
    } else {
        find_char_from(s, c, i + 1)
    }
}

/// The value of the ASCII digits `d`.
pub open spec fn digits_value(d: Seq<char>) -> nat
    decreases d.len(),
{
    if d.len() == 0 {
        0
    } else {
        digits_value(d.drop_last()) * 10 + ((d.last() as u32) - ('0' as u32)) as nat
    }
}

pub open spec fn all_digits(d: Seq<char>) -> bool {
    forall|i: int| 0 <= i < d.len() ==> '0' <= #[trigger] d[i] <= '9'
}

/// What std's `usize::from_str` accepts: an optional `+` and one or more
/// ASCII digits whose value fits in `usize`.
pub open spec fn parsed_usize(s: Seq<char>) -> Option<nat> {
    let d = if s.len() > 0 && s[0] == '+' {
        s.drop_first()
    } else {
        s
    };
    if d.len() > 0 && all_digits(d) && digits_value(d) <= usize::MAX {
        Some(digits_value(d))
    } else {
        None
    }
}

/// Parses `s` as a `usize` as std's `usize::from_str` does.
pub fn parse_usize(s: &Vec<char>, lo: usize) -> (r: Option<usize>)
    requires
        lo <= s@.len(),
    ensures
        match r {
            Some(n) => parsed_usize(s@.subrange(lo as int, s@.len() as int)) == Some(n as nat),
            None => parsed_usize(s@.subrange(lo as int, s@.len() as int)) is None,
        },
{
    let ghost whole = s@.subrange(lo as int, s@.len() as int);
    let mut i = lo;
    if i < s.len() && s[i] == '+' {
        i = i + 1;
    }
    let ghost d = s@.subrange(i as int, s@.len() as int);
    assert(d =~= (if whole.len() > 0 && whole[0] == '+' { whole.drop_first() } else { whole }));
    if i >= s.len() {
        return None;
    }
    let start = i;
    let mut value: usize = 0;
    while i < s.len()
        invariant
            start <= i <= s@.len(),
            lo <= start,
            whole == s@.subrange(lo as int, s@.len() as int),
            d == (if whole.len() > 0 && whole[0] == '+' { whole.drop_first() } else { whole }),
            d == s@.subrange(start as int, s@.len() as int),
            all_digits(s@.subrange(start as int, i as int)),
            value as nat == digits_value(s@.subrange(start as int, i as int)),
        decreases s@.len() - i,
    {
        let c = s[i];
        if !('0' <= c && c <= '9') {
            assert(d[i - start] == c);
            return None;
        }
        let digit = ((c as u32) - 48) as usize;
        assert(s@.subrange(start as int, i + 1).drop_last() =~= s@.subrange(start as int, i as int));
        assert(s@.subrange(start as int, i + 1).last() == c);
        assert(d.subrange(0, i - start + 1) =~= s@.subrange(start as int, i + 1));
        assert(all_digits(d.subrange(0, i - start + 1)));
        match value.checked_mul(10) {
            Some(v10) => match v10.checked_add(digit) {
                Some(v) => {
                    value = v;
                },
                None => {
                    proof {
                        lemma_digits_value_grows(d, i - start + 1);
                    }
                    return None;
                },
            },
            None => {
                proof {
                    lemma_digits_value_grows(d, i - start + 1);
                }
                return None;
            },
        }
        i = i + 1;
    }
    assert(s@.subrange(start as int, i as int) =~= d);
    Some(value)
}

/// The value of a prefix of digits never exceeds the value of the whole.
proof fn lemma_digits_value_grows(d: Seq<char>, k: int)
    requires
        0 <= k <= d.len(),
        all_digits(d.subrange(0, k)),
    ensures
        all_digits(d) ==> digits_value(d.subrange(0, k)) <= digits_value(d),
    decreases d.len() - k,
{
    if k < d.len() && all_digits(d) {
        assert(d.subrange(0, k + 1).drop_last() =~= d.subrange(0, k));
        lemma_digits_value_grows(d, k + 1);
        assert(d.subrange(0, d.len() as int) =~= d);
    } else if k == d.len() {
        assert(d.subrange(0, k) =~= d);
    }
}

/// What a callback `data` holds, split on its first three colons: `Some`
/// with the tool call id and the action when it has one of the known
/// shapes, an `Err` holding the offending text otherwise (`true` for a bad
/// choice index, `false` for malformed data).
pub open spec fn callback_of(s: Seq<char>) -> Result<(Seq<char>, Option<bool>, nat), (bool, Seq<char>)> {
    let c1 = find_char_from(s, ':', 0);
    let c2 = find_char_from(s, ':', c1 + 1);
    let c3 = find_char_from(s, ':', c2 + 1);
    if c2 >= s.len() || s.subrange(0, c1) != "r"@ {
        Err((false, s))
    } else {
        let id = s.subrange(c1 + 1, c2);
        if c3 >= s.len() {
            let tag = s.subrange(c2 + 1, s.len() as int);
            if tag == "y"@ {
                Ok((id, Some(true), 0))
            } else if tag == "n"@ {
                Ok((id, Some(false), 0))
            } else {
                Err((false, s))
            }
        } else if s.subrange(c2 + 1, c3) == "c"@ {
            let idx = s.subrange(c3 + 1, s.len() as int);
            match parsed_usize(idx) {
                Some(n) => Ok((id, None, n)),
                None => Err((true, idx)),
            }
        } else {
            Err((false, s))
        }
    }
}

/// The first `c` at or after `i` is at `k` when none lies in between.
pub proof fn lemma_find_char_at(s: Seq<char>, c: char, i: int, k: int)
    requires
        0 <= i <= k <= s.len(),
        forall|j: int| i <= j < k ==> s[j] != c,
        k == s.len() || s[k] == c,
    ensures
        find_char_from(s, c, i) == k,
    decreases k - i,
{
    if i < k {
        lemma_find_char_at(s, c, i + 1, k);
    }
}

/// The digits of a number read back as that number.
pub proof fn lemma_decimal_value(n: nat)
    ensures
        all_digits(decimal(n)),
        digits_value(decimal(n)) == n,
    decreases n,
{
    lemma_decimal_digits(n);
    if n >= 10 {
        lemma_decimal_value(n / 10);
        let d = decimal(n);
        assert(d.drop_last() =~= decimal(n / 10));
        let c = d.last();
        assert(c == ((('0' as u32) + (n % 10)) as char));
        assert((c as u32) == ('0' as u32) + n % 10);
        assert((n / 10) * 10 + n % 10 == n);
        assert(digits_value(d) == digits_value(d.drop_last()) * 10 + ((c as u32) - ('0' as u32)) as nat);
    } else {
        let c = decimal(n)[0];
        assert((c as u32) == ('0' as u32) + n);
        assert(decimal(n).drop_last() =~= Seq::<char>::empty());
        assert(digits_value(Seq::<char>::empty()) == 0);
    }
}

/// Where the colons of `r:{id}{tail}` lie, for an id without one and a
/// two-character tail `:x`.
proof fn lemma_approval_data(t: Seq<char>, tail: Seq<char>)
    requires
        forall|j: int| 0 <= j < t.len() ==> t[j] != ':',
        tail.len() == 2,
        tail[0] == ':',
        tail[1] != ':',
    ensures
        ({
            let s = "r:"@ + t + tail;
            let e = 2 + t.len() as int;
            &&& find_char_from(s, ':', 0) == 1
            &&& find_char_from(s, ':', 2) == e
            &&& find_char_from(s, ':', e + 1) == s.len()
            &&& s.subrange(0, 1) == "r"@
            &&& s.subrange(2, e) == t
            &&& s.subrange(e + 1, s.len() as int) == tail.subrange(1, 2)
        }),
{
    reveal_strlit("r:");
    reveal_strlit("r");
    let s = "r:"@ + t + tail;
    let e = 2 + t.len() as int;
    lemma_find_char_at(s, ':', 0, 1);
    lemma_find_char_at(s, ':', 2, e);
    lemma_find_char_at(s, ':', e + 1, s.len() as int);
    assert(s.subrange(0, 1) =~= "r"@);
    assert(s.subrange(2, e) =~= t);
    assert(s.subrange(e + 1, s.len() as int) =~= tail.subrange(1, 2));
}

/// The callback data that the Discord and Telegram buttons carry read back
/// as what they were made of: `r:{id}:y` approves, `r:{id}:n` rejects and
/// `r:{id}:c:{i}` picks option `i`, for a tool call id without a colon.
pub proof fn law_callback_data_round_trip(tool_call_id: Seq<char>, index: nat)
    requires
        !tool_call_id.contains(':'),
        index <= usize::MAX,
    ensures
        callback_of("r:"@ + tool_call_id + ":y"@) == Ok::<(Seq<char>, Option<bool>, nat), (bool, Seq<char>)>(
            (tool_call_id, Some(true), 0),
        ),
        callback_of("r:"@ + tool_call_id + ":n"@) == Ok::<(Seq<char>, Option<bool>, nat), (bool, Seq<char>)>(
            (tool_call_id, Some(false), 0),
        ),
        callback_of("r:"@ + tool_call_id + ":c:"@ + decimal(index)) == Ok::<
            (Seq<char>, Option<bool>, nat),
            (bool, Seq<char>),
        >((tool_call_id, None, index)),
{
    reveal_strlit("r:");
    reveal_strlit(":y");
    reveal_strlit(":n");
    reveal_strlit(":c:");
    reveal_strlit("r");
    reveal_strlit("y");
    reveal_strlit("n");
    reveal_strlit("c");
    let t = tool_call_id;
    let e: int = 2 + t.len() as int;
    assert forall|j: int| 0 <= j < t.len() implies t[j] != ':' by {
        if t[j] == ':' {
            assert(t.contains(':'));
        }
    }
    lemma_approval_data(t, ":y"@);
    lemma_approval_data(t, ":n"@);
    assert(":y"@.subrange(1, 2) =~= "y"@);
    assert(":n"@.subrange(1, 2) =~= "n"@);
    assert("n"@ != "y"@) by {
        assert("n"@[0] != "y"@[0]);
    }
    let d = decimal(index);
    lemma_decimal_value(index);
    let s = "r:"@ + t + ":c:"@ + d;
    lemma_find_char_at(s, ':', 0, 1);
    lemma_find_char_at(s, ':', 2, e);
    lemma_find_char_at(s, ':', e + 1, e + 2);
    assert(s.subrange(0, 1) =~= "r"@);
    assert(s.subrange(2, e) =~= t);
    assert(s.subrange(e + 1, e + 2) =~= "c"@);
    assert(s.subrange(e + 3, s.len() as int) =~= d);
    assert(d[0] != '+');
}

fn find_char(v: &Vec<char>, c: char, from: usize) -> (r: usize)
    requires
        from <= v@.len(),
    ensures
        r == find_char_from(v@, c, from as int),
        from <= r <= v@.len(),
{
    let mut i = from;
    while i < v.len() && v[i] != c
        invariant
            from <= i <= v@.len(),
            find_char_from(v@, c, i as int) == find_char_from(v@, c, from as int),
        decreases v@.len() - i,
    {
        i = i + 1;
    }
    i
}

fn range_is(v: &Vec<char>, lo: usize, hi: usize, lit: &str) -> (r: bool)
    requires
        lo <= hi <= v@.len(),
    ensures
        r == (v@.subrange(lo as int, hi as int) == lit@),
{
    let piece = crate::text::string_from_chars(v, lo, hi);
    let pv = chars_of(piece.as_str());
    equals_str(&pv, lit)
}

/// Parses the callback data of a resolve button: `r:{id}:y`, `r:{id}:n`
/// or `r:{id}:c:{index}`.
pub fn parse_callback_data(data: &str) -> (r: Result<CallbackAction, CallbackError>)
    ensures
        match r {
            Ok(CallbackAction::Approval { tool_call_id, approved }) => callback_of(data@) == Ok::<
                (Seq<char>, Option<bool>, nat),
                (bool, Seq<char>),
            >((tool_call_id@, Some(approved), 0)),
            Ok(CallbackAction::Choice { tool_call_id, index }) => callback_of(data@) == Ok::<
                (Seq<char>, Option<bool>, nat),
                (bool, Seq<char>),
            >((tool_call_id@, None, index as nat)),
            Err(CallbackError::BadChoiceIndex(t)) => callback_of(data@) == Err::<
                (Seq<char>, Option<bool>, nat),
                (bool, Seq<char>),
            >((true, t@)),
            Err(CallbackError::Malformed(t)) => callback_of(data@) == Err::<
                (Seq<char>, Option<bool>, nat),
                (bool, Seq<char>),
            >((false, t@)),
            Err(_) => false,
        },
{
    let v = chars_of(data);
    let n = v.len();
    let c1 = find_char(&v, ':', 0);
    let c2 = if c1 < n {
        find_char(&v, ':', c1 + 1)
    } else {
        n
    };
    proof {
        if c1 >= n {
            assert(find_char_from(v@, ':', c1 + 1) == v@.len());
        }
    }
    let c3 = if c2 < n {
        find_char(&v, ':', c2 + 1)
    } else {
        n
    };
    proof {
        if c2 >= n {
            assert(find_char_from(v@, ':', c2 + 1) == v@.len());
        }
    }
    if c2 >= n || !range_is(&v, 0, c1, "r") {
        return Err(CallbackError::Malformed(String::from_str(data)));
    }
    let id = crate::text::string_from_chars(&v, c1 + 1, c2);
    if c3 >= n {
        if range_is(&v, c2 + 1, n, "y") {
            return Ok(CallbackAction::Approval { tool_call_id: id, approved: true });
        }
        if range_is(&v, c2 + 1, n, "n") {
            return Ok(CallbackAction::Approval { tool_call_id: id, approved: false });
        }
        return Err(CallbackError::Malformed(String::from_str(data)));
    }
    if !range_is(&v, c2 + 1, c3, "c") {
        return Err(CallbackError::Malformed(String::from_str(data)));
    }
    match parse_usize(&v, c3 + 1) {
        Some(index) => Ok(CallbackAction::Choice { tool_call_id: id, index }),
        None => Err(CallbackError::BadChoiceIndex(crate::text::string_from_chars(&v, c3 + 1, n))),
    }
}

/// The option that choice callback `index` picks on request `req`: the
/// option at that index of a question, `"Done"` for a takeover.
pub fn choice_for(req: &HitlRequest, index: usize) -> (r: Result<String, CallbackError>)
    ensures
        match r {
            Ok(s) => match *req {
                HitlRequest::Question { options } => index < options@.len() && s@ == options@[index as int]@,
                HitlRequest::Takeover { .. } => s@ == "Done"@,
                _ => false,
            },
            Err(CallbackError::OptionOutOfRange(i)) => i == index && (req matches HitlRequest::Question { options } && index >= options@.len()),
            Err(CallbackError::NotChoice) => choice_options(*req) is None,
            Err(_) => false,
        },
{
    match req {
        HitlRequest::Question { options } => {
            if index < options.len() {
                Ok(options[index].clone())
            } else {
                Err(CallbackError::OptionOutOfRange(index))
            }
        },
        HitlRequest::Takeover { .. } => Ok(String::from_str("Done")),
        _ => Err(CallbackError::NotChoice),
    }
}

} // verus!
