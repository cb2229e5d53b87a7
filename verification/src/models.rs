//! Channel and chat data: manifests that describe a channel provider, the
//! requests that create or update channels and chats, inbound messages, and
//! the small classifications the adapters share.

use vstd::prelude::*;
use std::collections::BTreeMap;
use crate::attachment::Attachment;
use crate::error::AppError;
use crate::text::{chars_of, has_prefix, starts_with_str, string_from_chars};

verus! {

/// What a channel provider shows of itself when a user sets it up.
#[derive(Debug, Clone)]
pub struct ChannelManifest {
    pub id: String,
    pub display_name: String,
    /// Markdown.
    pub description: String,
    pub config_fields: Vec<ChannelConfigField>,
    pub webhook_url_visible: bool,
    /// Markdown.
    pub setup_instructions: Option<String>,
    pub external_links: Vec<ExternalLink>,
}

#[derive(Debug, Clone, PartialEq, Eq)]
pub struct ExternalLink {
    pub label: String,
    pub url: String,
}

/// One configuration value a channel provider asks for.
#[derive(Debug, Clone)]
pub struct ChannelConfigField {
    pub name: String,
    pub description: Option<String>,
    pub is_required: bool,
    pub is_secret: bool,
    pub format: Option<String>,
    /// Server configuration value that pre-fills this field.
    pub default_from: Option<ConfigRef>,
    /// `None` for secrets: their values never leave the server.
    pub default_resolved: Option<String>,
}

/// A `section.field` of the server configuration.
#[derive(Debug, Clone, PartialEq, Eq)]
pub struct ConfigRef {
    pub section: String,
    pub field: String,
}

#[derive(Debug, Clone, Copy, PartialEq, Eq, Structural)]
pub enum ChannelStatus {
    Disconnected,
    Connecting,
    Connected,
    Failed,
    Setup,
    Pairing,
}

/// How inbound messages of a channel reach its agent.
#[derive(Debug, Clone, Copy, PartialEq, Eq, Structural)]
pub enum DispatchMode {
    Message,
    Signal,
}

impl Default for DispatchMode {
    fn default() -> (r: DispatchMode)
        ensures
            r == DispatchMode::Message,
    {
        DispatchMode::Message
    }
}

#[derive(Debug, Clone)]
pub struct CreateChannelRequest {
    pub space_id: String,
    pub provider: String,
    pub agent_id: String,
    pub config: BTreeMap<String, String>,
    pub dispatch_mode: DispatchMode,
}

#[derive(Debug, Clone)]
pub struct UpdateChannelRequest {
    pub agent_id: Option<String>,
    pub config: Option<BTreeMap<String, String>>,
    pub dispatch_mode: Option<DispatchMode>,
}

/// A message received from a provider, before it reaches a chat.
#[derive(Debug, Clone)]
pub struct ExternalMessage {
    pub external_chat_id: String,
    pub sender_address: String,
    /// `None`: a contact is synthesized for authorization only.
    pub sender_external_id: Option<String>,
    pub sender_display_name: Option<String>,
    pub content: String,
    pub attachments: Vec<Attachment>,
}

/// A chat; times are milliseconds since the Unix epoch.
#[derive(Debug, Clone)]
pub struct Chat {
    pub id: String,
    pub user_id: String,
    pub space_id: Option<String>,
    pub task_id: Option<String>,
    pub agent_id: String,
    pub title: Option<String>,
    pub channel_external_id: Option<String>,
    pub archived_at: Option<i64>,
    pub created_at: i64,
    pub updated_at: i64,
}

/// The value of the last pair among the first `n` of `pairs` with key `key`.
pub open spec fn last_value(pairs: Seq<(String, String)>, n: int, key: Seq<char>) -> Option<Seq<char>>
    decreases n,
{
    if n <= 0 || n > pairs.len() {
        None
    } else if pairs[n - 1].0@ == key {
        Some(pairs[n - 1].1@)
    } else {
        last_value(pairs, n - 1, key)
    }
}

/// The server default for the configuration key `key`: that of the last
/// field among the first `n` named `key` that takes a default the server
/// configuration resolves (`defaults[i]` for field `i`).
pub open spec fn default_value(fields: Seq<ChannelConfigField>, defaults: Seq<Option<String>>, n: int, key: Seq<char>) -> Option<Seq<char>>
    decreases n,
{
    if n <= 0 || n > fields.len() || n > defaults.len() {
        None
    } else if fields[n - 1].name@ == key && fields[n - 1].default_from is Some && defaults[n - 1] is Some {
        Some(defaults[n - 1]->0@)
    } else {
        default_value(fields, defaults, n - 1, key)
    }
}

/// The value a channel's resolved configuration holds for `key`: a secret
/// projected from its credentials (the last one), else the channel's own
/// setting, else the server default of the field of that name.
pub open spec fn resolved_value(
    fields: Seq<ChannelConfigField>,
    defaults: Seq<Option<String>>,
    config: Seq<(String, String)>,
    secrets: Seq<(String, String)>,
    key: Seq<char>,
) -> Option<Seq<char>> {
    match last_value(secrets, secrets.len() as int, key) {
        Some(v) => Some(v),
        None => match last_value(config, config.len() as int, key) {
            Some(v) => Some(v),
            None => default_value(fields, defaults, fields.len() as int, key),
        },
    }
}

/// The first of the first `n` fields that is required and that the
/// resolved configuration lacks.
pub open spec fn first_unresolved(
    fields: Seq<ChannelConfigField>,
    defaults: Seq<Option<String>>,
    config: Seq<(String, String)>,
    secrets: Seq<(String, String)>,
    n: int,
) -> Option<int>
    decreases n,
{
    if n <= 0 {
        None
    } else {
        match first_unresolved(fields, defaults, config, secrets, n - 1) {
            Some(i) => Some(i),
            None => if fields[n - 1].is_required && resolved_value(fields, defaults, config, secrets, fields[n - 1].name@) is None {
                Some(n - 1)
            } else {
                None
            },
        }
    }
}

/// Once a field is found unresolved, later fields do not change which.
proof fn lemma_first_unresolved_stays(
    fields: Seq<ChannelConfigField>,
    defaults: Seq<Option<String>>,
    config: Seq<(String, String)>,
    secrets: Seq<(String, String)>,
    n: int,
    m: int,
)
    requires
        0 <= n <= m,
    ensures
        first_unresolved(fields, defaults, config, secrets, n) is Some ==> first_unresolved(fields, defaults, config, secrets, m)
            == first_unresolved(fields, defaults, config, secrets, n),
    decreases m - n,
{
    if n < m {
        lemma_first_unresolved_stays(fields, defaults, config, secrets, n, m - 1);
    }
}

/// No key appears twice among `pairs`.
pub open spec fn distinct_keys(pairs: Seq<(String, String)>) -> bool {
    forall|i: int, j: int| 0 <= i < j < pairs.len() ==> (#[trigger] pairs[i]).0@ != (#[trigger] pairs[j]).0@
}

proof fn lemma_last_value_distinct(pairs: Seq<(String, String)>, n: int, key: Seq<char>)
    requires
        distinct_keys(pairs),
        0 <= n <= pairs.len(),
    ensures
        forall|k: int| 0 <= k < n && (#[trigger] pairs[k]).0@ == key ==> last_value(pairs, n, key) == Some(pairs[k].1@),
        (forall|k: int| 0 <= k < n ==> (#[trigger] pairs[k]).0@ != key) ==> last_value(pairs, n, key) is None,
    decreases n,
{
    if n > 0 {
        lemma_last_value_distinct(pairs, n - 1, key);
    }
}

/// Sets `key` to `value` in `out`, replacing the value it had.
fn put(out: &mut Vec<(String, String)>, key: &str, value: &str)
    requires
        distinct_keys(old(out)@),
    ensures
        distinct_keys(final(out)@),
        last_value(final(out)@, final(out)@.len() as int, key@) == Some(value@),
        forall|other: Seq<char>| other != key@ ==> last_value(final(out)@, final(out)@.len() as int, other)
            == last_value(old(out)@, old(out)@.len() as int, other),
{
    let ghost before = out@;
    let found = key_position(out, key);
    if let Some(i) = found {
        out.set(i, (String::from_str(key), String::from_str(value)));
        proof {
            let after = out@;
            assert forall|a: int, b: int| 0 <= a < b < after.len() implies (#[trigger] after[a]).0@ != (#[trigger] after[b]).0@ by {
                assert(before[a].0@ != before[b].0@);
            }
            assert(after[i as int].0@ == key@ && after[i as int].1@ == value@);
            lemma_last_value_distinct(after, after.len() as int, key@);
            assert forall|other: Seq<char>| other != key@ implies last_value(after, after.len() as int, other)
                == last_value(before, before.len() as int, other) by {
                lemma_last_value_distinct(after, after.len() as int, other);
                lemma_last_value_distinct(before, before.len() as int, other);
                if exists|k: int| 0 <= k < before.len() && (#[trigger] before[k]).0@ == other {
                    let k = choose|k: int| 0 <= k < before.len() && (#[trigger] before[k]).0@ == other;
                    assert(after[k] == before[k]);
                } else {
                    assert forall|k: int| 0 <= k < after.len() implies (#[trigger] after[k]).0@ != other by {
                        if k != i {
                            assert(after[k] == before[k]);
                        }
                    }
                }
            }
        }
    } else {
        out.push((String::from_str(key), String::from_str(value)));
        proof {
            let after = out@;
            assert forall|a: int, b: int| 0 <= a < b < after.len() implies (#[trigger] after[a]).0@ != (#[trigger] after[b]).0@ by {
                if b < before.len() {
                    assert(before[a].0@ != before[b].0@);
                } else {
                    assert(after[a] == before[a]);
                }
            }
            assert forall|other: Seq<char>| other != key@ implies last_value(after, after.len() as int, other)
                == last_value(before, before.len() as int, other) by {
                assert(after[after.len() - 1].0@ == key@);
                lemma_last_value_prefix(after, before.len() as int, other);
                assert(after.subrange(0, before.len() as int) =~= before);
            }
        }
    }
}

/// Only the first `n` pairs count for `last_value(.., n, ..)`.
proof fn lemma_last_value_prefix(pairs: Seq<(String, String)>, n: int, key: Seq<char>)
    requires
        0 <= n < pairs.len(),
        n + 1 == pairs.len(),
        pairs[n].0@ != key,
    ensures
        last_value(pairs, pairs.len() as int, key) == last_value(pairs.subrange(0, n), n, key),
{
    lemma_last_value_sub(pairs, n, key);
}

proof fn lemma_last_value_sub(pairs: Seq<(String, String)>, n: int, key: Seq<char>)
    requires
        0 <= n <= pairs.len(),
    ensures
        last_value(pairs, n, key) == last_value(pairs.subrange(0, n), n, key),
    decreases n,
{
    if n > 0 {
        lemma_last_value_sub(pairs, n - 1, key);
        lemma_last_value_sub(pairs.subrange(0, n), n - 1, key);
        assert(pairs.subrange(0, n).subrange(0, n - 1) =~= pairs.subrange(0, n - 1));
    }
}

/// The configuration a channel starts with, from the fields of its
/// provider (`defaults[i]` being what the server configuration resolves for
/// the default of field `i`), the channel's own settings and the secrets
/// projected from its credentials, later sources overriding earlier ones.
/// `Err` names the first required field left without a value.
pub fn resolve_config_values(
    fields: &[ChannelConfigField],
    defaults: &[Option<String>],
    config: &[(String, String)],
    secrets: &[(String, String)],
) -> (r: Result<Vec<(String, String)>, String>)
    requires
        defaults@.len() == fields@.len(),
    ensures
        match r {
            Ok(out) => first_unresolved(fields@, defaults@, config@, secrets@, fields@.len() as int) is None
                && distinct_keys(out@)
                && forall|key: Seq<char>| #[trigger] last_value(out@, out@.len() as int, key)
                    == resolved_value(fields@, defaults@, config@, secrets@, key),
            Err(name) => first_unresolved(fields@, defaults@, config@, secrets@, fields@.len() as int) matches Some(i)
                && name@ == fields@[i].name@,
        },
{
    let mut out: Vec<(String, String)> = Vec::new();
    let mut i: usize = 0;
    while i < fields.len()
        invariant
            i <= fields@.len(),
            defaults@.len() == fields@.len(),
            distinct_keys(out@),
            forall|key: Seq<char>| #[trigger] last_value(out@, out@.len() as int, key) == default_value(fields@, defaults@, i as int, key),
        decreases fields@.len() - i,
    {
        if fields[i].default_from.is_some() {
            if let Some(v) = &defaults[i] {
                put(&mut out, fields[i].name.as_str(), v.as_str());
            }
        }
        i = i + 1;
    }
    let mut j: usize = 0;
    while j < config.len()
        invariant
            j <= config@.len(),
            distinct_keys(out@),
            forall|key: Seq<char>| #[trigger] last_value(out@, out@.len() as int, key) == match last_value(config@, j as int, key) {
                Some(v) => Some(v),
                None => default_value(fields@, defaults@, fields@.len() as int, key),
            },
        decreases config@.len() - j,
    {
        put(&mut out, config[j].0.as_str(), config[j].1.as_str());
        j = j + 1;
    }
    let mut m: usize = 0;
    while m < secrets.len()
        invariant
            m <= secrets@.len(),
            distinct_keys(out@),
            forall|key: Seq<char>| #[trigger] last_value(out@, out@.len() as int, key) == match last_value(secrets@, m as int, key) {
                Some(v) => Some(v),
                None => match last_value(config@, config@.len() as int, key) {
                    Some(v) => Some(v),
                    None => default_value(fields@, defaults@, fields@.len() as int, key),
                },
            },
        decreases secrets@.len() - m,
    {
        put(&mut out, secrets[m].0.as_str(), secrets[m].1.as_str());
        m = m + 1;
    }
    let mut q: usize = 0;
    while q < fields.len()
        invariant
            q <= fields@.len(),
            distinct_keys(out@),
            defaults@.len() == fields@.len(),
            forall|key: Seq<char>| #[trigger] last_value(out@, out@.len() as int, key) == resolved_value(fields@, defaults@, config@, secrets@, key),
            first_unresolved(fields@, defaults@, config@, secrets@, q as int) is None,
        decreases fields@.len() - q,
    {
        if fields[q].is_required && !has_key(&out, fields[q].name.as_str()) {
            proof {
                lemma_first_unresolved_stays(fields@, defaults@, config@, secrets@, q + 1, fields@.len() as int);
            }
            return Err(fields[q].name.clone());
        }
        q = q + 1;
    }
    Ok(out)
}

/// Whether `key` has a value in `out`.
fn has_key(out: &Vec<(String, String)>, key: &str) -> (r: bool)
    requires
        distinct_keys(out@),
    ensures
        r == (last_value(out@, out@.len() as int, key@) is Some),
{
    proof {
        lemma_last_value_distinct(out@, out@.len() as int, key@);
    }
    key_position(out, key).is_some()
}

/// Where `key` is among `out`, if it is.
fn key_position(out: &Vec<(String, String)>, key: &str) -> (r: Option<usize>)
    ensures
        match r {
            Some(i) => i < out@.len() && out@[i as int].0@ == key@,
            None => forall|k: int| 0 <= k < out@.len() ==> (#[trigger] out@[k]).0@ != key@,
        },
{
    let kv = chars_of(key);
    let mut i: usize = 0;
    while i < out.len()
        invariant
            i <= out@.len(),
            kv@ == key@,
            forall|k: int| 0 <= k < i ==> (#[trigger] out@[k]).0@ != key@,
        decreases out@.len() - i,
    {
        if crate::text::equals_str(&kv, out[i].0.as_str()) {
            return Some(i);
        }
        i = i + 1;
    }
    None
}

/// The characters of an optional string.
pub open spec fn opt_view(o: Option<String>) -> Option<Seq<char>> {
    match o {
        Some(s) => Some(s@),
        None => None,
    }
}

/// `f` with its shown default as [`show_resolved_defaults`] sets it.
pub open spec fn shown_default(f: ChannelConfigField, g: ChannelConfigField, default: Option<String>) -> bool {
    &&& g.name == f.name
    &&& g.description == f.description
    &&& g.is_required == f.is_required
    &&& g.is_secret == f.is_secret
    &&& g.format == f.format
    &&& g.default_from == f.default_from
    &&& opt_view(g.default_resolved) == (if !f.is_secret && f.default_from is Some {
        opt_view(default)
    } else {
        opt_view(f.default_resolved)
    })
}

/// Fills in, for the list of providers, the server defaults of the fields
/// of `manifest` that take one (`defaults[i]` for field `i`); secret fields
/// keep theirs unset, since their values never leave the server.
pub fn show_resolved_defaults(manifest: &mut ChannelManifest, defaults: &[Option<String>])
    requires
        defaults@.len() == old(manifest).config_fields@.len(),
    ensures
        final(manifest).id == old(manifest).id,
        final(manifest).display_name == old(manifest).display_name,
        final(manifest).description == old(manifest).description,
        final(manifest).webhook_url_visible == old(manifest).webhook_url_visible,
        final(manifest).setup_instructions == old(manifest).setup_instructions,
        final(manifest).external_links == old(manifest).external_links,
        final(manifest).config_fields@.len() == old(manifest).config_fields@.len(),
        forall|i: int| 0 <= i < old(manifest).config_fields@.len() ==> shown_default(
            old(manifest).config_fields@[i],
            #[trigger] final(manifest).config_fields@[i],
            defaults@[i],
        ),
{
    let ghost before = manifest.config_fields@;
    let mut i: usize = 0;
    while i < manifest.config_fields.len()
        invariant
            i <= manifest.config_fields@.len(),
            manifest.config_fields@.len() == before.len(),
            defaults@.len() == before.len(),
            manifest.id == old(manifest).id,
            manifest.display_name == old(manifest).display_name,
            manifest.description == old(manifest).description,
            manifest.webhook_url_visible == old(manifest).webhook_url_visible,
            manifest.setup_instructions == old(manifest).setup_instructions,
            manifest.external_links == old(manifest).external_links,
            before == old(manifest).config_fields@,
            forall|k: int| i <= k < before.len() ==> #[trigger] manifest.config_fields@[k] == before[k],
            forall|k: int| 0 <= k < i ==> shown_default(before[k], #[trigger] manifest.config_fields@[k], defaults@[k]),
        decreases before.len() - i,
    {
        if !manifest.config_fields[i].is_secret && manifest.config_fields[i].default_from.is_some() {
            let d = match &defaults[i] {
                Some(v) => Some(String::from_str(v.as_str())),
                None => None,
            };
            let ghost mid = manifest.config_fields@;
            let mut f = manifest.config_fields.remove(i);
            f.default_resolved = d;
            manifest.config_fields.insert(i, f);
            proof {
                assert(manifest.config_fields@ == mid.remove(i as int).insert(i as int, f));
                assert forall|k: int| 0 <= k < mid.len() && k != i implies #[trigger] manifest.config_fields@[k] == mid[k] by {
                    if k < i {
                        assert(mid.remove(i as int)[k] == mid[k]);
                    } else {
                        assert(mid.remove(i as int)[k - 1] == mid[k]);
                    }
                }
            }
        }
        i = i + 1;
    }
}

/// The provider's id of the chat that an outbound message goes to; a chat
/// without one cannot be delivered to.
pub fn external_chat_id(chat: &Chat) -> (r: Result<&str, AppError>)
    ensures
        match r {
            Ok(id) => chat.channel_external_id matches Some(e) && id@ == e@,
            Err(AppError::Validation(m)) => chat.channel_external_id is None
                && m@ == "missing channel_external_id on Chat \u{2014} cannot deliver outbound"@,
            Err(_) => false,
        },
{
    match &chat.channel_external_id {
        Some(id) => Ok(id.as_str()),
        None => Err(AppError::Validation(String::from_str(
            "missing channel_external_id on Chat \u{2014} cannot deliver outbound",
        ))),
    }
}

/// A stored record: the table it is kept in and the key it is kept under.
pub trait Entity {
    fn table() -> &'static str;

    fn id(&self) -> &str;
}

impl Entity for Chat {
    /// Chats are kept in the `chat` table.
    fn table() -> (r: &'static str)
        ensures
            r@ == "chat"@,
    {
        "chat"
    }

    /// A chat is kept under its id.
    fn id(&self) -> (r: &str)
        ensures
            r@ == self.id@,
    {
        self.id.as_str()
    }
}

#[derive(Debug, Clone)]
pub struct CreateChatRequest {
    pub space_id: Option<String>,
    pub task_id: Option<String>,
    pub agent_id: String,
    pub title: Option<String>,
}

#[derive(Debug, Clone)]
pub struct UpdateChatRequest {
    pub title: Option<String>,
    pub space_id: Option<String>,
}

#[derive(Debug, Clone, Copy, PartialEq, Eq, Structural)]
pub enum ChatType {
    Direct,
    Group,
}

/// A chat is direct when its external id starts with `dm:`.
pub open spec fn chat_type_of(external_id: Seq<char>) -> ChatType {
    if has_prefix(external_id, "dm:"@) {
        ChatType::Direct
    } else {
        ChatType::Group
    }
}

impl ChatType {
    pub open spec fn name(self) -> Seq<char> {
        match self {
            ChatType::Direct => "direct"@,
            ChatType::Group => "group"@,
        }
    }

    pub fn as_str(self) -> (r: &'static str)
        ensures
            r@ == self.name(),
    {
        match self {
            ChatType::Direct => "direct",
            ChatType::Group => "group",
        }
    }

    pub fn from_external_id(external_id: &str) -> (r: ChatType)
        ensures
            r == chat_type_of(external_id@),
    {
        let v = chars_of(external_id);
        if starts_with_str(&v, "dm:") {
            ChatType::Direct
        } else {
            ChatType::Group
        }
    }

    /// The type of a chat by its external id; a chat without one is a group.
    pub fn from_chat(chat: &Chat) -> (r: ChatType)
        ensures
            r == match chat.channel_external_id {
                Some(id) => chat_type_of(id@),
                None => ChatType::Group,
            },
    {
        match &chat.channel_external_id {
            Some(id) => ChatType::from_external_id(id.as_str()),
            None => ChatType::Group,
        }
    }
}

/// Whether `name` is one of `names`.
pub open spec fn listed(names: Seq<String>, name: Seq<char>) -> bool {
    exists|k: int| 0 <= k < names.len() && (#[trigger] names[k])@ == name
}

fn is_listed(names: &[String], name: &String) -> (r: bool)
    ensures
        r == listed(names@, name@),
{
    let target = chars_of(name.as_str());
    let mut k: usize = 0;
    while k < names.len()
        invariant
            k <= names@.len(),
            target@ == name@,
            forall|j: int| 0 <= j < k ==> (#[trigger] names@[j])@ != name@,
        decreases names@.len() - k,
    {
        if crate::text::equals_str(&target, names[k].as_str()) {
            return true;
        }
        k = k + 1;
    }
    false
}

/// Whether the `i`-th field of a manifest is required and unsatisfied: no
/// server default resolves for it, the channel configuration has no value
/// for it, and, for a secret, no credential binding provides it.
pub open spec fn field_missing(
    fields: Seq<ChannelConfigField>,
    i: int,
    config_keys: Seq<String>,
    credential_env_vars: Seq<String>,
    default_resolves: Seq<bool>,
) -> bool {
    let f = fields[i];
    f.is_required && !(default_resolves[i] || listed(config_keys, f.name@) || (f.is_secret && listed(
        credential_env_vars,
        f.name@,
    )))
}

/// The names of the missing fields among the first `n`, in order.
pub open spec fn missing_names(
    fields: Seq<ChannelConfigField>,
    n: int,
    config_keys: Seq<String>,
    credential_env_vars: Seq<String>,
    default_resolves: Seq<bool>,
) -> Seq<Seq<char>>
    decreases n,
{
    if n <= 0 {
        seq![]
    } else {
        let prev = missing_names(fields, n - 1, config_keys, credential_env_vars, default_resolves);
        if field_missing(fields, n - 1, config_keys, credential_env_vars, default_resolves) {
            prev.push(fields[n - 1].name@)
        } else {
            prev
        }
    }
}

/// The required fields of `manifest` that nothing provides, see
/// [`field_missing`]; `default_resolves[i]` says whether the server
/// configuration resolves the default of field `i`.
pub fn missing_required_fields(
    manifest: &ChannelManifest,
    config_keys: &[String],
    credential_env_vars: &[String],
    default_resolves: &[bool],
) -> (missing: Vec<String>)
    requires
        default_resolves@.len() == manifest.config_fields@.len(),
    ensures
        missing@.map_values(|s: String| s@) == missing_names(
            manifest.config_fields@,
            manifest.config_fields@.len() as int,
            config_keys@,
            credential_env_vars@,
            default_resolves@,
        ),
{
    let mut missing: Vec<String> = Vec::new();
    let mut i: usize = 0;
    while i < manifest.config_fields.len()
        invariant
            i <= manifest.config_fields@.len(),
            default_resolves@.len() == manifest.config_fields@.len(),
            missing@.map_values(|s: String| s@) == missing_names(
                manifest.config_fields@,
                i as int,
                config_keys@,
                credential_env_vars@,
                default_resolves@,
            ),
        decreases manifest.config_fields@.len() - i,
    {
        let field = &manifest.config_fields[i];
        if field.is_required {
            let satisfied = default_resolves[i] || is_listed(config_keys, &field.name) || (
            field.is_secret && is_listed(credential_env_vars, &field.name));
            if !satisfied {
                let name = field.name.clone();
                proof {
                    assert(missing@.push(name).map_values(|s: String| s@) =~= missing@.map_values(
                        |s: String| s@,
                    ).push(name@));
                }
                missing.push(name);
            }
        }
        i = i + 1;
    }
    missing
}

/// `s` without its trailing slashes.
pub open spec fn trim_end_slashes(s: Seq<char>) -> Seq<char>
    decreases s.len(),
{
    if s.len() > 0 && s.last() == '/' {
        trim_end_slashes(s.drop_last())
    } else {
        s
    }
}

/// The URL at which a channel's provider reaches the server:
/// `{base}/api/webhooks/channels/{provider}/{channel_id}`, the base's
/// trailing slashes dropped.
pub fn channel_webhook_url(base: &str, provider: &str, channel_id: &str) -> (r: String)
    ensures
        r@ == trim_end_slashes(base@) + "/api/webhooks/channels/"@ + provider@ + "/"@ + channel_id@,
{
    let v = chars_of(base);
    let mut end: usize = v.len();
    proof {
        assert(v@.subrange(0, v@.len() as int) =~= v@);
    }
    while end > 0 && v[end - 1] == '/'
        invariant
            end <= v@.len(),
            trim_end_slashes(v@.subrange(0, end as int)) == trim_end_slashes(v@),
        decreases end,
    {
        proof {
            assert(v@.subrange(0, end as int).drop_last() =~= v@.subrange(0, end - 1));
        }
        end = end - 1;
    }
    let mut r = string_from_chars(&v, 0, end);
    r.append("/api/webhooks/channels/");
    r.append(provider);
    r.append("/");
    r.append(channel_id);
    r
}

/// What a channel's running task depends on: a change to any of these
/// restarts it, while status and timestamps do not.
#[derive(Debug, Clone)]
pub struct ChannelSettings {
    pub provider: String,
    pub agent_id: String,
    pub dispatch_mode: DispatchMode,
    /// The configuration entries in key order, as the map holds them.
    pub config: Vec<(String, String)>,
}

/// Whether an update of a channel asks for its task to be restarted: the
/// provider, agent, dispatch mode or configuration changed.
pub fn channel_needs_restart(prior: &ChannelSettings, next: &ChannelSettings) -> (r: bool)
    ensures
        r == (prior.provider@ != next.provider@ || prior.agent_id@ != next.agent_id@
            || prior.dispatch_mode != next.dispatch_mode
            || crate::text::pair_views(prior.config@) != crate::text::pair_views(next.config@)),
{
    if prior.provider != next.provider || prior.agent_id != next.agent_id || prior.dispatch_mode != next.dispatch_mode {
        return true;
    }
    if prior.config.len() != next.config.len() {
        proof {
            assert(crate::text::pair_views(prior.config@).len() != crate::text::pair_views(next.config@).len());
        }
        return true;
    }
    let mut i: usize = 0;
    while i < prior.config.len()
        invariant
            prior.config@.len() == next.config@.len(),
            i <= prior.config@.len(),
            forall|j: int| 0 <= j < i ==> (#[trigger] prior.config@[j]).0@ == next.config@[j].0@
                && prior.config@[j].1@ == next.config@[j].1@,
        decreases prior.config@.len() - i,
    {
        if prior.config[i].0 != next.config[i].0 || prior.config[i].1 != next.config[i].1 {
            proof {
                assert(crate::text::pair_views(prior.config@)[i as int] != crate::text::pair_views(next.config@)[i as int]);
            }
            return true;
        }
        i = i + 1;
    }
    proof {
        assert(crate::text::pair_views(prior.config@) =~= crate::text::pair_views(next.config@));
    }
    false
}

} // verus!
