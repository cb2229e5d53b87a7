//! Server-side chat commands: what each built-in command is called and
//! shows in the command list, and what a command hands back to the turn.

use vstd::prelude::*;
use crate::text::{
    chars_of, equals_str, key_le, key_sorts_le, lemma_key_le_antisymmetric, lemma_key_le_total,
    lemma_key_le_transitive, trim_chars, trim_string,
};

verus! {

/// What a command hands back to the turn that invoked it.
#[derive(Debug, Clone, PartialEq)]
pub enum CommandOutcome {
    /// Continue inference with this text in place of the user message.
    Prompt(String),
    /// End the turn with this text as the assistant's message.
    Message(String),
    /// End the turn silently.
    End,
}

/// A command as the command list shows it.
#[derive(Debug, Clone, PartialEq)]
pub struct CommandManifest {
    pub name: String,
    pub description: String,
    pub argument_hint: Option<String>,
}

impl CommandManifest {
    pub fn new(name: &str, description: &str, argument_hint: Option<&str>) -> (r: Self)
        ensures
            r.name@ == name@,
            r.description@ == description@,
            match argument_hint {
                Some(h) => r.argument_hint matches Some(rh) && rh@ == h@,
                None => r.argument_hint is None,
            },
    {
        CommandManifest {
            name: String::from_str(name),
            description: String::from_str(description),
            argument_hint: match argument_hint {
                Some(h) => Some(String::from_str(h)),
                None => None,
            },
        }
    }
}

/// A chat command as the registry and the command list see it.
pub trait Command {
    /// The name the command is invoked by.
    spec fn command_name(&self) -> Seq<char>;

    /// What the command list says the command does.
    spec fn command_description(&self) -> Seq<char>;

    /// The hint for the command's arguments, when it takes any.
    spec fn command_hint(&self) -> Option<Seq<char>>;

    fn name(&self) -> (r: &str)
        ensures
            r@ == self.command_name(),
    ;

    fn description(&self) -> (r: &str)
        ensures
            r@ == self.command_description(),
    ;

    fn argument_hint(&self) -> (r: Option<&str>)
        ensures
            match r {
                Some(h) => self.command_hint() == Some(h@),
                None => self.command_hint() is None,
            },
    ;
}

impl CommandManifest {
    /// The command list's entry for `cmd`.
    pub fn from_command<C: Command>(cmd: &C) -> (r: Self)
        ensures
            r.name@ == cmd.command_name(),
            r.description@ == cmd.command_description(),
            match r.argument_hint {
                Some(h) => cmd.command_hint() == Some(h@),
                None => cmd.command_hint() is None,
            },
    {
        CommandManifest::new(cmd.name(), cmd.description(), cmd.argument_hint())
    }
}

/// `/clear`: deletes all messages of the chat and ends the turn silently.
pub struct ClearCommand;

impl Command for ClearCommand {
    open spec fn command_name(&self) -> Seq<char> {
        "clear"@
    }

    open spec fn command_description(&self) -> Seq<char> {
        "Delete all messages in this chat."@
    }

    open spec fn command_hint(&self) -> Option<Seq<char>> {
        None
    }

    fn name(&self) -> (r: &str) {
        "clear"
    }

    fn description(&self) -> (r: &str) {
        "Delete all messages in this chat."
    }

    fn argument_hint(&self) -> (r: Option<&str>) {
        None
    }
}

impl ClearCommand {



    /// The outcome once the messages are deleted.
    pub fn outcome(&self) -> (r: CommandOutcome)
        ensures
            r == CommandOutcome::End,
    {
        CommandOutcome::End
    }
}

/// `/compact`: compresses older messages into a summary.
pub struct CompactCommand;

impl Command for CompactCommand {
    open spec fn command_name(&self) -> Seq<char> {
        "compact"@
    }

    open spec fn command_description(&self) -> Seq<char> {
        "Compress older messages into a summary to free up context."@
    }

    open spec fn command_hint(&self) -> Option<Seq<char>> {
        None
    }

    fn name(&self) -> (r: &str) {
        "compact"
    }

    fn description(&self) -> (r: &str) {
        "Compress older messages into a summary to free up context."
    }

    fn argument_hint(&self) -> (r: Option<&str>) {
        None
    }
}

/// `/title [new title]`: sets the chat title, or generates one from the
/// last user message when no title is given.
pub struct TitleCommand;

impl Command for TitleCommand {
    open spec fn command_name(&self) -> Seq<char> {
        "title"@
    }

    open spec fn command_description(&self) -> Seq<char> {
        "Set or regenerate the chat title."@
    }

    open spec fn command_hint(&self) -> Option<Seq<char>> {
        Some("[new title]"@)
    }

    fn name(&self) -> (r: &str) {
        "title"
    }

    fn description(&self) -> (r: &str) {
        "Set or regenerate the chat title."
    }

    fn argument_hint(&self) -> (r: Option<&str>) {
        Some("[new title]")
    }
}

impl TitleCommand {



    /// The title asked for: the trimmed arguments, or `None` (generate one)
    /// when they are blank.
    pub fn requested_title(&self, args: &str) -> (r: Option<String>)
        ensures
            match r {
                Some(t) => t@ == trim_chars(args@) && trim_chars(args@).len() > 0,
                None => trim_chars(args@).len() == 0,
            },
    {
        let t = trim_string(args);
        if t.as_str().is_empty() {
            None
        } else {
            Some(t)
        }
    }

    /// The reply once the chat is renamed to `title`.
    pub fn renamed(&self, title: &str) -> (r: CommandOutcome)
        ensures
            r matches CommandOutcome::Message(m) && m@ == "Renamed to '"@ + title@ + "'."@,
    {
        let mut m = String::from_str("Renamed to '");
        m.append(title);
        m.append("'.");
        CommandOutcome::Message(m)
    }

    /// The reply when there is nothing to derive a title from.
    pub fn nothing_to_title(&self) -> (r: CommandOutcome)
        ensures
            r matches CommandOutcome::Message(m) && m@ == "Nothing to title yet — send a message first."@,
    {
        CommandOutcome::Message(String::from_str("Nothing to title yet — send a message first."))
    }
}

/// `@agent [prompt]`: hands this one message to another agent; the chat's
/// own agent is unchanged for later turns.
pub struct SwitchAgentCommand;

impl Command for SwitchAgentCommand {
    open spec fn command_name(&self) -> Seq<char> {
        "agent"@
    }

    open spec fn command_description(&self) -> Seq<char> {
        "Delegate this single message to a different agent."@
    }

    open spec fn command_hint(&self) -> Option<Seq<char>> {
        Some("[prompt]"@)
    }

    fn name(&self) -> (r: &str) {
        "agent"
    }

    fn description(&self) -> (r: &str) {
        "Delegate this single message to a different agent."
    }

    fn argument_hint(&self) -> (r: Option<&str>) {
        Some("[prompt]")
    }
}

impl SwitchAgentCommand {



    /// The outcome once the turn's session is switched: the arguments go to
    /// the other agent as the prompt.
    pub fn outcome(&self, args: &str) -> (r: CommandOutcome)
        ensures
            r matches CommandOutcome::Prompt(p) && p@ == args@,
    {
        CommandOutcome::Prompt(String::from_str(args))
    }
}

/// The commands this server has.
#[derive(Debug, Clone, Copy, PartialEq, Eq, Structural)]
pub enum BuiltinCommand {
    Clear,
    Compact,
    Title,
    SwitchAgent,
}

impl Command for BuiltinCommand {
    open spec fn command_name(&self) -> Seq<char> {
        match *self {
            BuiltinCommand::Clear => ClearCommand.command_name(),
            BuiltinCommand::Compact => CompactCommand.command_name(),
            BuiltinCommand::Title => TitleCommand.command_name(),
            BuiltinCommand::SwitchAgent => SwitchAgentCommand.command_name(),
        }
    }

    open spec fn command_description(&self) -> Seq<char> {
        match *self {
            BuiltinCommand::Clear => ClearCommand.command_description(),
            BuiltinCommand::Compact => CompactCommand.command_description(),
            BuiltinCommand::Title => TitleCommand.command_description(),
            BuiltinCommand::SwitchAgent => SwitchAgentCommand.command_description(),
        }
    }

    open spec fn command_hint(&self) -> Option<Seq<char>> {
        match *self {
            BuiltinCommand::Clear => ClearCommand.command_hint(),
            BuiltinCommand::Compact => CompactCommand.command_hint(),
            BuiltinCommand::Title => TitleCommand.command_hint(),
            BuiltinCommand::SwitchAgent => SwitchAgentCommand.command_hint(),
        }
    }

    fn name(&self) -> (r: &str) {
        match *self {
            BuiltinCommand::Clear => ClearCommand.name(),
            BuiltinCommand::Compact => CompactCommand.name(),
            BuiltinCommand::Title => TitleCommand.name(),
            BuiltinCommand::SwitchAgent => SwitchAgentCommand.name(),
        }
    }

    fn description(&self) -> (r: &str) {
        match *self {
            BuiltinCommand::Clear => ClearCommand.description(),
            BuiltinCommand::Compact => CompactCommand.description(),
            BuiltinCommand::Title => TitleCommand.description(),
            BuiltinCommand::SwitchAgent => SwitchAgentCommand.description(),
        }
    }

    fn argument_hint(&self) -> (r: Option<&str>) {
        match *self {
            BuiltinCommand::Clear => ClearCommand.argument_hint(),
            BuiltinCommand::Compact => CompactCommand.argument_hint(),
            BuiltinCommand::Title => TitleCommand.argument_hint(),
            BuiltinCommand::SwitchAgent => SwitchAgentCommand.argument_hint(),
        }
    }
}

/// The handler named `name` among `hs` (the last one, should several share
/// the name).
pub open spec fn named<C: Command>(hs: Seq<C>, name: Seq<char>) -> Option<C>
    decreases hs.len(),
{
    if hs.len() == 0 {
        None
    } else if hs.last().command_name() == name {
        Some(hs.last())
    } else {
        named(hs.drop_last(), name)
    }
}

/// No two of `hs` share a name.
pub open spec fn distinct_names<C: Command>(hs: Seq<C>) -> bool {
    forall|i: int, j: int|
        0 <= i < j < hs.len() ==> (#[trigger] hs[i]).command_name() != (#[trigger] hs[j]).command_name()
}

/// With distinct names, the handler named as `hs[k]` is `hs[k]`, and a name
/// none of them has names nothing.
proof fn lemma_named<C: Command>(hs: Seq<C>, name: Seq<char>)
    requires
        distinct_names(hs),
    ensures
        forall|k: int| 0 <= k < hs.len() && (#[trigger] hs[k]).command_name() == name ==> named(hs, name) == Some(hs[k]),
        (forall|k: int| 0 <= k < hs.len() ==> (#[trigger] hs[k]).command_name() != name) ==> named(hs, name) is None,
        named(hs, name) matches Some(c) ==> exists|m: int| 0 <= m < hs.len() && hs[m] == c,
    decreases hs.len(),
{
    if hs.len() > 0 {
        let d = hs.drop_last();
        assert forall|i: int, j: int| 0 <= i < j < d.len() implies (#[trigger] d[i]).command_name() != (#[trigger] d[j]).command_name() by {
            assert(d[i] == hs[i] && d[j] == hs[j]);
        }
        lemma_named(d, name);
        assert forall|k: int| 0 <= k < hs.len() && (#[trigger] hs[k]).command_name() == name implies named(hs, name) == Some(hs[k]) by {
            if k < hs.len() - 1 {
                assert(d[k] == hs[k]);
                assert(hs[k].command_name() != hs[hs.len() - 1].command_name());
            }
        }
        if forall|k: int| 0 <= k < hs.len() ==> (#[trigger] hs[k]).command_name() != name {
            assert forall|k: int| 0 <= k < d.len() implies (#[trigger] d[k]).command_name() != name by {
                assert(d[k] == hs[k]);
            }
        }
        if named(hs, name) is Some && hs.last().command_name() != name {
            let c = named(d, name)->0;
            let m = choose|m: int| 0 <= m < d.len() && d[m] == c;
            assert(hs[m] == c);
        }
    }
}

/// The handler named `name` does not change when one of the others is
/// replaced by a handler of the same name.
proof fn lemma_named_update<C: Command>(hs: Seq<C>, i: int, c: C, name: Seq<char>)
    requires
        0 <= i < hs.len(),
        hs[i].command_name() == c.command_name(),
        name != c.command_name(),
    ensures
        named(hs.update(i, c), name) == named(hs, name),
    decreases hs.len(),
{
    let u = hs.update(i, c);
    if hs.len() > 0 {
        if i < hs.len() - 1 {
            assert(u.drop_last() =~= hs.drop_last().update(i, c));
            lemma_named_update(hs.drop_last(), i, c, name);
        } else {
            assert(u.drop_last() =~= hs.drop_last());
        }
    }
}

/// The names of `s` strictly ascend.
pub open spec fn names_ascending<C: Command>(s: Seq<&C>) -> bool {
    forall|i: int, j: int|
        0 <= i < j < s.len() ==> key_le((#[trigger] s[i]).command_name(), (#[trigger] s[j]).command_name())
            && s[i].command_name() != s[j].command_name()
}

/// Inserting `h` at `p` keeps the names ascending when `h` sorts after what
/// is before `p`, before what is from `p` on, and its name is new.
proof fn lemma_insert_ascending<C: Command>(before: Seq<&C>, p: int, h: &C)
    requires
        0 <= p <= before.len(),
        names_ascending(before),
        forall|q: int| p <= q < before.len() ==> !key_le((#[trigger] before[q]).command_name(), h.command_name()),
        p == 0 || key_le(before[p - 1].command_name(), h.command_name()),
        forall|i: int| 0 <= i < before.len() ==> (#[trigger] before[i]).command_name() != h.command_name(),
    ensures
        names_ascending(before.insert(p, h)),
{
    let out = before.insert(p, h);
    let hc = h.command_name();
    assert forall|i: int, j: int| 0 <= i < j < out.len() implies key_le((#[trigger] out[i]).command_name(), (#[trigger] out[j]).command_name())
        && out[i].command_name() != out[j].command_name() by {
        if j < p {
            assert(out[i] == before[i] && out[j] == before[j]);
        } else if j == p {
            assert(out[i] == before[i]);
            if i < p - 1 {
                lemma_key_le_transitive(before[i].command_name(), before[p - 1].command_name(), hc);
            }
        } else if i == p {
            assert(out[j] == before[j - 1]);
            lemma_key_le_total(before[j - 1].command_name(), hc);
        } else if i < p {
            assert(out[i] == before[i] && out[j] == before[j - 1]);
        } else {
            assert(out[i] == before[i - 1] && out[j] == before[j - 1]);
        }
    }
}

/// Every one of `s` is one of the first `k` of `hs`.
#[verifier::opaque]
pub open spec fn drawn_from<C: Command>(s: Seq<&C>, hs: Seq<C>, k: int) -> bool {
    forall|i: int| 0 <= i < s.len() ==> exists|m: int| 0 <= m < k && *(#[trigger] s[i]) == hs[m]
}

/// Every one of the first `k` of `hs` is among `s`.
#[verifier::opaque]
pub open spec fn covers<C: Command>(s: Seq<&C>, hs: Seq<C>, k: int) -> bool {
    forall|m: int| 0 <= m < k ==> exists|i: int| 0 <= i < s.len() && *s[i] == #[trigger] hs[m]
}

/// The next handler's name is none of those taken so far.
proof fn lemma_new_name<C: Command>(s: Seq<&C>, hs: Seq<C>, k: int)
    requires
        0 <= k < hs.len(),
        distinct_names(hs),
        drawn_from(s, hs, k),
    ensures
        forall|i: int| 0 <= i < s.len() ==> (#[trigger] s[i]).command_name() != hs[k].command_name(),
{
    reveal(drawn_from);
    assert forall|i: int| 0 <= i < s.len() implies (#[trigger] s[i]).command_name() != hs[k].command_name() by {
        let m = choose|m: int| 0 <= m < k && *s[i] == hs[m];
        assert(hs[m].command_name() != hs[k].command_name());
    }
}

/// Inserting the next handler keeps `s` drawn from, and covering, the
/// handlers taken so far.
proof fn lemma_insert_members<C: Command>(s: Seq<&C>, hs: Seq<C>, k: int, p: int)
    requires
        0 <= k < hs.len(),
        0 <= p <= s.len(),
        drawn_from(s, hs, k),
        covers(s, hs, k),
    ensures
        drawn_from(s.insert(p, &hs[k]), hs, k + 1),
        covers(s.insert(p, &hs[k]), hs, k + 1),
{
    lemma_insert_drawn(s, hs, k, p);
    lemma_insert_covers(s, hs, k, p);
}

proof fn lemma_insert_drawn<C: Command>(s: Seq<&C>, hs: Seq<C>, k: int, p: int)
    requires
        0 <= k < hs.len(),
        0 <= p <= s.len(),
        drawn_from(s, hs, k),
    ensures
        drawn_from(s.insert(p, &hs[k]), hs, k + 1),
{
    reveal(drawn_from);
    let out = s.insert(p, &hs[k]);
    assert forall|i: int| 0 <= i < out.len() implies exists|m: int| 0 <= m < k + 1 && *(#[trigger] out[i]) == hs[m] by {
        if i == p {
            assert(*out[i] == hs[k]);
        } else if i < p {
            assert(out[i] == s[i]);
            let m = choose|m: int| 0 <= m < k && *s[i] == hs[m];
            assert(0 <= m < k + 1 && *out[i] == hs[m]);
        } else {
            assert(out[i] == s[i - 1]);
            let m = choose|m: int| 0 <= m < k && *(#[trigger] s[i - 1]) == hs[m];
            assert(0 <= m < k + 1 && *out[i] == hs[m]);
        }
    }
}

proof fn lemma_insert_covers<C: Command>(s: Seq<&C>, hs: Seq<C>, k: int, p: int)
    requires
        0 <= k < hs.len(),
        0 <= p <= s.len(),
        covers(s, hs, k),
    ensures
        covers(s.insert(p, &hs[k]), hs, k + 1),
{
    reveal(covers);
    let out = s.insert(p, &hs[k]);
    assert forall|m: int| 0 <= m < k + 1 implies exists|i: int| 0 <= i < out.len() && *out[i] == #[trigger] hs[m] by {
        if m == k {
            assert(*out[p] == hs[m]);
        } else {
            let i = choose|i: int| 0 <= i < s.len() && *s[i] == hs[m];
            if i < p {
                assert(out[i] == s[i]);
                assert(0 <= i < out.len() && *out[i] == hs[m]);
            } else {
                assert(out[i + 1] == s[i]);
                assert(0 <= i + 1 < out.len() && *out[i + 1] == hs[m]);
            }
        }
    }
}

/// A list drawn from all the handlers and covering them holds exactly the
/// handlers registered, by name.
proof fn lemma_listed<C: Command>(s: Seq<&C>, hs: Seq<C>)
    requires
        distinct_names(hs),
        drawn_from(s, hs, hs.len() as int),
        covers(s, hs, hs.len() as int),
    ensures
        forall|i: int| 0 <= i < s.len() ==> named(hs, (#[trigger] s[i]).command_name()) == Some(*s[i]),
        forall|name: Seq<char>| #[trigger] named(hs, name) is Some ==> exists|i: int| 0 <= i < s.len() && Some(*s[i]) == named(hs, name),
{
    reveal(drawn_from);
    reveal(covers);
    assert forall|i: int| 0 <= i < s.len() implies named(hs, (#[trigger] s[i]).command_name()) == Some(*s[i]) by {
        let m = choose|m: int| 0 <= m < hs.len() && *s[i] == hs[m];
        lemma_named(hs, s[i].command_name());
    }
    assert forall|name: Seq<char>| #[trigger] named(hs, name) is Some implies exists|i: int| 0 <= i < s.len() && Some(*s[i]) == named(hs, name) by {
        lemma_named(hs, name);
        let c = named(hs, name)->0;
        let m = choose|m: int| 0 <= m < hs.len() && hs[m] == c;
        let i = choose|i: int| 0 <= i < s.len() && *s[i] == hs[m];
        assert(Some(*s[i]) == named(hs, name));
    }
}

/// The commands known by name, and the handler that takes `@agent`
/// invocations naming an agent instead of a command.
pub struct CommandRegistry<C: Command> {
    handlers: Vec<C>,
    switch_agent_fallback: Option<C>,
}

impl<C: Command> CommandRegistry<C> {
    /// No two registered handlers share a name.
    pub closed spec fn wf(&self) -> bool {
        distinct_names(self.handlers@)
    }

    /// The handler registered under `name`.
    pub closed spec fn handler(&self, name: Seq<char>) -> Option<C> {
        named(self.handlers@, name)
    }

    /// The handler for `@agent` invocations, if one was set.
    pub closed spec fn fallback(&self) -> Option<C> {
        self.switch_agent_fallback
    }

    /// An empty registry.
    pub fn new() -> (r: Self)
        ensures
            r.wf(),
            forall|name: Seq<char>| r.handler(name) is None,
            r.fallback() is None,
    {
        CommandRegistry { handlers: Vec::new(), switch_agent_fallback: None }
    }

    /// The position of the handler named `name`, if any.
    fn position(&self, name: &Vec<char>) -> (r: Option<usize>)
        requires
            self.wf(),
        ensures
            match r {
                Some(k) => k < self.handlers@.len() && self.handlers@[k as int].command_name() == name@,
                None => forall|k: int| 0 <= k < self.handlers@.len() ==> (#[trigger] self.handlers@[k]).command_name() != name@,
            },
    {
        let mut i: usize = 0;
        while i < self.handlers.len()
            invariant
                i <= self.handlers@.len(),
                forall|k: int| 0 <= k < i ==> (#[trigger] self.handlers@[k]).command_name() != name@,
            decreases self.handlers@.len() - i,
        {
            if equals_str(name, self.handlers[i].name()) {
                return Some(i);
            }
            i = i + 1;
        }
        None
    }

    /// Registers `cmd` under its name. Re-registering an existing name
    /// replaces the prior handler; the other names keep theirs.
    pub fn register(&mut self, cmd: C)
        requires
            old(self).wf(),
        ensures
            final(self).wf(),
            final(self).handler(cmd.command_name()) == Some(cmd),
            forall|name: Seq<char>| name != cmd.command_name() ==> final(self).handler(name) == old(self).handler(name),
            final(self).fallback() == old(self).fallback(),
    {
        let name = chars_of(cmd.name());
        let ghost before = self.handlers@;
        match self.position(&name) {
            Some(k) => {
                self.handlers.set(k, cmd);
                proof {
                    let after = self.handlers@;
                    assert(after == before.update(k as int, cmd));
                    assert forall|i: int, j: int| 0 <= i < j < after.len() implies (#[trigger] after[i]).command_name() != (#[trigger] after[j]).command_name() by {
                        assert(before[i].command_name() != before[j].command_name());
                    }
                    lemma_named(after, cmd.command_name());
                    assert(after[k as int] == cmd);
                    assert forall|n: Seq<char>| n != cmd.command_name() implies named(after, n) == named(before, n) by {
                        lemma_named_update(before, k as int, cmd, n);
                    }
                }
            },
            None => {
                self.handlers.push(cmd);
                proof {
                    let after = self.handlers@;
                    assert(after == before.push(cmd));
                    assert(after.drop_last() =~= before);
                    assert forall|i: int, j: int| 0 <= i < j < after.len() implies (#[trigger] after[i]).command_name() != (#[trigger] after[j]).command_name() by {
                        if j < before.len() {
                            assert(before[i].command_name() != before[j].command_name());
                        } else {
                            assert(after[i] == before[i]);
                        }
                    }
                }
            },
        }
    }

    /// Sets the handler for `@agent` invocations.
    pub fn with_switch_agent_fallback(&mut self, handler: C)
        requires
            old(self).wf(),
        ensures
            final(self).wf(),
            forall|name: Seq<char>| final(self).handler(name) == old(self).handler(name),
            final(self).fallback() == Some(handler),
    {
        self.switch_agent_fallback = Some(handler);
    }

    /// The handler registered under `name`; the `@agent` fallback is not
    /// consulted.
    pub fn get(&self, name: &str) -> (r: Option<&C>)
        requires
            self.wf(),
        ensures
            match r {
                Some(c) => self.handler(name@) == Some(*c),
                None => self.handler(name@) is None,
            },
    {
        let v = chars_of(name);
        proof {
            lemma_named(self.handlers@, name@);
        }
        match self.position(&v) {
            Some(k) => Some(&self.handlers[k]),
            None => None,
        }
    }

    /// The handler for an invocation of `name`: the command of that name,
    /// else the `@agent` fallback when `agent_exists` (the user has an
    /// agent with that handle), else none.
    pub fn resolve(&self, name: &str, agent_exists: bool) -> (r: Option<&C>)
        requires
            self.wf(),
        ensures
            match r {
                Some(c) => self.handler(name@) == Some(*c) || (self.handler(name@) is None && agent_exists
                    && self.fallback() == Some(*c)),
                None => self.handler(name@) is None && (!agent_exists || self.fallback() is None),
            },
    {
        match self.get(name) {
            Some(c) => Some(c),
            None => if agent_exists {
                match &self.switch_agent_fallback {
                    Some(f) => Some(f),
                    None => None,
                }
            } else {
                None
            },
        }
    }

    /// The registered handlers in name order (the `@agent` fallback is not
    /// among them).
    pub fn list_static(&self) -> (r: Vec<&C>)
        requires
            self.wf(),
        ensures
            names_ascending(r@),
            forall|i: int| 0 <= i < r@.len() ==> self.handler((#[trigger] r@[i]).command_name()) == Some(*r@[i]),
            forall|name: Seq<char>| #[trigger] self.handler(name) is Some ==> exists|i: int| 0 <= i < r@.len() && Some(*r@[i]) == self.handler(name),
    {
        let mut out: Vec<&C> = Vec::new();
        let mut k: usize = 0;
        proof {
            reveal(drawn_from);
            reveal(covers);
        }
        while k < self.handlers.len()
            invariant
                k <= self.handlers@.len(),
                distinct_names(self.handlers@),
                names_ascending(out@),
                drawn_from(out@, self.handlers@, k as int),
                covers(out@, self.handlers@, k as int),
            decreases self.handlers@.len() - k,
        {
            let h = &self.handlers[k];
            let hn = h.name();
            let mut p: usize = out.len();
            while p > 0 && !key_sorts_le(out[p - 1].name(), hn)
                invariant
                    p <= out@.len(),
                    hn@ == h.command_name(),
                    forall|q: int| p <= q < out@.len() ==> !key_le((#[trigger] out@[q]).command_name(), h.command_name()),
                decreases p,
            {
                p = p - 1;
            }
            let ghost before = out@;
            proof {
                lemma_new_name(before, self.handlers@, k as int);
            }
            out.insert(p, h);
            proof {
                assert(out@ == before.insert(p as int, h));
                lemma_insert_ascending(before, p as int, h);
                lemma_insert_members(before, self.handlers@, k as int, p as int);
            }
            k = k + 1;
        }
        proof {
            lemma_listed(out@, self.handlers@);
        }
        out
    }
}

/// Registers the built-in commands, with `@agent` as the fallback.
pub fn register_all(registry: &mut CommandRegistry<BuiltinCommand>)
    requires
        old(registry).wf(),
    ensures
        final(registry).wf(),
        final(registry).handler("clear"@) == Some(BuiltinCommand::Clear),
        final(registry).handler("compact"@) == Some(BuiltinCommand::Compact),
        final(registry).handler("title"@) == Some(BuiltinCommand::Title),
        forall|name: Seq<char>| name != "clear"@ && name != "compact"@ && name != "title"@
            ==> final(registry).handler(name) == old(registry).handler(name),
        final(registry).fallback() == Some(BuiltinCommand::SwitchAgent),
{
    proof {
        reveal_strlit("clear");
        reveal_strlit("compact");
        reveal_strlit("title");
        assert("clear"@ != "compact"@) by {
            assert("clear"@[1] != "compact"@[1]);
        }
        assert("clear"@ != "title"@) by {
            assert("clear"@[0] != "title"@[0]);
        }
        assert("compact"@ != "title"@) by {
            assert("compact"@[0] != "title"@[0]);
        }
    }
    registry.register(BuiltinCommand::Clear);
    registry.register(BuiltinCommand::Compact);
    registry.register(BuiltinCommand::Title);
    registry.with_switch_agent_fallback(BuiltinCommand::SwitchAgent);
}

} // verus!
