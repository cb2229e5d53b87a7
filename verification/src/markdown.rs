//! Markdown for channels that do not render it: the parser's event stream
//! as plain values, and renderers from it to plain text and to WhatsApp's
//! own formatting.

use vstd::prelude::*;
use vstd::utf8::{decode_utf8, is_char_boundary};
use vstd::string::StringSliceAdditionalSpecFns;
use pulldown_cmark::{Event, Options, Parser, Tag, TagEnd};
use crate::render::{decimal, decimal_chars};
use crate::text::{chars_of, is_white, is_whitespace, string_from_chars, trim_chars, trim_end_chars, trim_start_chars};

verus! {

/// An element as it opens or closes, by kind.
#[derive(Debug, Clone, Copy, PartialEq, Eq, Structural)]
pub enum MdTagKind {
    Paragraph,
    Heading,
    BlockQuote,
    CodeBlock,
    List,
    Item,
    Link,
    Image,
    Strong,
    Emphasis,
    Strikethrough,
    /// An element no renderer here reacts to (tables, footnotes, HTML, ...).
    Other,
}

/// An element that opens, with what the renderers read of it.
#[derive(Debug, Clone, PartialEq)]
pub enum MdTag {
    Paragraph,
    /// A heading of level 1 to 6.
    Heading(u8),
    BlockQuote,
    CodeBlock,
    /// A list; an ordered one carries the number of its first item.
    List(Option<u64>),
    Item,
    /// A link to `dest`.
    Link(String),
    Image,
    Strong,
    Emphasis,
    Strikethrough,
    Other,
}

/// The parser's events that carry no element.
#[derive(Debug, Clone, PartialEq)]
pub enum MdLeaf {
    Text(String),
    Code(String),
    SoftBreak,
    HardBreak,
    /// The start number an ordered list opens with (`None`: unordered).
    ListStart(Option<u64>),
    /// The destination a link opens with.
    LinkDest(String),
    /// The level a heading opens with.
    HeadingLevel(u8),
}

/// One event of a markdown document.
#[derive(Debug, Clone, PartialEq)]
pub enum MdEvent {
    Text(String),
    /// Inline code, without its backticks.
    Code(String),
    SoftBreak,
    HardBreak,
    Start(MdTag),
    End(MdTagKind),
    /// An event no renderer here reacts to (rules, HTML, footnote marks, ...).
    Other,
}

/// For each event that pulldown-cmark yields for `input` (strikethrough,
/// tables and task lists enabled), the element it opens (`true`) or closes
/// (`false`), by kind; `None` for an event that is no element boundary.
pub uninterp spec fn markdown_tag_kinds(input: Seq<char>) -> Seq<Option<(bool, MdTagKind)>>;

/// For each event that pulldown-cmark yields for `input`, with the same
/// options: its text, code or break, or the start number of a list, the
/// destination of a link or the level of a heading that open there; `None`
/// for the other events.
pub uninterp spec fn markdown_leaves(input: Seq<char>) -> Seq<Option<MdLeaf>>;

/// pulldown-cmark's `Parser::new_ext` with strikethrough, tables and task
/// lists, each event's element boundary classified by `TagEnd` (an opening
/// tag through `Tag::to_end`).
#[verifier::external_body]
fn parse_tag_kinds(input: &str) -> (r: Vec<Option<(bool, MdTagKind)>>)
    ensures
        r@ == markdown_tag_kinds(input@),
{
    let opts = Options::ENABLE_STRIKETHROUGH | Options::ENABLE_TABLES | Options::ENABLE_TASKLISTS;
    Parser::new_ext(input, opts).map(|e| {
        let (open, t) = match e { Event::Start(t) => (true, t.to_end()), Event::End(t) => (false, t), _ => return None };
        Some((open, match t {
            TagEnd::Paragraph => MdTagKind::Paragraph, TagEnd::Heading(_) => MdTagKind::Heading,
            TagEnd::BlockQuote(_) => MdTagKind::BlockQuote, TagEnd::CodeBlock => MdTagKind::CodeBlock,
            TagEnd::List(_) => MdTagKind::List, TagEnd::Item => MdTagKind::Item,
            TagEnd::Link => MdTagKind::Link, TagEnd::Image => MdTagKind::Image,
            TagEnd::Strong => MdTagKind::Strong, TagEnd::Emphasis => MdTagKind::Emphasis,
            TagEnd::Strikethrough => MdTagKind::Strikethrough, _ => MdTagKind::Other
        }))
    }).collect()
}

/// pulldown-cmark's `Parser::new_ext` with the same options: each event's
/// text, code or break, a list's start number, a link's destination and a
/// heading's level.
#[verifier::external_body]
fn parse_leaves(input: &str) -> (r: Vec<Option<MdLeaf>>)
    ensures
        r@ == markdown_leaves(input@),
{
    let opts = Options::ENABLE_STRIKETHROUGH | Options::ENABLE_TABLES | Options::ENABLE_TASKLISTS;
    Parser::new_ext(input, opts).map(|e| match e {
        Event::Text(t) => Some(MdLeaf::Text(t.into_string())),
        Event::Code(t) => Some(MdLeaf::Code(t.into_string())),
        Event::SoftBreak => Some(MdLeaf::SoftBreak),
        Event::HardBreak => Some(MdLeaf::HardBreak),
        Event::Start(Tag::List(n)) => Some(MdLeaf::ListStart(n)),
        Event::Start(Tag::Link { dest_url, .. }) => Some(MdLeaf::LinkDest(dest_url.into_string())),
        Event::Start(Tag::Heading { level, .. }) => Some(MdLeaf::HeadingLevel(level as u8)),
        _ => None,
    }).collect()
}

/// The opening tag of kind `k`, with the list start or link destination
/// or heading level that `leaf` carries (a link without a destination or a
/// heading without a level is ignored).
pub open spec fn opened_tag(k: MdTagKind, leaf: Option<MdLeaf>) -> MdTag {
    match k {
        MdTagKind::Paragraph => MdTag::Paragraph,
        MdTagKind::Heading => match leaf {
            Some(MdLeaf::HeadingLevel(l)) => MdTag::Heading(l),
            _ => MdTag::Other,
        },
        MdTagKind::BlockQuote => MdTag::BlockQuote,
        MdTagKind::CodeBlock => MdTag::CodeBlock,
        MdTagKind::List => MdTag::List(
            match leaf {
                Some(MdLeaf::ListStart(n)) => n,
                _ => None,
            },
        ),
        MdTagKind::Item => MdTag::Item,
        MdTagKind::Link => match leaf {
            Some(MdLeaf::LinkDest(d)) => MdTag::Link(d),
            _ => MdTag::Other,
        },
        MdTagKind::Image => MdTag::Image,
        MdTagKind::Strong => MdTag::Strong,
        MdTagKind::Emphasis => MdTag::Emphasis,
        MdTagKind::Strikethrough => MdTag::Strikethrough,
        MdTagKind::Other => MdTag::Other,
    }
}

/// The event at one position, from its element boundary and its leaf.
pub open spec fn merged_event(kind: Option<(bool, MdTagKind)>, leaf: Option<MdLeaf>) -> MdEvent {
    match kind {
        Some((true, k)) => MdEvent::Start(opened_tag(k, leaf)),
        Some((false, k)) => MdEvent::End(k),
        None => match leaf {
            Some(MdLeaf::Text(t)) => MdEvent::Text(t),
            Some(MdLeaf::Code(t)) => MdEvent::Code(t),
            Some(MdLeaf::SoftBreak) => MdEvent::SoftBreak,
            Some(MdLeaf::HardBreak) => MdEvent::HardBreak,
            _ => MdEvent::Other,
        },
    }
}

/// The leaf at position `i`, if there is one.
pub open spec fn leaf_at(leaves: Seq<Option<MdLeaf>>, i: int) -> Option<MdLeaf> {
    if 0 <= i < leaves.len() {
        leaves[i]
    } else {
        None
    }
}

/// The events of `input`, one per element boundary that the parser yields.
pub open spec fn markdown_events_of(input: Seq<char>) -> Seq<MdEvent> {
    let kinds = markdown_tag_kinds(input);
    let leaves = markdown_leaves(input);
    Seq::new(kinds.len(), |i: int| merged_event(kinds[i], leaf_at(leaves, i)))
}

fn copy_leaf(l: &Option<MdLeaf>) -> (r: Option<MdLeaf>)
    ensures
        r == *l,
{
    match l {
        Some(MdLeaf::Text(t)) => Some(MdLeaf::Text(t.clone())),
        Some(MdLeaf::Code(t)) => Some(MdLeaf::Code(t.clone())),
        Some(MdLeaf::SoftBreak) => Some(MdLeaf::SoftBreak),
        Some(MdLeaf::HardBreak) => Some(MdLeaf::HardBreak),
        Some(MdLeaf::ListStart(n)) => Some(MdLeaf::ListStart(*n)),
        Some(MdLeaf::LinkDest(d)) => Some(MdLeaf::LinkDest(d.clone())),
        Some(MdLeaf::HeadingLevel(l)) => Some(MdLeaf::HeadingLevel(*l)),
        None => None,
    }
}

fn merge_event(kind: Option<(bool, MdTagKind)>, leaf: Option<MdLeaf>) -> (r: MdEvent)
    ensures
        r == merged_event(kind, leaf),
{
    match kind {
        Some((true, k)) => {
            let t = match k {
                MdTagKind::Paragraph => MdTag::Paragraph,
                MdTagKind::Heading => match leaf {
                    Some(MdLeaf::HeadingLevel(l)) => MdTag::Heading(l),
                    _ => MdTag::Other,
                },
                MdTagKind::BlockQuote => MdTag::BlockQuote,
                MdTagKind::CodeBlock => MdTag::CodeBlock,
                MdTagKind::List => MdTag::List(
                    match leaf {
                        Some(MdLeaf::ListStart(n)) => n,
                        _ => None,
                    },
                ),
                MdTagKind::Item => MdTag::Item,
                MdTagKind::Link => match leaf {
                    Some(MdLeaf::LinkDest(d)) => MdTag::Link(d),
                    _ => MdTag::Other,
                },
                MdTagKind::Image => MdTag::Image,
                MdTagKind::Strong => MdTag::Strong,
                MdTagKind::Emphasis => MdTag::Emphasis,
                MdTagKind::Strikethrough => MdTag::Strikethrough,
                MdTagKind::Other => MdTag::Other,
            };
            MdEvent::Start(t)
        },
        Some((false, k)) => MdEvent::End(k),
        None => match leaf {
            Some(MdLeaf::Text(t)) => MdEvent::Text(t),
            Some(MdLeaf::Code(t)) => MdEvent::Code(t),
            Some(MdLeaf::SoftBreak) => MdEvent::SoftBreak,
            Some(MdLeaf::HardBreak) => MdEvent::HardBreak,
            _ => MdEvent::Other,
        },
    }
}

/// The events of markdown `input`, see [`markdown_events_of`].
pub fn markdown_events(input: &str) -> (r: Vec<MdEvent>)
    ensures
        r@ == markdown_events_of(input@),
{
    let kinds = parse_tag_kinds(input);
    let leaves = parse_leaves(input);
    let mut r: Vec<MdEvent> = Vec::new();
    let mut i: usize = 0;
    while i < kinds.len()
        invariant
            i <= kinds@.len(),
            kinds@ == markdown_tag_kinds(input@),
            leaves@ == markdown_leaves(input@),
            r@.len() == i,
            forall|j: int| 0 <= j < i ==> #[trigger] r@[j] == merged_event(kinds@[j], leaf_at(leaves@, j)),
        decreases kinds@.len() - i,
    {
        let leaf = if i < leaves.len() {
            copy_leaf(&leaves[i])
        } else {
            None
        };
        r.push(merge_event(kinds[i], leaf));
        i = i + 1;
    }
    assert(r@ =~= markdown_events_of(input@));
    r
}


/// The state of a renderer part-way through a document.
pub struct Doc {
    /// What is written so far.
    pub out: Seq<char>,
    /// The open lists, innermost last; an ordered one holds the number of
    /// its next item.
    pub lists: Seq<Option<u64>>,
    /// The text of the link or image being read, which goes out when it
    /// closes.
    pub link_text: Option<Seq<char>>,
    pub link_dest: Option<Seq<char>>,
    /// Whether `out` ends a line (or is empty).
    pub at_line_start: bool,
    /// Whether a blank line goes before the next text.
    pub pending_blank: bool,
}

pub open spec fn empty_doc() -> Doc {
    Doc {
        out: seq![],
        lists: seq![],
        link_text: None,
        link_dest: None,
        at_line_start: true,
        pending_blank: false,
    }
}

pub open spec fn ends_line(s: Seq<char>) -> bool {
    s.len() > 0 && s.last() == '\n'
}

pub open spec fn ends_blank_line(s: Seq<char>) -> bool {
    s.len() >= 2 && s[s.len() - 1] == '\n' && s[s.len() - 2] == '\n'
}

/// `d` with its pending blank line written: a text never starts right
/// after another without a blank line between them, nor after more than one.
pub open spec fn flushed(d: Doc) -> Doc {
    if !d.pending_blank {
        d
    } else {
        let out = if d.out.len() > 0 && !ends_blank_line(d.out) {
            if ends_line(d.out) {
                d.out.push('\n')
            } else {
                d.out + seq!['\n', '\n']
            }
        } else {
            d.out
        };
        Doc { out, pending_blank: false, ..d }
    }
}

/// `d` after writing the text `s` (nothing for an empty one).
pub open spec fn pushed(d: Doc, s: Seq<char>) -> Doc {
    if s.len() == 0 {
        d
    } else {
        let f = flushed(d);
        Doc { out: f.out + s, at_line_start: s.last() == '\n', ..f }
    }
}

/// `d` at the start of a line.
pub open spec fn broken(d: Doc) -> Doc {
    if d.at_line_start {
        d
    } else {
        Doc { out: d.out.push('\n'), at_line_start: true, ..d }
    }
}

/// `d` after the text `s`: into the link being read, else written.
pub open spec fn emitted(d: Doc, s: Seq<char>) -> Doc {
    match d.link_text {
        Some(b) => Doc { link_text: Some(b + s), ..d },
        None => pushed(d, s),
    }
}

/// Two spaces per level of nesting.
pub open spec fn spaces(n: nat) -> Seq<char> {
    Seq::new(2 * n, |i: int| ' ')
}

/// The number after `n`; it cannot pass `u64::MAX`, which no list reaches
/// (pulldown-cmark reads at most nine digits of a start number).
pub open spec fn next_number(n: u64) -> u64 {
    if n < u64::MAX {
        (n + 1) as u64
    } else {
        n
    }
}

/// `d` as a list item opens: on a line of its own, indented two spaces per
/// enclosing list, with the item's number or its bullet (`-`, or `*` on
/// WhatsApp).
pub open spec fn item_opened(d: Doc, wa: bool) -> Doc {
    let b = broken(d);
    if b.lists.len() == 0 {
        Doc { at_line_start: false, ..b }
    } else {
        let base = b.out + spaces((b.lists.len() - 1) as nat);
        match b.lists.last() {
            Some(n) => Doc {
                out: base + decimal(n as nat) + seq!['.', ' '],
                lists: b.lists.update(b.lists.len() - 1, Some(next_number(n))),
                at_line_start: false,
                ..b
            },
            None => Doc {
                out: base + seq![if wa { '*' } else { '-' }, ' '],
                at_line_start: false,
                ..b
            },
        }
    }
}

pub open spec fn code_fence() -> Seq<char> {
    seq!['`', '`', '`']
}

/// How a closed link reads: its text, when the destination is empty or the
/// text itself; otherwise `text (dest)`, or on WhatsApp `text: dest` (the
/// destination alone for an empty text).
pub open spec fn link_rendered(text: Seq<char>, dest: Seq<char>, wa: bool) -> Seq<char> {
    if dest.len() == 0 || dest == text {
        text
    } else if wa {
        if text.len() == 0 {
            dest
        } else {
            text + seq![':', ' '] + dest
        }
    } else {
        text + seq![' ', '('] + dest + seq![')']
    }
}

pub open spec fn or_empty(s: Option<Seq<char>>) -> Seq<char> {
    match s {
        Some(x) => x,
        None => seq![],
    }
}

/// `d` as element `t` opens.
pub open spec fn opened(d: Doc, t: MdTag, wa: bool) -> Doc {
    match t {
        MdTag::Paragraph => broken(d),
        MdTag::Heading(level) => {
            let b = broken(d);
            let g = if level <= 2 && b.out.len() > 0 {
                Doc { pending_blank: true, ..b }
            } else {
                b
            };
            if wa {
                pushed(g, seq!['*'])
            } else {
                g
            }
        },
        MdTag::BlockQuote => if wa {
            pushed(broken(d), seq!['>', ' '])
        } else {
            broken(d)
        },
        MdTag::CodeBlock => if wa {
            pushed(broken(d), code_fence().push('\n'))
        } else {
            broken(d)
        },
        MdTag::List(start) => {
            let b = broken(d);
            Doc { lists: b.lists.push(start), ..b }
        },
        MdTag::Item => item_opened(d, wa),
        MdTag::Link(dest) => Doc { link_text: Some(seq![]), link_dest: Some(dest@), ..d },
        MdTag::Image => Doc { link_text: Some(seq![]), link_dest: None, ..d },
        MdTag::Strong => if wa {
            pushed(d, seq!['*'])
        } else {
            d
        },
        MdTag::Emphasis => if wa {
            pushed(d, seq!['_'])
        } else {
            d
        },
        MdTag::Strikethrough => if wa {
            pushed(d, seq!['~'])
        } else {
            d
        },
        MdTag::Other => d,
    }
}

/// `d` with a block ended: on a new line, a blank line before what follows.
pub open spec fn block_closed(d: Doc) -> Doc {
    Doc { pending_blank: true, ..broken(d) }
}

/// `d` as an element of kind `k` closes.
pub open spec fn closed(d: Doc, k: MdTagKind, wa: bool) -> Doc {
    match k {
        MdTagKind::Paragraph | MdTagKind::BlockQuote => block_closed(d),
        MdTagKind::Heading => if wa {
            block_closed(pushed(d, seq!['*']))
        } else {
            block_closed(d)
        },
        MdTagKind::CodeBlock => if wa {
            block_closed(pushed(broken(d), code_fence()))
        } else {
            block_closed(d)
        },
        MdTagKind::List => {
            let b = broken(d);
            let lists = if b.lists.len() > 0 {
                b.lists.drop_last()
            } else {
                b.lists
            };
            Doc { lists, pending_blank: lists.len() == 0 || b.pending_blank, ..b }
        },
        MdTagKind::Item => broken(d),
        MdTagKind::Link => pushed(
            Doc { link_text: None, link_dest: None, ..d },
            link_rendered(or_empty(d.link_text), or_empty(d.link_dest), wa),
        ),
        MdTagKind::Image => pushed(Doc { link_text: None, ..d }, or_empty(d.link_text)),
        MdTagKind::Strong => if wa {
            pushed(d, seq!['*'])
        } else {
            d
        },
        MdTagKind::Emphasis => if wa {
            pushed(d, seq!['_'])
        } else {
            d
        },
        MdTagKind::Strikethrough => if wa {
            pushed(d, seq!['~'])
        } else {
            d
        },
        MdTagKind::Other => d,
    }
}

/// `d` after event `e`; `wa` selects WhatsApp's formatting over plain text.
pub open spec fn doc_step(d: Doc, e: MdEvent, wa: bool) -> Doc {
    match e {
        MdEvent::Text(t) => emitted(d, t@),
        MdEvent::Code(t) => emitted(
            d,
            if wa {
                seq!['`'] + t@ + seq!['`']
            } else {
                t@
            },
        ),
        MdEvent::SoftBreak => if d.at_line_start {
            d
        } else {
            Doc { out: d.out.push(' '), ..d }
        },
        MdEvent::HardBreak => broken(d),
        MdEvent::Start(t) => opened(d, t, wa),
        MdEvent::End(k) => closed(d, k, wa),
        MdEvent::Other => d,
    }
}

/// The renderer's state after the first `n` events.
pub open spec fn doc_after(events: Seq<MdEvent>, n: int, wa: bool) -> Doc
    decreases n,
{
    if n <= 0 || n > events.len() {
        empty_doc()
    } else {
        doc_step(doc_after(events, n - 1, wa), events[n - 1], wa)
    }
}

/// The first `n` characters of `s` with every run of newlines cut to two,
/// and the length of the run they end with.
pub open spec fn collapse_run(s: Seq<char>, n: int) -> (Seq<char>, nat)
    decreases n,
{
    if n <= 0 || n > s.len() {
        (seq![], 0)
    } else {
        let (acc, k) = collapse_run(s, n - 1);
        if s[n - 1] == '\n' {
            if k < 2 {
                (acc.push('\n'), k + 1)
            } else {
                (acc, k + 1)
            }
        } else {
            (acc.push(s[n - 1]), 0)
        }
    }
}

/// `s` with every run of three or more newlines cut to two.
pub open spec fn collapsed(s: Seq<char>) -> Seq<char> {
    collapse_run(s, s.len() as int).0
}

/// Markdown `events` as plain text: markers dropped, links as
/// `text (url)`, lists with `-` bullets or numbers, blocks apart by a blank
/// line, trailing whitespace trimmed.
pub open spec fn plain_text(events: Seq<MdEvent>) -> Seq<char> {
    collapsed(trim_end_chars(doc_after(events, events.len() as int, false).out))
}


pub open spec fn opt_chars(v: Option<Vec<char>>) -> Option<Seq<char>> {
    match v {
        Some(x) => Some(x@),
        None => None,
    }
}

fn append_chars(out: &mut Vec<char>, s: &Vec<char>)
    ensures
        final(out)@ == old(out)@ + s@,
{
    let ghost start = out@;
    let mut i: usize = 0;
    while i < s.len()
        invariant
            i <= s@.len(),
            out@ == start + s@.subrange(0, i as int),
        decreases s@.len() - i,
    {
        out.push(s[i]);
        i = i + 1;
        assert(out@ =~= start + s@.subrange(0, i as int));
    }
    assert(s@.subrange(0, s@.len() as int) =~= s@);
}

fn same_chars(a: &Vec<char>, b: &Vec<char>) -> (r: bool)
    ensures
        r == (a@ == b@),
{
    if a.len() != b.len() {
        return false;
    }
    let mut i: usize = 0;
    while i < a.len()
        invariant
            a@.len() == b@.len(),
            i <= a@.len(),
            forall|j: int| 0 <= j < i ==> a@[j] == b@[j],
        decreases a@.len() - i,
    {
        if a[i] != b[i] {
            return false;
        }
        i = i + 1;
    }
    assert(a@ =~= b@);
    true
}

/// See [`link_rendered`].
fn render_link(text: Vec<char>, dest: &Vec<char>, wa: bool) -> (r: Vec<char>)
    ensures
        r@ == link_rendered(text@, dest@, wa),
{
    if dest.len() == 0 || same_chars(dest, &text) {
        text
    } else if wa {
        if text.len() == 0 {
            let mut r: Vec<char> = Vec::new();
            append_chars(&mut r, dest);
            assert(r@ =~= dest@);
            r
        } else {
            let mut r = text;
            r.push(':');
            r.push(' ');
            append_chars(&mut r, dest);
            assert(r@ =~= text@ + seq![':', ' '] + dest@);
            r
        }
    } else {
        let mut r = text;
        r.push(' ');
        r.push('(');
        append_chars(&mut r, dest);
        r.push(')');
        assert(r@ =~= text@ + seq![' ', '('] + dest@ + seq![')']);
        r
    }
}

fn one_char(c: char) -> (v: Vec<char>)
    ensures
        v@ == seq![c],
{
    let mut v: Vec<char> = Vec::new();
    v.push(c);
    assert(v@ =~= seq![c]);
    v
}

/// A renderer part-way through a document, see [`Doc`].
struct Renderer {
    out: Vec<char>,
    lists: Vec<Option<u64>>,
    link_text: Option<Vec<char>>,
    link_dest: Option<Vec<char>>,
    at_line_start: bool,
    pending_blank: bool,
}

impl Renderer {
    spec fn doc(&self) -> Doc {
        Doc {
            out: self.out@,
            lists: self.lists@,
            link_text: opt_chars(self.link_text),
            link_dest: opt_chars(self.link_dest),
            at_line_start: self.at_line_start,
            pending_blank: self.pending_blank,
        }
    }

    fn new() -> (r: Renderer)
        ensures
            r.doc() == empty_doc(),
    {
        let r = Renderer {
            out: Vec::new(),
            lists: Vec::new(),
            link_text: None,
            link_dest: None,
            at_line_start: true,
            pending_blank: false,
        };
        assert(r.doc().out =~= empty_doc().out);
        assert(r.doc().lists =~= empty_doc().lists);
        r
    }

    fn flush(&mut self)
        ensures
            final(self).doc() == flushed(old(self).doc()),
    {
        if self.pending_blank {
            let n = self.out.len();
            if n > 0 && !(n >= 2 && self.out[n - 1] == '\n' && self.out[n - 2] == '\n') {
                if self.out[n - 1] == '\n' {
                    self.out.push('\n');
                } else {
                    let ghost before = self.out@;
                    self.out.push('\n');
                    self.out.push('\n');
                    assert(self.out@ =~= before + seq!['\n', '\n']);
                }
            }
            self.pending_blank = false;
        }
    }

    fn push_chars(&mut self, s: &Vec<char>)
        ensures
            final(self).doc() == pushed(old(self).doc(), s@),
    {
        if s.len() == 0 {
            return;
        }
        self.flush();
        append_chars(&mut self.out, s);
        self.at_line_start = s[s.len() - 1] == '\n';
    }

    fn break_line(&mut self)
        ensures
            final(self).doc() == broken(old(self).doc()),
    {
        if !self.at_line_start {
            self.out.push('\n');
            self.at_line_start = true;
        }
    }

    fn emit(&mut self, s: &Vec<char>)
        ensures
            final(self).doc() == emitted(old(self).doc(), s@),
    {
        match self.link_text.take() {
            Some(b) => {
                let mut b = b;
                append_chars(&mut b, s);
                self.link_text = Some(b);
            },
            None => self.push_chars(s),
        }
    }

    fn open_item(&mut self, wa: bool)
        ensures
            final(self).doc() == item_opened(old(self).doc(), wa),
    {
        self.break_line();
        let k = self.lists.len();
        if k == 0 {
            self.at_line_start = false;
            return;
        }
        let ghost base = self.out@;
        let ghost b = self.doc();
        let mut d: usize = 0;
        while d < k - 1
            invariant
                k == self.lists@.len(),
                k > 0,
                d <= k - 1,
                self.out@ == base + spaces(d as nat),
                self.lists@ == b.lists,
                opt_chars(self.link_text) == b.link_text,
                opt_chars(self.link_dest) == b.link_dest,
                self.at_line_start == b.at_line_start,
                self.pending_blank == b.pending_blank,
            decreases k - 1 - d,
        {
            self.out.push(' ');
            self.out.push(' ');
            d = d + 1;
            assert(self.out@ =~= base + spaces(d as nat));
        }
        let ghost lists0 = self.lists@;
        let ghost out0 = self.out@;
        match self.lists[k - 1] {
            Some(n) => {
                let digits = decimal_chars(n);
                append_chars(&mut self.out, &digits);
                self.out.push('.');
                self.out.push(' ');
                assert(self.out@ =~= out0 + decimal(n as nat) + seq!['.', ' ']);
                let next = if n < u64::MAX {
                    n + 1
                } else {
                    n
                };
                self.lists.pop();
                self.lists.push(Some(next));
                assert(self.lists@ =~= lists0.update(k - 1, Some(next_number(n))));
            },
            None => {
                self.out.push(if wa {
                    '*'
                } else {
                    '-'
                });
                self.out.push(' ');
                assert(self.out@ =~= out0 + seq![if wa { '*' } else { '-' }, ' ']);
            },
        }
        self.at_line_start = false;
    }

    fn open_tag(&mut self, t: &MdTag, wa: bool)
        ensures
            final(self).doc() == opened(old(self).doc(), *t, wa),
    {
        match t {
            MdTag::Paragraph => self.break_line(),
            MdTag::Heading(level) => {
                self.break_line();
                if *level <= 2 && self.out.len() > 0 {
                    self.pending_blank = true;
                }
                if wa {
                    self.push_chars(&one_char('*'));
                }
            },
            MdTag::BlockQuote => {
                self.break_line();
                if wa {
                    let mut q = one_char('>');
                    q.push(' ');
                    assert(q@ =~= seq!['>', ' ']);
                    self.push_chars(&q);
                }
            },
            MdTag::CodeBlock => {
                self.break_line();
                if wa {
                    let mut f = fence();
                    f.push('\n');
                    self.push_chars(&f);
                }
            },
            MdTag::List(start) => {
                self.break_line();
                self.lists.push(*start);
            },
            MdTag::Item => self.open_item(wa),
            MdTag::Link(dest) => {
                self.link_text = Some(Vec::new());
                self.link_dest = Some(chars_of(dest.as_str()));
                assert(opt_chars(self.link_text) == Some(Seq::<char>::empty()));
            },
            MdTag::Image => {
                self.link_text = Some(Vec::new());
                self.link_dest = None;
                assert(opt_chars(self.link_text) == Some(Seq::<char>::empty()));
            },
            MdTag::Strong => if wa {
                self.push_chars(&one_char('*'));
            },
            MdTag::Emphasis => if wa {
                self.push_chars(&one_char('_'));
            },
            MdTag::Strikethrough => if wa {
                self.push_chars(&one_char('~'));
            },
            MdTag::Other => {},
        }
    }

    fn close_block(&mut self)
        ensures
            final(self).doc() == block_closed(old(self).doc()),
    {
        self.break_line();
        self.pending_blank = true;
    }

    fn close_tag(&mut self, k: MdTagKind, wa: bool)
        ensures
            final(self).doc() == closed(old(self).doc(), k, wa),
    {
        match k {
            MdTagKind::Paragraph | MdTagKind::BlockQuote => self.close_block(),
            MdTagKind::Heading => {
                if wa {
                    self.push_chars(&one_char('*'));
                }
                self.close_block();
            },
            MdTagKind::CodeBlock => {
                if wa {
                    self.break_line();
                    self.push_chars(&fence());
                }
                self.close_block();
            },
            MdTagKind::List => {
                self.break_line();
                self.lists.pop();
                if self.lists.len() == 0 {
                    self.pending_blank = true;
                }
            },
            MdTagKind::Item => self.break_line(),
            MdTagKind::Link => {
                let text = match self.link_text.take() {
                    Some(t) => t,
                    None => Vec::new(),
                };
                let dest = match self.link_dest.take() {
                    Some(t) => t,
                    None => Vec::new(),
                };
                let rendered = render_link(text, &dest, wa);
                self.push_chars(&rendered);
            },
            MdTagKind::Image => {
                let alt = match self.link_text.take() {
                    Some(t) => t,
                    None => Vec::new(),
                };
                self.push_chars(&alt);
            },
            MdTagKind::Strong => if wa {
                self.push_chars(&one_char('*'));
            },
            MdTagKind::Emphasis => if wa {
                self.push_chars(&one_char('_'));
            },
            MdTagKind::Strikethrough => if wa {
                self.push_chars(&one_char('~'));
            },
            MdTagKind::Other => {},
        }
    }

    fn step(&mut self, e: &MdEvent, wa: bool)
        ensures
            final(self).doc() == doc_step(old(self).doc(), *e, wa),
    {
        match e {
            MdEvent::Text(t) => {
                let v = chars_of(t.as_str());
                self.emit(&v);
            },
            MdEvent::Code(t) => {
                let v = chars_of(t.as_str());
                if wa {
                    let mut w = one_char('`');
                    append_chars(&mut w, &v);
                    w.push('`');
                    assert(w@ =~= seq!['`'] + t@ + seq!['`']);
                    self.emit(&w);
                } else {
                    self.emit(&v);
                }
            },
            MdEvent::SoftBreak => {
                if !self.at_line_start {
                    self.out.push(' ');
                }
            },
            MdEvent::HardBreak => self.break_line(),
            MdEvent::Start(t) => self.open_tag(t, wa),
            MdEvent::End(k) => self.close_tag(*k, wa),
            MdEvent::Other => {},
        }
    }
}

fn fence() -> (v: Vec<char>)
    ensures
        v@ == code_fence(),
{
    let mut v = one_char('`');
    v.push('`');
    v.push('`');
    assert(v@ =~= code_fence());
    v
}

/// Runs the renderer over all of `events`.
fn render_doc(events: &[MdEvent], wa: bool) -> (r: Vec<char>)
    ensures
        r@ == doc_after(events@, events@.len() as int, wa).out,
{
    let mut d = Renderer::new();
    let mut i: usize = 0;
    while i < events.len()
        invariant
            i <= events@.len(),
            d.doc() == doc_after(events@, i as int, wa),
        decreases events@.len() - i,
    {
        d.step(&events[i], wa);
        i = i + 1;
    }
    d.out
}


/// The characters of each vector of a sequence.
pub open spec fn char_vecs_view(v: Seq<Vec<char>>) -> Seq<Seq<char>> {
    v.map_values(|x: Vec<char>| x@)
}

/// The length of `v` without its trailing whitespace.
fn trimmed_end_len(v: &Vec<char>) -> (k: usize)
    ensures
        k <= v@.len(),
        v@.subrange(0, k as int) == trim_end_chars(v@),
{
    let mut k: usize = v.len();
    assert(v@.subrange(0, v@.len() as int) =~= v@);
    while k > 0 && is_whitespace(v[k - 1])
        invariant
            k <= v@.len(),
            trim_end_chars(v@.subrange(0, k as int)) == trim_end_chars(v@),
        decreases k,
    {
        assert(v@.subrange(0, k as int).drop_last() =~= v@.subrange(0, k - 1));
        k = k - 1;
    }
    k
}

/// `v[..n]` with every run of three or more newlines cut to two.
fn collapse_newlines(v: &Vec<char>, n: usize) -> (r: Vec<char>)
    requires
        n <= v@.len(),
    ensures
        r@ == collapsed(v@.subrange(0, n as int)),
{
    let ghost s = v@.subrange(0, n as int);
    let mut r: Vec<char> = Vec::new();
    let mut run: usize = 0;
    let mut i: usize = 0;
    while i < n
        invariant
            n <= v@.len(),
            s == v@.subrange(0, n as int),
            i <= n,
            r@ == collapse_run(s, i as int).0,
            run == (if collapse_run(s, i as int).1 < 2 { collapse_run(s, i as int).1 } else { 2 }),
        decreases n - i,
    {
        let c = v[i];
        assert(s[i as int] == c);
        if c == '\n' {
            if run < 2 {
                r.push('\n');
                run = run + 1;
            }
        } else {
            r.push(c);
            run = 0;
        }
        i = i + 1;
    }
    r
}

/// The segments of `s` between its newlines, in order: one more than it
/// has newlines.
pub open spec fn segments(s: Seq<char>) -> Seq<Seq<char>>
    decreases s.len(),
{
    if s.len() == 0 {
        seq![seq![]]
    } else {
        let prev = segments(s.drop_last());
        if s.last() == '\n' {
            prev.push(seq![])
        } else {
            prev.update(prev.len() - 1, prev.last().push(s.last()))
        }
    }
}

proof fn lemma_segments_nonempty(s: Seq<char>)
    ensures
        segments(s).len() >= 1,
    decreases s.len(),
{
    if s.len() > 0 {
        lemma_segments_nonempty(s.drop_last());
    }
}

/// A line without the `\r` of a `\r\n` ending.
pub open spec fn strip_cr(l: Seq<char>) -> Seq<char> {
    if l.len() > 0 && l.last() == '\r' {
        l.drop_last()
    } else {
        l
    }
}

/// std's `str::lines`: the lines of `s` without their `\n` or `\r\n`
/// endings; a final line ending adds no empty line.
pub open spec fn str_lines(s: Seq<char>) -> Seq<Seq<char>> {
    let segs = segments(s);
    let n = if segs.last().len() == 0 {
        segs.len() - 1
    } else {
        segs.len() as int
    };
    Seq::new(n as nat, |i: int| if i < segs.len() - 1 { strip_cr(segs[i]) } else { segs[i] })
}

pub open spec fn all_ascii_digits(s: Seq<char>) -> bool {
    forall|i: int| 0 <= i < s.len() ==> '0' <= #[trigger] s[i] <= '9'
}

/// A line that would show as a lone bullet: `*` or `-`, a number and a dot,
/// or only whitespace.
pub open spec fn empty_bullet(line: Seq<char>) -> bool {
    let t = trim_chars(line);
    ||| t == seq!['*']
    ||| t == seq!['-']
    ||| t.len() == 0 && line.len() > 0
    ||| t.len() > 0 && t.last() == '.' && all_ascii_digits(t.drop_last())
}

/// The first `n` lines that are no lone bullet.
pub open spec fn kept_lines(lines: Seq<Seq<char>>, n: int) -> Seq<Seq<char>>
    decreases n,
{
    if n <= 0 || n > lines.len() {
        seq![]
    } else if empty_bullet(lines[n - 1]) {
        kept_lines(lines, n - 1)
    } else {
        kept_lines(lines, n - 1).push(lines[n - 1])
    }
}

/// Markdown `events` in WhatsApp's formatting: `*bold*`, `_italic_`,
/// `~strike~`, code kept in backticks, headings in bold, `> ` quotes, `* `
/// bullets, links as `text: url`; lone bullet lines dropped, trailing
/// whitespace trimmed and newline runs cut to two.
pub open spec fn whatsapp_text(events: Seq<MdEvent>) -> Seq<char> {
    let lines = str_lines(doc_after(events, events.len() as int, true).out);
    collapsed(trim_end_chars(crate::text::join_with(kept_lines(lines, lines.len() as int), seq!['\n'])))
}

/// Markdown `events` as plain text, see [`plain_text`].
pub fn render_plain(events: &[MdEvent]) -> (r: String)
    ensures
        r@ == plain_text(events@),
{
    let out = render_doc(events, false);
    let k = trimmed_end_len(&out);
    let c = collapse_newlines(&out, k);
    string_from_chars(&c, 0, c.len())
}

/// Renders markdown `input` as plain text.
pub fn to_plain(input: &str) -> (r: String)
    ensures
        r@ == plain_text(markdown_events_of(input@)),
{
    let events = markdown_events(input);
    render_plain(events.as_slice())
}


/// The segments of `v` between its newlines, see [`segments`].
fn split_segments(v: &Vec<char>) -> (r: Vec<Vec<char>>)
    ensures
        char_vecs_view(r@) == segments(v@),
{
    let mut done: Vec<Vec<char>> = Vec::new();
    let mut cur: Vec<char> = Vec::new();
    let mut i: usize = 0;
    assert(v@.subrange(0, 0) =~= Seq::<char>::empty());
    assert(char_vecs_view(done@).push(cur@) =~= segments(v@.subrange(0, 0)));
    while i < v.len()
        invariant
            i <= v@.len(),
            char_vecs_view(done@).push(cur@) == segments(v@.subrange(0, i as int)),
        decreases v@.len() - i,
    {
        let ghost pre = v@.subrange(0, i as int);
        let ghost next = v@.subrange(0, i + 1);
        assert(next.drop_last() =~= pre);
        assert(next.last() == v@[i as int]);
        proof {
            lemma_segments_nonempty(pre);
        }
        let c = v[i];
        if c == '\n' {
            let finished = cur;
            done.push(finished);
            cur = Vec::new();
            assert(char_vecs_view(done@).push(cur@) =~= segments(pre).push(seq![]));
        } else {
            let ghost before = char_vecs_view(done@);
            cur.push(c);
            assert(char_vecs_view(done@).push(cur@) =~= segments(pre).update(
                segments(pre).len() - 1,
                segments(pre).last().push(c),
            ));
        }
        i = i + 1;
    }
    assert(v@.subrange(0, v@.len() as int) =~= v@);
    done.push(cur);
    assert(char_vecs_view(done@) =~= segments(v@));
    done
}

/// The line `seg` without a `\r` before its newline, when it had one.
fn line_of(seg: &Vec<char>, ended: bool) -> (r: Vec<char>)
    ensures
        r@ == (if ended { strip_cr(seg@) } else { seg@ }),
{
    let n = seg.len();
    let cut = if ended && n > 0 && seg[n - 1] == '\r' {
        n - 1
    } else {
        n
    };
    let mut r: Vec<char> = Vec::new();
    let mut i: usize = 0;
    while i < cut
        invariant
            cut <= seg@.len(),
            i <= cut,
            r@ == seg@.subrange(0, i as int),
        decreases cut - i,
    {
        r.push(seg[i]);
        i = i + 1;
        assert(r@ =~= seg@.subrange(0, i as int));
    }
    assert(seg@.subrange(0, seg@.len() as int) =~= seg@);
    assert(n > 0 ==> seg@.drop_last() =~= seg@.subrange(0, n - 1));
    r
}

/// Whether `line` is a lone bullet, see [`empty_bullet`].
fn is_empty_bullet(line: &Vec<char>) -> (r: bool)
    ensures
        r == empty_bullet(line@),
{
    let s = string_from_chars(line, 0, line.len());
    assert(line@.subrange(0, line@.len() as int) =~= line@);
    let t = chars_of(crate::text::trim_string(s.as_str()).as_str());
    assert(t@ == trim_chars(line@));
    let n = t.len();
    if n == 1 && (t[0] == '*' || t[0] == '-') {
        assert(t@ =~= seq![t@[0]]);
        return true;
    }
    if n == 0 {
        return line.len() > 0;
    }
    assert(t@ != seq!['*'] && t@ != seq!['-']) by {
        if n == 1 {
            assert(seq!['*'][0] == '*');
            assert(seq!['-'][0] == '-');
        }
    }
    if t[n - 1] != '.' {
        assert(t@.last() != '.');
        return false;
    }
    let mut i: usize = 0;
    while i < n - 1
        invariant
            n == t@.len(),
            n > 0,
            i <= n - 1,
            t@ == trim_chars(line@),
            t@ != seq!['*'],
            t@ != seq!['-'],
            t@.last() == '.',
            forall|j: int| 0 <= j < i ==> '0' <= #[trigger] t@[j] <= '9',
        decreases n - 1 - i,
    {
        if !('0' <= t[i] && t[i] <= '9') {
            assert(t@.drop_last()[i as int] == t@[i as int]);
            return false;
        }
        i = i + 1;
    }
    assert forall|j: int| 0 <= j < t@.drop_last().len() implies '0' <= #[trigger] t@.drop_last()[j] <= '9' by {
        assert(t@.drop_last()[j] == t@[j]);
    }
    true
}

/// The WhatsApp post-pass: the lines of `out` that are no lone bullet,
/// joined by newlines.
fn kept_joined(out: &Vec<char>) -> (r: Vec<char>)
    ensures
        r@ == crate::text::join_with(kept_lines(str_lines(out@), str_lines(out@).len() as int), seq!['\n']),
{
    let segs = split_segments(out);
    let ghost sv = segments(out@);
    let ghost lines = str_lines(out@);
    proof {
        lemma_segments_nonempty(out@);
    }
    let total = segs.len();
    let n = if segs[total - 1].len() == 0 {
        total - 1
    } else {
        total
    };
    assert(char_vecs_view(segs@)[total - 1] == segs@[total - 1]@);
    assert(lines.len() == n);
    let mut r: Vec<char> = Vec::new();
    let mut count: usize = 0;
    let mut i: usize = 0;
    while i < n
        invariant
            total == segs@.len(),
            char_vecs_view(segs@) == sv,
            sv == segments(out@),
            lines == str_lines(out@),
            lines.len() == n,
            n <= total,
            i <= n,
            count <= i,
            count == kept_lines(lines, i as int).len(),
            r@ == crate::text::join_with(kept_lines(lines, i as int), seq!['\n']),
        decreases n - i,
    {
        let line = line_of(&segs[i], i < total - 1);
        assert(char_vecs_view(segs@)[i as int] == segs@[i as int]@);
        assert(line@ == lines[i as int]);
        if !is_empty_bullet(&line) {
            let ghost kept = kept_lines(lines, i as int);
            if count > 0 {
                r.push('\n');
            }
            append_chars(&mut r, &line);
            proof {
                let k2 = kept.push(line@);
                assert(k2.drop_last() =~= kept);
                if count == 0 {
                    assert(kept.len() == 0);
                    assert(r@ =~= line@);
                } else {
                    assert(r@ =~= crate::text::join_with(kept, seq!['\n']) + seq!['\n'] + line@);
                }
            }
            count = count + 1;
        }
        i = i + 1;
    }
    r
}

/// Markdown `events` in WhatsApp's formatting, see [`whatsapp_text`].
pub fn render_whatsapp(events: &[MdEvent]) -> (r: String)
    ensures
        r@ == whatsapp_text(events@),
{
    let out = render_doc(events, true);
    let joined = kept_joined(&out);
    let k = trimmed_end_len(&joined);
    let c = collapse_newlines(&joined, k);
    string_from_chars(&c, 0, c.len())
}

/// Renders markdown `input` in WhatsApp's formatting.
pub fn to_whatsapp(input: &str) -> (r: String)
    ensures
        r@ == whatsapp_text(markdown_events_of(input@)),
{
    let events = markdown_events(input);
    render_whatsapp(events.as_slice())
}


/// A text style Signal renders over a range of the body.
#[derive(Debug, Clone, Copy, PartialEq, Eq, Structural)]
pub enum SignalStyle {
    Bold,
    Italic,
    Strikethrough,
    Monospace,
}

/// A styled range of a Signal body; `start` and `length` count UTF-16 code
/// units, as Signal's protocol does (a character outside the Basic
/// Multilingual Plane, such as most emoji, counts two).
#[derive(Debug, Clone, Copy, PartialEq, Eq, Structural)]
pub struct SignalBodyRange {
    pub start: u32,
    pub length: u32,
    pub style: SignalStyle,
}

/// A Signal message: its plain body and the styled ranges over it.
#[derive(Debug, Clone, PartialEq)]
pub struct SignalText {
    pub body: String,
    pub ranges: Vec<SignalBodyRange>,
}

/// The UTF-16 code units of `c`.
pub open spec fn utf16_units(c: char) -> nat {
    if (c as u32) >= 0x10000 {
        2
    } else {
        1
    }
}

/// The UTF-16 code units of `s`.
pub open spec fn utf16_len(s: Seq<char>) -> nat
    decreases s.len(),
{
    if s.len() == 0 {
        0
    } else {
        utf16_len(s.drop_last()) + utf16_units(s.last())
    }
}

/// A UTF-16 offset as the renderer keeps it: it saturates at `u32::MAX`.
pub open spec fn capped(n: int) -> u32 {
    if n < 0 {
        0
    } else if n > u32::MAX {
        u32::MAX
    } else {
        n as u32
    }
}

/// The UTF-16 offset of the end of what is written so far.
pub open spec fn offset(d: Doc) -> u32 {
    capped(utf16_len(d.out) as int)
}

/// `a - b`, or 0 when `b > a`.
pub open spec fn gap(a: u32, b: u32) -> u32 {
    if a >= b {
        (a - b) as u32
    } else {
        0
    }
}

/// The Signal renderer's state: the document, the ranges found so far, the
/// styles still open with their start offsets, and the code block being
/// read.
pub struct SignalDoc {
    pub doc: Doc,
    pub ranges: Seq<SignalBodyRange>,
    pub styles: Seq<(SignalStyle, u32)>,
    pub in_code: bool,
    pub code_start: u32,
}

pub open spec fn empty_signal_doc() -> SignalDoc {
    SignalDoc { doc: empty_doc(), ranges: seq![], styles: seq![], in_code: false, code_start: 0 }
}

/// `ranges` with `(start, length, style)` added when the range is not empty.
pub open spec fn with_range(ranges: Seq<SignalBodyRange>, start: u32, length: u32, style: SignalStyle) -> Seq<SignalBodyRange> {
    if length > 0 {
        ranges.push(SignalBodyRange { start, length, style })
    } else {
        ranges
    }
}

/// `sd` as element `t` opens: as in plain text, but an item first writes a
/// pending blank line, a code block notes where it starts, and bold, italic
/// and strikethrough open a style at the current offset.
pub open spec fn signal_opened(sd: SignalDoc, t: MdTag) -> SignalDoc {
    match t {
        MdTag::CodeBlock => {
            let d = broken(sd.doc);
            SignalDoc { doc: d, in_code: true, code_start: offset(d), ..sd }
        },
        MdTag::Item => SignalDoc { doc: item_opened(flushed(sd.doc), false), ..sd },
        MdTag::Strong => SignalDoc { styles: sd.styles.push((SignalStyle::Bold, offset(sd.doc))), ..sd },
        MdTag::Emphasis => SignalDoc { styles: sd.styles.push((SignalStyle::Italic, offset(sd.doc))), ..sd },
        MdTag::Strikethrough => SignalDoc {
            styles: sd.styles.push((SignalStyle::Strikethrough, offset(sd.doc))),
            ..sd
        },
        _ => SignalDoc { doc: opened(sd.doc, t, false), ..sd },
    }
}

/// `sd` as the innermost open style closes: its range runs from where it
/// opened to the current offset.
pub open spec fn style_closed(sd: SignalDoc) -> SignalDoc {
    if sd.styles.len() == 0 {
        sd
    } else {
        let (style, start) = sd.styles.last();
        SignalDoc {
            ranges: with_range(sd.ranges, start, gap(offset(sd.doc), start), style),
            styles: sd.styles.drop_last(),
            ..sd
        }
    }
}

/// `sd` as an element of kind `k` closes: a code block becomes a monospace
/// range (without the parser's final newline), a style its range.
pub open spec fn signal_closed(sd: SignalDoc, k: MdTagKind) -> SignalDoc {
    match k {
        MdTagKind::CodeBlock => {
            let length = gap(offset(sd.doc), sd.code_start);
            let trimmed = if ends_line(sd.doc.out) {
                (length - 1) as u32
            } else {
                length
            };
            let ranges = if sd.in_code && length > 0 {
                with_range(sd.ranges, sd.code_start, trimmed, SignalStyle::Monospace)
            } else {
                sd.ranges
            };
            SignalDoc { doc: block_closed(sd.doc), ranges, in_code: false, ..sd }
        },
        MdTagKind::Strong | MdTagKind::Emphasis | MdTagKind::Strikethrough => style_closed(sd),
        _ => SignalDoc { doc: closed(sd.doc, k, false), ..sd },
    }
}

/// `sd` after event `e`. Inline code outside a link is a monospace range.
pub open spec fn signal_step(sd: SignalDoc, e: MdEvent) -> SignalDoc {
    match e {
        MdEvent::Code(t) => if sd.doc.link_text is Some {
            SignalDoc { doc: emitted(sd.doc, t@), ..sd }
        } else {
            let start = offset(sd.doc);
            let d = pushed(sd.doc, t@);
            SignalDoc {
                doc: d,
                ranges: with_range(sd.ranges, start, gap(offset(d), start), SignalStyle::Monospace),
                ..sd
            }
        },
        MdEvent::Start(t) => signal_opened(sd, t),
        MdEvent::End(k) => signal_closed(sd, k),
        _ => SignalDoc { doc: doc_step(sd.doc, e, false), ..sd },
    }
}

/// The Signal renderer's state after the first `n` events.
pub open spec fn signal_after(events: Seq<MdEvent>, n: int) -> SignalDoc
    decreases n,
{
    if n <= 0 || n > events.len() {
        empty_signal_doc()
    } else {
        signal_step(signal_after(events, n - 1), events[n - 1])
    }
}

/// Collapsing the newline runs of the first `n` characters of `s`: the
/// collapsed text, the newline run it ends with, and per UTF-16 unit of
/// `s` how far the collapse has moved it (removed newlines so far, as a
/// negative shift), with the final shift.
pub open spec fn shift_run(s: Seq<char>, n: int) -> (Seq<char>, nat, Seq<int>, int)
    decreases n,
{
    if n <= 0 || n > s.len() {
        (seq![], 0, seq![], 0)
    } else {
        let (body, k, deltas, running) = shift_run(s, n - 1);
        let c = s[n - 1];
        if c == '\n' {
            if k < 2 {
                (body.push(c), k + 1, deltas.push(running), running)
            } else {
                (body, k + 1, deltas.push(running - 1), running - 1)
            }
        } else if utf16_units(c) == 2 {
            (body.push(c), 0, deltas.push(running).push(running), running)
        } else {
            (body.push(c), 0, deltas.push(running), running)
        }
    }
}

/// A range of the uncollapsed text moved onto the collapsed body of UTF-16
/// length `total`, or `None` when nothing of it is left.
pub open spec fn moved_range(r: SignalBodyRange, deltas: Seq<int>, running: int, total: u32) -> Option<SignalBodyRange> {
    let start_shift = if r.start < deltas.len() {
        deltas[r.start as int]
    } else {
        0
    };
    let end_old = capped(r.start + r.length);
    let last = gap(end_old, 1);
    let end_shift = if last < deltas.len() {
        deltas[last as int]
    } else {
        running
    };
    let new_start = if r.start + start_shift < 0 {
        0
    } else {
        r.start + start_shift
    };
    let end0 = if end_old + end_shift < 0 {
        0
    } else {
        end_old + end_shift
    };
    let new_end = if end0 < total {
        end0
    } else {
        total as int
    };
    if new_end > new_start {
        Some(SignalBodyRange { start: new_start as u32, length: (new_end - new_start) as u32, style: r.style })
    } else {
        None
    }
}

/// The moved ranges of the first `n` of `ranges` that keep something.
pub open spec fn moved_ranges(ranges: Seq<SignalBodyRange>, n: int, deltas: Seq<int>, running: int, total: u32) -> Seq<SignalBodyRange>
    decreases n,
{
    if n <= 0 || n > ranges.len() {
        seq![]
    } else {
        match moved_range(ranges[n - 1], deltas, running, total) {
            Some(m) => moved_ranges(ranges, n - 1, deltas, running, total).push(m),
            None => moved_ranges(ranges, n - 1, deltas, running, total),
        }
    }
}

/// The Signal body of markdown `events`: rendered as plain text (headings,
/// quotes and lists have no style on Signal), trailing whitespace trimmed,
/// newline runs cut to two.
pub open spec fn signal_body(events: Seq<MdEvent>) -> Seq<char> {
    let trimmed = trim_end_chars(signal_after(events, events.len() as int).doc.out);
    shift_run(trimmed, trimmed.len() as int).0
}

/// The styled ranges of the Signal body of `events`: bold, italic,
/// strikethrough and code, in the order they close, moved onto the
/// collapsed body and clipped to it.
pub open spec fn signal_ranges(events: Seq<MdEvent>) -> Seq<SignalBodyRange> {
    let sd = signal_after(events, events.len() as int);
    let trimmed = trim_end_chars(sd.doc.out);
    let (body, _k, deltas, running) = shift_run(trimmed, trimmed.len() as int);
    moved_ranges(sd.ranges, sd.ranges.len() as int, deltas, running, capped(utf16_len(body) as int))
}


/// The UTF-16 code units of `c`.
fn units_of(c: char) -> (r: u32)
    ensures
        r == utf16_units(c),
{
    if (c as u32) >= 0x10000 {
        2
    } else {
        1
    }
}

/// The UTF-16 length of `v`, saturating at `u32::MAX`.
fn offset_of(v: &Vec<char>) -> (r: u32)
    ensures
        r == capped(utf16_len(v@) as int),
{
    let mut n: u32 = 0;
    let mut i: usize = 0;
    while i < v.len()
        invariant
            i <= v@.len(),
            n == capped(utf16_len(v@.subrange(0, i as int)) as int),
        decreases v@.len() - i,
    {
        assert(v@.subrange(0, i + 1).drop_last() =~= v@.subrange(0, i as int));
        let u = units_of(v[i]);
        n = n.saturating_add(u);
        i = i + 1;
    }
    assert(v@.subrange(0, v@.len() as int) =~= v@);
    n
}

/// The Signal renderer part-way through a document, see [`SignalDoc`].
struct SignalRenderer {
    r: Renderer,
    ranges: Vec<SignalBodyRange>,
    styles: Vec<(SignalStyle, u32)>,
    in_code: bool,
    code_start: u32,
}

impl SignalRenderer {
    spec fn sdoc(&self) -> SignalDoc {
        SignalDoc {
            doc: self.r.doc(),
            ranges: self.ranges@,
            styles: self.styles@,
            in_code: self.in_code,
            code_start: self.code_start,
        }
    }

    fn offset(&self) -> (r: u32)
        ensures
            r == offset(self.r.doc()),
    {
        offset_of(&self.r.out)
    }

    fn add_range(&mut self, start: u32, length: u32, style: SignalStyle)
        ensures
            final(self).ranges@ == with_range(old(self).ranges@, start, length, style),
            final(self).r == old(self).r,
            final(self).styles@ == old(self).styles@,
            final(self).in_code == old(self).in_code,
            final(self).code_start == old(self).code_start,
    {
        if length > 0 {
            self.ranges.push(SignalBodyRange { start, length, style });
        }
    }

    fn close_style(&mut self)
        ensures
            final(self).sdoc() == style_closed(old(self).sdoc()),
    {
        match self.styles.pop() {
            Some((style, start)) => {
                let now = self.offset();
                let length = if now >= start {
                    now - start
                } else {
                    0
                };
                self.add_range(start, length, style);
            },
            None => {},
        }
    }

    fn step(&mut self, e: &MdEvent)
        ensures
            final(self).sdoc() == signal_step(old(self).sdoc(), *e),
    {
        match e {
            MdEvent::Code(t) => {
                let v = chars_of(t.as_str());
                if self.r.link_text.is_some() {
                    self.r.emit(&v);
                } else {
                    let start = self.offset();
                    self.r.push_chars(&v);
                    let now = self.offset();
                    let length = if now >= start {
                        now - start
                    } else {
                        0
                    };
                    self.add_range(start, length, SignalStyle::Monospace);
                }
            },
            MdEvent::Start(t) => match t {
                MdTag::CodeBlock => {
                    self.r.break_line();
                    self.in_code = true;
                    self.code_start = self.offset();
                },
                MdTag::Item => {
                    self.r.flush();
                    self.r.open_item(false);
                },
                MdTag::Strong => {
                    let at = self.offset();
                    self.styles.push((SignalStyle::Bold, at));
                },
                MdTag::Emphasis => {
                    let at = self.offset();
                    self.styles.push((SignalStyle::Italic, at));
                },
                MdTag::Strikethrough => {
                    let at = self.offset();
                    self.styles.push((SignalStyle::Strikethrough, at));
                },
                _ => self.r.open_tag(t, false),
            },
            MdEvent::End(k) => match k {
                MdTagKind::CodeBlock => {
                    let now = self.offset();
                    let length = if now >= self.code_start {
                        now - self.code_start
                    } else {
                        0
                    };
                    if self.in_code && length > 0 {
                        let n = self.r.out.len();
                        let trimmed = if n > 0 && self.r.out[n - 1] == '\n' {
                            length - 1
                        } else {
                            length
                        };
                        self.add_range(self.code_start, trimmed, SignalStyle::Monospace);
                    }
                    self.in_code = false;
                    self.r.close_block();
                },
                MdTagKind::Strong | MdTagKind::Emphasis | MdTagKind::Strikethrough => self.close_style(),
                _ => self.r.close_tag(*k, false),
            },
            _ => self.r.step(e, false),
        }
    }
}

/// The collapsed text of `v[..n]` with the shift table, see [`shift_run`].
fn shift_table(v: &Vec<char>, n: usize) -> (r: (Vec<char>, Vec<i128>, i128))
    requires
        n <= v@.len(),
    ensures
        ({
            let (body, _k, deltas, running) = shift_run(v@.subrange(0, n as int), n as int);
            &&& r.0@ == body
            &&& r.1@.map_values(|x: i128| x as int) == deltas
            &&& r.2 == running
        }),
{
    let ghost s = v@.subrange(0, n as int);
    let mut body: Vec<char> = Vec::new();
    let mut deltas: Vec<i128> = Vec::new();
    let mut running: i128 = 0;
    let mut run: usize = 0;
    let mut i: usize = 0;
    while i < n
        invariant
            n <= v@.len(),
            s == v@.subrange(0, n as int),
            i <= n,
            body@ == shift_run(s, i as int).0,
            run == (if shift_run(s, i as int).1 < 2 { shift_run(s, i as int).1 } else { 2 }),
            deltas@.map_values(|x: i128| x as int) == shift_run(s, i as int).2,
            running == shift_run(s, i as int).3,
            -(i as int) <= running <= 0,
        decreases n - i,
    {
        let c = v[i];
        assert(s[i as int] == c);
        let ghost d0 = deltas@;
        if c == '\n' {
            if run < 2 {
                body.push('\n');
                run = run + 1;
                deltas.push(running);
            } else {
                running = running - 1;
                deltas.push(running);
            }
            assert(deltas@.map_values(|x: i128| x as int) =~= d0.map_values(|x: i128| x as int).push(running as int));
        } else {
            body.push(c);
            run = 0;
            deltas.push(running);
            if units_of(c) == 2 {
                deltas.push(running);
                assert(deltas@.map_values(|x: i128| x as int) =~= d0.map_values(|x: i128| x as int).push(running as int).push(running as int));
            } else {
                assert(deltas@.map_values(|x: i128| x as int) =~= d0.map_values(|x: i128| x as int).push(running as int));
            }
        }
        i = i + 1;
    }
    (body, deltas, running)
}

/// A range moved onto the collapsed body, see [`moved_range`].
fn move_range(r: SignalBodyRange, deltas: &Vec<i128>, running: i128, total: u32) -> (m: Option<SignalBodyRange>)
    requires
        -(deltas@.len() as int) - 1 <= running <= 0,
        forall|j: int| 0 <= j < deltas@.len() ==> -(deltas@.len() as int) - 1 <= #[trigger] deltas@[j] <= 0,
    ensures
        m == moved_range(r, deltas@.map_values(|x: i128| x as int), running as int, total),
{
    let ghost dv = deltas@.map_values(|x: i128| x as int);
    let start_shift: i128 = if (r.start as usize) < deltas.len() {
        deltas[r.start as usize]
    } else {
        0
    };
    let end_old: u32 = r.start.saturating_add(r.length);
    let last: u32 = end_old.saturating_sub(1);
    let end_shift: i128 = if (last as usize) < deltas.len() {
        deltas[last as usize]
    } else {
        running
    };
    assert((r.start as usize) < deltas@.len() ==> dv[r.start as int] == deltas@[r.start as int]);
    assert((last as usize) < deltas@.len() ==> dv[last as int] == deltas@[last as int]);
    assert(end_old == capped(r.start + r.length));
    let s0: i128 = (r.start as i128) + start_shift;
    let new_start: i128 = if s0 < 0 {
        0
    } else {
        s0
    };
    let e0: i128 = (end_old as i128) + end_shift;
    let e1: i128 = if e0 < 0 {
        0
    } else {
        e0
    };
    let new_end: i128 = if e1 < (total as i128) {
        e1
    } else {
        total as i128
    };
    if new_end > new_start {
        assert(new_start <= u32::MAX && new_end <= u32::MAX);
        Some(SignalBodyRange { start: new_start as u32, length: (new_end - new_start) as u32, style: r.style })
    } else {
        None
    }
}

/// Markdown `events` for Signal: the plain body and its styled ranges, see
/// [`signal_body`] and [`signal_ranges`].
pub fn render_signal(events: &[MdEvent]) -> (t: SignalText)
    ensures
        t.body@ == signal_body(events@),
        t.ranges@ == signal_ranges(events@),
{
    let mut sr = SignalRenderer {
        r: Renderer::new(),
        ranges: Vec::new(),
        styles: Vec::new(),
        in_code: false,
        code_start: 0,
    };
    assert(sr.sdoc().ranges =~= empty_signal_doc().ranges);
    assert(sr.sdoc().styles =~= empty_signal_doc().styles);
    let mut i: usize = 0;
    while i < events.len()
        invariant
            i <= events@.len(),
            sr.sdoc() == signal_after(events@, i as int),
        decreases events@.len() - i,
    {
        sr.step(&events[i]);
        i = i + 1;
    }
    let ghost sd = sr.sdoc();
    let k = trimmed_end_len(&sr.r.out);
    let (body, deltas, running) = shift_table(&sr.r.out, k);
    let total = offset_of(&body);
    let ghost dv = deltas@.map_values(|x: i128| x as int);
    proof {
        assert(sd == signal_after(events@, events@.len() as int));
        lemma_shift_bounds(sr.r.out@.subrange(0, k as int), k as int);
        assert(deltas@.len() == dv.len());
        assert forall|j: int| 0 <= j < deltas@.len() implies -(deltas@.len() as int) - 1 <= #[trigger] deltas@[j] <= 0 by {
            assert(dv[j] == deltas@[j] as int);
        }
    }
    let mut ranges: Vec<SignalBodyRange> = Vec::new();
    let mut j: usize = 0;
    while j < sr.ranges.len()
        invariant
            j <= sr.ranges@.len(),
            sr.ranges@ == sd.ranges,
            dv == deltas@.map_values(|x: i128| x as int),
            -(deltas@.len() as int) - 1 <= running <= 0,
            forall|q: int| 0 <= q < deltas@.len() ==> -(deltas@.len() as int) - 1 <= #[trigger] deltas@[q] <= 0,
            ranges@ == moved_ranges(sd.ranges, j as int, dv, running as int, total),
        decreases sr.ranges@.len() - j,
    {
        match move_range(sr.ranges[j], &deltas, running, total) {
            Some(m) => ranges.push(m),
            None => {},
        }
        j = j + 1;
    }
    SignalText { body: string_from_chars(&body, 0, body.len()), ranges }
}

/// The shifts of a collapse never pass the number of characters read.
proof fn lemma_shift_bounds(s: Seq<char>, n: int)
    requires
        0 <= n <= s.len(),
    ensures
        ({
            let (_b, _k, deltas, running) = shift_run(s, n);
            &&& -n <= running <= 0
            &&& deltas.len() >= n
            &&& forall|j: int| 0 <= j < deltas.len() ==> -n <= #[trigger] deltas[j] <= 0
        }),
    decreases n,
{
    if n > 0 {
        lemma_shift_bounds(s, n - 1);
        let (_b, _k, deltas, running) = shift_run(s, n - 1);
        let (_b2, _k2, deltas2, running2) = shift_run(s, n);
        assert forall|j: int| 0 <= j < deltas2.len() implies -n <= #[trigger] deltas2[j] <= 0 by {
            if j < deltas.len() {
                assert(deltas2[j] == deltas[j]);
            }
        }
    }
}

/// Renders markdown `input` for Signal.
pub fn to_signal(input: &str) -> (t: SignalText)
    ensures
        t.body@ == signal_body(markdown_events_of(input@)),
        t.ranges@ == signal_ranges(markdown_events_of(input@)),
{
    let events = markdown_events(input);
    render_signal(events.as_slice())
}


/// For each top-level node of the GFM syntax tree of `text` (markdown's
/// `to_mdast` with `ParseOptions::gfm`), the start and end offsets of its
/// position when it is a table; `None` when parsing fails.
pub uninterp spec fn gfm_table_spans(text: Seq<char>) -> Option<Seq<Option<(usize, usize)>>>;

/// telegram_markdown_v2's `convert_with_strategy` with the `Keep` strategy
/// on `markdown`; `None` when it fails.
pub uninterp spec fn telegram_keep_rendered(markdown: Seq<char>) -> Option<Seq<char>>;

/// markdown's `to_mdast` with GFM: per top-level node, a table's span.
#[verifier::external_body]
fn gfm_tables(text: &str) -> (r: Option<Vec<Option<(usize, usize)>>>)
    ensures
        match r {
            Some(v) => gfm_table_spans(text@) == Some(v@),
            None => gfm_table_spans(text@) is None,
        },
{
    match ::markdown::to_mdast(text, &::markdown::ParseOptions::gfm()) {
        Ok(::markdown::mdast::Node::Root(root)) => Some(root.children.iter().map(|node| match node {
            ::markdown::mdast::Node::Table(t) => t.position.as_ref().map(|p| (p.start.offset, p.end.offset)),
            _ => None,
        }).collect()),
        _ => None,
    }
}

/// telegram_markdown_v2's `convert_with_strategy(markdown, Keep)`: the
/// converter's own rendering, which pads table columns to align them.
#[verifier::external_body]
fn telegram_keep(markdown: &str) -> (r: Option<String>)
    ensures
        match r {
            Some(s) => telegram_keep_rendered(markdown@) == Some(s@),
            None => telegram_keep_rendered(markdown@) is None,
        },
{
    telegram_markdown_v2::convert_with_strategy(markdown, telegram_markdown_v2::UnsupportedTagsStrategy::Keep).ok()
}

/// The characters of the bytes `b[s..e]`.
pub open spec fn text_piece(b: Seq<u8>, s: int, e: int) -> Seq<char> {
    decode_utf8(b.subrange(s, e))
}

/// `s` without its trailing newlines.
pub open spec fn trim_newlines_end(s: Seq<char>) -> Seq<char>
    decreases s.len(),
{
    if s.len() > 0 && s.last() == '\n' {
        trim_newlines_end(s.drop_last())
    } else {
        s
    }
}

/// A table in a code fence, its columns realigned by the converter (the
/// table as written when the converter fails).
pub open spec fn fenced_table(span: Seq<char>) -> Seq<char> {
    let aligned = match telegram_keep_rendered(span) {
        Some(a) => a,
        None => span,
    };
    code_fence().push('\n') + trim_newlines_end(aligned) + seq!['\n'] + code_fence()
}

/// Whether `s..e` is a span of the bytes `b` from the cursor on, between
/// character boundaries.
pub open spec fn span_ok(b: Seq<u8>, cursor: int, s: int, e: int) -> bool {
    &&& cursor <= s <= e <= b.len()
    &&& is_char_boundary(b, s)
    &&& is_char_boundary(b, e)
}

/// Fencing the tables among the first `n` spans of the text `b`: the text
/// written so far, the cursor after the last table, and how many tables
/// were fenced. A span out of order is passed over.
pub open spec fn fence_run(b: Seq<u8>, spans: Seq<Option<(usize, usize)>>, n: int) -> (Seq<char>, int, nat)
    decreases n,
{
    if n <= 0 || n > spans.len() {
        (seq![], 0, 0)
    } else {
        let (out, cur, count) = fence_run(b, spans, n - 1);
        match spans[n - 1] {
            Some((s, e)) => if span_ok(b, cur, s as int, e as int) {
                (out + text_piece(b, cur, s as int) + fenced_table(text_piece(b, s as int, e as int)), e as int, count + 1)
            } else {
                (out, cur, count)
            },
            None => (out, cur, count),
        }
    }
}

/// `text` with every top-level GFM table wrapped in a code fence, so that
/// platforms without tables show it as an aligned monospace block; `text`
/// itself when it has no table or does not parse.
pub open spec fn tables_fenced(text: &str) -> Seq<char> {
    let b = text.spec_bytes();
    match gfm_table_spans(text@) {
        None => text@,
        Some(spans) => {
            let (out, cur, count) = fence_run(b, spans, spans.len() as int);
            if count == 0 {
                text@
            } else {
                out + text_piece(b, cur, b.len() as int)
            }
        },
    }
}

proof fn lemma_prefix_boundary(b: Seq<u8>, a: int, e: int)
    requires
        vstd::utf8::valid_utf8(b),
        0 <= a <= e <= b.len(),
        is_char_boundary(b, a),
        is_char_boundary(b, e),
    ensures
        vstd::utf8::valid_utf8(b.subrange(0, e)),
        is_char_boundary(b.subrange(0, e), a),
{
    broadcast use vstd::utf8::group_utf8_lib;

    let p = b.subrange(0, e);
    assert(vstd::utf8::valid_utf8(p));
    if a == 0 {
    } else if a == e {
        assert(p.len() == e);
    } else {
        assert(p[a] == b[a]);
        assert(is_char_boundary(b, a) <==> !vstd::utf8::is_continuation_byte(b[a]));
        assert(is_char_boundary(p, a) <==> !vstd::utf8::is_continuation_byte(p[a]));
    }
}

/// The piece `text[a..e]` of a string, by byte offsets at boundaries.
fn byte_slice(text: &str, a: usize, e: usize) -> (r: &str)
    requires
        a <= e <= text.spec_bytes().len(),
        is_char_boundary(text.spec_bytes(), a as int),
        is_char_boundary(text.spec_bytes(), e as int),
    ensures
        r@ == text_piece(text.spec_bytes(), a as int, e as int),
{
    broadcast use vstd::utf8::group_utf8_lib;

    proof {
        lemma_prefix_boundary(text.spec_bytes(), a as int, e as int);
    }
    let (left, _) = text.split_at(e);
    assert(left.spec_bytes() =~= text.spec_bytes().subrange(0, e as int));
    let (_, mid) = left.split_at(a);
    assert(mid.spec_bytes() =~= text.spec_bytes().subrange(a as int, e as int));
    mid
}

/// `s` without its trailing newlines.
fn trimmed_newlines(s: &str) -> (r: String)
    ensures
        r@ == trim_newlines_end(s@),
{
    let v = chars_of(s);
    let mut k: usize = v.len();
    assert(v@.subrange(0, v@.len() as int) =~= v@);
    while k > 0 && v[k - 1] == '\n'
        invariant
            k <= v@.len(),
            trim_newlines_end(v@.subrange(0, k as int)) == trim_newlines_end(v@),
        decreases k,
    {
        assert(v@.subrange(0, k as int).drop_last() =~= v@.subrange(0, k - 1));
        k = k - 1;
    }
    string_from_chars(&v, 0, k)
}

/// Wraps every top-level GFM table of `text` in a code fence, see
/// [`tables_fenced`].
pub fn fence_tables(text: &str) -> (r: String)
    ensures
        r@ == tables_fenced(text),
{
    broadcast use vstd::utf8::group_utf8_lib;

    let spans = match gfm_tables(text) {
        Some(v) => v,
        None => return String::from_str(text),
    };
    let ghost b = text.spec_bytes();
    let n = crate::text::byte_len(text);
    let mut out = String::new();
    let mut cursor: usize = 0;
    let mut count: usize = 0;
    let mut i: usize = 0;
    while i < spans.len()
        invariant
            i <= spans@.len(),
            b == text.spec_bytes(),
            n == b.len(),
            gfm_table_spans(text@) == Some(spans@),
            ({
                let (o, c, k) = fence_run(b, spans@, i as int);
                &&& out@ == o
                &&& cursor == c
                &&& count == k
            }),
            count <= i,
            cursor <= n,
            is_char_boundary(b, cursor as int),
        decreases spans@.len() - i,
    {
        proof {
            if i == 0 {
                assert(is_char_boundary(b, 0));
            }
        }
        if let Some((s, e)) = spans[i] {
            if cursor <= s && s <= e && e <= n && text.is_char_boundary(s) && text.is_char_boundary(e) {
                let before = byte_slice(text, cursor, s);
                let span = byte_slice(text, s, e);
                let aligned = match telegram_keep(span) {
                    Some(a) => a,
                    None => String::from_str(span),
                };
                let body = trimmed_newlines(aligned.as_str());
                let ghost out0 = out@;
                out.append(before);
                out.append("```\n");
                out.append(body.as_str());
                out.append("\n```");
                proof {
                    reveal_strlit("```\n");
                    reveal_strlit("\n```");
                    assert("```\n"@ =~= code_fence().push('\n'));
                    assert("\n```"@ =~= seq!['\n'] + code_fence());
                    assert(out@ =~= out0 + text_piece(b, cursor as int, s as int) + fenced_table(text_piece(b, s as int, e as int)));
                }
                cursor = e;
                count = count + 1;
            }
        }
        i = i + 1;
    }
    if count == 0 {
        return String::from_str(text);
    }
    proof {
        assert(is_char_boundary(b, n as int));
    }
    let rest = byte_slice(text, cursor, n);
    out.append(rest);
    out
}


proof fn lemma_moved_ranges_fit(ranges: Seq<SignalBodyRange>, n: int, deltas: Seq<int>, running: int, total: u32)
    ensures
        forall|i: int| 0 <= i < moved_ranges(ranges, n, deltas, running, total).len() ==> {
            let m = #[trigger] moved_ranges(ranges, n, deltas, running, total)[i];
            &&& m.length > 0
            &&& m.start + m.length <= total
        },
    decreases n,
{
    if n > 0 && n <= ranges.len() {
        lemma_moved_ranges_fit(ranges, n - 1, deltas, running, total);
    }
}

/// No three newlines in a row in `s`.
pub open spec fn no_triple_newline(s: Seq<char>) -> bool {
    forall|i: int| 0 <= i && i + 2 < s.len() ==> !(#[trigger] s[i] == '\n' && s[i + 1] == '\n' && s[i + 2] == '\n')
}

/// What collapsing the first `n` characters of `s` keeps: no three newlines
/// in a row, as many trailing newlines as the run it counts (at most two),
/// and the last character when that is no newline.
proof fn lemma_collapse_run(s: Seq<char>, n: int)
    requires
        0 <= n <= s.len(),
    ensures
        ({
            let (acc, k) = collapse_run(s, n);
            &&& no_triple_newline(acc)
            &&& k >= 1 ==> acc.len() >= 1 && acc.last() == '\n'
            &&& k >= 2 ==> acc.len() >= 2 && acc[acc.len() - 2] == '\n'
            &&& k == 0 ==> acc.len() == 0 || acc.last() != '\n'
            &&& k == 1 ==> acc.len() < 2 || acc[acc.len() - 2] != '\n'
            &&& n > 0 && s[n - 1] != '\n' ==> acc.len() > 0 && acc.last() == s[n - 1]
            &&& n == 0 ==> acc.len() == 0
        }),
    decreases n,
{
    if n > 0 {
        lemma_collapse_run(s, n - 1);
        let (acc, k) = collapse_run(s, n - 1);
        let (acc2, k2) = collapse_run(s, n);
        if s[n - 1] == '\n' && k < 2 || s[n - 1] != '\n' {
            assert forall|i: int| 0 <= i && i + 2 < acc2.len() implies !(#[trigger] acc2[i] == '\n' && acc2[i + 1] == '\n' && acc2[i + 2] == '\n') by {
                if i + 2 < acc.len() {
                    assert(acc2[i] == acc[i] && acc2[i + 1] == acc[i + 1] && acc2[i + 2] == acc[i + 2]);
                } else {
                    assert(acc2[i] == acc[i] && acc2[i + 1] == acc[i + 1]);
                }
            }
        }
    }
}

/// A text trimmed at its end is empty or ends in something other than
/// whitespace.
proof fn lemma_trim_end_tail(s: Seq<char>)
    ensures
        trim_end_chars(s).len() == 0 || !is_white(trim_end_chars(s).last()),
    decreases s.len(),
{
    if s.len() > 0 && is_white(s.last()) {
        lemma_trim_end_tail(s.drop_last());
    }
}

/// Collapsing newline runs keeps a text that does not end in whitespace
/// that way, and leaves no three newlines in a row.
proof fn lemma_collapsed_tidy(t: Seq<char>)
    requires
        t.len() == 0 || !is_white(t.last()),
    ensures
        no_triple_newline(collapsed(t)),
        collapsed(t).len() == 0 || !is_white(collapsed(t).last()),
{
    lemma_collapse_run(t, t.len() as int);
    if t.len() > 0 {
        assert(t[t.len() - 1] != '\n');
    }
}

/// Plain and WhatsApp renderings never hold three newlines in a row and
/// never end in whitespace.
pub proof fn law_rendered_text_is_tidy(events: Seq<MdEvent>)
    ensures
        no_triple_newline(plain_text(events)),
        plain_text(events).len() == 0 || !is_white(plain_text(events).last()),
        no_triple_newline(whatsapp_text(events)),
        whatsapp_text(events).len() == 0 || !is_white(whatsapp_text(events).last()),
{
    let pt = trim_end_chars(doc_after(events, events.len() as int, false).out);
    lemma_trim_end_tail(doc_after(events, events.len() as int, false).out);
    lemma_collapsed_tidy(pt);
    let lines = str_lines(doc_after(events, events.len() as int, true).out);
    let joined = crate::text::join_with(kept_lines(lines, lines.len() as int), seq!['\n']);
    lemma_trim_end_tail(joined);
    lemma_collapsed_tidy(trim_end_chars(joined));
}

/// A line that shows as a lone bullet marker or as blank space: `*` or
/// `-` alone, or whitespace only.
pub open spec fn lone_line(l: Seq<char>) -> bool {
    let t = trim_chars(l);
    ||| t == seq!['*']
    ||| t == seq!['-']
    ||| t.len() == 0 && l.len() > 0
}

/// No line of `s` (split at each newline) is a lone bullet marker or
/// blank space.
pub open spec fn no_lone_line(s: Seq<char>) -> bool {
    forall|i: int| 0 <= i < segments(s).len() ==> !lone_line(#[trigger] segments(s)[i])
}

proof fn lemma_trim_start_push(l: Seq<char>, c: char)
    requires
        is_white(c),
    ensures
        trim_start_chars(l.push(c)) == (if trim_start_chars(l).len() == 0 { seq![] } else { trim_start_chars(l).push(c) }),
    decreases l.len(),
{
    if l.len() == 0 {
        assert(l.push(c) =~= seq![c]);
        assert(seq![c].drop_first() =~= Seq::<char>::empty());
        assert(trim_start_chars(seq![c]) == trim_start_chars(Seq::<char>::empty()));
    } else {
        assert(l.push(c)[0] == l[0]);
        if is_white(l[0]) {
            assert(l.push(c).drop_first() =~= l.drop_first().push(c));
            lemma_trim_start_push(l.drop_first(), c);
        }
    }
}

/// Whitespace at the end of a line changes nothing of its trimmed text.
proof fn lemma_trim_push_white(l: Seq<char>, c: char)
    requires
        is_white(c),
    ensures
        trim_chars(l.push(c)) == trim_chars(l),
{
    lemma_trim_start_push(l, c);
    if trim_start_chars(l).len() > 0 {
        assert(trim_start_chars(l).push(c).drop_last() =~= trim_start_chars(l));
    }
}

proof fn lemma_segments_count(s: Seq<char>, n: int, m: int)
    requires
        0 <= n <= m <= s.len(),
    ensures
        segments(s.subrange(0, n)).len() <= segments(s.subrange(0, m)).len(),
        forall|i: int| 0 <= i < segments(s.subrange(0, n)).len() - 1 ==> #[trigger] segments(s.subrange(0, m))[i]
            == segments(s.subrange(0, n))[i],
    decreases m - n,
{
    if n < m {
        lemma_segments_count(s, n, m - 1);
        let p = s.subrange(0, m);
        assert(p.drop_last() =~= s.subrange(0, m - 1));
        lemma_segments_nonempty(s.subrange(0, m - 1));
        lemma_segments_nonempty(s.subrange(0, n));
    }
}

/// Cutting newline runs keeps every line of a text that has no lone line
/// free of them: it only drops empty lines.
proof fn lemma_collapse_keeps_lines(s: Seq<char>, n: int)
    requires
        0 <= n <= s.len(),
        no_lone_line(s),
    ensures
        ({
            let acc = collapse_run(s, n).0;
            &&& forall|i: int| 0 <= i < segments(acc).len() - 1 ==> !lone_line(#[trigger] segments(acc)[i])
            &&& segments(acc).len() >= 1
            &&& segments(acc).last() == segments(s.subrange(0, n)).last()
        }),
    decreases n,
{
    lemma_segments_nonempty(s.subrange(0, n));
    if n == 0 {
        assert(s.subrange(0, 0) =~= Seq::<char>::empty());
    } else {
        lemma_collapse_keeps_lines(s, n - 1);
        lemma_collapse_run(s, n - 1);
        let (acc, k) = collapse_run(s, n - 1);
        let c = s[n - 1];
        let p = s.subrange(0, n);
        assert(p.drop_last() =~= s.subrange(0, n - 1));
        assert(p.last() == c);
        lemma_segments_nonempty(acc);
        lemma_segments_nonempty(s.subrange(0, n - 1));
        if c == '\n' && k < 2 {
            let a2 = acc.push('\n');
            assert(a2.drop_last() =~= acc);
            assert(segments(a2) == segments(acc).push(seq![]));
            assert(segments(p) == segments(s.subrange(0, n - 1)).push(seq![]));
            lemma_segments_count(s, n, s.len() as int);
            assert(s.subrange(0, s.len() as int) =~= s);
            let j = segments(p).len() - 2;
            assert(segments(p)[j] == segments(s.subrange(0, n - 1)).last());
            assert(segments(s)[j] == segments(p)[j]);
            assert(!lone_line(segments(s)[j]));
            assert(collapse_run(s, n).0 == a2);
            assert forall|i: int| 0 <= i < segments(a2).len() - 1 implies !lone_line(#[trigger] segments(a2)[i]) by {
                if i < segments(acc).len() - 1 {
                    assert(segments(a2)[i] == segments(acc)[i]);
                } else {
                    assert(segments(a2)[i] == segments(acc).last());
                }
            }
        } else if c == '\n' {
            assert(acc.len() >= 1 && acc.last() == '\n');
            assert(acc.drop_last().push('\n') =~= acc);
            assert(segments(acc) == segments(acc.drop_last()).push(seq![]));
            assert(segments(p) == segments(s.subrange(0, n - 1)).push(seq![]));
            assert(collapse_run(s, n).0 == acc);
        } else {
            let a2 = acc.push(c);
            assert(a2.drop_last() =~= acc);
            assert(collapse_run(s, n).0 == a2);
            assert(segments(a2) == segments(acc).update(segments(acc).len() - 1, segments(acc).last().push(c)));
            let sp = segments(s.subrange(0, n - 1));
            assert(segments(p) == sp.update(sp.len() - 1, sp.last().push(c)));
            assert forall|i: int| 0 <= i < segments(a2).len() - 1 implies !lone_line(#[trigger] segments(a2)[i]) by {
                assert(segments(a2)[i] == segments(acc)[i]);
            }
        }
    }
}

proof fn lemma_collapsed_no_lone(s: Seq<char>)
    requires
        no_lone_line(s),
    ensures
        no_lone_line(collapsed(s)),
{
    lemma_collapse_keeps_lines(s, s.len() as int);
    assert(s.subrange(0, s.len() as int) =~= s);
    lemma_segments_nonempty(s);
    let acc = collapsed(s);
    assert forall|i: int| 0 <= i < segments(acc).len() implies !lone_line(#[trigger] segments(acc)[i]) by {
        if i == segments(acc).len() - 1 {
            assert(segments(acc)[i] == segments(s)[segments(s).len() - 1]);
        }
    }
}

proof fn lemma_trim_end_no_lone(s: Seq<char>)
    requires
        no_lone_line(s),
    ensures
        no_lone_line(trim_end_chars(s)),
    decreases s.len(),
{
    if s.len() > 0 && is_white(s.last()) {
        let d = s.drop_last();
        lemma_segments_nonempty(d);
        assert(d.push(s.last()) =~= s);
        if s.last() != '\n' {
            let last = segments(d).last();
            lemma_trim_push_white(last, s.last());
            assert forall|i: int| 0 <= i < segments(d).len() implies !lone_line(#[trigger] segments(d)[i]) by {
                assert(segments(s)[i] == (if i == segments(d).len() - 1 { last.push(s.last()) } else { segments(d)[i] }));
            }
        } else {
            assert forall|i: int| 0 <= i < segments(d).len() implies !lone_line(#[trigger] segments(d)[i]) by {
                assert(segments(s)[i] == segments(d)[i]);
            }
        }
        lemma_trim_end_no_lone(d);
    }
}

/// A text without newlines is one line.
proof fn lemma_segments_single(x: Seq<char>)
    requires
        !x.contains('\n'),
    ensures
        segments(x) == seq![x],
    decreases x.len(),
{
    if x.len() > 0 {
        assert(!x.drop_last().contains('\n')) by {
            if x.drop_last().contains('\n') {
                let k = choose|k: int| 0 <= k < x.drop_last().len() && x.drop_last()[k] == '\n';
                assert(x[k] == '\n');
            }
        }
        lemma_segments_single(x.drop_last());
        assert(x.drop_last().push(x.last()) =~= x);
        assert(x.last() != '\n') by {
            assert(x[x.len() - 1] == x.last());
        }
    } else {
        assert(x =~= Seq::<char>::empty());
    }
}

/// Joining a line on after a newline adds it as a line of its own.
proof fn lemma_segments_join(a: Seq<char>, b: Seq<char>)
    requires
        !b.contains('\n'),
    ensures
        segments(a + seq!['\n'] + b) == segments(a).push(b),
    decreases b.len(),
{
    let x = a + seq!['\n'];
    if b.len() == 0 {
        assert(x + b =~= x);
        assert(x.drop_last() =~= a);
        assert(x.last() == '\n');
        assert(b =~= Seq::<char>::empty());
        assert(segments(x) == segments(a).push(seq![]));
    } else {
        let b1 = b.drop_last();
        assert(!b1.contains('\n')) by {
            if b1.contains('\n') {
                let k = choose|k: int| 0 <= k < b1.len() && b1[k] == '\n';
                assert(b[k] == '\n');
            }
        }
        lemma_segments_join(a, b1);
        assert((x + b).drop_last() =~= x + b1);
        assert(b[b.len() - 1] != '\n');
        lemma_segments_nonempty(a);
        assert(b1.push(b.last()) =~= b);
        assert((x + b).last() == b.last());
        assert(segments(x + b) == segments(x + b1).update(segments(x + b1).len() - 1, segments(x + b1).last().push(b.last())));
        assert(segments(a).push(b1).update(segments(a).len() as int, b1.push(b.last())) =~= segments(a).push(b));
    }
}

proof fn lemma_join_no_lone(ls: Seq<Seq<char>>)
    requires
        forall|i: int| 0 <= i < ls.len() ==> !lone_line(#[trigger] ls[i]) && !ls[i].contains('\n'),
    ensures
        no_lone_line(crate::text::join_with(ls, seq!['\n'])),
    decreases ls.len(),
{
    let j = crate::text::join_with(ls, seq!['\n']);
    if ls.len() == 0 {
        lemma_segments_single(j);
        assert(j.len() == 0);
    } else if ls.len() == 1 {
        lemma_segments_single(ls[0]);
    } else {
        let d = ls.drop_last();
        assert forall|i: int| 0 <= i < d.len() implies !lone_line(#[trigger] d[i]) && !d[i].contains('\n') by {
            assert(d[i] == ls[i]);
        }
        lemma_join_no_lone(d);
        let a = crate::text::join_with(d, seq!['\n']);
        assert(ls.last() == ls[ls.len() - 1]);
        lemma_segments_join(a, ls.last());
    }
}

proof fn lemma_lines_no_newline(s: Seq<char>)
    ensures
        forall|i: int| 0 <= i < segments(s).len() ==> !(#[trigger] segments(s)[i]).contains('\n'),
    decreases s.len(),
{
    if s.len() > 0 {
        let d = s.drop_last();
        lemma_lines_no_newline(d);
        lemma_segments_nonempty(d);
        assert forall|i: int| 0 <= i < segments(s).len() implies !(#[trigger] segments(s)[i]).contains('\n') by {
            if s.last() != '\n' && i == segments(d).len() - 1 {
                let l = segments(d)[i].push(s.last());
                if l.contains('\n') {
                    let k = choose|k: int| 0 <= k < l.len() && l[k] == '\n';
                    if k < l.len() - 1 {
                        assert(segments(d)[i][k] == '\n');
                    }
                }
            } else if i < segments(d).len() {
                assert(segments(s)[i] == segments(d)[i]);
            } else {
                assert(segments(s)[i] =~= Seq::<char>::empty());
            }
        }
    }
}

proof fn lemma_kept_lines(lines: Seq<Seq<char>>, n: int)
    requires
        0 <= n <= lines.len(),
        forall|i: int| 0 <= i < lines.len() ==> !(#[trigger] lines[i]).contains('\n'),
    ensures
        forall|i: int| 0 <= i < kept_lines(lines, n).len() ==> !lone_line(#[trigger] kept_lines(lines, n)[i])
            && !kept_lines(lines, n)[i].contains('\n'),
    decreases n,
{
    if n > 0 {
        lemma_kept_lines(lines, n - 1);
        let k = kept_lines(lines, n - 1);
        if !empty_bullet(lines[n - 1]) {
            assert forall|i: int| 0 <= i < k.push(lines[n - 1]).len() implies !lone_line(#[trigger] k.push(lines[n - 1])[i])
                && !k.push(lines[n - 1])[i].contains('\n') by {
                if i < k.len() {
                    assert(k.push(lines[n - 1])[i] == k[i]);
                }
            }
        }
    }
}

/// No line of a WhatsApp rendering is a lone bullet marker (`*` or `-`)
/// or whitespace only: empty list items never survive as marker lines.
pub proof fn law_whatsapp_has_no_lone_bullet(events: Seq<MdEvent>)
    ensures
        no_lone_line(whatsapp_text(events)),
{
    let out = doc_after(events, events.len() as int, true).out;
    let segs = segments(out);
    let lines = str_lines(out);
    lemma_lines_no_newline(out);
    lemma_segments_nonempty(out);
    assert forall|i: int| 0 <= i < lines.len() implies !(#[trigger] lines[i]).contains('\n') by {
        assert(!segs[i].contains('\n'));
        if i < segs.len() - 1 && segs[i].len() > 0 && segs[i].last() == '\r' {
            if segs[i].drop_last().contains('\n') {
                let k = choose|k: int| 0 <= k < segs[i].drop_last().len() && segs[i].drop_last()[k] == '\n';
                assert(segs[i][k] == '\n');
            }
        }
    }
    lemma_kept_lines(lines, lines.len() as int);
    let joined = crate::text::join_with(kept_lines(lines, lines.len() as int), seq!['\n']);
    lemma_join_no_lone(kept_lines(lines, lines.len() as int));
    lemma_trim_end_no_lone(joined);
    lemma_collapsed_no_lone(trim_end_chars(joined));
}

/// Moving ranges aside, the Signal body is collapsed like the other
/// renderings: `shift_run` keeps what `collapse_run` keeps.
proof fn lemma_shift_is_collapse(s: Seq<char>, n: int)
    requires
        0 <= n <= s.len(),
    ensures
        shift_run(s, n).0 == collapse_run(s, n).0,
        shift_run(s, n).1 == collapse_run(s, n).1,
    decreases n,
{
    if n > 0 {
        lemma_shift_is_collapse(s, n - 1);
    }
}

/// The Signal body never holds three newlines in a row and never ends in
/// whitespace.
pub proof fn law_signal_body_is_tidy(events: Seq<MdEvent>)
    ensures
        no_triple_newline(signal_body(events)),
        signal_body(events).len() == 0 || !is_white(signal_body(events).last()),
{
    let out = signal_after(events, events.len() as int).doc.out;
    let trimmed = trim_end_chars(out);
    lemma_trim_end_tail(out);
    lemma_shift_is_collapse(trimmed, trimmed.len() as int);
    lemma_collapsed_tidy(trimmed);
}

/// Every styled range of a Signal message is non-empty and lies within its
/// body, counted in UTF-16 code units.
pub proof fn law_signal_ranges_within_body(events: Seq<MdEvent>)
    ensures
        forall|i: int| 0 <= i < signal_ranges(events).len() ==> {
            let r = #[trigger] signal_ranges(events)[i];
            &&& r.length > 0
            &&& r.start + r.length <= utf16_len(signal_body(events))
        },
{
    let sd = signal_after(events, events.len() as int);
    let trimmed = trim_end_chars(sd.doc.out);
    let (body, _k, deltas, running) = shift_run(trimmed, trimmed.len() as int);
    let total = capped(utf16_len(body) as int);
    lemma_moved_ranges_fit(sd.ranges, sd.ranges.len() as int, deltas, running, total);
}

/// Closing a list nested in another goes back to the outer list and leaves
/// the blank-line flag as it was; only closing the outermost list puts a
/// blank line before what follows (so a nested list never leaves a blank
/// line between the next item's marker and its text).
pub proof fn law_nested_list_close_keeps_blank(d: Doc, wa: bool)
    ensures
        d.lists.len() >= 2 ==> {
            let n = doc_step(d, MdEvent::End(MdTagKind::List), wa);
            &&& n.pending_blank == d.pending_blank
            &&& n.lists == d.lists.drop_last()
        },
        d.lists.len() == 1 ==> {
            let n = doc_step(d, MdEvent::End(MdTagKind::List), wa);
            &&& n.pending_blank
            &&& n.lists.len() == 0
        },
{
}

/// A character takes one UTF-16 code unit below U+10000 and two (a
/// surrogate pair) from there on, which are exactly the characters whose
/// UTF-8 encoding takes four bytes.
pub proof fn law_utf16_units(c: char)
    ensures
        (c as u32) < 0x10000 ==> utf16_units(c) == 1,
        (c as u32) >= 0x10000 ==> utf16_units(c) == 2,
        utf16_units(c) == 2 <==> vstd::utf8::has_width_4_encoding(c as u32),
{
}

/// The UTF-16 length of a text is its number of characters plus one for
/// each character outside the Basic Multilingual Plane.
pub proof fn law_utf16_len(s: Seq<char>)
    ensures
        utf16_len(s) == s.len() + s.filter(|c: char| (c as u32) >= 0x10000).len(),
    decreases s.len(),
{
    if s.len() > 0 {
        law_utf16_len(s.drop_last());
        assert(s.drop_last().push(s.last()) =~= s);
        s.drop_last().lemma_filter_push(s.last(), |c: char| (c as u32) >= 0x10000);
    }
}

} // verus!
