//! Message splitting for channel adapters.
//!
//! Each adapter holds one splitter built with its provider's limit and
//! calls it before sending, so that a long reply goes out as several
//! sequential messages:
//! - [`silent_split_plain`] and [`append_overflow`]: plain text.
//! - [`MarkdownSplitter`]: fence-aware GFM markdown; a chunk that ends inside
//!   a block fence is closed and the next chunk reopens it.
//! - [`TelegramMarkdownV2Splitter`]: the markdown rules plus never cutting
//!   between a `\` and the character it escapes.
//!
//! All offsets are byte offsets into the UTF-8 encoding of the text.

use vstd::prelude::*;
use vstd::utf8::*;
use vstd::string::StringSliceAdditionalSpecFns;
use crate::text::{
    byte_len, encodings_of, joined, views_of, is_blank, is_blank_str, lemma_piece_chars, lemma_prefix_encoding_len,
    lemma_trim_end_prefix, trim_end_chars, trim_end_string, lemma_encode_concat, push_char, lemma_ascii_byte_ends_char, lemma_joined_push, lemma_split_chars,
};

verus! {

broadcast use vstd::utf8::group_utf8_lib;

pub const NL: u8 = 10u8;

pub const SP: u8 = 32u8;

/// Largest character boundary of `b` at or below `t` (0 when there is none
/// above 0).
pub open spec fn char_floor(b: Seq<u8>, t: int) -> int
    decreases t,
{
    if t <= 0 {
        0
    } else if is_char_boundary(b, t) {
        t
    } else {
        char_floor(b, t - 1)
    }
}

/// Start of the last `"\n\n"` lying wholly inside `b[..n]`, or -1.
pub open spec fn last_blank_line(b: Seq<u8>, n: int) -> int
    decreases n,
{
    if n < 2 {
        -1
    } else if b[n - 2] == NL && b[n - 1] == NL {
        n - 2
    } else {
        last_blank_line(b, n - 1)
    }
}

/// Position of the last byte `c` inside `b[..n]`, or -1.
pub open spec fn last_byte(b: Seq<u8>, n: int, c: u8) -> int
    decreases n,
{
    if n <= 0 {
        -1
    } else if b[n - 1] == c {
        n - 1
    } else {
        last_byte(b, n - 1, c)
    }
}

/// The byte offset at which a text with bytes `b` is cut so that the head
/// fits in `target` bytes: all of it when it fits; otherwise after the last
/// blank line, else after the last newline, else after the last space,
/// else at the last character boundary within `target`.
pub open spec fn boundary_at(b: Seq<u8>, target: int) -> int {
    if b.len() <= target {
        b.len() as int
    } else {
        let upper = char_floor(b, target);
        if upper == 0 {
            0
        } else if last_blank_line(b, upper) >= 0 {
            last_blank_line(b, upper) + 2
        } else if last_byte(b, upper, NL) >= 0 {
            last_byte(b, upper, NL) + 1
        } else if last_byte(b, upper, SP) >= 0 {
            last_byte(b, upper, SP) + 1
        } else {
            upper
        }
    }
}

proof fn lemma_char_floor(b: Seq<u8>, t: int)
    requires
        valid_utf8(b),
    ensures
        0 <= char_floor(b, t),
        t >= 0 ==> char_floor(b, t) <= t,
        is_char_boundary(b, char_floor(b, t)),
    decreases t,
{
    if t > 0 && !is_char_boundary(b, t) {
        lemma_char_floor(b, t - 1);
    }
}

proof fn lemma_last_blank_line(b: Seq<u8>, n: int)
    requires
        n <= b.len(),
    ensures
        -1 <= last_blank_line(b, n),
        last_blank_line(b, n) >= 0 ==> last_blank_line(b, n) <= n - 2,
        last_blank_line(b, n) >= 0 ==> b[last_blank_line(b, n)] == NL && b[last_blank_line(b, n)
            + 1] == NL,
    decreases n,
{
    if n >= 2 && !(b[n - 2] == NL && b[n - 1] == NL) {
        lemma_last_blank_line(b, n - 1);
    }
}

pub proof fn lemma_last_byte(b: Seq<u8>, n: int, c: u8)
    requires
        n <= b.len(),
    ensures
        -1 <= last_byte(b, n, c),
        last_byte(b, n, c) >= 0 ==> last_byte(b, n, c) <= n - 1,
        last_byte(b, n, c) >= 0 ==> b[last_byte(b, n, c)] == c,
    decreases n,
{
    if n > 0 && b[n - 1] != c {
        lemma_last_byte(b, n - 1, c);
    }
}

/// The cut chosen by [`boundary_at`] is a character boundary, and within
/// the target whenever the text does not fit.
pub proof fn lemma_boundary_at(b: Seq<u8>, target: int)
    requires
        valid_utf8(b),
        target >= 0,
    ensures
        0 <= boundary_at(b, target) <= b.len(),
        is_char_boundary(b, boundary_at(b, target)),
        b.len() > target ==> boundary_at(b, target) <= target,
{
    if b.len() > target {
        let upper = char_floor(b, target);
        lemma_char_floor(b, target);
        assert(upper <= b.len());
        lemma_last_blank_line(b, upper);
        lemma_last_byte(b, upper, NL);
        lemma_last_byte(b, upper, SP);
        if upper == 0 {
        } else if last_blank_line(b, upper) >= 0 {
            lemma_ascii_byte_ends_char(b, last_blank_line(b, upper) + 1);
        } else if last_byte(b, upper, NL) >= 0 {
            lemma_ascii_byte_ends_char(b, last_byte(b, upper, NL));
        } else if last_byte(b, upper, SP) >= 0 {
            lemma_ascii_byte_ends_char(b, last_byte(b, upper, SP));
        }
    }
}

/// Whether a paragraph break (`\n\n`) starts at `i` and ends by `n`.
pub open spec fn blank_line_at(b: Seq<u8>, i: int, n: int) -> bool {
    0 <= i && i + 2 <= n && i + 1 < b.len() && b[i] == NL && b[i + 1] == NL
}

/// The last paragraph break within `n` starts at or after any other.
proof fn lemma_last_blank_line_max(b: Seq<u8>, n: int, j: int)
    requires
        n <= b.len(),
        blank_line_at(b, j, n),
    ensures
        last_blank_line(b, n) >= j,
    decreases n,
{
    if !(b[n - 2] == NL && b[n - 1] == NL) {
        lemma_last_blank_line_max(b, n - 1, j);
    }
}

/// A text longer than the target whose head within the target holds a
/// paragraph break is cut right after the last such break: the chunk ends
/// with `\n\n`, and no paragraph break of the head lies past the cut, so
/// a later newline or space is never preferred to it.
pub proof fn law_find_boundary_prefers_paragraphs(text: &str, target: usize, i: int)
    requires
        text.spec_bytes().len() > target,
        blank_line_at(text.spec_bytes(), i, target as int),
    ensures
        ({
            let b = text.spec_bytes();
            let r = boundary_at(b, target as int);
            &&& 2 <= r <= target
            &&& b[r - 2] == NL && b[r - 1] == NL
            &&& forall|j: int| r - 2 < j ==> !#[trigger] blank_line_at(b, j, target as int)
        }),
{
    let b = text.spec_bytes();
    let t = target as int;
    lemma_ascii_byte_ends_char(b, i + 1);
    lemma_char_floor_above(b, t, i + 2);
    lemma_char_floor(b, t);
    let upper = char_floor(b, t);
    lemma_last_blank_line_max(b, upper, i);
    lemma_last_blank_line(b, upper);
    let l = last_blank_line(b, upper);
    assert forall|j: int| l < j implies !#[trigger] blank_line_at(b, j, t) by {
        if blank_line_at(b, j, t) {
            lemma_ascii_byte_ends_char(b, j + 1);
            lemma_char_floor_above(b, t, j + 2);
            lemma_last_blank_line_max(b, upper, j);
        }
    }
}

/// The last `c` before `n` lies at or after any other.
proof fn lemma_last_byte_max(b: Seq<u8>, n: int, c: u8, k: int)
    requires
        0 <= k < n <= b.len(),
        b[k] == c,
    ensures
        last_byte(b, n, c) >= k,
    decreases n,
{
    if b[n - 1] != c {
        lemma_last_byte_max(b, n - 1, c, k);
    }
}

/// Without a paragraph break in the head within the target, a text longer
/// than the target is cut right after the head's last newline; without a
/// newline either, right after its last space.
pub proof fn law_find_boundary_falls_back_to_lines_then_spaces(text: &str, target: usize, i: int)
    requires
        text.spec_bytes().len() > target,
        0 <= i < target,
        text.spec_bytes()[i] == NL || text.spec_bytes()[i] == SP,
        forall|j: int| !#[trigger] blank_line_at(text.spec_bytes(), j, target as int),
    ensures
        ({
            let b = text.spec_bytes();
            let r = boundary_at(b, target as int);
            let c = if exists|k: int| 0 <= k < target && #[trigger] b[k] == NL { NL } else { SP };
            &&& 1 <= r <= target
            &&& b[r - 1] == c
            &&& forall|j: int| r - 1 < j < target ==> #[trigger] b[j] != c
        }),
{
    let b = text.spec_bytes();
    let t = target as int;
    lemma_char_floor(b, t);
    let upper = char_floor(b, t);
    let has_nl = exists|k: int| 0 <= k < target && #[trigger] b[k] == NL;
    let c = if has_nl { NL } else { SP };
    let w = if has_nl { choose|k: int| 0 <= k < target && #[trigger] b[k] == NL } else { i };
    lemma_ascii_byte_ends_char(b, w);
    lemma_char_floor_above(b, t, w + 1);
    lemma_last_blank_line(b, upper);
    if last_blank_line(b, upper) >= 0 {
        assert(blank_line_at(b, last_blank_line(b, upper), t));
    }
    lemma_last_byte_max(b, upper, c, w);
    lemma_last_byte(b, upper, c);
    lemma_last_byte(b, upper, NL);
    if !has_nl && last_byte(b, upper, NL) >= 0 {
        assert(b[last_byte(b, upper, NL)] == NL);
        assert(false);
    }
    let l = last_byte(b, upper, c);
    assert forall|j: int| l < j < t implies #[trigger] b[j] != c by {
        if b[j] == c {
            lemma_ascii_byte_ends_char(b, j);
            lemma_char_floor_above(b, t, j + 1);
            lemma_last_byte_max(b, upper, c, j);
        }
    }
}

/// The character floor of `t` is at least any boundary at or before `t`.
proof fn lemma_char_floor_above(b: Seq<u8>, t: int, i: int)
    requires
        0 <= i <= t,
        is_char_boundary(b, i),
    ensures
        char_floor(b, t) >= i,
    decreases t,
{
    if t > 0 && !is_char_boundary(b, t) {
        lemma_char_floor_above(b, t - 1, i);
    }
}

/// What [`find_boundary`] promises: a text that fits within `target` comes
/// back whole; a longer one is cut at a character boundary at or before
/// `target`, and, for a target of at least four bytes, after its start.
pub proof fn law_find_boundary_cut(text: &str, target: usize)
    ensures
        text.spec_bytes().len() <= target ==> boundary_at(text.spec_bytes(), target as int)
            == text.spec_bytes().len(),
        text.spec_bytes().len() > target ==> {
            &&& boundary_at(text.spec_bytes(), target as int) <= target
            &&& is_char_boundary(text.spec_bytes(), boundary_at(text.spec_bytes(), target as int))
            &&& (target >= 4 ==> boundary_at(text.spec_bytes(), target as int) > 0)
        },
{
    let b = text.spec_bytes();
    lemma_boundary_at(b, target as int);
    if b.len() > target && target >= 4 {
        lemma_boundary_at_positive(b, target as int);
    }
}

/// A text longer than a target of at least four bytes is cut after its
/// start.
proof fn lemma_boundary_at_positive(b: Seq<u8>, target: int)
    requires
        valid_utf8(b),
        4 <= target < b.len(),
    ensures
        boundary_at(b, target) > 0,
{
    let i = lemma_boundary_near(b, target - 3);
    lemma_char_floor_above(b, target, i);
    lemma_char_floor(b, target);
    lemma_last_blank_line(b, char_floor(b, target));
}

fn rfind_blank_line(bytes: &[u8], n: usize) -> (r: Option<usize>)
    requires
        n <= bytes@.len(),
    ensures
        match r {
            Some(i) => i == last_blank_line(bytes@, n as int),
            None => last_blank_line(bytes@, n as int) < 0,
        },
{
    let mut i: usize = n;
    while i >= 2
        invariant
            i <= n <= bytes@.len(),
            last_blank_line(bytes@, i as int) == last_blank_line(bytes@, n as int),
        decreases i,
    {
        if bytes[i - 2] == NL && bytes[i - 1] == NL {
            return Some(i - 2);
        }
        i = i - 1;
    }
    None
}

pub fn rfind_byte(bytes: &[u8], n: usize, c: u8) -> (r: Option<usize>)
    requires
        n <= bytes@.len(),
    ensures
        match r {
            Some(i) => i == last_byte(bytes@, n as int, c),
            None => last_byte(bytes@, n as int, c) < 0,
        },
{
    let mut i: usize = n;
    while i >= 1
        invariant
            i <= n <= bytes@.len(),
            last_byte(bytes@, i as int, c) == last_byte(bytes@, n as int, c),
        decreases i,
    {
        if bytes[i - 1] == c {
            return Some(i - 1);
        }
        i = i - 1;
    }
    None
}

/// Finds the best byte offset at which to cut `text` so that the head fits
/// within `target` bytes. Preference order: paragraph (`\n\n`) > newline >
/// space > character boundary. Returns `text.len()` when `text` already fits.
pub fn find_boundary(text: &str, target: usize) -> (r: usize)
    ensures
        r == boundary_at(text.spec_bytes(), target as int),
        r <= text.spec_bytes().len(),
        is_char_boundary(text.spec_bytes(), r as int),
        text.spec_bytes().len() > target ==> r <= target,
{
    proof {
        lemma_boundary_at(text.spec_bytes(), target as int);
    }
    let bytes = text.as_bytes();
    if bytes.len() <= target {
        return bytes.len();
    }
    let mut upper: usize = target;
    while upper > 0 && !text.is_char_boundary(upper)
        invariant
            upper <= target,
            char_floor(text.spec_bytes(), upper as int) == char_floor(
                text.spec_bytes(),
                target as int,
            ),
        decreases upper,
    {
        upper = upper - 1;
    }
    if upper == 0 {
        return 0;
    }
    if let Some(i) = rfind_blank_line(bytes, upper) {
        return i + 2;
    }
    if let Some(i) = rfind_byte(bytes, upper, NL) {
        return i + 1;
    }
    if let Some(i) = rfind_byte(bytes, upper, SP) {
        return i + 1;
    }
    upper
}

/// First character boundary of `b` at or after `i` (the length when none).
pub open spec fn char_ceil(b: Seq<u8>, i: int) -> int
    decreases b.len() - i,
{
    if i >= b.len() || is_char_boundary(b, i) {
        i
    } else {
        char_ceil(b, i + 1)
    }
}

/// Byte length of the next plain-text chunk taken from the front of `b`:
/// all of it when it fits, else the cut of [`boundary_at`], else (when no
/// character fits) the first character.
pub open spec fn plain_step(b: Seq<u8>, limit: int) -> int {
    if b.len() <= limit {
        b.len() as int
    } else if boundary_at(b, limit) == 0 {
        char_ceil(b, 1)
    } else {
        boundary_at(b, limit)
    }
}

/// The chunks, as bytes, that plain splitting cuts from `b`.
pub open spec fn plain_chunks(b: Seq<u8>, limit: int) -> Seq<Seq<u8>>
    decreases b.len(),
{
    if b.len() == 0 {
        seq![]
    } else {
        let step = plain_step(b, limit);
        if 0 < step <= b.len() {
            seq![b.subrange(0, step)] + plain_chunks(b.subrange(step, b.len() as int), limit)
        } else {
            seq![b]
        }
    }
}

/// What [`silent_split_plain`] returns, as bytes: the text whole when it
/// fits (an empty text included), else its plain chunks.
pub open spec fn silent_split_bytes(b: Seq<u8>, limit: int) -> Seq<Seq<u8>> {
    if b.len() <= limit {
        seq![b]
    } else {
        plain_chunks(b, limit)
    }
}

pub proof fn lemma_char_ceil(b: Seq<u8>, i: int)
    requires
        valid_utf8(b),
        0 <= i <= b.len(),
    ensures
        i <= char_ceil(b, i) <= b.len(),
        is_char_boundary(b, char_ceil(b, i)),
    decreases b.len() - i,
{
    if i < b.len() && !is_char_boundary(b, i) {
        lemma_char_ceil(b, i + 1);
    }
}

pub proof fn lemma_char_ceil_le(b: Seq<u8>, i: int, j: int)
    requires
        i <= j,
        is_char_boundary(b, j),
    ensures
        char_ceil(b, i) <= j,
    decreases j - i,
{
    if i < j && i < b.len() && !is_char_boundary(b, i) {
        lemma_char_ceil_le(b, i + 1, j);
    }
}

proof fn lemma_first_scalar_boundary(b: Seq<u8>)
    requires
        valid_utf8(b),
        b.len() > 0,
    ensures
        1 <= length_of_first_scalar(b) <= 4,
        is_char_boundary(b, length_of_first_scalar(b)),
{
    assert(valid_first_scalar(b) && valid_utf8(pop_first_scalar(b)));
    reveal_with_fuel(is_char_boundary, 2);
    assert(is_char_boundary(pop_first_scalar(b), 0));
}

/// In valid UTF-8 a character boundary comes at most three bytes after any
/// offset (a character takes at most four bytes).
pub proof fn lemma_boundary_near(b: Seq<u8>, i: int) -> (j: int)
    requires
        valid_utf8(b),
        0 <= i <= b.len(),
    ensures
        i <= j <= i + 3,
        j <= b.len(),
        is_char_boundary(b, j),
    decreases b.len(),
{
    if i == 0 {
        0
    } else {
        lemma_first_scalar_boundary(b);
        let l = length_of_first_scalar(b);
        if i <= l {
            l
        } else {
            let p = pop_first_scalar(b);
            assert(valid_utf8(p));
            assert(p.len() == b.len() - l);
            let j2 = lemma_boundary_near(p, i - l);
            assert(is_char_boundary(b, j2 + l) == is_char_boundary(p, j2));
            j2 + l
        }
    }
}

/// The step taken by plain splitting is a character boundary that makes
/// progress, and the chunk it cuts fits the limit or is one character of at
/// most four bytes.
proof fn lemma_plain_step(b: Seq<u8>, limit: int)
    requires
        valid_utf8(b),
        b.len() > 0,
        limit >= 0,
    ensures
        0 < plain_step(b, limit) <= b.len(),
        is_char_boundary(b, plain_step(b, limit)),
        plain_step(b, limit) <= limit || plain_step(b, limit) <= 4,
{
    lemma_boundary_at(b, limit);
    lemma_char_ceil(b, 1);
    lemma_first_scalar_boundary(b);
    lemma_char_ceil_le(b, 1, length_of_first_scalar(b));
}

/// Splits plain text into chunks of at most `provider_limit` bytes, cutting
/// at the best boundary each time; no I/O and no markdown awareness. The
/// chunks, joined, are the text again.
pub fn silent_split_plain(text: &str, provider_limit: usize) -> (chunks: Vec<String>)
    ensures
        encodings_of(chunks@) == silent_split_bytes(text.spec_bytes(), provider_limit as int),
        joined(chunks@) == text@,
        forall|k: int|
            0 <= k < chunks@.len() ==> {
                let n = encode_utf8(#[trigger] chunks@[k]@).len();
                n <= provider_limit || n <= 4
            },
{
    let mut chunks: Vec<String> = Vec::new();
    if byte_len(text) <= provider_limit {
        let whole = text.to_owned();
        proof {
            lemma_joined_push(chunks@, whole);
            assert(joined(chunks@) =~= Seq::<char>::empty());
            assert(encodings_of(chunks@) =~= Seq::<Seq<u8>>::empty());
            assert(encodings_of(chunks@.push(whole)) =~= seq![text.spec_bytes()]);
        }
        chunks.push(whole);
        return chunks;
    }
    let ghost limit = provider_limit as int;
    let ghost b = text.spec_bytes();
    let mut remaining: &str = text;
    while byte_len(remaining) > 0
        invariant
            limit == provider_limit,
            b == text.spec_bytes(),
            encodings_of(chunks@) + plain_chunks(remaining.spec_bytes(), limit) == plain_chunks(b, limit),
            joined(chunks@) + remaining@ == text@,
            forall|k: int|
                0 <= k < chunks@.len() ==> {
                    let n = encode_utf8(#[trigger] chunks@[k]@).len();
                    n <= provider_limit || n <= 4
                },
        decreases remaining.spec_bytes().len(),
    {
        let ghost rb = remaining.spec_bytes();
        proof {
            lemma_plain_step(rb, limit);
        }
        let step: usize;
        if byte_len(remaining) <= provider_limit {
            step = byte_len(remaining);
        } else {
            let cut = find_boundary(remaining, provider_limit);
            if cut == 0 {
                // Pathological input (a limit below one character): take the
                // first character whole so that the loop makes progress.
                let mut i: usize = 1;
                while i < byte_len(remaining) && !remaining.is_char_boundary(i)
                    invariant
                        1 <= i <= rb.len(),
                        rb == remaining.spec_bytes(),
                        char_ceil(rb, i as int) == char_ceil(rb, 1),
                    decreases rb.len() - i,
                {
                    i = i + 1;
                }
                step = i;
            } else {
                step = cut;
            }
        }
        proof {
            if rb.len() > limit {
                assert(step as int == plain_step(rb, limit));
            } else {
                assert(step as int == plain_step(rb, limit));
            }
        }
        let (head, tail) = remaining.split_at(step);
        let piece = head.to_owned();
        proof {
            assert(rb =~= rb.subrange(0, step as int) + rb.subrange(step as int, rb.len() as int));
            lemma_split_chars(remaining@, head@, tail@);
            lemma_joined_push(chunks@, piece);
            assert(plain_chunks(rb, limit) == seq![rb.subrange(0, step as int)] + plain_chunks(
                tail.spec_bytes(),
                limit,
            ));
            assert(encodings_of(chunks@.push(piece)) + plain_chunks(tail.spec_bytes(), limit)
                =~= encodings_of(chunks@) + plain_chunks(rb, limit));
        }
        chunks.push(piece);
        remaining = tail;
    }
    proof {
        assert(remaining.spec_bytes().len() == 0);
        if remaining@.len() > 0 {
            crate::text::lemma_encode_nonempty(remaining@);
            assert(false);
        }
        assert(remaining@ =~= Seq::<char>::empty());
        assert(plain_chunks(remaining.spec_bytes(), limit) =~= Seq::<Seq<u8>>::empty());
        assert(joined(chunks@) + remaining@ =~= joined(chunks@));
        assert(encodings_of(chunks@) + plain_chunks(remaining.spec_bytes(), limit) =~= encodings_of(chunks@));
    }
    chunks
}

pub const BACKTICK: u8 = 96u8;

pub const TILDE: u8 = 126u8;

pub const TAB: u8 = 9u8;

/// An open block fence: its marker byte (`` ` `` or `~`) and the length of
/// its opening run, which a closing run must at least match.
#[derive(Debug, Clone, Copy, PartialEq, Eq, Structural)]
pub struct BlockFence {
    pub marker: u8,
    pub open_len: usize,
}

/// Fence state at a position of a markdown text: the block fence it is in,
/// if any, and the length of the inline backtick run it is in, if any.
#[derive(Debug, Clone, Copy, PartialEq, Eq, Structural)]
pub struct FenceState {
    pub block: Option<BlockFence>,
    pub inline_open: Option<usize>,
}

impl FenceState {
    /// Outside any block fence and any inline span.
    pub open spec fn safe(self) -> bool {
        self.block is None && self.inline_open is None
    }

    /// Whether this position is outside any block fence and inline span.
    pub fn is_safe(&self) -> (r: bool)
        ensures
            r == self.safe(),
    {
        self.block.is_none() && self.inline_open.is_none()
    }

    /// The state at the start of a text: outside every fence and span.
    pub open spec fn outside() -> FenceState {
        FenceState { block: None, inline_open: None }
    }
}

impl Default for FenceState {
    fn default() -> (r: FenceState)
        ensures
            r == FenceState::outside(),
    {
        FenceState { block: None, inline_open: None }
    }
}

/// Number of consecutive `m` bytes of `b[..e]` starting at `s`.
pub open spec fn run_len(b: Seq<u8>, s: int, e: int, m: u8) -> int
    decreases e - s,
{
    if s < 0 || s >= e || s >= b.len() || b[s] != m {
        0
    } else {
        1 + run_len(b, s + 1, e, m)
    }
}

proof fn lemma_run_len(b: Seq<u8>, s: int, e: int, m: u8)
    ensures
        0 <= run_len(b, s, e, m),
        s <= e ==> run_len(b, s, e, m) <= e - s,
        0 <= s < e && s < b.len() && b[s] == m ==> run_len(b, s, e, m) >= 1,
    decreases e - s,
{
    if !(s < 0 || s >= e || s >= b.len() || b[s] != m) {
        lemma_run_len(b, s + 1, e, m);
    }
}

/// Whether `b[s..e]` holds the byte `m`.
pub open spec fn has_byte(b: Seq<u8>, s: int, e: int, m: u8) -> bool {
    exists|k: int| s <= k < e && b[k] == m
}

/// Whether `b[s..e]` holds only spaces and tabs.
pub open spec fn only_blanks(b: Seq<u8>, s: int, e: int) -> bool {
    forall|k: int| s <= k < e ==> b[k] == SP || b[k] == TAB
}

/// The block fence opened by the line `b[s..e]`, if it is an opening fence:
/// at most three spaces of indent, then a run of three or more backticks or
/// tildes; after a backtick run the info string may hold no backtick.
pub open spec fn opening_fence(b: Seq<u8>, s: int, e: int) -> Option<BlockFence> {
    let indent = run_len(b, s, e, SP);
    let p = s + indent;
    if indent > 3 || p >= e {
        None
    } else {
        let m = b[p];
        let n = run_len(b, p, e, m);
        if m != BACKTICK && m != TILDE {
            None
        } else if n < 3 {
            None
        } else if m == BACKTICK && has_byte(b, p + n, e, BACKTICK) {
            None
        } else {
            Some(BlockFence { marker: m, open_len: #[verifier::truncate] (n as usize) })
        }
    }
}

/// Whether the line `b[s..e]` closes the block fence `bf`: at most three
/// spaces of indent, a run of at least `bf.open_len` of its marker, then
/// only spaces and tabs.
pub open spec fn closing_fence(b: Seq<u8>, s: int, e: int, bf: BlockFence) -> bool {
    let indent = run_len(b, s, e, SP);
    let p = s + indent;
    let n = run_len(b, p, e, bf.marker);
    &&& indent <= 3
    &&& n >= bf.open_len
    &&& only_blanks(b, p + n, e)
}

/// The inline span state after scanning `b[i..e]` from state `open`: each
/// run of N backticks opens a span when none is open, closes the open span
/// when it has the same length, and is content otherwise.
pub open spec fn inline_after(b: Seq<u8>, i: int, e: int, open: Option<usize>) -> Option<usize>
    decreases e - i,
{
    if i < 0 || i >= e || i >= b.len() {
        open
    } else if b[i] != BACKTICK {
        inline_after(b, i + 1, e, open)
    } else {
        let n = run_len(b, i, e, BACKTICK);
        let next = match open {
            None => Some(#[verifier::truncate] (n as usize)),
            Some(m) => if m == n {
                None
            } else {
                open
            },
        };
        if n <= 0 || i + n > e {
            open
        } else {
            inline_after(b, i + n, e, next)
        }
    }
}

/// End of the line starting at `s`: the position of the next newline, or
/// the end of `b`.
pub open spec fn line_end(b: Seq<u8>, s: int) -> int
    decreases b.len() - s,
{
    if s < 0 || s >= b.len() {
        b.len() as int
    } else if b[s] == NL {
        s
    } else {
        line_end(b, s + 1)
    }
}

/// The state after the line `b[ls..le]` when the scan stops at `end`.
pub open spec fn line_state(b: Seq<u8>, ls: int, le: int, end: int, st: FenceState) -> FenceState {
    match st.block {
        Some(bf) => if closing_fence(b, ls, le, bf) {
            FenceState { block: None, inline_open: st.inline_open }
        } else {
            st
        },
        None => match opening_fence(b, ls, le) {
            Some(bf) => FenceState { block: Some(bf), inline_open: None },
            None => FenceState {
                block: None,
                inline_open: inline_after(b, ls, if end < le { end } else { le }, st.inline_open),
            },
        },
    }
}

/// Fence state reached by scanning `b[ls..end]` line by line from state
/// `st`. Block fences open and close on whole lines, and inside one no
/// inline backticks count; inline spans never cross a line break.
pub open spec fn fence_scan(b: Seq<u8>, ls: int, end: int, st: FenceState) -> FenceState
    decreases end - ls,
{
    if ls < 0 || ls >= end {
        st
    } else {
        let le = line_end(b, ls);
        let st1 = line_state(b, ls, le, end, st);
        if le >= end || le < ls {
            st1
        } else {
            let next = if st1.block is None {
                FenceState { block: None, inline_open: None }
            } else {
                st1
            };
            fence_scan(b, le + 1, end, next)
        }
    }
}

/// Fence state at byte `cursor` of a text with bytes `b`, when the text
/// starts in state `entry`.
pub open spec fn fence_at(b: Seq<u8>, cursor: int, entry: FenceState) -> FenceState {
    fence_scan(b, 0, if cursor < b.len() { cursor } else { b.len() as int }, entry)
}

fn run_length(bytes: &[u8], s: usize, e: usize, m: u8) -> (n: usize)
    requires
        s <= e <= bytes@.len(),
    ensures
        n == run_len(bytes@, s as int, e as int, m),
        s + n <= e,
{
    let mut n: usize = 0;
    while s + n < e && bytes[s + n] == m
        invariant
            s + n <= e <= bytes@.len(),
            run_len(bytes@, s as int, e as int, m) == n + run_len(
                bytes@,
                (s + n) as int,
                e as int,
                m,
            ),
        decreases e - s - n,
    {
        n = n + 1;
    }
    n
}

fn contains_byte(bytes: &[u8], s: usize, e: usize, m: u8) -> (r: bool)
    requires
        s <= e <= bytes@.len(),
    ensures
        r == has_byte(bytes@, s as int, e as int, m),
{
    let mut k = s;
    while k < e
        invariant
            s <= k <= e <= bytes@.len(),
            forall|j: int| s <= j < k ==> bytes@[j] != m,
        decreases e - k,
    {
        if bytes[k] == m {
            return true;
        }
        k = k + 1;
    }
    false
}

fn all_blanks(bytes: &[u8], s: usize, e: usize) -> (r: bool)
    requires
        s <= e <= bytes@.len(),
    ensures
        r == only_blanks(bytes@, s as int, e as int),
{
    let mut k = s;
    while k < e
        invariant
            s <= k <= e <= bytes@.len(),
            only_blanks(bytes@, s as int, k as int),
        decreases e - k,
    {
        if bytes[k] != SP && bytes[k] != TAB {
            return false;
        }
        k = k + 1;
    }
    true
}

fn parse_opening_fence(bytes: &[u8], s: usize, e: usize) -> (r: Option<BlockFence>)
    requires
        s <= e <= bytes@.len(),
    ensures
        r == opening_fence(bytes@, s as int, e as int),
{
    let indent = run_length(bytes, s, e, SP);
    if indent > 3 {
        return None;
    }
    let p = s + indent;
    if p >= e {
        return None;
    }
    let marker = bytes[p];
    if marker != BACKTICK && marker != TILDE {
        return None;
    }
    let n = run_length(bytes, p, e, marker);
    if n < 3 {
        return None;
    }
    if marker == BACKTICK && contains_byte(bytes, p + n, e, BACKTICK) {
        return None;
    }
    Some(BlockFence { marker, open_len: n })
}

fn is_closing_fence(bytes: &[u8], s: usize, e: usize, bf: BlockFence) -> (r: bool)
    requires
        s <= e <= bytes@.len(),
    ensures
        r == closing_fence(bytes@, s as int, e as int, bf),
{
    let indent = run_length(bytes, s, e, SP);
    if indent > 3 {
        return false;
    }
    let p = s + indent;
    let n = run_length(bytes, p, e, bf.marker);
    if n < bf.open_len {
        return false;
    }
    all_blanks(bytes, p + n, e)
}

fn scan_inline_backticks(bytes: &[u8], s: usize, e: usize, open: &mut Option<usize>)
    requires
        s <= e <= bytes@.len(),
    ensures
        *final(open) == inline_after(bytes@, s as int, e as int, *old(open)),
{
    let mut i = s;
    while i < e
        invariant
            s <= i <= e <= bytes@.len(),
            inline_after(bytes@, i as int, e as int, *open) == inline_after(
                bytes@,
                s as int,
                e as int,
                *old(open),
            ),
        decreases e - i,
    {
        if bytes[i] != BACKTICK {
            i = i + 1;
        } else {
            let n = run_length(bytes, i, e, BACKTICK);
            proof {
                lemma_run_len(bytes@, i as int, e as int, BACKTICK);
            }
            match *open {
                None => {
                    *open = Some(n);
                },
                Some(m) => {
                    if m == n {
                        *open = None;
                    }
                },
            }
            i = i + n;
        }
    }
}

fn find_line_end(bytes: &[u8], s: usize) -> (r: usize)
    requires
        s <= bytes@.len(),
    ensures
        r == line_end(bytes@, s as int),
        s <= r <= bytes@.len(),
{
    let mut k = s;
    while k < bytes.len() && bytes[k] != NL
        invariant
            s <= k <= bytes@.len(),
            line_end(bytes@, k as int) == line_end(bytes@, s as int),
        decreases bytes@.len() - k,
    {
        k = k + 1;
    }
    k
}

/// Fence state at byte `cursor` of `text`, scanning from the start of the
/// text, which begins in state `entry` (the state a previous chunk left
/// open).
pub fn fence_depth_from(text: &str, cursor: usize, entry: FenceState) -> (r: FenceState)
    ensures
        r == fence_at(text.spec_bytes(), cursor as int, entry),
{
    let bytes = text.as_bytes();
    let end = if cursor < bytes.len() {
        cursor
    } else {
        bytes.len()
    };
    let mut state = entry;
    let mut line_start: usize = 0;
    while line_start < end
        invariant
            line_start <= end <= bytes@.len(),
            bytes@ == text.spec_bytes(),
            end == (if cursor < bytes@.len() { cursor as int } else { bytes@.len() as int }),
            fence_scan(bytes@, line_start as int, end as int, state) == fence_at(
                bytes@,
                cursor as int,
                entry,
            ),
        decreases end - line_start,
    {
        let line_end = find_line_end(bytes, line_start);
        match state.block {
            Some(bf) => {
                if is_closing_fence(bytes, line_start, line_end, bf) {
                    state.block = None;
                }
            },
            None => {
                match parse_opening_fence(bytes, line_start, line_end) {
                    Some(bf) => {
                        state.block = Some(bf);
                        state.inline_open = None;
                    },
                    None => {
                        let scan_end = if end < line_end {
                            end
                        } else {
                            line_end
                        };
                        scan_inline_backticks(bytes, line_start, scan_end, &mut state.inline_open);
                    },
                }
            },
        }
        if line_end >= end {
            return state;
        }
        line_start = line_end + 1;
        if state.block.is_none() {
            state.inline_open = None;
        }
    }
    state
}

/// Fence state at byte `cursor` of `text`, scanning from its start.
pub fn fence_depth_at(text: &str, cursor: usize) -> (r: FenceState)
    ensures
        r == fence_at(text.spec_bytes(), cursor as int, FenceState::outside()),
{
    fence_depth_from(text, cursor, FenceState::default())
}

/// The text put between a truncated reply and the link to the full reply.
pub open spec fn overflow_prefix() -> Seq<char> {
    seq!['\n', '\n', 'F', 'u', 'l', 'l', ' ', 'r', 'e', 'p', 'l', 'y', ':', ' ']
}

/// Byte budget left for the body once the overflow suffix for a link of
/// `url_len` bytes is reserved (0 when the suffix alone fills the limit).
pub open spec fn overflow_budget(total_limit: int, url_len: int) -> int {
    if total_limit > overflow_prefix().len() + url_len {
        total_limit - overflow_prefix().len() - url_len
    } else {
        0
    }
}

/// Truncates `body` and appends `"\n\nFull reply: {url}"` so that the whole
/// fits `total_limit`. The body is cut at the best boundary inside its
/// budget, and its trailing whitespace is trimmed so the suffix sits cleanly.
pub fn append_overflow(body: &str, url: &str, total_limit: usize) -> (r: String)
    ensures
        r@ == trim_end_chars(
            decode_utf8(
                body.spec_bytes().subrange(
                    0,
                    boundary_at(
                        body.spec_bytes(),
                        overflow_budget(total_limit as int, url.spec_bytes().len() as int),
                    ),
                ),
            ),
        ) + overflow_prefix() + url@,
        total_limit >= overflow_prefix().len() + url.spec_bytes().len() ==> encode_utf8(r@).len()
            <= total_limit,
{
    let prefix = "\n\nFull reply: ";
    proof {
        reveal_strlit("\n\nFull reply: ");
        assert(prefix@ =~= overflow_prefix());
    }
    let suffix_len = 14usize.saturating_add(byte_len(url));
    let body_budget = total_limit.saturating_sub(suffix_len);
    assert(body_budget == overflow_budget(total_limit as int, url.spec_bytes().len() as int));
    let cut = find_boundary(body, body_budget);
    let (head_raw, _rest) = body.split_at(cut);
    let head = trim_end_string(head_raw);
    let mut r = head;
    r.append(prefix);
    r.append(url);
    proof {
        lemma_piece_chars(head_raw@, body.spec_bytes(), 0, cut as int);
        let t = trim_end_chars(head_raw@);
        lemma_trim_end_prefix(head_raw@);
        lemma_prefix_encoding_len(head_raw@, t.len() as int);
        is_ascii_chars_encode_utf8(overflow_prefix());
        lemma_encode_concat(t, overflow_prefix());
        lemma_encode_concat(t + overflow_prefix(), url@);
    }
    r
}

pub const BACKSLASH: u8 = 92u8;

/// The run of a block fence's marker, as characters.
pub open spec fn fence_run(bf: BlockFence) -> Seq<char> {
    Seq::new(bf.open_len as nat, |i: int| bf.marker as char)
}

/// What reopens `block` at the head of a chunk: its run and a newline
/// (nothing when no fence is open).
pub open spec fn open_marker(block: Option<BlockFence>) -> Seq<char> {
    match block {
        None => seq![],
        Some(bf) => fence_run(bf).push('\n'),
    }
}

/// What closes `block` at the end of a chunk: a newline and its run
/// (nothing when no fence is open).
pub open spec fn close_marker(block: Option<BlockFence>) -> Seq<char> {
    match block {
        None => seq![],
        Some(bf) => seq!['\n'] + fence_run(bf),
    }
}

fn push_run(s: &mut String, bf: BlockFence)
    ensures
        final(s)@ == old(s)@ + fence_run(bf),
{
    let c = bf.marker as char;
    let mut i: usize = 0;
    while i < bf.open_len
        invariant
            i <= bf.open_len,
            c == bf.marker as char,
            s@ =~= old(s)@ + Seq::new(i as nat, |j: int| bf.marker as char),
        decreases bf.open_len - i,
    {
        push_char(s, c);
        i = i + 1;
    }
}

/// `"```\n"` / `"~~~\n"` that reopens an unclosed fence at the start of
/// the next chunk; empty when no fence is open.
pub fn open_fence_marker(block: Option<BlockFence>) -> (r: String)
    ensures
        r@ == open_marker(block),
{
    let mut r = String::new();
    match block {
        None => {},
        Some(bf) => {
            push_run(&mut r, bf);
            push_char(&mut r, '\n');
        },
    }
    r
}

/// `"\n```"` / `"\n~~~"` that closes an open fence at the end of the
/// current chunk; empty when no fence is open.
pub fn close_fence_marker(block: Option<BlockFence>) -> (r: String)
    ensures
        r@ == close_marker(block),
{
    let mut r = String::new();
    match block {
        None => {},
        Some(bf) => {
            push_char(&mut r, '\n');
            push_run(&mut r, bf);
        },
    }
    r
}

/// Number of consecutive backslashes ending just before position `i`.
pub open spec fn backslashes_before(b: Seq<u8>, i: int) -> int
    decreases i,
{
    if i <= 0 || i > b.len() || b[i - 1] != BACKSLASH {
        0
    } else {
        1 + backslashes_before(b, i - 1)
    }
}

/// The cut moved forward past the character after an odd run of
/// backslashes ending at `cut`, so that an escape pair stays together.
pub open spec fn escape_safe(b: Seq<u8>, cut: int) -> int {
    if cut == 0 || cut >= b.len() {
        cut
    } else if backslashes_before(b, cut) % 2 == 1 {
        char_ceil(b, cut + 1)
    } else {
        cut
    }
}

/// No character boundary lies strictly between `i` and the first one at or
/// after it.
proof fn lemma_char_ceil_first(b: Seq<u8>, i: int, k: int)
    requires
        i <= k < char_ceil(b, i),
    ensures
        !is_char_boundary(b, k),
    decreases b.len() - i,
{
    if i < k {
        lemma_char_ceil_first(b, i + 1, k);
    }
}

/// A cut moved by [`escape_safe`] never ends a chunk after an odd run of
/// backslashes, that is, never in the middle of an escape pair.
proof fn lemma_escape_safe_even(b: Seq<u8>, cut: int)
    requires
        valid_utf8(b),
        0 < cut < b.len(),
    ensures
        backslashes_before(b, escape_safe(b, cut)) % 2 == 0,
{
    if backslashes_before(b, cut) % 2 == 1 {
        let n = char_ceil(b, cut + 1);
        lemma_char_ceil(b, cut + 1);
        if n > cut + 1 {
            lemma_char_ceil_first(b, cut + 1, n - 1);
            vstd::utf8::is_char_boundary_iff_not_is_continuation_byte(b, n - 1);
        }
    }
}

/// If `cut` lands right after an odd run of `\`, advances it by one
/// character so that the escaped character stays in the same chunk; the
/// cut it returns inside the text never follows an odd run of `\`.
pub fn avoid_split_after_backslash(text: &str, cut: usize) -> (r: usize)
    ensures
        r == escape_safe(text.spec_bytes(), cut as int),
        0 < cut < text.spec_bytes().len() ==> backslashes_before(text.spec_bytes(), r as int) % 2 == 0,
{
    proof {
        if 0 < cut < text.spec_bytes().len() {
            lemma_escape_safe_even(text.spec_bytes(), cut as int);
        }
    }
    let bytes = text.as_bytes();
    if cut == 0 || cut >= bytes.len() {
        return cut;
    }
    let mut backslashes: usize = 0;
    let mut i = cut;
    while i > 0 && bytes[i - 1] == BACKSLASH
        invariant
            i <= cut < bytes@.len(),
            backslashes + i == cut,
            backslashes_before(bytes@, cut as int) == backslashes + backslashes_before(
                bytes@,
                i as int,
            ),
        decreases i,
    {
        backslashes = backslashes + 1;
        i = i - 1;
    }
    if backslashes % 2 == 1 {
        let mut new_cut = cut + 1;
        while new_cut < bytes.len() && !text.is_char_boundary(new_cut)
            invariant
                cut + 1 <= new_cut <= bytes@.len(),
                bytes@ == text.spec_bytes(),
                char_ceil(bytes@, new_cut as int) == char_ceil(bytes@, cut + 1),
            decreases bytes@.len() - new_cut,
        {
            new_cut = new_cut + 1;
        }
        return new_cut;
    }
    cut
}

/// The last position before `pos` that is a character boundary outside any
/// inline span (scanning from state `entry`), if there is one.
pub open spec fn safe_before(b: Seq<u8>, pos: int, entry: FenceState) -> Option<int>
    decreases pos,
{
    if pos <= 0 {
        None
    } else if is_char_boundary(b, pos - 1) && fence_at(b, pos - 1, entry).inline_open is None {
        Some(pos - 1)
    } else {
        safe_before(b, pos - 1, entry)
    }
}

/// Walks back from `from` to the last position where no inline span is
/// open. `None` when the whole prefix is inside an inline span.
pub fn backtrack_to_safe(text: &str, from: usize, entry: FenceState) -> (r: Option<usize>)
    ensures
        r matches Some(p) ==> safe_before(text.spec_bytes(), from as int, entry) == Some(p as int),
        r is None ==> safe_before(text.spec_bytes(), from as int, entry) is None,
{
    let mut pos = from;
    while pos > 0
        invariant
            pos <= from,
            safe_before(text.spec_bytes(), pos as int, entry) == safe_before(
                text.spec_bytes(),
                from as int,
                entry,
            ),
        decreases pos,
    {
        pos = pos - 1;
        if text.is_char_boundary(pos) {
            let state = fence_depth_from(text, pos, entry);
            if state.inline_open.is_none() {
                return Some(pos);
            }
        }
    }
    None
}

proof fn lemma_safe_before(b: Seq<u8>, pos: int, entry: FenceState)
    ensures
        safe_before(b, pos, entry) matches Some(p) ==> 0 <= p < pos && is_char_boundary(b, p),
    decreases pos,
{
    if pos > 0 && !(is_char_boundary(b, pos - 1) && fence_at(b, pos - 1, entry).inline_open is None) {
        lemma_safe_before(b, pos - 1, entry);
    }
}

proof fn lemma_escape_safe(b: Seq<u8>, cut: int)
    requires
        valid_utf8(b),
        0 <= cut <= b.len(),
        is_char_boundary(b, cut),
    ensures
        cut <= escape_safe(b, cut) <= b.len(),
        is_char_boundary(b, escape_safe(b, cut)),
{
    if cut != 0 && cut < b.len() {
        lemma_char_ceil(b, cut + 1);
    }
}

/// The cut that markdown splitting makes in the rest `r` of a text (which
/// starts in fence state `entry`), with `budget` bytes for the chunk body,
/// and the block fence whose close marker then ends the chunk.
///
/// The candidate is the [`boundary_at`] cut (moved past an escaped
/// character in escape-aware mode). When it falls inside an inline span,
/// the cut moves back to the last position outside any span; if there is
/// none, it stays inside the span.
pub open spec fn fenced_cut(r: Seq<u8>, budget: int, entry: FenceState, escapes: bool) -> (
    int,
    Option<BlockFence>,
) {
    let raw = boundary_at(r, budget);
    let candidate = if escapes {
        escape_safe(r, raw)
    } else {
        raw
    };
    let st = fence_at(r, candidate, entry);
    if st.inline_open is None {
        (candidate, st.block)
    } else {
        match safe_before(r, candidate, entry) {
            Some(p) => {
                let safe = if escapes {
                    escape_safe(r, p)
                } else {
                    p
                };
                (safe, fence_at(r, safe, entry).block)
            },
            None => (candidate, st.block),
        }
    }
}

proof fn lemma_fenced_cut(r: Seq<u8>, budget: int, entry: FenceState, escapes: bool)
    requires
        valid_utf8(r),
        budget >= 0,
    ensures
        0 <= fenced_cut(r, budget, entry, escapes).0 <= r.len(),
        is_char_boundary(r, fenced_cut(r, budget, entry, escapes).0),
{
    let raw = boundary_at(r, budget);
    lemma_boundary_at(r, budget);
    lemma_escape_safe(r, raw);
    let candidate = if escapes {
        escape_safe(r, raw)
    } else {
        raw
    };
    lemma_safe_before(r, candidate, entry);
    if let Some(p) = safe_before(r, candidate, entry) {
        lemma_escape_safe(r, p);
    }
}

fn choose_cut(rem: &str, budget: usize, entry: FenceState, escapes: bool) -> (r: (
    usize,
    Option<BlockFence>,
))
    ensures
        r.0 == fenced_cut(rem.spec_bytes(), budget as int, entry, escapes).0,
        r.1 == fenced_cut(rem.spec_bytes(), budget as int, entry, escapes).1,
{
    let raw = find_boundary(rem, budget);
    let candidate = if escapes {
        avoid_split_after_backslash(rem, raw)
    } else {
        raw
    };
    let st = fence_depth_from(rem, candidate, entry);
    if st.inline_open.is_none() {
        return (candidate, st.block);
    }
    match backtrack_to_safe(rem, candidate, entry) {
        Some(p) => {
            let safe = if escapes {
                avoid_split_after_backslash(rem, p)
            } else {
                p
            };
            let at_safe = fence_depth_from(rem, safe, entry);
            (safe, at_safe.block)
        },
        // No position outside the span: cut inside it.
        None => (candidate, st.block),
    }
}

/// Byte budget for a chunk body once the reopen marker of `entry` is
/// reserved (0 when the marker alone fills the limit).
pub open spec fn reopen_budget(limit: int, entry: FenceState) -> int {
    let p = encode_utf8(open_marker(entry.block)).len();
    if limit > p {
        limit - p
    } else {
        0
    }
}

/// Whether the rest `r`, entered in state `entry`, fits in one last chunk
/// together with the marker that reopens its fence.
pub open spec fn rest_fits(r: Seq<u8>, entry: FenceState, limit: int) -> bool {
    r.len() + encode_utf8(open_marker(entry.block)).len() <= limit
}

/// How many bytes of the rest `r` the next chunk takes: all of them when
/// they fit, else up to the cut of [`fenced_cut`], else (when no character
/// fits) the first character.
pub open spec fn chunk_step(r: Seq<u8>, entry: FenceState, limit: int, escapes: bool) -> int {
    if rest_fits(r, entry, limit) {
        r.len() as int
    } else {
        let cut = fenced_cut(r, reopen_budget(limit, entry), entry, escapes).0;
        if cut == 0 {
            char_ceil(r, 1)
        } else {
            cut
        }
    }
}

/// The next chunk cut from the rest `r`: the marker reopening the fence it
/// entered in, its bytes, and, when it was cut by [`fenced_cut`], the
/// marker closing the fence open at the cut.
pub open spec fn chunk_head(r: Seq<u8>, entry: FenceState, limit: int, escapes: bool) -> Seq<
    char,
> {
    let body = open_marker(entry.block) + decode_utf8(
        r.subrange(0, chunk_step(r, entry, limit, escapes)),
    );
    let cut = fenced_cut(r, reopen_budget(limit, entry), entry, escapes);
    if rest_fits(r, entry, limit) || cut.0 == 0 {
        body
    } else {
        body + close_marker(cut.1)
    }
}

/// The chunks that fence-aware splitting makes of the text with bytes `b`
/// from byte `cursor` on, entering there in fence state `entry`; each
/// following chunk enters in the fence state of the text at its start.
pub open spec fn fenced_chunks(
    b: Seq<u8>,
    cursor: int,
    entry: FenceState,
    limit: int,
    escapes: bool,
) -> Seq<Seq<char>>
    decreases b.len() - cursor,
{
    if cursor < 0 || cursor >= b.len() {
        seq![]
    } else {
        let r = b.subrange(cursor, b.len() as int);
        let step = chunk_step(r, entry, limit, escapes);
        if step <= 0 || step > r.len() {
            seq![]
        } else {
            let next = cursor + step;
            seq![chunk_head(r, entry, limit, escapes)] + fenced_chunks(
                b,
                next,
                fence_at(b, next, FenceState::outside()),
                limit,
                escapes,
            )
        }
    }
}

/// The bytes of the text held by each chunk of [`fenced_chunks`], decoded:
/// the chunk without the markers that reopen and close fences.
pub open spec fn fenced_pieces(
    b: Seq<u8>,
    cursor: int,
    entry: FenceState,
    limit: int,
    escapes: bool,
) -> Seq<Seq<char>>
    decreases b.len() - cursor,
{
    if cursor < 0 || cursor >= b.len() {
        seq![]
    } else {
        let r = b.subrange(cursor, b.len() as int);
        let step = chunk_step(r, entry, limit, escapes);
        if step <= 0 || step > r.len() {
            seq![]
        } else {
            let next = cursor + step;
            seq![decode_utf8(r.subrange(0, step))] + fenced_pieces(
                b,
                next,
                fence_at(b, next, FenceState::outside()),
                limit,
                escapes,
            )
        }
    }
}

/// A chunk is its piece of the text between a fence reopen marker and a
/// fence close marker (either of which may be empty).
pub open spec fn framed(chunk: Seq<char>, piece: Seq<char>) -> bool {
    exists|o: Option<BlockFence>, c: Option<BlockFence>|
        chunk == open_marker(o) + piece + close_marker(c)
}

proof fn lemma_fenced_reassemble(
    b: Seq<u8>,
    cursor: int,
    entry: FenceState,
    limit: int,
    escapes: bool,
)
    requires
        0 <= cursor <= b.len(),
        valid_utf8(b.subrange(cursor, b.len() as int)),
        limit >= 0,
    ensures
        fenced_pieces(b, cursor, entry, limit, escapes).flatten() == decode_utf8(
            b.subrange(cursor, b.len() as int),
        ),
        fenced_chunks(b, cursor, entry, limit, escapes).len() == fenced_pieces(
            b,
            cursor,
            entry,
            limit,
            escapes,
        ).len(),
        forall|k: int|
            0 <= k < fenced_chunks(b, cursor, entry, limit, escapes).len() ==> framed(
                #[trigger] fenced_chunks(b, cursor, entry, limit, escapes)[k],
                fenced_pieces(b, cursor, entry, limit, escapes)[k],
            ),
    decreases b.len() - cursor,
{
    let r = b.subrange(cursor, b.len() as int);
    let chunks = fenced_chunks(b, cursor, entry, limit, escapes);
    let pieces = fenced_pieces(b, cursor, entry, limit, escapes);
    if cursor == b.len() {
        assert(r.len() == 0);
        assert(decode_utf8(r) =~= Seq::<char>::empty());
    } else {
        lemma_chunk_step(r, entry, limit, escapes);
        let step = chunk_step(r, entry, limit, escapes);
        let next = cursor + step;
        let next_entry = fence_at(b, next, FenceState::outside());
        valid_utf8_split(r, step);
        decode_utf8_split(r, step);
        assert(r.subrange(step, r.len() as int) =~= b.subrange(next, b.len() as int));
        lemma_fenced_reassemble(b, next, next_entry, limit, escapes);
        let rest_chunks = fenced_chunks(b, next, next_entry, limit, escapes);
        let rest_pieces = fenced_pieces(b, next, next_entry, limit, escapes);
        let piece = decode_utf8(r.subrange(0, step));
        assert(pieces == seq![piece] + rest_pieces);
        assert(chunks == seq![chunk_head(r, entry, limit, escapes)] + rest_chunks);
        assert((seq![piece] + rest_pieces).first() == piece);
        assert((seq![piece] + rest_pieces).drop_first() =~= rest_pieces);
        let cut = fenced_cut(r, reopen_budget(limit, entry), entry, escapes);
        let c = if rest_fits(r, entry, limit) || cut.0 == 0 {
            None
        } else {
            cut.1
        };
        assert(chunk_head(r, entry, limit, escapes) =~= open_marker(entry.block) + piece
            + close_marker(c));
        assert forall|k: int| 0 <= k < chunks.len() implies framed(
            #[trigger] chunks[k],
            pieces[k],
        ) by {
            if k == 0 {
                assert(chunks[0] == open_marker(entry.block) + pieces[0] + close_marker(c));
            } else {
                assert(chunks[k] == rest_chunks[k - 1]);
                assert(pieces[k] == rest_pieces[k - 1]);
            }
        }
    }
}

/// The pieces of the text that the chunks of fence-aware splitting hold,
/// joined, are the text again, and each chunk is its piece framed by a
/// fence reopen marker and a fence close marker.
pub proof fn law_fenced_split_reassembles(text: &str, limit: int, escapes: bool)
    requires
        limit >= 0,
    ensures
        fenced_pieces(text.spec_bytes(), 0, FenceState::outside(), limit, escapes).flatten()
            == text@,
        fenced_chunks(text.spec_bytes(), 0, FenceState::outside(), limit, escapes).len()
            == fenced_pieces(text.spec_bytes(), 0, FenceState::outside(), limit, escapes).len(),
        forall|k: int|
            0 <= k < fenced_chunks(text.spec_bytes(), 0, FenceState::outside(), limit, escapes).len()
                ==> framed(
                #[trigger] fenced_chunks(
                    text.spec_bytes(),
                    0,
                    FenceState::outside(),
                    limit,
                    escapes,
                )[k],
                fenced_pieces(text.spec_bytes(), 0, FenceState::outside(), limit, escapes)[k],
            ),
{
    let b = text.spec_bytes();
    assert(b.subrange(0, b.len() as int) =~= b);
    lemma_fenced_reassemble(b, 0, FenceState::outside(), limit, escapes);
}

/// The bytes by which an escape-aware cut may pass the budget: the
/// character after a backslash, at most four bytes.
pub open spec fn escape_slack(escapes: bool) -> int {
    if escapes {
        4
    } else {
        0
    }
}

/// A chunk is its piece between a fence reopen marker and a fence close
/// marker, and the reopen marker with the piece fits in `limit` bytes
/// (plus `slack`), or the piece is a single character of at most four
/// bytes.
pub open spec fn framed_fit(chunk: Seq<char>, piece: Seq<char>, limit: int, slack: int) -> bool {
    exists|o: Option<BlockFence>, c: Option<BlockFence>|
        #![trigger open_marker(o), close_marker(c)]
        chunk == open_marker(o) + piece + close_marker(c) && (encode_utf8(open_marker(o)).len()
            + encode_utf8(piece).len() <= limit + slack || encode_utf8(piece).len() <= 4)
}

/// The bytes that one chunk takes, with its reopen marker, fit in the limit
/// (one character more for an escape-aware cut), or are the first character.
proof fn lemma_chunk_step_fits(r: Seq<u8>, entry: FenceState, limit: int, escapes: bool)
    requires
        valid_utf8(r),
        r.len() > 0,
        limit >= 0,
    ensures
        encode_utf8(open_marker(entry.block)).len() + chunk_step(r, entry, limit, escapes)
            <= limit + escape_slack(escapes) || chunk_step(r, entry, limit, escapes) <= 4,
{
    let p = encode_utf8(open_marker(entry.block)).len() as int;
    let budget = reopen_budget(limit, entry);
    lemma_char_ceil(r, 1);
    lemma_first_scalar_boundary(r);
    lemma_char_ceil_le(r, 1, length_of_first_scalar(r));
    if !rest_fits(r, entry, limit) {
        let raw = boundary_at(r, budget);
        lemma_boundary_at(r, budget);
        lemma_escape_safe(r, raw);
        let candidate = if escapes {
            escape_safe(r, raw)
        } else {
            raw
        };
        if escapes && raw != 0 && raw < r.len() && backslashes_before(r, raw) % 2 == 1 {
            let j = lemma_boundary_near(r, raw + 1);
            lemma_char_ceil_le(r, raw + 1, j);
        }
        assert(budget > 0 ==> raw <= budget);
        assert(budget == 0 ==> raw == 0);
        assert(candidate <= raw + escape_slack(escapes));
        lemma_safe_before(r, candidate, entry);
        if let Some(q) = safe_before(r, candidate, entry) {
            lemma_escape_safe(r, q);
            if escapes && q != 0 && q < r.len() && backslashes_before(r, q) % 2 == 1 {
                lemma_char_ceil_le(r, q + 1, candidate);
            }
        }
        let cut = fenced_cut(r, budget, entry, escapes).0;
        assert(cut <= candidate);
        assert(budget > 0 ==> p + budget == limit);
    }
}

proof fn lemma_fenced_fit(b: Seq<u8>, cursor: int, entry: FenceState, limit: int, escapes: bool)
    requires
        0 <= cursor <= b.len(),
        valid_utf8(b.subrange(cursor, b.len() as int)),
        limit >= 0,
    ensures
        fenced_chunks(b, cursor, entry, limit, escapes).len() == fenced_pieces(
            b,
            cursor,
            entry,
            limit,
            escapes,
        ).len(),
        forall|k: int|
            0 <= k < fenced_chunks(b, cursor, entry, limit, escapes).len() ==> framed_fit(
                #[trigger] fenced_chunks(b, cursor, entry, limit, escapes)[k],
                fenced_pieces(b, cursor, entry, limit, escapes)[k],
                limit,
                escape_slack(escapes),
            ),
    decreases b.len() - cursor,
{
    let r = b.subrange(cursor, b.len() as int);
    let chunks = fenced_chunks(b, cursor, entry, limit, escapes);
    let pieces = fenced_pieces(b, cursor, entry, limit, escapes);
    if cursor < b.len() {
        lemma_chunk_step(r, entry, limit, escapes);
        lemma_chunk_step_fits(r, entry, limit, escapes);
        let step = chunk_step(r, entry, limit, escapes);
        let next = cursor + step;
        let next_entry = fence_at(b, next, FenceState::outside());
        valid_utf8_split(r, step);
        assert(r.subrange(step, r.len() as int) =~= b.subrange(next, b.len() as int));
        lemma_fenced_fit(b, next, next_entry, limit, escapes);
        let rest_chunks = fenced_chunks(b, next, next_entry, limit, escapes);
        let rest_pieces = fenced_pieces(b, next, next_entry, limit, escapes);
        let piece = decode_utf8(r.subrange(0, step));
        assert(encode_utf8(piece) == r.subrange(0, step)) by {
            broadcast use vstd::utf8::group_utf8_lib;
        }
        assert(pieces == seq![piece] + rest_pieces);
        assert(chunks == seq![chunk_head(r, entry, limit, escapes)] + rest_chunks);
        let cut = fenced_cut(r, reopen_budget(limit, entry), entry, escapes);
        let c = if rest_fits(r, entry, limit) || cut.0 == 0 {
            None
        } else {
            cut.1
        };
        let o = entry.block;
        assert(chunk_head(r, entry, limit, escapes) =~= open_marker(o) + piece + close_marker(c));
        assert forall|k: int| 0 <= k < chunks.len() implies framed_fit(
            #[trigger] chunks[k],
            pieces[k],
            limit,
            escape_slack(escapes),
        ) by {
            if k == 0 {
                assert(chunks[0] == open_marker(o) + pieces[0] + close_marker(c));
                assert(encode_utf8(pieces[0]).len() == step);
            } else {
                assert(chunks[k] == rest_chunks[k - 1]);
                assert(pieces[k] == rest_pieces[k - 1]);
            }
        }
    }
}

/// Each chunk of fence-aware splitting, without the marker that closes a
/// fence open at its cut, fits in the limit together with the marker that
/// reopens the fence it starts in; an escape-aware cut may pass the limit by
/// the escaped character (at most four bytes), and a chunk that holds only
/// the next character (when not even that fits) may pass it too.
pub proof fn law_fenced_chunks_fit(text: &str, limit: int, escapes: bool)
    requires
        limit >= 0,
    ensures
        fenced_chunks(text.spec_bytes(), 0, FenceState::outside(), limit, escapes).len()
            == fenced_pieces(text.spec_bytes(), 0, FenceState::outside(), limit, escapes).len(),
        forall|k: int|
            0 <= k < fenced_chunks(text.spec_bytes(), 0, FenceState::outside(), limit, escapes).len()
                ==> framed_fit(
                #[trigger] fenced_chunks(text.spec_bytes(), 0, FenceState::outside(), limit, escapes)[k],
                fenced_pieces(text.spec_bytes(), 0, FenceState::outside(), limit, escapes)[k],
                limit,
                escape_slack(escapes),
            ),
{
    let b = text.spec_bytes();
    assert(b.subrange(0, b.len() as int) =~= b);
    lemma_fenced_fit(b, 0, FenceState::outside(), limit, escapes);
}

proof fn lemma_chunk_step(r: Seq<u8>, entry: FenceState, limit: int, escapes: bool)
    requires
        valid_utf8(r),
        r.len() > 0,
        limit >= 0,
    ensures
        0 < chunk_step(r, entry, limit, escapes) <= r.len(),
        is_char_boundary(r, chunk_step(r, entry, limit, escapes)),
{
    lemma_fenced_cut(r, reopen_budget(limit, entry), entry, escapes);
    lemma_char_ceil(r, 1);
    assert(is_char_boundary(r, r.len() as int));
}

/// Cuts the next chunk from `remaining` (the rest of a text, entered in
/// fence state `entry`): the chunk and the number of bytes it took.
fn next_fenced_chunk(remaining: &str, entry: FenceState, provider_limit: usize, escapes: bool) -> (r: (
    String,
    usize,
))
    requires
        remaining.spec_bytes().len() > 0,
    ensures
        r.1 == chunk_step(remaining.spec_bytes(), entry, provider_limit as int, escapes),
        r.0@ == chunk_head(remaining.spec_bytes(), entry, provider_limit as int, escapes),
{
    let ghost rb = remaining.spec_bytes();
    let ghost limit = provider_limit as int;
    proof {
        lemma_chunk_step(rb, entry, limit, escapes);
    }
    let prefix = open_fence_marker(entry.block);
    let plen = byte_len(prefix.as_str());
    let rlen = byte_len(remaining);
    let mut chunk = prefix;
    if rlen <= provider_limit && plen <= provider_limit - rlen {
        chunk.append(remaining);
        proof {
            assert(rb.subrange(0, rb.len() as int) =~= rb);
            lemma_piece_chars(remaining@, rb, 0, rb.len() as int);
        }
        return (chunk, rlen);
    }
    let budget = provider_limit.saturating_sub(plen);
    let (cut, close) = choose_cut(remaining, budget, entry, escapes);
    if cut == 0 {
        // Pathological input: take one character so that splitting ends.
        let mut i: usize = 1;
        while i < rlen && !remaining.is_char_boundary(i)
            invariant
                1 <= i <= rlen,
                rlen == rb.len(),
                rb == remaining.spec_bytes(),
                char_ceil(rb, i as int) == char_ceil(rb, 1),
            decreases rlen - i,
        {
            i = i + 1;
        }
        let (piece, _rest) = remaining.split_at(i);
        chunk.append(piece);
        proof {
            lemma_piece_chars(piece@, rb, 0, i as int);
        }
        (chunk, i)
    } else {
        let (piece, _rest) = remaining.split_at(cut);
        chunk.append(piece);
        let closing = close_fence_marker(close);
        chunk.append(closing.as_str());
        proof {
            lemma_piece_chars(piece@, rb, 0, cut as int);
        }
        (chunk, cut)
    }
}

/// Shared loop of the two fence-aware splitters; `escapes` turns on the
/// rule that a cut never separates a `\` from the character it escapes.
#[verifier::rlimit(40)]
#[verifier::spinoff_prover]
fn split_fenced(text: &str, provider_limit: usize, escapes: bool) -> (chunks: Vec<String>)
    ensures
        views_of(chunks@) == fenced_chunks(
            text.spec_bytes(),
            0,
            FenceState::outside(),
            provider_limit as int,
            escapes,
        ),
{
    let ghost b = text.spec_bytes();
    let ghost limit = provider_limit as int;
    let mut chunks: Vec<String> = Vec::new();
    let total = byte_len(text);
    let mut cursor: usize = 0;
    let mut entry = FenceState::default();
    let mut remaining: &str = text;
    assert(b.subrange(0, total as int) =~= b);
    while cursor < total
        invariant
            b == text.spec_bytes(),
            limit == provider_limit,
            total == b.len(),
            cursor <= total,
            remaining.spec_bytes() == b.subrange(cursor as int, total as int),
            views_of(chunks@) + fenced_chunks(b, cursor as int, entry, limit, escapes)
                == fenced_chunks(b, 0, FenceState::outside(), limit, escapes),
        decreases total - cursor,
    {
        let ghost r = remaining.spec_bytes();
        let ghost old_chunks = chunks@;
        let ghost old_entry = entry;
        let ghost old_cursor = cursor as int;
        proof {
            lemma_chunk_step(r, entry, limit, escapes);
        }
        let (chunk, step) = next_fenced_chunk(remaining, entry, provider_limit, escapes);
        let (_head, tail) = remaining.split_at(step);
        proof {
            assert(views_of(old_chunks.push(chunk)) =~= views_of(old_chunks).push(chunk@));
            assert(tail.spec_bytes() =~= b.subrange(old_cursor + step, total as int));
        }
        chunks.push(chunk);
        cursor = cursor + step;
        remaining = tail;
        entry = fence_depth_from(text, cursor, FenceState::default());
        proof {
            assert(views_of(chunks@) + fenced_chunks(b, cursor as int, entry, limit, escapes)
                =~= views_of(old_chunks) + fenced_chunks(b, old_cursor, old_entry, limit, escapes));
        }
    }
    proof {
        assert(views_of(chunks@) + fenced_chunks(b, cursor as int, entry, limit, escapes)
            =~= views_of(chunks@));
    }
    chunks
}

/// Fence-aware markdown split: a chunk that ends inside an open block fence
/// gets a closing marker appended and the next chunk gets the matching
/// opener prepended; a cut inside an inline span moves back before it.
pub fn split_markdown_aware(text: &str, provider_limit: usize) -> (chunks: Vec<String>)
    ensures
        views_of(chunks@) == fenced_chunks(
            text.spec_bytes(),
            0,
            FenceState::outside(),
            provider_limit as int,
            false,
        ),
{
    split_fenced(text, provider_limit, false)
}

/// [`split_markdown_aware`] with escape-pair safety for Telegram
/// MarkdownV2: a cut never lands between a `\` and the character it
/// escapes.
pub fn split_markdown_v2_aware(text: &str, provider_limit: usize) -> (chunks: Vec<String>)
    ensures
        views_of(chunks@) == fenced_chunks(
            text.spec_bytes(),
            0,
            FenceState::outside(),
            provider_limit as int,
            true,
        ),
{
    split_fenced(text, provider_limit, true)
}

/// Plain-text splitter for adapters whose wire format has no markdown
/// (Slack, SMS). When `hard_limit` is set and the text exceeds it, the reply
/// goes out as one chunk truncated to the provider limit with a link to the
/// full reply appended.
pub struct PlainSplitter {
    pub provider_limit: usize,
    pub hard_limit: Option<usize>,
}

impl PlainSplitter {
    pub fn new(provider_limit: usize, hard_limit: Option<usize>) -> (r: Self)
        ensures
            r.provider_limit == provider_limit,
            r.hard_limit == hard_limit,
    {
        PlainSplitter { provider_limit, hard_limit }
    }

    /// Whether `text` overflows the hard limit, so that a link to the full
    /// reply must be fetched before splitting.
    pub open spec fn overflows(&self, text: &str) -> bool {
        !is_blank(text@) && (self.hard_limit matches Some(h) && text.spec_bytes().len() > h)
    }

    /// Whether splitting `text` needs a link to the full reply.
    pub fn needs_share_link(&self, text: &str) -> (r: bool)
        ensures
            r == self.overflows(text),
    {
        if is_blank_str(text) {
            return false;
        }
        match self.hard_limit {
            Some(h) => byte_len(text) > h,
            None => false,
        }
    }

    /// Splits `text` for sending: nothing for a blank text; when the text
    /// overflows the hard limit, one chunk made by [`append_overflow`] with
    /// `share_url`; otherwise [`silent_split_plain`].
    pub fn split(&self, text: &str, share_url: &str) -> (chunks: Vec<String>)
        ensures
            is_blank(text@) ==> chunks@.len() == 0,
            self.overflows(text) ==> chunks@.len() == 1 && chunks@[0]@ == trim_end_chars(
                decode_utf8(
                    text.spec_bytes().subrange(
                        0,
                        boundary_at(
                            text.spec_bytes(),
                            overflow_budget(
                                self.provider_limit as int,
                                share_url.spec_bytes().len() as int,
                            ),
                        ),
                    ),
                ),
            ) + overflow_prefix() + share_url@,
            !is_blank(text@) && !self.overflows(text) ==> encodings_of(chunks@)
                == silent_split_bytes(text.spec_bytes(), self.provider_limit as int) && joined(
                chunks@,
            ) == text@,
    {
        if is_blank_str(text) {
            return Vec::new();
        }
        if self.needs_share_link(text) {
            let mut chunks = Vec::new();
            chunks.push(append_overflow(text, share_url, self.provider_limit));
            return chunks;
        }
        silent_split_plain(text, self.provider_limit)
    }
}

/// GFM-markdown splitter for adapters whose wire format is markdown
/// (Discord, WhatsApp). Fence-aware: see [`split_markdown_aware`].
pub struct MarkdownSplitter {
    pub provider_limit: usize,
    pub hard_limit: Option<usize>,
}

/// What a fence-aware splitter returns for `text`, as characters: nothing
/// for a blank text, the text whole when it fits, else its fenced chunks.
pub open spec fn fenced_split(text: &str, limit: int, escapes: bool) -> Seq<Seq<char>> {
    fenced_split_of(text@, limit, escapes)
}

/// [`fenced_split`] of a text given by its characters `t`.
pub open spec fn fenced_split_of(t: Seq<char>, limit: int, escapes: bool) -> Seq<Seq<char>> {
    if is_blank(t) {
        seq![]
    } else if encode_utf8(t).len() <= limit {
        seq![t]
    } else {
        fenced_chunks(encode_utf8(t), 0, FenceState::outside(), limit, escapes)
    }
}

/// After position `i`, on the same line, some byte other than a backtick
/// and then a backtick follow.
pub open spec fn later_tick(b: Seq<u8>, i: int) -> bool {
    exists|k: int, j: int|
        #![trigger b[k], b[j]]
        i < k < j < b.len() && b[k] != BACKTICK && b[j] == BACKTICK
            && forall|t: int| i < t <= j ==> #[trigger] b[t] != NL
}

/// No position of `b` begins a block fence: there is no run of three
/// tildes, and every run of three backticks is followed on its line by a
/// later backtick (so it can open an inline span only). A chunk may begin
/// at any position of the text, so every position counts, not only the
/// starts of lines.
pub open spec fn no_fence_openers(b: Seq<u8>) -> bool {
    forall|i: int|
        0 <= i && i + 2 < b.len() ==> {
            &&& !(#[trigger] b[i] == TILDE && b[i + 1] == TILDE && b[i + 2] == TILDE)
            &&& (b[i] == BACKTICK && b[i + 1] == BACKTICK && b[i + 2] == BACKTICK ==> later_tick(b, i + 2))
        }
}

/// No newline lies before the end of the line starting at `s`.
proof fn lemma_line_end_no_nl(b: Seq<u8>, s: int, t: int)
    requires
        0 <= s <= t < line_end(b, s),
    ensures
        t < b.len(),
        b[t] != NL,
    decreases b.len() - s,
{
    if s < b.len() && b[s] != NL && s < t {
        lemma_line_end_no_nl(b, s + 1, t);
    }
}

proof fn lemma_no_opening_fence(b: Seq<u8>, s: int)
    requires
        no_fence_openers(b),
        0 <= s,
    ensures
        opening_fence(b, s, line_end(b, s)) is None,
{
    let e = line_end(b, s);
    let indent = run_len(b, s, e, SP);
    let p = s + indent;
    lemma_run_len(b, s, e, SP);
    if !(indent > 3 || p >= e) {
        let m = b[p];
        let n = run_len(b, p, e, m);
        lemma_run_len(b, p, e, m);
        if (m == BACKTICK || m == TILDE) && n >= 3 {
            reveal_with_fuel(run_len, 4);
            lemma_line_end_no_nl(b, s, p);
            assert(b[p] == m && b[p + 1] == m && b[p + 2] == m);
            assert(0 <= p && p + 2 < b.len());
            if m == BACKTICK {
                assert(later_tick(b, p + 2));
                let (k, j) = choose|k: int, j: int|
                    #![trigger b[k], b[j]]
                    p + 2 < k < j < b.len() && b[k] != BACKTICK && b[j] == BACKTICK
                        && forall|t: int| p + 2 < t <= j ==> #[trigger] b[t] != NL;
                lemma_run_ends(b, p, e, BACKTICK, k);
                assert forall|t: int| s <= t <= j implies #[trigger] b[t] != NL by {
                    if t <= p {
                        lemma_line_end_no_nl(b, s, t);
                    }
                }
                lemma_line_reaches(b, s, j);
                assert(p + n <= j < e);
                assert(has_byte(b, p + n, e, BACKTICK));
            }
        }
    }
}

/// A run of `m` from `s` stops at or before any later byte other than `m`.
proof fn lemma_run_ends(b: Seq<u8>, s: int, e: int, m: u8, k: int)
    requires
        0 <= s < k < b.len(),
        b[k] != m,
    ensures
        s + run_len(b, s, e, m) <= k,
    decreases e - s,
{
    if !(s < 0 || s >= e || s >= b.len() || b[s] != m) {
        if s + 1 < k {
            lemma_run_ends(b, s + 1, e, m, k);
        }
    }
}

/// A position reached from `s` without passing a newline lies before the
/// end of the line.
proof fn lemma_line_reaches(b: Seq<u8>, s: int, j: int)
    requires
        0 <= s <= j < b.len(),
        forall|t: int| s <= t <= j ==> #[trigger] b[t] != NL,
    ensures
        j < line_end(b, s),
    decreases j - s,
{
    if s < j {
        lemma_line_reaches(b, s + 1, j);
    } else {
        lemma_line_end_ge(b, s + 1);
    }
}

proof fn lemma_line_end_ge(b: Seq<u8>, s: int)
    requires
        0 <= s <= b.len(),
    ensures
        s <= line_end(b, s) <= b.len(),
    decreases b.len() - s,
{
    if s < b.len() && b[s] != NL {
        lemma_line_end_ge(b, s + 1);
    }
}

proof fn lemma_scan_stays_outside(b: Seq<u8>, ls: int, end: int, st: FenceState)
    requires
        no_fence_openers(b),
        st.block is None,
    ensures
        fence_scan(b, ls, end, st).block is None,
    decreases end - ls,
{
    if !(ls < 0 || ls >= end) {
        let le = line_end(b, ls);
        lemma_no_opening_fence(b, ls);
        let st1 = line_state(b, ls, le, end, st);
        if !(le >= end || le < ls) {
            lemma_scan_stays_outside(b, le + 1, end, FenceState { block: None, inline_open: None });
        }
    }
}

/// What holds of a text holds of each of its suffixes.
proof fn lemma_suffix_no_fence_openers(b: Seq<u8>, c: int)
    requires
        no_fence_openers(b),
        0 <= c <= b.len(),
    ensures
        no_fence_openers(b.subrange(c, b.len() as int)),
{
    let r = b.subrange(c, b.len() as int);
    assert forall|i: int| 0 <= i && i + 2 < r.len() implies {
        &&& !(#[trigger] r[i] == TILDE && r[i + 1] == TILDE && r[i + 2] == TILDE)
        &&& (r[i] == BACKTICK && r[i + 1] == BACKTICK && r[i + 2] == BACKTICK ==> later_tick(r, i + 2))
    } by {
        assert(r[i] == b[c + i] && r[i + 1] == b[c + i + 1] && r[i + 2] == b[c + i + 2]);
        if r[i] == BACKTICK && r[i + 1] == BACKTICK && r[i + 2] == BACKTICK {
            assert(b[c + i] == BACKTICK && b[c + i + 1] == BACKTICK && b[c + i + 2] == BACKTICK);
            assert(later_tick(b, c + i + 2));
            let (k, j) = choose|k: int, j: int|
                #![trigger b[k], b[j]]
                c + i + 2 < k < j < b.len() && b[k] != BACKTICK && b[j] == BACKTICK
                    && forall|t: int| c + i + 2 < t <= j ==> #[trigger] b[t] != NL;
            assert(r[k - c] == b[k] && r[j - c] == b[j]);
            assert forall|t: int| i + 2 < t <= j - c implies #[trigger] r[t] != NL by {
                assert(r[t] == b[c + t]);
            }
            assert(later_tick(r, i + 2));
        }
    }
}

/// On a text without fence openers no chunk carries a fence marker: each is
/// its piece of the text, non-empty.
proof fn lemma_chunks_are_pieces(b: Seq<u8>, cursor: int, entry: FenceState, limit: int, escapes: bool)
    requires
        0 <= cursor <= b.len(),
        valid_utf8(b.subrange(cursor, b.len() as int)),
        limit >= 0,
        no_fence_openers(b),
        entry.block is None,
    ensures
        fenced_chunks(b, cursor, entry, limit, escapes) == fenced_pieces(b, cursor, entry, limit, escapes),
        forall|k: int| 0 <= k < fenced_pieces(b, cursor, entry, limit, escapes).len()
            ==> (#[trigger] fenced_pieces(b, cursor, entry, limit, escapes)[k]).len() > 0,
    decreases b.len() - cursor,
{
    let r = b.subrange(cursor, b.len() as int);
    if cursor < b.len() {
        lemma_chunk_step(r, entry, limit, escapes);
        let step = chunk_step(r, entry, limit, escapes);
        let next = cursor + step;
        let next_entry = fence_at(b, next, FenceState::outside());
        lemma_scan_stays_outside(b, 0, if next < b.len() { next } else { b.len() as int }, FenceState::outside());
        valid_utf8_split(r, step);
        assert(r.subrange(step, r.len() as int) =~= b.subrange(next, b.len() as int));
        lemma_chunks_are_pieces(b, next, next_entry, limit, escapes);
        lemma_suffix_no_fence_openers(b, cursor);
        let budget = reopen_budget(limit, entry);
        let raw = boundary_at(r, budget);
        let candidate = if escapes { escape_safe(r, raw) } else { raw };
        lemma_scan_stays_outside(r, 0, if candidate < r.len() { candidate } else { r.len() as int }, entry);
        if let Some(q) = safe_before(r, candidate, entry) {
            let safe = if escapes { escape_safe(r, q) } else { q };
            lemma_scan_stays_outside(r, 0, if safe < r.len() { safe } else { r.len() as int }, entry);
        }
        let piece = decode_utf8(r.subrange(0, step));
        assert(encode_utf8(piece) == r.subrange(0, step)) by {
            broadcast use vstd::utf8::group_utf8_lib;
        }
        assert(chunk_head(r, entry, limit, escapes) =~= piece);
        let rest_pieces = fenced_pieces(b, next, next_entry, limit, escapes);
        assert(fenced_pieces(b, cursor, entry, limit, escapes) == seq![piece] + rest_pieces);
        assert forall|k: int| 0 <= k < fenced_pieces(b, cursor, entry, limit, escapes).len()
            implies (#[trigger] fenced_pieces(b, cursor, entry, limit, escapes)[k]).len() > 0 by {
            if k > 0 {
                assert(fenced_pieces(b, cursor, entry, limit, escapes)[k] == rest_pieces[k - 1]);
            }
        }
    }
}

/// On a text that is not blank and in which no position begins a block
/// fence (see [`no_fence_openers`]; a chunk may begin at any position, not
/// only at the start of a line), the markdown splitter's chunks, joined,
/// are the text, and each is non-empty and within a limit of at least four
/// bytes.
pub proof fn law_markdown_split_without_fences(text: &str, limit: int)
    requires
        limit >= 4,
        !is_blank(text@),
        no_fence_openers(text.spec_bytes()),
    ensures
        fenced_split(text, limit, false).flatten() == text@,
        forall|k: int| 0 <= k < fenced_split(text, limit, false).len() ==> {
            let c = #[trigger] fenced_split(text, limit, false)[k];
            &&& c.len() > 0
            &&& encode_utf8(c).len() <= limit
        },
{
    broadcast use Seq::lemma_flatten_singleton;

    let b = text.spec_bytes();
    if b.len() <= limit {
        assert(text@.len() > 0) by {
            if text@.len() == 0 {
                assert(is_blank(text@));
            }
        }
    } else {
        assert(b.subrange(0, b.len() as int) =~= b);
        law_fenced_split_reassembles(text, limit, false);
        law_fenced_chunks_fit(text, limit, false);
        lemma_chunks_are_pieces(b, 0, FenceState::outside(), limit, false);
        let cs = fenced_chunks(b, 0, FenceState::outside(), limit, false);
        assert forall|k: int| 0 <= k < cs.len() implies encode_utf8(#[trigger] cs[k]).len() <= limit by {
            assert(framed_fit(cs[k], fenced_pieces(b, 0, FenceState::outside(), limit, false)[k], limit, 0));
        }
    }
}

/// The UTF-8 bytes of `c` do not end in an odd run of backslashes: no
/// backslash at its end is left without the character it escapes.
pub open spec fn even_tail(c: Seq<char>) -> bool {
    backslashes_before(encode_utf8(c), encode_utf8(c).len() as int) % 2 == 0
}

/// The backslashes before `i` are the same in a prefix holding `i`.
proof fn lemma_backslashes_prefix(b: Seq<u8>, n: int, i: int)
    requires
        0 <= i <= n <= b.len(),
    ensures
        backslashes_before(b.subrange(0, n), i) == backslashes_before(b, i),
    decreases i,
{
    if i > 0 {
        lemma_backslashes_prefix(b, n, i - 1);
    }
}

/// Backslashes before `c + i` in `b`, against those before `i` in the
/// suffix from `c`: the same, unless the suffix's first `i` bytes are all
/// backslashes, when the run goes on before `c`.
proof fn lemma_backslashes_shift(b: Seq<u8>, c: int, i: int)
    requires
        0 <= c,
        0 <= i,
        c + i <= b.len(),
    ensures
        backslashes_before(b, c + i) == if backslashes_before(b.subrange(c, b.len() as int), i) == i {
            i + backslashes_before(b, c)
        } else {
            backslashes_before(b.subrange(c, b.len() as int), i)
        },
    decreases i,
{
    let r = b.subrange(c, b.len() as int);
    if i > 0 {
        lemma_backslashes_shift(b, c, i - 1);
        assert(r[i - 1] == b[c + i - 1]);
    }
}

/// No position between the one [`safe_before`] finds and where it started
/// is a safe cut.
proof fn lemma_safe_before_skips(r: Seq<u8>, pos: int, entry: FenceState, q: int, k: int)
    requires
        safe_before(r, pos, entry) == Some(q),
        q < k < pos,
    ensures
        !(is_char_boundary(r, k) && fence_at(r, k, entry).inline_open is None),
    decreases pos,
{
    if pos > 0 && k < pos - 1 {
        if !(is_char_boundary(r, pos - 1) && fence_at(r, pos - 1, entry).inline_open is None) {
            lemma_safe_before_skips(r, pos - 1, entry, q, k);
        }
    }
}

/// When escape-aware splitting finds no cut with a budget of at least four
/// bytes and takes one character instead, that character is no backslash:
/// a leading backslash would leave a safe cut right after it.
proof fn lemma_forced_not_backslash(r: Seq<u8>, entry: FenceState, limit: int)
    requires
        valid_utf8(r),
        no_fence_openers(r),
        entry.block is None,
        limit >= 4,
        !rest_fits(r, entry, limit),
        fenced_cut(r, reopen_budget(limit, entry), entry, true).0 == 0,
    ensures
        r[0] != BACKSLASH,
{
    assert(encode_utf8(open_marker(entry.block)) =~= Seq::<u8>::empty());
    assert(reopen_budget(limit, entry) == limit);
    let raw = boundary_at(r, limit);
    lemma_boundary_at(r, limit);
    lemma_boundary_at_positive(r, limit);
    let candidate = escape_safe(r, raw);
    lemma_escape_safe(r, raw);
    if r[0] == BACKSLASH {
        if raw == 1 {
            assert(backslashes_before(r, 1) == 1) by {
                reveal_with_fuel(backslashes_before, 2);
            }
            lemma_char_ceil(r, 2);
        }
        assert(candidate >= 2);
        let st = fence_at(r, candidate, entry);
        assert(st.inline_open is Some);
        match safe_before(r, candidate, entry) {
            Some(q) => {
                assert(escape_safe(r, q) == 0);
                assert(q == 0) by {
                    if q != 0 {
                        lemma_safe_before_pos(r, candidate, entry);
                        lemma_char_ceil(r, q + 1);
                    }
                }
                lemma_safe_before_skips(r, candidate, entry, 0, 1);
                lemma_safe_before_pos(r, candidate, entry);
                assert(fence_at(r, 0, entry) == entry);
                lemma_ascii_byte_ends_char(r, 0);
                lemma_no_opening_fence(r, 0);
                let le = line_end(r, 0);
                lemma_line_end_ge(r, 1);
                assert(le >= 1);
                assert(inline_after(r, 1, 1, None) == None::<usize>);
                assert(inline_after(r, 0, 1, None) == None::<usize>);
                assert(fence_at(r, 1, entry).inline_open is None);
            },
            None => {},
        }
    }
}

/// What [`safe_before`] finds is a safe cut before where it started.
proof fn lemma_safe_before_pos(r: Seq<u8>, pos: int, entry: FenceState)
    ensures
        safe_before(r, pos, entry) matches Some(q) ==> 0 <= q < pos && is_char_boundary(r, q)
            && fence_at(r, q, entry).inline_open is None,
    decreases pos,
{
    if pos > 0 && !(is_char_boundary(r, pos - 1) && fence_at(r, pos - 1, entry).inline_open is None) {
        lemma_safe_before_pos(r, pos - 1, entry);
    }
}

/// A chunk that escape-aware splitting cuts before the end of the rest `r`,
/// with a limit of at least four bytes and outside block fences, ends after
/// an even run of backslashes.
proof fn lemma_escape_step_even(r: Seq<u8>, entry: FenceState, limit: int)
    requires
        valid_utf8(r),
        r.len() > 0,
        limit >= 4,
        no_fence_openers(r),
        entry.block is None,
        chunk_step(r, entry, limit, true) < r.len(),
    ensures
        backslashes_before(r, chunk_step(r, entry, limit, true)) % 2 == 0,
{
    let step = chunk_step(r, entry, limit, true);
    lemma_chunk_step(r, entry, limit, true);
    let budget = reopen_budget(limit, entry);
    let cut = fenced_cut(r, budget, entry, true).0;
    if cut == 0 {
        lemma_forced_not_backslash(r, entry, limit);
        lemma_char_ceil(r, 1);
        if step > 1 {
            lemma_char_ceil_first(r, 1, step - 1);
            vstd::utf8::is_char_boundary_iff_not_is_continuation_byte(r, step - 1);
        }
    } else {
        let raw = boundary_at(r, budget);
        lemma_boundary_at(r, budget);
        lemma_escape_safe(r, raw);
        let candidate = escape_safe(r, raw);
        lemma_safe_before(r, candidate, entry);
        if fence_at(r, candidate, entry).inline_open is None {
            lemma_escape_safe_even(r, raw);
        } else {
            match safe_before(r, candidate, entry) {
                Some(q) => {
                    lemma_escape_safe_even(r, q);
                },
                None => {
                    lemma_escape_safe_even(r, raw);
                },
            }
        }
    }
}

/// From a cut after an even run of backslashes on, every piece of a text
/// that ends after an even run ends after an even run too.
proof fn lemma_escape_chunks_even(b: Seq<u8>, cursor: int, entry: FenceState, limit: int)
    requires
        0 <= cursor <= b.len(),
        valid_utf8(b.subrange(cursor, b.len() as int)),
        limit >= 4,
        no_fence_openers(b),
        entry.block is None,
        backslashes_before(b, cursor) % 2 == 0,
        backslashes_before(b, b.len() as int) % 2 == 0,
    ensures
        forall|k: int| 0 <= k < fenced_pieces(b, cursor, entry, limit, true).len()
            ==> even_tail(#[trigger] fenced_pieces(b, cursor, entry, limit, true)[k]),
    decreases b.len() - cursor,
{
    let r = b.subrange(cursor, b.len() as int);
    if cursor < b.len() {
        lemma_chunk_step(r, entry, limit, true);
        let step = chunk_step(r, entry, limit, true);
        let next = cursor + step;
        let next_entry = fence_at(b, next, FenceState::outside());
        lemma_scan_stays_outside(b, 0, if next < b.len() { next } else { b.len() as int }, FenceState::outside());
        lemma_suffix_no_fence_openers(b, cursor);
        valid_utf8_split(r, step);
        assert(r.subrange(step, r.len() as int) =~= b.subrange(next, b.len() as int));
        let piece = decode_utf8(r.subrange(0, step));
        assert(encode_utf8(piece) == r.subrange(0, step)) by {
            broadcast use vstd::utf8::group_utf8_lib;
        }
        lemma_backslashes_prefix(r, step, step);
        lemma_backslashes_shift(b, cursor, step);
        if step < r.len() {
            lemma_escape_step_even(r, entry, limit);
        }
        assert(even_tail(piece));
        lemma_escape_chunks_even(b, next, next_entry, limit);
        let pieces = fenced_pieces(b, cursor, entry, limit, true);
        let rest = fenced_pieces(b, next, next_entry, limit, true);
        assert(pieces == seq![piece] + rest);
        assert forall|k: int| 0 <= k < pieces.len() implies even_tail(#[trigger] pieces[k]) by {
            if k > 0 {
                assert(pieces[k] == rest[k - 1]);
            }
        }
    }
}

/// A Telegram MarkdownV2 chunk never ends in an odd run of backslashes, so
/// never parts a backslash from the character it escapes, when the limit is
/// at least four bytes, no position of the text begins a block fence (see
/// [`no_fence_openers`]) and the text itself does not end in an odd run.
pub proof fn law_telegram_chunks_keep_escapes(text: &str, limit: int)
    requires
        limit >= 4,
        no_fence_openers(text.spec_bytes()),
        even_tail(text@),
    ensures
        forall|k: int| 0 <= k < fenced_split(text, limit, true).len()
            ==> even_tail(#[trigger] fenced_split(text, limit, true)[k]),
{
    let b = text.spec_bytes();
    if !is_blank(text@) && b.len() > limit {
        assert(b.subrange(0, b.len() as int) =~= b);
        lemma_chunks_are_pieces(b, 0, FenceState::outside(), limit, true);
        lemma_escape_chunks_even(b, 0, FenceState::outside(), limit);
    }
}

impl MarkdownSplitter {
    pub fn new(provider_limit: usize, hard_limit: Option<usize>) -> (r: Self)
        ensures
            r.provider_limit == provider_limit,
            r.hard_limit == hard_limit,
    {
        MarkdownSplitter { provider_limit, hard_limit }
    }

    /// Splits markdown `text` into chunks for sending.
    pub fn split(&self, text: &str) -> (chunks: Vec<String>)
        ensures
            views_of(chunks@) == fenced_split(text, self.provider_limit as int, false),
    {
        split_with_fences(text, self.provider_limit, false)
    }
}

/// Telegram MarkdownV2 splitter: the markdown rules plus never cutting
/// between a `\` and the character it escapes.
pub struct TelegramMarkdownV2Splitter {
    pub provider_limit: usize,
    pub hard_limit: Option<usize>,
}

impl TelegramMarkdownV2Splitter {
    pub fn new(provider_limit: usize, hard_limit: Option<usize>) -> (r: Self)
        ensures
            r.provider_limit == provider_limit,
            r.hard_limit == hard_limit,
    {
        TelegramMarkdownV2Splitter { provider_limit, hard_limit }
    }

    /// Splits MarkdownV2 `text` into chunks for sending.
    pub fn split(&self, text: &str) -> (chunks: Vec<String>)
        ensures
            views_of(chunks@) == fenced_split(text, self.provider_limit as int, true),
    {
        split_with_fences(text, self.provider_limit, true)
    }
}

fn split_with_fences(text: &str, provider_limit: usize, escapes: bool) -> (chunks: Vec<String>)
    ensures
        views_of(chunks@) == fenced_split(text, provider_limit as int, escapes),
{
    if is_blank_str(text) {
        let chunks: Vec<String> = Vec::new();
        assert(views_of(chunks@) =~= Seq::<Seq<char>>::empty());
        return chunks;
    }
    if byte_len(text) <= provider_limit {
        let mut chunks: Vec<String> = Vec::new();
        chunks.push(text.to_owned());
        assert(views_of(chunks@) =~= seq![text@]);
        return chunks;
    }
    if escapes {
        split_markdown_v2_aware(text, provider_limit)
    } else {
        split_markdown_aware(text, provider_limit)
    }
}


/// Signal splitter: markdown chunks as the [`MarkdownSplitter`] cuts them,
/// each rendered for Signal on its own, so that every chunk carries its own
/// ranges (a style that crosses a cut is lost in both chunks).
pub struct SignalSplitter {
    pub inner: MarkdownSplitter,
}

impl SignalSplitter {
    pub fn new(inner: MarkdownSplitter) -> (r: Self)
        ensures
            r.inner == inner,
    {
        SignalSplitter { inner }
    }

    /// Splits markdown `raw_markdown` and renders each chunk for Signal.
    pub fn split(&self, raw_markdown: &str) -> (out: Vec<crate::markdown::SignalText>)
        ensures
            out@.len() == fenced_split(raw_markdown, self.inner.provider_limit as int, false).len(),
            forall|i: int| 0 <= i < out@.len() ==> {
                let chunk = #[trigger] fenced_split(raw_markdown, self.inner.provider_limit as int, false)[i];
                &&& out@[i].body@ == crate::markdown::signal_body(crate::markdown::markdown_events_of(chunk))
                &&& out@[i].ranges@ == crate::markdown::signal_ranges(crate::markdown::markdown_events_of(chunk))
            },
    {
        let chunks = self.inner.split(raw_markdown);
        let ghost cv = views_of(chunks@);
        let mut out: Vec<crate::markdown::SignalText> = Vec::new();
        let mut i: usize = 0;
        while i < chunks.len()
            invariant
                i <= chunks@.len(),
                cv == views_of(chunks@),
                cv == fenced_split(raw_markdown, self.inner.provider_limit as int, false),
                out@.len() == i,
                forall|j: int| 0 <= j < i ==> {
                    &&& (#[trigger] out@[j]).body@ == crate::markdown::signal_body(crate::markdown::markdown_events_of(cv[j]))
                    &&& out@[j].ranges@ == crate::markdown::signal_ranges(crate::markdown::markdown_events_of(cv[j]))
                },
            decreases chunks@.len() - i,
        {
            let t = crate::markdown::to_signal(chunks[i].as_str());
            assert(cv[i as int] == chunks@[i as int]@);
            out.push(t);
            i = i + 1;
        }
        out
    }
}

} // verus!
