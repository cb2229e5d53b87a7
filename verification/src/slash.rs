//! Slash-invocation parser. Resolving a name to a skill, a command or an
//! agent happens in the caller, which has the registries.

use vstd::prelude::*;
use crate::text::{
    ascii_lower, chars_of, is_white, is_whitespace, push_char, string_from_chars, to_ascii_lower,
    views_of,
};

verus! {

/// A `/name rest` or `@name rest` invocation. `name` is lowercased; `rest`
/// is verbatim, internal whitespace included.
#[derive(Debug, Clone, PartialEq)]
pub enum ParsedInvocation {
    Slash { name: String, rest: String },
    At { name: String, rest: String },
}

/// An ASCII letter or digit.
pub open spec fn is_ascii_alnum(c: char) -> bool {
    ('a' <= c <= 'z') || ('A' <= c <= 'Z') || ('0' <= c <= '9')
}

/// `[a-z0-9][a-z0-9-_]*`, letters in either case.
pub open spec fn valid_name(s: Seq<char>) -> bool {
    &&& s.len() > 0
    &&& is_ascii_alnum(s[0])
    &&& forall|i: int| 1 <= i < s.len() ==> is_ascii_alnum(#[trigger] s[i]) || s[i] == '-' || s[i] == '_'
}

/// Index of the first whitespace character of `s` at or after `i`, or its
/// length when there is none.
pub open spec fn first_white_from(s: Seq<char>, i: int) -> int
    decreases s.len() - i,
{
    if i >= s.len() {
        s.len() as int
    } else if is_white(s[i]) {
        i
    } else {
        first_white_from(s, i + 1)
    }
}

/// What [`parse`] finds in `s`: `None` unless `s` starts with `/` or `@`
/// followed by a valid name that runs to the first whitespace; otherwise
/// whether it is a slash invocation, the lowercased name and the rest after
/// exactly one whitespace separator.
pub open spec fn parse_view(s: Seq<char>) -> Option<(bool, Seq<char>, Seq<char>)> {
    if s.len() == 0 || (s[0] != '/' && s[0] != '@') {
        None
    } else {
        let body = s.drop_first();
        let k = first_white_from(body, 0);
        let raw = body.subrange(0, k);
        if !valid_name(raw) {
            None
        } else {
            let rest = if k >= body.len() {
                Seq::<char>::empty()
            } else {
                body.subrange(k + 1, body.len() as int)
            };
            Some((s[0] == '/', raw.map_values(|c: char| ascii_lower(c)), rest))
        }
    }
}

fn is_alnum(c: char) -> (r: bool)
    ensures
        r == is_ascii_alnum(c),
{
    ('a' <= c && c <= 'z') || ('A' <= c && c <= 'Z') || ('0' <= c && c <= '9')
}

/// Whether `v[lo..hi]` is a valid invocation name.
pub fn is_valid_name(v: &Vec<char>, lo: usize, hi: usize) -> (r: bool)
    requires
        lo <= hi <= v@.len(),
    ensures
        r == valid_name(v@.subrange(lo as int, hi as int)),
{
    let ghost s = v@.subrange(lo as int, hi as int);
    if lo == hi {
        return false;
    }
    if !is_alnum(v[lo]) {
        return false;
    }
    let mut i = lo + 1;
    while i < hi
        invariant
            lo < i <= hi <= v@.len(),
            s == v@.subrange(lo as int, hi as int),
            forall|j: int|
                1 <= j < i - lo ==> is_ascii_alnum(#[trigger] s[j]) || s[j] == '-' || s[j] == '_',
        decreases hi - i,
    {
        let c = v[i];
        if !(is_alnum(c) || c == '-' || c == '_') {
            assert(s[i - lo] == c);
            return false;
        }
        i = i + 1;
    }
    true
}

/// Parses a `/name rest` or `@name rest` invocation. Returns `None` when the
/// name holds characters outside `[a-z0-9-_]`, which is what lets
/// `/path/to/file` and `@somebody's note` fall through as plain text.
pub fn parse(content: &str) -> (r: Option<ParsedInvocation>)
    ensures
        match r {
            None => parse_view(content@) is None,
            Some(ParsedInvocation::Slash { name, rest }) => parse_view(content@) == Some(
                (true, name@, rest@),
            ),
            Some(ParsedInvocation::At { name, rest }) => parse_view(content@) == Some(
                (false, name@, rest@),
            ),
        },
{
    let v = chars_of(content);
    if v.len() == 0 {
        return None;
    }
    let prefix = v[0];
    if prefix != '/' && prefix != '@' {
        return None;
    }
    let ghost body = v@.drop_first();
    let mut k: usize = 1;
    while k < v.len() && !is_whitespace(v[k])
        invariant
            1 <= k <= v@.len(),
            body == v@.drop_first(),
            first_white_from(body, k - 1) == first_white_from(body, 0),
        decreases v@.len() - k,
    {
        k = k + 1;
    }
    assert(v@.subrange(1, k as int) =~= body.subrange(0, k - 1));
    if !is_valid_name(&v, 1, k) {
        return None;
    }
    let mut name = String::new();
    let mut i: usize = 1;
    while i < k
        invariant
            1 <= i <= k <= v@.len(),
            name@ =~= v@.subrange(1, i as int).map_values(|c: char| ascii_lower(c)),
        decreases k - i,
    {
        push_char(&mut name, to_ascii_lower(v[i]));
        i = i + 1;
    }
    let rest = if k == v.len() {
        String::new()
    } else {
        string_from_chars(&v, k + 1, v.len())
    };
    proof {
        if k < v@.len() {
            assert(v@.subrange(k + 1, v@.len() as int) =~= body.subrange(k as int, body.len() as int));
        } else {
            assert(rest@ =~= Seq::<char>::empty());
        }
    }
    if prefix == '/' {
        Some(ParsedInvocation::Slash { name, rest })
    } else {
        Some(ParsedInvocation::At { name, rest })
    }
}

/// The words that shell splitting makes of `s` from index `i` on, in quote
/// state `single`/`double`, with the word `cur` begun and the words `out`
/// already made: quotes of one kind toggle outside the other kind, a
/// backslash inside double quotes takes the next character literally,
/// whitespace outside quotes ends a non-empty word, and an unbalanced quote
/// runs to the end.
pub open spec fn shell_words(
    s: Seq<char>,
    i: int,
    single: bool,
    double: bool,
    cur: Seq<char>,
    out: Seq<Seq<char>>,
) -> Seq<Seq<char>>
    decreases s.len() - i,
{
    if i < 0 || i >= s.len() {
        if cur.len() > 0 {
            out.push(cur)
        } else {
            out
        }
    } else {
        let c = s[i];
        if c == '\'' && !double {
            shell_words(s, i + 1, !single, double, cur, out)
        } else if c == '"' && !single {
            shell_words(s, i + 1, single, !double, cur, out)
        } else if c == '\\' && double {
            if i + 1 < s.len() {
                shell_words(s, i + 2, single, double, cur.push(s[i + 1]), out)
            } else {
                shell_words(s, i + 1, single, double, cur, out)
            }
        } else if is_white(c) && !single && !double {
            if cur.len() > 0 {
                shell_words(s, i + 1, single, double, Seq::empty(), out.push(cur))
            } else {
                shell_words(s, i + 1, single, double, cur, out)
            }
        } else {
            shell_words(s, i + 1, single, double, cur.push(c), out)
        }
    }
}

/// POSIX-ish shell split. Honors `"..."` and `'...'`; an unbalanced open
/// quote runs to the end of the input rather than failing. No word is
/// empty.
pub fn shell_split(input: &str) -> (out: Vec<String>)
    ensures
        views_of(out@) == shell_words(input@, 0, false, false, Seq::empty(), Seq::empty()),
        forall|k: int| 0 <= k < out@.len() ==> (#[trigger] out@[k])@.len() > 0,
{
    let v = chars_of(input);
    let mut out: Vec<String> = Vec::new();
    let mut current = String::new();
    let mut in_single = false;
    let mut in_double = false;
    let mut i: usize = 0;
    assert(views_of(out@) =~= Seq::<Seq<char>>::empty());
    assert(current@ =~= Seq::<char>::empty());
    while i < v.len()
        invariant
            i <= v@.len(),
            v@ == input@,
            shell_words(v@, i as int, in_single, in_double, current@, views_of(out@))
                == shell_words(v@, 0, false, false, Seq::empty(), Seq::empty()),
            forall|k: int| 0 <= k < out@.len() ==> (#[trigger] out@[k])@.len() > 0,
        decreases v@.len() - i,
    {
        let c = v[i];
        if c == '\'' && !in_double {
            in_single = !in_single;
            i = i + 1;
        } else if c == '"' && !in_single {
            in_double = !in_double;
            i = i + 1;
        } else if c == '\\' && in_double {
            if i + 1 < v.len() {
                push_char(&mut current, v[i + 1]);
                i = i + 2;
            } else {
                i = i + 1;
            }
        } else if is_whitespace(c) && !in_single && !in_double {
            if !current.as_str().is_empty() {
                proof {
                    assert(views_of(out@.push(current)) =~= views_of(out@).push(current@));
                    if current@.len() == 0 {
                        assert(current@ =~= Seq::<char>::empty());
                    }
                }
                out.push(current);
                current = String::new();
            }
            proof {
                if current@.len() == 0 {
                    assert(current@ =~= Seq::<char>::empty());
                }
            }
            i = i + 1;
        } else {
            push_char(&mut current, c);
            i = i + 1;
        }
    }
    if !current.as_str().is_empty() {
        proof {
            assert(views_of(out@.push(current)) =~= views_of(out@).push(current@));
        }
        out.push(current);
    }
    out
}

} // verus!
