//! Skill prompt rendering: placeholder detection, `$ARGUMENTS` / `$N` /
//! `$name` interpolation and attribute escaping.

use vstd::prelude::*;
use crate::slash::{shell_split, shell_words};
use crate::text::{chars_of, push_char, string_from_chars, views_of};

verus! {

/// `s` with each occurrence of the non-empty `pat`, found left to right
/// without overlap, replaced by `rep` (std's `str::replace`).
pub open spec fn replaced(s: Seq<char>, pat: Seq<char>, rep: Seq<char>) -> Seq<char>
    decreases s.len(),
{
    if pat.len() == 0 || s.len() < pat.len() {
        s
    } else if s.subrange(0, pat.len() as int) == pat {
        rep + replaced(s.subrange(pat.len() as int, s.len() as int), pat, rep)
    } else {
        seq![s[0]] + replaced(s.drop_first(), pat, rep)
    }
}

/// Whether `pat` occurs in `s`.
pub open spec fn occurs(s: Seq<char>, pat: Seq<char>) -> bool {
    exists|i: int| 0 <= i <= s.len() - pat.len() && #[trigger] s.subrange(i, i + pat.len()) == pat
}

pub open spec fn is_digit(c: char) -> bool {
    '0' <= c <= '9'
}

/// Number of ASCII digits of `s` in a row from index `i`.
pub open spec fn digit_run(s: Seq<char>, i: int) -> int
    decreases s.len() - i,
{
    if i < 0 || i >= s.len() || !is_digit(s[i]) {
        0
    } else {
        1 + digit_run(s, i + 1)
    }
}

/// `s` without any `$` that is followed by a digit, together with the
/// digits that follow it.
pub open spec fn stripped_numeric(s: Seq<char>) -> Seq<char>
    decreases s.len(),
{
    if s.len() == 0 {
        s
    } else if s[0] == '$' && s.len() > 1 && is_digit(s[1]) {
        let n = digit_run(s, 1);
        if n <= 0 || 1 + n > s.len() {
            s
        } else {
            stripped_numeric(s.subrange(1 + n, s.len() as int))
        }
    } else {
        seq![s[0]] + stripped_numeric(s.drop_first())
    }
}

/// Decimal digits of `n`.
pub open spec fn decimal(n: nat) -> Seq<char>
    decreases n,
{
    if n < 10 {
        seq![(('0' as u32) + n) as char]
    } else {
        decimal(n / 10).push((('0' as u32) + (n % 10)) as char)
    }
}

/// The decimal digits of a number are one or more ASCII digits.
pub proof fn lemma_decimal_digits(n: nat)
    ensures
        decimal(n).len() > 0,
        forall|j: int| 0 <= j < decimal(n).len() ==> '0' <= #[trigger] decimal(n)[j] <= '9',
    decreases n,
{
    if n >= 10 {
        lemma_decimal_digits(n / 10);
    }
}

/// `"$"` followed by `name`.
pub open spec fn dollar(name: Seq<char>) -> Seq<char> {
    seq!['$'] + name
}

/// The text after `$N` placeholders have been replaced, for `N` from `n`
/// down to 1, by the `N`-th token; largest first, so that `$10` is not
/// partly taken by `$1`.
pub open spec fn positional_replaced(out: Seq<char>, tokens: Seq<Seq<char>>, n: int) -> Seq<char>
    decreases n,
{
    if n <= 0 || n > tokens.len() {
        out
    } else {
        positional_replaced(
            replaced(out, dollar(decimal(n as nat)), tokens[n - 1]),
            tokens,
            n - 1,
        )
    }
}

/// The text after `$name` placeholders of the declared names from index
/// `idx` on have been replaced, in declared order, by the token at the
/// same position (empty when there are fewer tokens).
pub open spec fn named_replaced(
    out: Seq<char>,
    names: Seq<Seq<char>>,
    tokens: Seq<Seq<char>>,
    idx: int,
) -> Seq<char>
    decreases names.len() - idx,
{
    if idx < 0 || idx >= names.len() {
        out
    } else {
        let value = if idx < tokens.len() {
            tokens[idx]
        } else {
            Seq::<char>::empty()
        };
        named_replaced(replaced(out, dollar(names[idx]), value), names, tokens, idx + 1)
    }
}

/// The interpolated body: `$ARGUMENTS` becomes the raw prompt; `$N` and
/// `$name` become the prompt's shell tokens by position (empty when
/// undersupplied), leftover `$N` are removed, and named slots follow the
/// declared order.
pub open spec fn interpolated(body: Seq<char>, prompt: Seq<char>, names: Seq<Seq<char>>) -> Seq<
    char,
> {
    let tokens = shell_words(prompt, 0, false, false, Seq::empty(), Seq::empty());
    let with_args = replaced(body, "$ARGUMENTS"@, prompt);
    let with_positional = positional_replaced(with_args, tokens, tokens.len() as int);
    named_replaced(stripped_numeric(with_positional), names, tokens, 0)
}

/// The kinds of placeholder a skill body holds.
#[derive(Debug, Clone, Copy, PartialEq, Eq, Structural)]
pub enum Placeholder {
    Arguments,
    Numeric,
    Named,
}

/// A set of placeholder kinds.
#[derive(Debug, Clone, Copy, PartialEq, Eq, Structural)]
pub struct PlaceholderSet {
    pub arguments: bool,
    pub numeric: bool,
    pub named: bool,
}

impl PlaceholderSet {
    /// The empty set.
    pub fn new() -> (r: Self)
        ensures
            !r.arguments && !r.numeric && !r.named,
    {
        PlaceholderSet { arguments: false, numeric: false, named: false }
    }

    pub open spec fn has(self, p: Placeholder) -> bool {
        match p {
            Placeholder::Arguments => self.arguments,
            Placeholder::Numeric => self.numeric,
            Placeholder::Named => self.named,
        }
    }

    pub fn contains(&self, p: &Placeholder) -> (r: bool)
        ensures
            r == self.has(*p),
    {
        match p {
            Placeholder::Arguments => self.arguments,
            Placeholder::Numeric => self.numeric,
            Placeholder::Named => self.named,
        }
    }

    pub fn is_empty(&self) -> (r: bool)
        ensures
            r == (!self.arguments && !self.numeric && !self.named),
    {
        !self.arguments && !self.numeric && !self.named
    }
}

fn matches_at(s: &Vec<char>, i: usize, pat: &Vec<char>) -> (r: bool)
    requires
        i <= s@.len(),
    ensures
        r == (i + pat@.len() <= s@.len() && s@.subrange(i as int, i + pat@.len()) == pat@),
{
    let n = s.len();
    if pat.len() > n - i {
        return false;
    }
    let mut k: usize = 0;
    while k < pat.len()
        invariant
            n == s@.len(),
            i + pat@.len() <= s@.len(),
            k <= pat@.len(),
            forall|j: int| 0 <= j < k ==> s@[i + j] == pat@[j],
        decreases pat@.len() - k,
    {
        if s[i + k] != pat[k] {
            assert(s@.subrange(i as int, i + pat@.len())[k as int] != pat@[k as int]);
            return false;
        }
        k = k + 1;
    }
    assert(s@.subrange(i as int, i + pat@.len()) =~= pat@);
    true
}

fn contains_chars(s: &Vec<char>, pat: &Vec<char>) -> (r: bool)
    ensures
        r == occurs(s@, pat@),
{
    if pat.len() > s.len() {
        return false;
    }
    let n = s.len();
    if pat.len() == 0 {
        assert(s@.subrange(0, 0int + pat@.len()) =~= pat@);
        return true;
    }
    let mut i: usize = 0;
    while i <= n - pat.len()
        invariant
            n == s@.len(),
            0 < pat@.len() <= s@.len(),
            i <= s@.len() - pat@.len() + 1,
            forall|j: int| 0 <= j < i ==> #[trigger] s@.subrange(j, j + pat@.len()) != pat@,
        decreases s@.len() - pat@.len() + 1 - i,
    {
        if matches_at(s, i, pat) {
            return true;
        }
        i = i + 1;
    }
    false
}

fn append_chars(out: &mut Vec<char>, v: &Vec<char>)
    ensures
        final(out)@ == old(out)@ + v@,
{
    let mut k: usize = 0;
    while k < v.len()
        invariant
            k <= v@.len(),
            out@ =~= old(out)@ + v@.subrange(0, k as int),
        decreases v@.len() - k,
    {
        out.push(v[k]);
        k = k + 1;
    }
}

/// `s` with every occurrence of the non-empty `pat` replaced by `rep`.
fn replace_chars(s: &Vec<char>, pat: &Vec<char>, rep: &Vec<char>) -> (r: Vec<char>)
    requires
        pat@.len() > 0,
    ensures
        r@ == replaced(s@, pat@, rep@),
{
    let mut out: Vec<char> = Vec::new();
    let mut i: usize = 0;
    assert(s@.subrange(0, s@.len() as int) =~= s@);
    while i < s.len()
        invariant
            pat@.len() > 0,
            i <= s@.len(),
            out@ + replaced(s@.subrange(i as int, s@.len() as int), pat@, rep@) == replaced(
                s@,
                pat@,
                rep@,
            ),
        decreases s@.len() - i,
    {
        let ghost rest = s@.subrange(i as int, s@.len() as int);
        let ghost old_out = out@;
        if matches_at(s, i, pat) {
            append_chars(&mut out, rep);
            proof {
                assert(rest.subrange(0, pat@.len() as int) =~= s@.subrange(i as int, i + pat@.len()));
                assert(rest.subrange(pat@.len() as int, rest.len() as int) =~= s@.subrange(
                    i + pat@.len(),
                    s@.len() as int,
                ));
                assert(old_out + replaced(rest, pat@, rep@) =~= out@ + replaced(
                    s@.subrange(i + pat@.len(), s@.len() as int),
                    pat@,
                    rep@,
                ));
            }
            i = i + pat.len();
        } else {
            out.push(s[i]);
            proof {
                if rest.len() >= pat@.len() {
                    assert(rest.subrange(0, pat@.len() as int) =~= s@.subrange(
                        i as int,
                        i + pat@.len(),
                    ));
                }
                assert(rest.drop_first() =~= s@.subrange(i + 1, s@.len() as int));
                assert(old_out + replaced(rest, pat@, rep@) =~= out@ + replaced(
                    s@.subrange(i + 1, s@.len() as int),
                    pat@,
                    rep@,
                ));
            }
            i = i + 1;
        }
    }
    assert(out@ + replaced(s@.subrange(i as int, s@.len() as int), pat@, rep@) =~= out@);
    out
}

fn is_digit_char(c: char) -> (r: bool)
    ensures
        r == is_digit(c),
{
    '0' <= c && c <= '9'
}

/// Decimal rendering of `n`.
pub fn decimal_chars(n: u64) -> (r: Vec<char>)
    ensures
        r@ == decimal(n as nat),
    decreases n,
{
    let d = ((n % 10) as u8 + 48u8) as char;
    if n < 10 {
        let mut r = Vec::new();
        r.push(d);
        assert(r@ =~= seq![d]);
        r
    } else {
        let mut r = decimal_chars(n / 10);
        r.push(d);
        r
    }
}

fn dollar_chars(name: &Vec<char>) -> (r: Vec<char>)
    ensures
        r@ == dollar(name@),
{
    let mut r = Vec::new();
    r.push('$');
    append_chars(&mut r, name);
    assert(r@ =~= dollar(name@));
    r
}

fn has_numeric(v: &Vec<char>) -> (r: bool)
    ensures
        r == (exists|i: int| 0 <= i < v@.len() - 1 && v@[i] == '$' && #[trigger] is_digit(v@[i + 1])),
{
    let n = v.len();
    let mut i: usize = 0;
    while i < n && i + 1 < n
        invariant
            n == v@.len(),
            i <= v@.len(),
            forall|j: int| 0 <= j < i && j < v@.len() - 1 ==> !(v@[j] == '$' && #[trigger] is_digit(v@[j + 1])),
        decreases v@.len() - i,
    {
        if v[i] == '$' && is_digit_char(v[i + 1]) {
            return true;
        }
        i = i + 1;
    }
    false
}

fn has_named(v: &Vec<char>, declared_names: &[String]) -> (r: bool)
    ensures
        r == (exists|k: int|
            0 <= k < declared_names@.len() && occurs(v@, dollar(#[trigger] declared_names@[k]@))),
{
    let mut k: usize = 0;
    while k < declared_names.len()
        invariant
            k <= declared_names@.len(),
            forall|j: int| 0 <= j < k ==> !occurs(v@, dollar(#[trigger] declared_names@[j]@)),
        decreases declared_names@.len() - k,
    {
        let name = chars_of(declared_names[k].as_str());
        let needle = dollar_chars(&name);
        if contains_chars(v, &needle) {
            return true;
        }
        k = k + 1;
    }
    false
}

/// Which placeholder kinds `body` holds: `$ARGUMENTS`; a `$` followed by a
/// digit; `$name` for one of the declared names.
pub fn find_placeholders(body: &str, declared_names: &[String]) -> (r: PlaceholderSet)
    ensures
        r.arguments == occurs(body@, "$ARGUMENTS"@),
        r.numeric == (exists|i: int|
            0 <= i < body@.len() - 1 && body@[i] == '$' && #[trigger] is_digit(body@[i + 1])),
        r.named == (exists|k: int|
            0 <= k < declared_names@.len() && occurs(body@, dollar(#[trigger] declared_names@[k]@))),
{
    let v = chars_of(body);
    let args = chars_of("$ARGUMENTS");
    PlaceholderSet {
        arguments: contains_chars(&v, &args),
        numeric: has_numeric(&v),
        named: has_named(&v, declared_names),
    }
}

/// `s` without each `$` followed by a digit, and without those digits.
pub fn strip_leftover_numeric(s: &str) -> (r: String)
    ensures
        r@ == stripped_numeric(s@),
{
    let v = chars_of(s);
    strip_numeric_chars(&v)
}

fn strip_numeric_chars(v: &Vec<char>) -> (r: String)
    ensures
        r@ == stripped_numeric(v@),
{
    let mut result = String::new();
    let mut i: usize = 0;
    assert(v@.subrange(0, v@.len() as int) =~= v@);
    while i < v.len()
        invariant
            i <= v@.len(),
            result@ + stripped_numeric(v@.subrange(i as int, v@.len() as int)) == stripped_numeric(
                v@,
            ),
        decreases v@.len() - i,
    {
        let ghost rest = v@.subrange(i as int, v@.len() as int);
        let ghost old_result = result@;
        let c = v[i];
        if c == '$' && i + 1 < v.len() && is_digit_char(v[i + 1]) {
            let mut j = i + 1;
            while j < v.len() && is_digit_char(v[j])
                invariant
                    i + 1 <= j <= v@.len(),
                    rest == v@.subrange(i as int, v@.len() as int),
                    digit_run(rest, 1) == (j - i - 1) + digit_run(rest, j - i),
                decreases v@.len() - j,
            {
                j = j + 1;
            }
            proof {
                assert(digit_run(rest, j - i) == 0);
                assert(rest.subrange(j - i, rest.len() as int) =~= v@.subrange(
                    j as int,
                    v@.len() as int,
                ));
            }
            i = j;
        } else {
            push_char(&mut result, c);
            proof {
                assert(rest.drop_first() =~= v@.subrange(i + 1, v@.len() as int));
                assert(old_result + stripped_numeric(rest) =~= result@ + stripped_numeric(
                    v@.subrange(i + 1, v@.len() as int),
                ));
            }
            i = i + 1;
        }
    }
    assert(result@ + stripped_numeric(v@.subrange(i as int, v@.len() as int)) =~= result@);
    result
}

/// The declared argument names, as characters.
pub open spec fn name_views(names: Seq<String>) -> Seq<Seq<char>> {
    names.map_values(|n: String| n@)
}

fn chars_of_string(s: &String) -> (r: Vec<char>)
    ensures
        r@ == s@,
{
    chars_of(s.as_str())
}

/// `$ARGUMENTS` becomes the raw prompt; `$N` and `$<name>` become the
/// prompt's POSIX tokens by position, undersupplied ones becoming empty;
/// named slots follow the declared order.
pub fn interpolate(
    body: &str,
    prompt: &str,
    declared_names: &[String],
    _kinds: &PlaceholderSet,
) -> (r: String)
    ensures
        r@ == interpolated(body@, prompt@, name_views(declared_names@)),
{
    let tokens = shell_split(prompt);
    let ghost toks = views_of(tokens@);
    let body_v = chars_of(body);
    let args = chars_of("$ARGUMENTS");
    let prompt_v = chars_of(prompt);
    proof {
        reveal_strlit("$ARGUMENTS");
    }
    let with_args = replace_chars(&body_v, &args, &prompt_v);
    let ghost start = with_args@;
    let mut out = with_args;
    // Largest first, so that `$10` is not partly overwritten by `$1`.
    let mut n = tokens.len();
    while n > 0
        invariant
            n <= tokens@.len(),
            toks == views_of(tokens@),
            toks.len() == tokens@.len(),
            positional_replaced(out@, toks, n as int) == positional_replaced(
                start,
                toks,
                tokens@.len() as int,
            ),
        decreases n,
    {
        let digits = decimal_chars(n as u64);
        let needle = dollar_chars(&digits);
        let value = chars_of_string(&tokens[n - 1]);
        out = replace_chars(&out, &needle, &value);
        n = n - 1;
    }
    let stripped = strip_numeric_chars(&out);
    let mut named = chars_of(stripped.as_str());
    let ghost names = name_views(declared_names@);
    let ghost after_strip = named@;
    let mut idx: usize = 0;
    while idx < declared_names.len()
        invariant
            idx <= declared_names@.len(),
            names == name_views(declared_names@),
            toks == views_of(tokens@),
            named_replaced(named@, names, toks, idx as int) == named_replaced(
                after_strip,
                names,
                toks,
                0,
            ),
        decreases declared_names@.len() - idx,
    {
        let name = chars_of_string(&declared_names[idx]);
        let needle = dollar_chars(&name);
        let value = if idx < tokens.len() {
            chars_of_string(&tokens[idx])
        } else {
            Vec::new()
        };
        proof {
            if idx >= tokens@.len() {
                assert(value@ =~= Seq::<char>::empty());
            }
        }
        named = replace_chars(&named, &needle, &value);
        idx = idx + 1;
    }
    string_from_chars(&named, 0, named.len())
}

/// The HTML attribute escape of one character.
pub open spec fn escape_char(c: char) -> Seq<char> {
    if c == '&' {
        "&amp;"@
    } else if c == '<' {
        "&lt;"@
    } else if c == '>' {
        "&gt;"@
    } else if c == '"' {
        "&quot;"@
    } else {
        seq![c]
    }
}

/// `s` with `&`, `<`, `>` and `"` escaped for an HTML attribute.
pub open spec fn escaped(s: Seq<char>) -> Seq<char> {
    s.map_values(|c: char| escape_char(c)).flatten()
}

/// Escapes `&`, `<`, `>` and `"` for use inside an HTML attribute value.
pub fn escape_attr(s: &str) -> (r: String)
    ensures
        r@ == escaped(s@),
{
    let v = chars_of(s);
    let mut out: Vec<char> = Vec::new();
    let mut i: usize = 0;
    while i < v.len()
        invariant
            i <= v@.len(),
            out@ == escaped(v@.subrange(0, i as int)),
        decreases v@.len() - i,
    {
        let c = v[i];
        let piece = if c == '&' {
            chars_of("&amp;")
        } else if c == '<' {
            chars_of("&lt;")
        } else if c == '>' {
            chars_of("&gt;")
        } else if c == '"' {
            chars_of("&quot;")
        } else {
            let mut one = Vec::new();
            one.push(c);
            assert(one@ =~= seq![c]);
            one
        };
        append_chars(&mut out, &piece);
        proof {
            let f = |c: char| escape_char(c);
            let pre = v@.subrange(0, i as int);
            assert(v@.subrange(0, i + 1) =~= pre.push(c));
            assert(pre.push(c).map_values(f) =~= pre.map_values(f).push(escape_char(c)));
            pre.map_values(f).lemma_flatten_push(escape_char(c));
        }
        i = i + 1;
    }
    assert(v@.subrange(0, v@.len() as int) =~= v@);
    string_from_chars(&out, 0, out.len())
}

/// The rendered skill invocation for the body of its `SKILL.md`: with no
/// placeholder, the tagged body followed by the prompt on its own line (when
/// there is one); otherwise a tag carrying the prompt around the
/// interpolated body.
pub open spec fn rendered_skill(
    name: Seq<char>,
    prompt: Seq<char>,
    body: Seq<char>,
    names: Seq<Seq<char>>,
) -> Seq<char> {
    let no_placeholder = !occurs(body, "$ARGUMENTS"@) && !(exists|i: int|
        0 <= i < body.len() - 1 && body[i] == '$' && #[trigger] is_digit(body[i + 1])) && !(exists|
        k: int,
    | 0 <= k < names.len() && occurs(body, dollar(#[trigger] names[k])));
    if no_placeholder {
        let tagged = "<skill name=\""@ + escaped(name) + "\">"@ + body + "</skill>"@;
        if prompt.len() == 0 {
            tagged
        } else {
            tagged + "\n"@ + prompt
        }
    } else {
        "<skill name=\""@ + escaped(name) + "\" prompt=\""@ + escaped(prompt) + "\">"@
            + interpolated(body, prompt, names) + "</skill>"@
    }
}

/// Renders the skill `skill_name`, whose `SKILL.md` body (front matter
/// removed) is `body` and whose declared argument names are `arguments`,
/// for the user's `prompt`.
pub fn render_skill(skill_name: &str, prompt: &str, body: &str, arguments: &[String]) -> (r:
    String)
    ensures
        r@ == rendered_skill(skill_name@, prompt@, body@, name_views(arguments@)),
{
    let placeholders = find_placeholders(body, arguments);
    proof {
        assert forall|k: int| 0 <= k < arguments@.len() implies #[trigger] name_views(arguments@)[k]
            == arguments@[k]@ by {}
        if placeholders.named {
            let k = choose|k: int|
                0 <= k < arguments@.len() && occurs(body@, dollar(#[trigger] arguments@[k]@));
            assert(name_views(arguments@)[k] == arguments@[k]@);
        }
        if exists|k: int|
            0 <= k < name_views(arguments@).len() && occurs(
                body@,
                dollar(#[trigger] name_views(arguments@)[k]),
            ) {
            let k = choose|k: int|
                0 <= k < name_views(arguments@).len() && occurs(
                    body@,
                    dollar(#[trigger] name_views(arguments@)[k]),
                );
            assert(occurs(body@, dollar(arguments@[k]@)));
        }
    }
    let mut r = String::new();
    r.append("<skill name=\"");
    let name = escape_attr(skill_name);
    r.append(name.as_str());
    if placeholders.is_empty() {
        r.append("\">");
        r.append(body);
        r.append("</skill>");
        if !prompt.is_empty() {
            r.append("\n");
            r.append(prompt);
        }
    } else {
        r.append("\" prompt=\"");
        let escaped_prompt = escape_attr(prompt);
        r.append(escaped_prompt.as_str());
        r.append("\">");
        let interpolated = interpolate(body, prompt, arguments, &placeholders);
        r.append(interpolated.as_str());
        r.append("</skill>");
    }
    r
}

} // verus!
