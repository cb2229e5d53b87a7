//! Byte- and character-level facts about UTF-8 strings shared by the
//! splitters, parsers and renderers of this crate.

use vstd::prelude::*;
use vstd::utf8::*;
use vstd::string::StringSliceAdditionalSpecFns;

verus! {

broadcast use vstd::utf8::group_utf8_lib;

/// The UTF-8 encoding of a character sequence is the concatenation of the
/// encodings of its parts.
pub proof fn lemma_encode_concat(a: Seq<char>, b: Seq<char>)
    ensures
        encode_utf8(a + b) == encode_utf8(a) + encode_utf8(b),
    decreases a.len(),
{
    if a.len() == 0 {
        assert(a + b =~= b);
    } else {
        assert((a + b).drop_first() =~= a.drop_first() + b);
        lemma_encode_concat(a.drop_first(), b);
        assert((a + b)[0] == a[0]);
    }
}

/// In a valid UTF-8 byte sequence, the position right after a one-byte
/// (ASCII) character is a character boundary.
pub proof fn lemma_ascii_byte_ends_char(b: Seq<u8>, i: int)
    requires
        valid_utf8(b),
        0 <= i < b.len(),
        b[i] < 0x80,
    ensures
        is_char_boundary(b, i + 1),
    decreases b.len(),
{
    let l = length_of_first_scalar(b);
    let rest = pop_first_scalar(b);
    assert(valid_first_scalar(b) && valid_utf8(rest));
    if i < l {
        assert(i == 0);
        assert(l == 1);
        reveal_with_fuel(is_char_boundary, 2);
        assert(is_char_boundary(rest, 0));
    } else {
        assert(rest[i - l] == b[i]);
        lemma_ascii_byte_ends_char(rest, i - l);
        reveal_with_fuel(is_char_boundary, 2);
    }
}

/// A string whose bytes are a range of a byte sequence holds exactly the
/// characters decoded from that range.
pub proof fn lemma_piece_chars(piece: Seq<char>, whole: Seq<u8>, lo: int, hi: int)
    requires
        encode_utf8(piece) == whole.subrange(lo, hi),
    ensures
        piece == decode_utf8(whole.subrange(lo, hi)),
{
    encode_utf8_decode_utf8(piece);
}

/// Two strings whose encodings, joined, give the encoding of a third hold
/// between them exactly the characters of the third.
pub proof fn lemma_split_chars(whole: Seq<char>, a: Seq<char>, b: Seq<char>)
    requires
        encode_utf8(whole) == encode_utf8(a) + encode_utf8(b),
    ensures
        whole == a + b,
{
    lemma_encode_concat(a, b);
    encode_utf8_decode_utf8(whole);
    encode_utf8_decode_utf8(a + b);
}

/// A non-empty character sequence has a non-empty encoding.
pub proof fn lemma_encode_nonempty(chars: Seq<char>)
    requires
        chars.len() > 0,
    ensures
        encode_utf8(chars).len() > 0,
{
    char_is_scalar(chars[0]);
    assert(encode_scalar(chars[0] as u32).len() > 0);
}

/// Length of `s` in UTF-8 bytes.
pub fn byte_len(s: &str) -> (n: usize)
    ensures
        n == s.spec_bytes().len(),
{
    s.as_bytes().len()
}

/// Unicode `White_Space`, the set of characters that std's
/// `char::is_whitespace` and `str::trim` treat as whitespace.
pub open spec fn is_white(c: char) -> bool {
    let u = c as u32;
    ||| 0x09 <= u <= 0x0d
    ||| u == 0x20
    ||| u == 0x85
    ||| u == 0xa0
    ||| u == 0x1680
    ||| 0x2000 <= u <= 0x200a
    ||| u == 0x2028
    ||| u == 0x2029
    ||| u == 0x202f
    ||| u == 0x205f
    ||| u == 0x3000
}

/// Whether `c` is Unicode whitespace.
pub fn is_whitespace(c: char) -> (r: bool)
    ensures
        r == is_white(c),
{
    let u = c as u32;
    (0x09 <= u && u <= 0x0d) || u == 0x20 || u == 0x85 || u == 0xa0 || u == 0x1680 || (0x2000
        <= u && u <= 0x200a) || u == 0x2028 || u == 0x2029 || u == 0x202f || u == 0x205f || u
        == 0x3000
}

/// Every character of `s` is whitespace (so `s.trim()` is empty).
pub open spec fn is_blank(s: Seq<char>) -> bool {
    forall|i: int| 0 <= i < s.len() ==> is_white(#[trigger] s[i])
}

/// `s` without its trailing whitespace.
pub open spec fn trim_end_chars(s: Seq<char>) -> Seq<char>
    decreases s.len(),
{
    if s.len() > 0 && is_white(s.last()) {
        trim_end_chars(s.drop_last())
    } else {
        s
    }
}

/// `s` without its leading whitespace.
pub open spec fn trim_start_chars(s: Seq<char>) -> Seq<char>
    decreases s.len(),
{
    if s.len() > 0 && is_white(s[0]) {
        trim_start_chars(s.drop_first())
    } else {
        s
    }
}

/// `s` without its leading and trailing whitespace.
pub open spec fn trim_chars(s: Seq<char>) -> Seq<char> {
    trim_end_chars(trim_start_chars(s))
}

/// Trimming trailing whitespace keeps a prefix of the characters.
pub proof fn lemma_trim_end_prefix(s: Seq<char>)
    ensures
        trim_end_chars(s).len() <= s.len(),
        trim_end_chars(s) == s.subrange(0, trim_end_chars(s).len() as int),
    decreases s.len(),
{
    if s.len() > 0 && is_white(s.last()) {
        lemma_trim_end_prefix(s.drop_last());
        assert(s.drop_last().subrange(0, trim_end_chars(s).len() as int) =~= s.subrange(
            0,
            trim_end_chars(s).len() as int,
        ));
    } else {
        assert(s.subrange(0, s.len() as int) =~= s);
    }
}

/// A prefix of a character sequence has an encoding no longer than the
/// whole's.
pub proof fn lemma_prefix_encoding_len(s: Seq<char>, k: int)
    requires
        0 <= k <= s.len(),
    ensures
        encode_utf8(s.subrange(0, k)).len() <= encode_utf8(s).len(),
{
    lemma_encode_concat(s.subrange(0, k), s.subrange(k, s.len() as int));
    assert(s.subrange(0, k) + s.subrange(k, s.len() as int) =~= s);
}

/// The characters of `s`, in order.
pub fn chars_of(s: &str) -> (v: Vec<char>)
    ensures
        v@ == s@,
{
    let mut v: Vec<char> = Vec::new();
    for c in it: s.chars()
        invariant
            v@ =~= it.seq().take(it.index() as int),
    {
        v.push(c);
    }
    v
}

/// `s` with its trailing whitespace removed.
pub fn trim_end_string(s: &str) -> (r: String)
    ensures
        r@ == trim_end_chars(s@),
{
    let v = chars_of(s);
    let mut k: usize = v.len();
    assert(v@.subrange(0, v@.len() as int) =~= v@);
    while k > 0 && is_whitespace(v[k - 1])
        invariant
            k <= v@.len(),
            trim_end_chars(v@.subrange(0, k as int)) == trim_end_chars(v@),
        decreases k,
    {
        assert(v@.subrange(0, k as int).drop_last() =~= v@.subrange(0, k - 1));
        k = k - 1;
    }
    string_from_chars(&v, 0, k)
}

/// Whether every character of `s` is whitespace (`s.trim().is_empty()`).
pub fn is_blank_str(s: &str) -> (r: bool)
    ensures
        r == is_blank(s@),
{
    let v = chars_of(s);
    let mut i: usize = 0;
    while i < v.len()
        invariant
            i <= v@.len(),
            v@ == s@,
            forall|j: int| 0 <= j < i ==> is_white(#[trigger] v@[j]),
        decreases v@.len() - i,
    {
        if !is_whitespace(v[i]) {
            return false;
        }
        i = i + 1;
    }
    true
}

/// `s` with its leading and trailing whitespace removed.
pub fn trim_string(s: &str) -> (r: String)
    ensures
        r@ == trim_chars(s@),
{
    let v = chars_of(s);
    let mut lo: usize = 0;
    assert(v@.subrange(0, v@.len() as int) =~= v@);
    while lo < v.len() && is_whitespace(v[lo])
        invariant
            lo <= v@.len(),
            trim_start_chars(v@.subrange(lo as int, v@.len() as int)) == trim_start_chars(v@),
        decreases v@.len() - lo,
    {
        assert(v@.subrange(lo as int, v@.len() as int).drop_first() =~= v@.subrange(
            lo + 1,
            v@.len() as int,
        ));
        lo = lo + 1;
    }
    let mut hi: usize = v.len();
    let ghost start = v@.subrange(lo as int, v@.len() as int);
    assert(start.subrange(0, start.len() as int) =~= start);
    while hi > lo && is_whitespace(v[hi - 1])
        invariant
            lo <= hi <= v@.len(),
            start == v@.subrange(lo as int, v@.len() as int),
            trim_end_chars(v@.subrange(lo as int, hi as int)) == trim_end_chars(start),
        decreases hi,
    {
        assert(v@.subrange(lo as int, hi as int).drop_last() =~= v@.subrange(lo as int, hi - 1));
        hi = hi - 1;
    }
    string_from_chars(&v, lo, hi)
}

/// What std's `str::to_lowercase` gives for the characters `s`: the
/// Unicode lowercase mapping of the text (final sigma mapped by its
/// context).
pub uninterp spec fn unicode_lowercase(s: Seq<char>) -> Seq<char>;

/// std's `str::to_lowercase`. The result is a function of the characters
/// alone (the Unicode lowercase mapping); what that mapping is is not
/// stated here.
#[verifier::external_body]
pub(crate) fn to_lowercase(s: &str) -> (r: String)
    ensures
        r@ == unicode_lowercase(s@),
{
    s.to_lowercase()
}

/// std's `String::push`: appends one character.
#[verifier::external_body]
pub(crate) fn push_char(s: &mut String, c: char)
    ensures
        final(s)@ == old(s)@.push(c),
{
    s.push(c);
}

/// The string holding `v[lo..hi]`.
pub fn string_from_chars(v: &Vec<char>, lo: usize, hi: usize) -> (r: String)
    requires
        lo <= hi <= v@.len(),
    ensures
        r@ == v@.subrange(lo as int, hi as int),
{
    let mut r = String::new();
    let mut i = lo;
    while i < hi
        invariant
            lo <= i <= hi <= v@.len(),
            r@ =~= v@.subrange(lo as int, i as int),
        decreases hi - i,
    {
        push_char(&mut r, v[i]);
        i = i + 1;
    }
    r
}

/// The characters of each string of a sequence.
pub open spec fn views_of(v: Seq<String>) -> Seq<Seq<char>> {
    v.map_values(|s: String| s@)
}

/// The characters of a sequence of strings, joined with nothing between.
pub open spec fn joined(v: Seq<String>) -> Seq<char> {
    views_of(v).flatten()
}

/// The UTF-8 encoding of each string of a sequence.
pub open spec fn encodings_of(v: Seq<String>) -> Seq<Seq<u8>> {
    v.map_values(|s: String| encode_utf8(s@))
}

/// Pushing a string onto a sequence appends its characters to the join.
pub proof fn lemma_joined_push(v: Seq<String>, s: String)
    ensures
        joined(v.push(s)) == joined(v) + s@,
        encodings_of(v.push(s)) == encodings_of(v).push(encode_utf8(s@)),
{
    assert(views_of(v.push(s)) =~= views_of(v).push(s@));
    views_of(v).lemma_flatten_push(s@);
    assert(encodings_of(v.push(s)) =~= encodings_of(v).push(encode_utf8(s@)));
}

/// `c` with an ASCII capital letter turned into its small letter.
pub open spec fn ascii_lower(c: char) -> char {
    if 'A' <= c <= 'Z' {
        ((c as u32) + 32) as char
    } else {
        c
    }
}

/// `s` with its ASCII capital letters made small (`to_ascii_lowercase`).
pub open spec fn lower_chars(s: Seq<char>) -> Seq<char> {
    s.map_values(|c: char| ascii_lower(c))
}

/// `c` with an ASCII capital letter turned into its small letter.
pub fn to_ascii_lower(c: char) -> (r: char)
    ensures
        r == ascii_lower(c),
{
    if 'A' <= c && c <= 'Z' {
        ((c as u8) + 32u8) as char
    } else {
        c
    }
}

/// The characters of `s` with ASCII capitals made small.
pub fn lowercase_chars(s: &str) -> (r: Vec<char>)
    ensures
        r@ == lower_chars(s@),
{
    let v = chars_of(s);
    let mut r: Vec<char> = Vec::new();
    let mut i: usize = 0;
    while i < v.len()
        invariant
            i <= v@.len(),
            r@ =~= lower_chars(v@.subrange(0, i as int)),
        decreases v@.len() - i,
    {
        r.push(to_ascii_lower(v[i]));
        i = i + 1;
    }
    assert(v@.subrange(0, v@.len() as int) =~= v@);
    r
}

/// Whether `p` is a prefix of `s`.
pub open spec fn has_prefix(s: Seq<char>, p: Seq<char>) -> bool {
    p.len() <= s.len() && s.subrange(0, p.len() as int) == p
}

/// Whether the characters `v` begin with `p`.
pub fn starts_with_str(v: &Vec<char>, p: &str) -> (r: bool)
    ensures
        r == has_prefix(v@, p@),
{
    let pv = chars_of(p);
    if pv.len() > v.len() {
        return false;
    }
    let mut i: usize = 0;
    while i < pv.len()
        invariant
            pv@ == p@,
            pv@.len() <= v@.len(),
            i <= pv@.len(),
            forall|j: int| 0 <= j < i ==> v@[j] == pv@[j],
        decreases pv@.len() - i,
    {
        if v[i] != pv[i] {
            assert(v@.subrange(0, pv@.len() as int)[i as int] != pv@[i as int]);
            return false;
        }
        i = i + 1;
    }
    assert(v@.subrange(0, pv@.len() as int) =~= pv@);
    true
}

/// Whether the characters `v` are exactly those of `p`.
pub fn equals_str(v: &Vec<char>, p: &str) -> (r: bool)
    ensures
        r == (v@ == p@),
{
    let pv = chars_of(p);
    if pv.len() != v.len() {
        return false;
    }
    let mut i: usize = 0;
    while i < pv.len()
        invariant
            pv@ == p@,
            pv@.len() == v@.len(),
            i <= pv@.len(),
            forall|j: int| 0 <= j < i ==> v@[j] == pv@[j],
        decreases pv@.len() - i,
    {
        if v[i] != pv[i] {
            return false;
        }
        i = i + 1;
    }
    assert(v@ =~= pv@);
    true
}

/// `parts` joined with `sep` between consecutive parts.
pub open spec fn join_with(parts: Seq<Seq<char>>, sep: Seq<char>) -> Seq<char>
    decreases parts.len(),
{
    if parts.len() == 0 {
        Seq::empty()
    } else if parts.len() == 1 {
        parts[0]
    } else {
        join_with(parts.drop_last(), sep) + sep + parts.last()
    }
}

/// The characters of each string pair of a sequence.
pub open spec fn pair_views(pairs: Seq<(String, String)>) -> Seq<(Seq<char>, Seq<char>)> {
    pairs.map_values(|p: (String, String)| (p.0@, p.1@))
}

/// `s` cut to at most `max` characters, the last one then being `…`.
pub open spec fn truncated(s: Seq<char>, max: int) -> Seq<char> {
    if s.len() <= max {
        s
    } else {
        s.subrange(0, max - 1).push('…')
    }
}

/// Cuts `s` to at most `max` characters, ending a cut text with `…`.
pub fn truncate_chars(s: &str, max: usize) -> (r: String)
    requires
        s@.len() <= max || max >= 1,
    ensures
        r@ == truncated(s@, max as int),
{
    let v = chars_of(s);
    if v.len() <= max {
        String::from_str(s)
    } else {
        let mut out = string_from_chars(&v, 0, max - 1);
        push_char(&mut out, '…');
        out
    }
}

/// Trimming leading whitespace keeps a suffix of the characters, so the
/// encoding gets no longer.
pub proof fn lemma_trim_start_encoding(s: Seq<char>)
    ensures
        encode_utf8(trim_start_chars(s)).len() <= encode_utf8(s).len(),
        trim_start_chars(s).len() <= s.len(),
        trim_start_chars(s) == s.subrange(s.len() - trim_start_chars(s).len(), s.len() as int),
    decreases s.len(),
{
    if s.len() > 0 && is_white(s[0]) {
        lemma_trim_start_encoding(s.drop_first());
        lemma_encode_concat(seq![s[0]], s.drop_first());
        assert(seq![s[0]] + s.drop_first() =~= s);
        let t = trim_start_chars(s);
        assert(s.drop_first().subrange(s.drop_first().len() - t.len(), s.drop_first().len() as int)
            =~= s.subrange(s.len() - t.len(), s.len() as int));
    } else {
        assert(s.subrange(0, s.len() as int) =~= s);
    }
}

/// Whether `a` sorts before `b` or with it, as std orders strings
/// (bytewise on UTF-8, which is the order of the characters' code points).
pub open spec fn key_le(a: Seq<char>, b: Seq<char>) -> bool
    decreases a.len(),
{
    if a.len() == 0 {
        true
    } else if b.len() == 0 {
        false
    } else if a[0] != b[0] {
        (a[0] as u32) < (b[0] as u32)
    } else {
        key_le(a.drop_first(), b.drop_first())
    }
}

/// Whether `a` sorts before `b` or with it, see [`key_le`].
pub fn key_sorts_le(a: &str, b: &str) -> (r: bool)
    ensures
        r == key_le(a@, b@),
{
    let av = chars_of(a);
    let bv = chars_of(b);
    let mut i: usize = 0;
    assert(av@.subrange(0, av@.len() as int) =~= av@);
    assert(bv@.subrange(0, bv@.len() as int) =~= bv@);
    while i < av.len() && i < bv.len() && av[i] == bv[i]
        invariant
            i <= av@.len(),
            i <= bv@.len(),
            key_le(av@.subrange(i as int, av@.len() as int), bv@.subrange(i as int, bv@.len() as int)) == key_le(av@, bv@),
        decreases av@.len() - i,
    {
        let ghost a1 = av@.subrange(i as int, av@.len() as int);
        let ghost b1 = bv@.subrange(i as int, bv@.len() as int);
        assert(a1.drop_first() =~= av@.subrange(i + 1, av@.len() as int));
        assert(b1.drop_first() =~= bv@.subrange(i + 1, bv@.len() as int));
        i = i + 1;
    }
    assert(av@.subrange(0, av@.len() as int) =~= av@);
    assert(bv@.subrange(0, bv@.len() as int) =~= bv@);
    let ghost a1 = av@.subrange(i as int, av@.len() as int);
    let ghost b1 = bv@.subrange(i as int, bv@.len() as int);
    if i == av.len() {
        assert(a1.len() == 0);
        true
    } else if i == bv.len() {
        false
    } else {
        assert(a1[0] == av@[i as int] && b1[0] == bv@[i as int]);
        (av[i] as u32) < (bv[i] as u32)
    }
}

/// Any two strings are ordered one way or the other.
pub proof fn lemma_key_le_total(a: Seq<char>, b: Seq<char>)
    ensures
        key_le(a, b) || key_le(b, a),
    decreases a.len(),
{
    if a.len() > 0 && b.len() > 0 {
        if a[0] == b[0] {
            lemma_key_le_total(a.drop_first(), b.drop_first());
        } else {
            vstd::utf8::char_u32_cast(a[0], a[0] as u32);
            vstd::utf8::char_u32_cast(b[0], b[0] as u32);
        }
    }
}

/// Strings ordered both ways are equal.
pub proof fn lemma_key_le_antisymmetric(a: Seq<char>, b: Seq<char>)
    requires
        key_le(a, b),
        key_le(b, a),
    ensures
        a == b,
    decreases a.len(),
{
    if a.len() > 0 {
        lemma_key_le_antisymmetric(a.drop_first(), b.drop_first());
        assert(a =~= seq![a[0]] + a.drop_first());
        assert(b =~= seq![b[0]] + b.drop_first());
    } else {
        assert(a =~= b);
    }
}

/// The order of strings is transitive.
pub proof fn lemma_key_le_transitive(a: Seq<char>, b: Seq<char>, c: Seq<char>)
    requires
        key_le(a, b),
        key_le(b, c),
    ensures
        key_le(a, c),
    decreases a.len(),
{
    if a.len() > 0 && a[0] == b[0] && b[0] == c[0] {
        lemma_key_le_transitive(a.drop_first(), b.drop_first(), c.drop_first());
    }
}

} // verus!
