//! Helpers shared by the adapters: external chat ids and the manifests'
//! building blocks.

use vstd::prelude::*;
use crate::models::{ChannelConfigField, ChannelManifest, ConfigRef, ExternalLink};
use crate::render::{decimal, lemma_decimal_digits};
use crate::text::{chars_of, has_prefix, starts_with_str, string_from_chars};

verus! {

/// An external chat id that an adapter could not read.
#[derive(Debug, Clone, PartialEq)]
pub enum ExternalIdError {
    /// The id has none of the provider's formats.
    Unrecognised(String),
    /// The id's number part is not a number.
    InvalidNumber(String),
}

/// The rest of `s` after `prefix`, when `s` starts with `prefix` and the
/// rest is not empty.
pub open spec fn after_prefix(s: Seq<char>, prefix: Seq<char>) -> Option<Seq<char>> {
    if has_prefix(s, prefix) && s.len() > prefix.len() {
        Some(s.subrange(prefix.len() as int, s.len() as int))
    } else {
        None
    }
}

/// The rest of `s` after `prefix`, or an `Unrecognised` error holding `s`
/// when `s` does not start with `prefix` or nothing follows it.
pub fn strip_id_prefix(s: &str, prefix: &str) -> (r: Result<String, ExternalIdError>)
    ensures
        match r {
            Ok(rest) => after_prefix(s@, prefix@) == Some(rest@),
            Err(ExternalIdError::Unrecognised(t)) => after_prefix(s@, prefix@) is None && t@ == s@,
            Err(_) => false,
        },
{
    let v = chars_of(s);
    let p = chars_of(prefix);
    if starts_with_str(&v, prefix) && v.len() > p.len() {
        Ok(string_from_chars(&v, p.len(), v.len()))
    } else {
        Err(ExternalIdError::Unrecognised(String::from_str(s)))
    }
}

/// A configuration field as the manifests declare it: no description, no
/// format, no resolved default.
pub fn config_field(name: &str, is_required: bool, is_secret: bool, default_from: Option<(&str, &str)>) -> (r: ChannelConfigField)
    ensures
        r.name@ == name@,
        r.is_required == is_required,
        r.is_secret == is_secret,
        r.description is None,
        r.format is None,
        r.default_resolved is None,
        match default_from {
            Some((section, field)) => r.default_from matches Some(c) && c.section@ == section@ && c.field@ == field@,
            None => r.default_from is None,
        },
{
    ChannelConfigField {
        name: String::from_str(name),
        description: None,
        is_required,
        is_secret,
        format: None,
        default_from: match default_from {
            Some((section, field)) => Some(ConfigRef { section: String::from_str(section), field: String::from_str(field) }),
            None => None,
        },
        default_resolved: None,
    }
}

pub fn link(label: &str, url: &str) -> (r: ExternalLink)
    ensures
        r.label@ == label@,
        r.url@ == url@,
{
    ExternalLink { label: String::from_str(label), url: String::from_str(url) }
}

/// A manifest with no fields, links or setup instructions.
pub fn bare_manifest(id: &str, display_name: &str, description: &str) -> (r: ChannelManifest)
    ensures
        r.id@ == id@,
        r.display_name@ == display_name@,
        r.description@ == description@,
        r.config_fields@.len() == 0,
        !r.webhook_url_visible,
        r.setup_instructions is None,
        r.external_links@.len() == 0,
{
    ChannelManifest {
        id: String::from_str(id),
        display_name: String::from_str(display_name),
        description: String::from_str(description),
        config_fields: Vec::new(),
        webhook_url_visible: false,
        setup_instructions: None,
        external_links: Vec::new(),
    }
}

/// The value of the ASCII digits `d`.
pub open spec fn digits_number(d: Seq<char>) -> nat
    decreases d.len(),
{
    if d.len() == 0 {
        0
    } else {
        digits_number(d.drop_last()) * 10 + ((d.last() as u32) - ('0' as u32)) as nat
    }
}

pub open spec fn all_ascii_digits(d: Seq<char>) -> bool {
    forall|i: int| 0 <= i < d.len() ==> '0' <= #[trigger] d[i] <= '9'
}

/// What std's `u64::from_str` accepts: an optional `+` and one or more
/// ASCII digits whose value fits in `u64`.
pub open spec fn parsed_u64(s: Seq<char>) -> Option<nat> {
    let d = if s.len() > 0 && s[0] == '+' {
        s.drop_first()
    } else {
        s
    };
    if d.len() > 0 && all_ascii_digits(d) && digits_number(d) <= u64::MAX {
        Some(digits_number(d))
    } else {
        None
    }
}

/// The digits of a number read back as that number, and a `u64` reads
/// back whole.
pub proof fn lemma_decimal_number(n: nat)
    ensures
        all_ascii_digits(decimal(n)),
        digits_number(decimal(n)) == n,
        n <= u64::MAX ==> parsed_u64(decimal(n)) == Some(n),
    decreases n,
{
    lemma_decimal_digits(n);
    let d = decimal(n);
    if n >= 10 {
        lemma_decimal_number(n / 10);
        assert(d.drop_last() =~= decimal(n / 10));
        let c = d.last();
        assert((c as u32) == ('0' as u32) + n % 10);
        assert((n / 10) * 10 + n % 10 == n);
        assert(digits_number(d) == digits_number(d.drop_last()) * 10 + ((c as u32) - ('0' as u32)) as nat);
    } else {
        assert((d[0] as u32) == ('0' as u32) + n);
        assert(d.drop_last() =~= Seq::<char>::empty());
        assert(digits_number(Seq::<char>::empty()) == 0);
    }
    assert(d[0] != '+');
}

proof fn lemma_digits_number_grows(d: Seq<char>, k: int)
    requires
        0 <= k <= d.len(),
    ensures
        all_ascii_digits(d) ==> digits_number(
            d.subrange(0, k),
        ) <= digits_number(d),
    decreases d.len() - k,
{
    if k < d.len() {
        assert(d.subrange(0, k + 1).drop_last() =~= d.subrange(0, k));
        lemma_digits_number_grows(d, k + 1);
    } else {
        assert(d.subrange(0, k) =~= d);
    }
}

/// Parses `v[lo..]` as std's `u64::from_str` does.
pub fn parse_u64(v: &Vec<char>, lo: usize) -> (r: Option<u64>)
    requires
        lo <= v@.len(),
    ensures
        match r {
            Some(n) => parsed_u64(v@.subrange(lo as int, v@.len() as int)) == Some(n as nat),
            None => parsed_u64(v@.subrange(lo as int, v@.len() as int)) is None,
        },
{
    let ghost whole = v@.subrange(lo as int, v@.len() as int);
    let mut i = lo;
    if i < v.len() && v[i] == '+' {
        i = i + 1;
    }
    let ghost d = v@.subrange(i as int, v@.len() as int);
    assert(d =~= (if whole.len() > 0 && whole[0] == '+' { whole.drop_first() } else { whole }));
    if i >= v.len() {
        return None;
    }
    let start = i;
    let mut value: u64 = 0;
    while i < v.len()
        invariant
            lo <= start <= i <= v@.len(),
            whole == v@.subrange(lo as int, v@.len() as int),
            d == (if whole.len() > 0 && whole[0] == '+' { whole.drop_first() } else { whole }),
            d == v@.subrange(start as int, v@.len() as int),
            forall|k: int| 0 <= k < i - start ==> '0' <= #[trigger] d[k] <= '9',
            value as nat == digits_number(v@.subrange(start as int, i as int)),
        decreases v@.len() - i,
    {
        let c = v[i];
        if !('0' <= c && c <= '9') {
            assert(d[i - start] == c);
            return None;
        }
        let digit = ((c as u32) - 48) as u64;
        assert(v@.subrange(start as int, i + 1).drop_last() =~= v@.subrange(start as int, i as int));
        assert(d.subrange(0, i - start + 1) =~= v@.subrange(start as int, i + 1));
        proof {
            lemma_digits_number_grows(d, i - start + 1);
        }
        match value.checked_mul(10) {
            Some(v10) => match v10.checked_add(digit) {
                Some(n) => {
                    value = n;
                },
                None => {
                    return None;
                },
            },
            None => {
                return None;
            },
        }
        i = i + 1;
    }
    assert(v@.subrange(start as int, i as int) =~= d);
    Some(value)
}

/// What std's `i64::from_str` gives for `s`, as an integer: an optional
/// sign and one or more ASCII digits, within `-2^63 ..= 2^63 - 1`.
pub open spec fn parsed_signed(s: Seq<char>, min: int, max: int) -> Option<int> {
    let neg = s.len() > 0 && s[0] == '-';
    let d = if s.len() > 0 && (s[0] == '+' || s[0] == '-') {
        s.drop_first()
    } else {
        s
    };
    let value = if neg { -digits_number(d) } else { digits_number(d) as int };
    if d.len() > 0 && all_ascii_digits(d) && min <= value <= max {
        Some(value)
    } else {
        None
    }
}

/// Parses `v[lo..hi]` as a signed decimal within `i64`.
pub fn parse_i64(v: &Vec<char>, lo: usize, hi: usize) -> (r: Option<i64>)
    requires
        lo <= hi <= v@.len(),
    ensures
        match r {
            Some(n) => parsed_signed(v@.subrange(lo as int, hi as int), i64::MIN as int, i64::MAX as int) == Some(n as int),
            None => parsed_signed(v@.subrange(lo as int, hi as int), i64::MIN as int, i64::MAX as int) is None,
        },
{
    let ghost s = v@.subrange(lo as int, hi as int);
    let mut i = lo;
    let neg = i < hi && v[i] == '-';
    if i < hi && (v[i] == '+' || v[i] == '-') {
        i = i + 1;
    }
    let ghost d = v@.subrange(i as int, hi as int);
    assert(d =~= (if s.len() > 0 && (s[0] == '+' || s[0] == '-') { s.drop_first() } else { s }));
    if i >= hi {
        return None;
    }
    let start = i;
    let mut mag: u64 = 0;
    let limit: u64 = if neg { 9223372036854775808u64 } else { 9223372036854775807u64 };
    while i < hi
        invariant
            lo <= start <= i <= hi <= v@.len(),
            s == v@.subrange(lo as int, hi as int),
            d == (if s.len() > 0 && (s[0] == '+' || s[0] == '-') { s.drop_first() } else { s }),
            neg == (s.len() > 0 && s[0] == '-'),
            d == v@.subrange(start as int, hi as int),
            forall|k: int| 0 <= k < i - start ==> '0' <= #[trigger] d[k] <= '9',
            mag as nat == digits_number(v@.subrange(start as int, i as int)),
            mag <= limit,
            limit == (if neg { 9223372036854775808u64 } else { 9223372036854775807u64 }),
        decreases hi - i,
    {
        let c = v[i];
        if !('0' <= c && c <= '9') {
            assert(d[i - start] == c);
            return None;
        }
        let digit = ((c as u32) - 48) as u64;
        assert(v@.subrange(start as int, i + 1).drop_last() =~= v@.subrange(start as int, i as int));
        assert(d.subrange(0, i - start + 1) =~= v@.subrange(start as int, i + 1));
        proof {
            lemma_digits_number_grows(d, i - start + 1);
        }
        if mag > (limit - digit) / 10 {
            assert(mag * 10 + digit > limit) by (nonlinear_arith)
                requires mag > (limit - digit) / 10, digit <= 9, limit >= 9;
            return None;
        }
        assert(mag * 10 + digit <= limit) by (nonlinear_arith)
            requires mag <= (limit - digit) / 10, digit <= 9, limit >= 9;
        mag = mag * 10 + digit;
        i = i + 1;
    }
    assert(v@.subrange(start as int, i as int) =~= d);
    if neg {
        if mag == 9223372036854775808u64 {
            Some(i64::MIN)
        } else {
            Some(-(mag as i64))
        }
    } else {
        Some(mag as i64)
    }
}

} // verus!
