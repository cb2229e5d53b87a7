//! Per-scope-unique human identifiers, validated on construction so that an
//! invalid handle cannot be represented.
//!
//! Grammar: 2 to 32 bytes, starting with `a-z`, the rest `a-z 0-9 - _`.

use vstd::prelude::*;
use smol_str::SmolStr;
use vstd::string::StringSliceAdditionalSpecFns;
use crate::error::AppError;
use crate::text::{lowercase_chars, string_from_chars, trim_chars, trim_string, lower_chars};

verus! {

#[verifier::external_type_specification]
#[verifier::external_body]
pub struct ExSmolStr(SmolStr);

/// The characters a `SmolStr` holds.
pub uninterp spec fn smol_chars(s: SmolStr) -> Seq<char>;

/// smol_str's `SmolStr::new`: stores a copy of the text.
#[verifier::external_body]
fn smol_new(text: &str) -> (r: SmolStr)
    ensures
        smol_chars(r) == text@,
{
    SmolStr::new(text)
}

/// smol_str's `Clone` for `SmolStr`: the copy holds the same text.
pub assume_specification[ <SmolStr as Clone>::clone ](s: &SmolStr) -> (r: SmolStr)
    ensures
        smol_chars(r) == smol_chars(*s),
;

/// smol_str's `SmolStr::as_str`: the text stored.
#[verifier::external_body]
fn smol_as_str(s: &SmolStr) -> (r: &str)
    ensures
        r@ == smol_chars(*s),
{
    s.as_str()
}

pub open spec fn is_lower(b: u8) -> bool {
    97 <= b <= 122
}

pub open spec fn is_digit_byte(b: u8) -> bool {
    48 <= b <= 57
}

/// 2 to 32 bytes, the first `a-z`, each `a-z 0-9 - _`.
pub open spec fn valid_handle(s: Seq<u8>) -> bool {
    &&& 2 <= s.len() <= 32
    &&& is_lower(s[0])
    &&& forall|i: int|
        0 <= i < s.len() ==> is_lower(#[trigger] s[i]) || is_digit_byte(s[i]) || s[i] == 45 || s[i]
            == 95
}

pub fn is_valid_handle_bytes(s: &[u8]) -> (r: bool)
    ensures
        r == valid_handle(s@),
{
    if s.len() < 2 || s.len() > 32 {
        return false;
    }
    if !(97 <= s[0] && s[0] <= 122) {
        return false;
    }
    let mut i: usize = 0;
    while i < s.len()
        invariant
            i <= s@.len(),
            forall|j: int|
                0 <= j < i ==> is_lower(#[trigger] s@[j]) || is_digit_byte(s@[j]) || s@[j] == 45
                    || s@[j] == 95,
        decreases s@.len() - i,
    {
        let b = s[i];
        let ok = (97 <= b && b <= 122) || (48 <= b && b <= 57) || b == 45 || b == 95;
        if !ok {
            return false;
        }
        i = i + 1;
    }
    true
}

/// A validated handle.
#[derive(Debug)]
pub struct Handle(SmolStr);

impl Clone for Handle {
    fn clone(&self) -> (r: Self)
        ensures
            r.chars() == self.chars(),
    {
        proof {
            use_type_invariant(self);
        }
        Handle(self.0.clone())
    }
}

/// The validation message for a handle rejected after cleaning.
pub open spec fn rejection_message(cleaned: Seq<char>) -> Seq<char> {
    "handle '"@ + cleaned
        + "' is invalid: must be 2-32 chars, start with a lowercase letter, and contain only a-z, 0-9, hyphens, underscores"@
}

/// What [`Handle::try_new`] validates: the input trimmed and ASCII-lowercased.
pub open spec fn cleaned_handle(raw: Seq<char>) -> Seq<char> {
    lower_chars(trim_chars(raw))
}

impl Handle {
    pub closed spec fn chars(self) -> Seq<char> {
        smol_chars(self.0)
    }

    #[verifier::type_invariant]
    closed spec fn wf(self) -> bool {
        valid_handle(vstd::utf8::encode_utf8(smol_chars(self.0)))
    }

    /// Trims and ASCII-lowercases `raw`, then validates it.
    pub fn try_new(raw: &str) -> (r: Result<Handle, AppError>)
        ensures
            match r {
                Ok(h) => h.chars() == cleaned_handle(raw@) && valid_handle(
                    vstd::utf8::encode_utf8(cleaned_handle(raw@)),
                ),
                Err(AppError::Validation(m)) => m@ == rejection_message(cleaned_handle(raw@)) && !valid_handle(
                    vstd::utf8::encode_utf8(cleaned_handle(raw@)),
                ),
                Err(_) => false,
            },
    {
        let trimmed = trim_string(raw);
        let lowered = lowercase_chars(trimmed.as_str());
        let cleaned = string_from_chars(&lowered, 0, lowered.len());
        let ok = is_valid_handle_bytes(cleaned.as_str().as_bytes());
        proof {
            assert(cleaned@ =~= cleaned_handle(raw@));
        }
        if !ok {
            let mut m = String::from_str("handle '");
            m.append(cleaned.as_str());
            m.append(
                "' is invalid: must be 2-32 chars, start with a lowercase letter, and contain only a-z, 0-9, hyphens, underscores",
            );
            assert(m@ =~= rejection_message(cleaned_handle(raw@)));
            return Err(AppError::Validation(m));
        }
        Ok(Handle(smol_new(cleaned.as_str())))
    }

    /// The handle's text, which is always a valid handle.
    pub fn as_str(&self) -> (r: &str)
        ensures
            r@ == self.chars(),
            valid_handle(r.spec_bytes()),
    {
        proof {
            use_type_invariant(self);
        }
        smol_as_str(&self.0)
    }

    pub fn into_string(self) -> (r: String)
        ensures
            r@ == self.chars(),
    {
        String::from_str(smol_as_str(&self.0))
    }

}

} // verus!
