//! Validation of question identifiers.
//!
//! The store's native identifiers are 12-byte object ids rendered as
//! 24-character hexadecimal strings. A submitted identifier is parsed
//! by the store driver exactly when it has that form, so the handler
//! logic decides client-error-or-not with this check.

use vstd::prelude::*;

verus! {

/// A hexadecimal digit, upper or lower case.
pub open spec fn is_hex_digit(c: char) -> bool {
    ('0' <= c && c <= '9') || ('a' <= c && c <= 'f') || ('A' <= c && c <= 'F')
}

/// A well-formed identifier: exactly 24 hexadecimal characters.
pub open spec fn is_object_id(s: Seq<char>) -> bool {
    s.len() == 24 && forall|i: int| 0 <= i < s.len() ==> is_hex_digit(#[trigger] s[i])
}

/// Decides whether `s` is a well-formed 24-character hexadecimal
/// identifier, the exact set of strings the store's id parser accepts.
pub fn validate_object_id(s: &str) -> (r: bool)
    ensures
        r == is_object_id(s@),
{
    let len = s.unicode_len();
    if len != 24 {
        return false;
    }
    let mut i: usize = 0;
    while i < 24
        invariant
            0 <= i <= 24,
            s@.len() == 24,
            forall|j: int| 0 <= j < i ==> is_hex_digit(#[trigger] s@[j]),
        decreases 24 - i,
    {
        let c = s.get_char(i);
        let ok = ('0' <= c && c <= '9') || ('a' <= c && c <= 'f') || ('A' <= c && c <= 'F');
        if !ok {
            return false;
        }
        i = i + 1;
    }
    true
}

} // verus!
