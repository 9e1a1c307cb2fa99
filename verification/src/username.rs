//! Username (localpart) grammar and the validator.
//!
//! A localpart is accepted only when it is non-empty, at most
//! [`MAX_USERNAME_LEN`] characters long, and made solely of lowercase ASCII
//! letters, digits and the punctuation `.` `_` `=` `-` `/`. Validation is
//! pure: it runs before any persistence call and has no side effect.

use vstd::prelude::*;

use crate::errors::ErrorKind;

verus! {

/// Longest accepted localpart, in characters.
pub const MAX_USERNAME_LEN: usize = 255;

/// True of the characters the localpart grammar accepts: lowercase ASCII
/// letters, digits, and `.` `_` `=` `-` `/`.
pub open spec fn is_allowed_char(c: char) -> bool {
    (97 <= c as u32 && c as u32 <= 122)  // 'a' ..= 'z'
    || (48 <= c as u32 && c as u32 <= 57)  // '0' ..= '9'
    || c == '.' || c == '_' || c == '=' || c == '-' || c == '/'
}

/// True of the localparts the server accepts.
pub open spec fn is_valid_username(s: Seq<char>) -> bool {
    0 < s.len() <= MAX_USERNAME_LEN
    && (forall|i: int| 0 <= i < s.len() ==> is_allowed_char(#[trigger] s[i]))
}

/// Decides [`is_allowed_char`] for one character.
pub fn char_allowed(c: char) -> (b: bool)
    ensures
        b == is_allowed_char(c),
{
    let u = c as u32;
    (97 <= u && u <= 122) || (48 <= u && u <= 57)
        || c == '.' || c == '_' || c == '=' || c == '-' || c == '/'
}

/// Checks a candidate localpart against the grammar.
///
/// Returns `Ok(())` exactly when the candidate satisfies
/// [`is_valid_username`]; every rejection is `InvalidUsername`.
pub fn validate(candidate: &str) -> (r: Result<(), ErrorKind>)
    ensures
        r is Ok <==> is_valid_username(candidate@),
        r is Err ==> r == Err::<(), ErrorKind>(ErrorKind::InvalidUsername),
{
    let n = candidate.unicode_len();
    if n == 0 || n > MAX_USERNAME_LEN {
        return Err(ErrorKind::InvalidUsername);
    }
    let mut i: usize = 0;
    while i < n
        invariant
            n == candidate@.len(),
            0 < n <= MAX_USERNAME_LEN,
            i <= n,
            forall|j: int| 0 <= j < i ==> is_allowed_char(#[trigger] candidate@[j]),
        decreases n - i,
    {
        let c = candidate.get_char(i);
        if !char_allowed(c) {
            return Err(ErrorKind::InvalidUsername);
        }
        i += 1;
    }
    Ok(())
}

/// A single character outside the grammar set condemns the whole candidate:
/// whatever else the string holds, `validate` fails on it.
pub proof fn lemma_disallowed_char_invalidates(s: Seq<char>, i: int)
    requires
        0 <= i < s.len(),
        !is_allowed_char(s[i]),
    ensures
        !is_valid_username(s),
{
}

} // verus!
