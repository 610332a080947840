//! Action, argument, capability and binding identifiers.

use vstd::prelude::*;
use vstd::utf8::encode_utf8;
use vstd::string::StringSliceAdditionalSpecFns;

use crate::strings::{debug_quote_text, debug_quoted, lowercase_text, lowercased, trim_text, trimmed};

verus! {

pub const MAX_IDENTIFIER_BYTES: usize = 128;

pub open spec fn is_identifier_char(c: char) -> bool {
    ('a' <= c && c <= 'z') || ('0' <= c && c <= '9') || c == '.' || c == '-'
}

pub open spec fn is_separator(c: char) -> bool {
    c == '.' || c == '-'
}

/// Lowercase ASCII segments separated by '.', where a segment is non-empty,
/// neither starts nor ends with '-' and has no "--". Equivalently: only
/// `[a-z0-9.-]`, no separator at either end and no two adjacent separators.
pub open spec fn valid_identifier_chars(s: Seq<char>) -> bool {
    &&& forall|i: int| 0 <= i < s.len() ==> is_identifier_char(#[trigger] s[i])
    &&& !is_separator(s[0])
    &&& !is_separator(s[s.len() - 1])
    &&& forall|i: int| 0 < i < s.len() ==> !(is_separator(s[i - 1]) && is_separator(#[trigger] s[i]))
}

/// The character at `i` is allowed and does not follow another separator.
pub open spec fn char_ok_at(s: Seq<char>, i: int) -> bool {
    is_identifier_char(s[i]) && !(i > 0 && is_separator(s[i - 1]) && is_separator(s[i]))
}

/// Between 1 and 128 bytes of well-formed identifier text.
pub open spec fn valid_identifier(s: Seq<char>) -> bool {
    &&& s.len() > 0
    &&& encode_utf8(s).len() <= MAX_IDENTIFIER_BYTES
    &&& valid_identifier_chars(s)
}

/// Checks an identifier of the given `kind` ("action", "argument", ...).
/// The message of an identifier of `kind` that is refused.
pub open spec fn identifier_error(kind: Seq<char>, value: Seq<char>) -> Seq<char> {
    if value.len() == 0 || encode_utf8(value).len() > MAX_IDENTIFIER_BYTES {
        kind + " identifier must contain 1..=128 bytes"@
    } else {
        kind + " identifier "@ + debug_quoted(value)
            + " must use lowercase ASCII segments separated by '.' or '-'"@
    }
}

pub fn validate_identifier(kind: &str, value: &str) -> (r: Result<(), String>)
    ensures
        r.is_ok() == valid_identifier(value@),
        r matches Err(m) ==> m@ == identifier_error(kind@, value@),
{
    if value.is_empty() || value.as_bytes().len() > MAX_IDENTIFIER_BYTES {
        let mut message = String::from_str(kind);
        message.append(" identifier must contain 1..=128 bytes");
        return Err(message);
    }
    let n = value.unicode_len();
    let mut i: usize = 0;
    let mut ok = true;
    while i < n
        invariant
            n == value@.len(),
            n > 0,
            i <= n,
            ok == (forall|j: int| 0 <= j < i ==> char_ok_at(value@, j)),
        decreases n - i,
    {
        let c = value.get_char(i);
        let good = ('a' <= c && c <= 'z') || ('0' <= c && c <= '9') || c == '.' || c == '-';
        let mut adjacent = false;
        if i > 0 {
            let p = value.get_char(i - 1);
            adjacent = (p == '.' || p == '-') && (c == '.' || c == '-');
        }
        proof {
            assert((good && !adjacent) == char_ok_at(value@, i as int));
            if ok && good && !adjacent {
                assert forall|j: int| 0 <= j < i + 1 implies char_ok_at(value@, j) by {
                    if j < i {
                    }
                }
            }
            if !(good && !adjacent) {
                assert(!char_ok_at(value@, i as int));
            }
        }
        ok = ok && good && !adjacent;
        i = i + 1;
    }
    proof {
        if ok {
            assert forall|j: int| 0 <= j < n implies is_identifier_char(#[trigger] value@[j]) by {
                assert(char_ok_at(value@, j));
            }
            assert forall|j: int| 0 < j < n implies !(is_separator(value@[j - 1]) && is_separator(
                #[trigger] value@[j])) by {
                assert(char_ok_at(value@, j));
            }
        } else {
            let j = choose|j: int| 0 <= j < n && !char_ok_at(value@, j);
            if !is_identifier_char(value@[j]) {
            } else {
                assert(!(is_separator(value@[j - 1]) && is_separator(value@[j])) == false);
            }
        }
    }
    let first = value.get_char(0);
    let last = value.get_char(n - 1);
    if !ok || first == '.' || first == '-' || last == '.' || last == '-' {
        let mut message = String::from_str(kind);
        message.append(" identifier ");
        let quoted = debug_quote_text(value);
        message.append(quoted.as_str());
        message.append(" must use lowercase ASCII segments separated by '.' or '-'");
        return Err(message);
    }
    proof {
        assert(value.spec_bytes() == encode_utf8(value@));
        assert(valid_identifier_chars(value@));
    }
    Ok(())
}

/// The canonical key name: trimmed, then lowercased.
pub open spec fn normalized_key(key: Seq<char>) -> Seq<char> {
    lowercased(trimmed(key))
}

pub fn normalize_key(key: &str) -> (r: String)
    ensures
        r@ == normalized_key(key@),
{
    lowercase_text(trim_text(key))
}

} // verus!
