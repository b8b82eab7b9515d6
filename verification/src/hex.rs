//! Hexadecimal interpretation of a decoded escape payload.
//!
//! The rendered interior of an escape sequence is read as a base-16
//! numeral and resolved to a Unicode codepoint.

use vstd::prelude::*;
use vstd::string::StrSliceExecFns;

verus! {

/// The value of one hexadecimal digit character, or `-1` where the
/// character is no such digit. Both letter cases are digits.
pub open spec fn hex_digit_value(c: char) -> int {
    if 48 <= c as int && c as int <= 57 {
        c as int - 48
    } else if 97 <= c as int && c as int <= 102 {
        c as int - 87
    } else if 65 <= c as int && c as int <= 70 {
        c as int - 55
    } else {
        -1
    }
}

pub open spec fn is_hex_digit(c: char) -> bool {
    hex_digit_value(c) >= 0
}

pub open spec fn all_hex_digits(s: Seq<char>) -> bool {
    forall|i: int| 0 <= i < s.len() ==> is_hex_digit(#[trigger] s[i])
}

/// The numeric value of a digit string read in base 16, most significant
/// digit first.
pub open spec fn hex_value(s: Seq<char>) -> int
    decreases s.len(),
{
    if s.len() == 0 {
        0
    } else {
        hex_value(s.drop_last()) * 16 + hex_digit_value(s.last())
    }
}

/// Reading a text as an unsigned base-16 numeral: defined exactly when
/// the text is non-empty, consists of hexadecimal digits only, and its
/// value fits the result type.
pub open spec fn parse_hex_spec(s: Seq<char>) -> Option<u32> {
    if s.len() > 0 && all_hex_digits(s) && hex_value(s) <= u32::MAX {
        Some(hex_value(s) as u32)
    } else {
        None
    }
}

proof fn lemma_hex_value_nonneg(s: Seq<char>)
    requires
        all_hex_digits(s),
    ensures
        hex_value(s) >= 0,
    decreases s.len(),
{
    if s.len() > 0 {
        assert(all_hex_digits(s.drop_last()));
        lemma_hex_value_nonneg(s.drop_last());
    }
}

proof fn lemma_hex_value_monotone(s: Seq<char>, i: int)
    requires
        all_hex_digits(s),
        0 <= i <= s.len(),
    ensures
        hex_value(s) >= hex_value(s.take(i)),
    decreases s.len() - i,
{
    if i < s.len() {
        lemma_hex_value_monotone(s, i + 1);
        let t = s.take(i + 1);
        assert(t.drop_last() =~= s.take(i));
        assert(all_hex_digits(s.take(i))) by {
            assert(forall|k: int| 0 <= k < i ==> s.take(i)[k] == s[k]);
        }
        lemma_hex_value_nonneg(s.take(i));
        assert(t.last() == s[i]);
        assert(hex_digit_value(s[i]) >= 0);
        assert(hex_value(t) == hex_value(s.take(i)) * 16 + hex_digit_value(t.last()));
        assert(hex_value(s.take(i)) * 16 >= hex_value(s.take(i)));
    } else {
        assert(s.take(i) =~= s);
    }
}

/// Reads a text as an unsigned base-16 numeral. Returns the value
/// exactly when the text is a non-empty string of hexadecimal digits
/// whose value fits; `None` otherwise.
pub fn parse_hex(s: &str) -> (r: Option<u32>)
    ensures
        r == parse_hex_spec(s@),
{
    let n = s.unicode_len();
    if n == 0 {
        return None;
    }
    let mut acc: u32 = 0;
    let mut i: usize = 0;
    while i < n
        invariant
            n == s@.len(),
            0 < n,
            i <= n,
            all_hex_digits(s@.take(i as int)),
            acc == hex_value(s@.take(i as int)),
        decreases n - i,
    {
        let c = s.get_char(i);
        let v = c as u32;
        let d: u32 = if v >= 48 && v <= 57 {
            v - 48
        } else if v >= 97 && v <= 102 {
            v - 87
        } else if v >= 65 && v <= 70 {
            v - 55
        } else {
            proof {
                assert(s@.take(i as int + 1).last() == s@[i as int]);
                assert(!is_hex_digit(s@[i as int]));
            }
            return None;
        };
        proof {
            assert(d == hex_digit_value(s@[i as int]));
            assert(is_hex_digit(s@[i as int]));
        }
        if acc > (u32::MAX - d) / 16 {
            proof {
                let t = s@.take(i as int + 1);
                assert(t.drop_last() =~= s@.take(i as int));
                assert(t.last() == s@[i as int]);
                assert(hex_value(t) == acc * 16 + d);
                assert(all_hex_digits(t)) by {
                    assert(forall|k: int| 0 <= k <= i ==> t[k] == s@[k]);
                }
                assert(hex_value(t) > u32::MAX);
                if all_hex_digits(s@) {
                    lemma_hex_value_monotone(s@, i as int + 1);
                }
            }
            return None;
        }
        acc = acc * 16 + d;
        i = i + 1;
        proof {
            let t = s@.take(i as int);
            assert(t.drop_last() =~= s@.take(i as int - 1));
            assert(t.last() == s@[i as int - 1]);
            assert(all_hex_digits(t)) by {
                assert(forall|k: int| 0 <= k < i ==> t[k] == s@[k]);
            }
        }
    }
    proof {
        assert(s@.take(n as int) =~= s@);
    }
    Some(acc)
}

/// A value that names a Unicode scalar: below the surrogate range or
/// between it and the greatest codepoint.
pub open spec fn valid_scalar(v: u32) -> bool {
    v < 0xD800 || (0xE000 <= v && v <= 0x10FFFF)
}

/// The codepoint resolution of a numeric value.
pub open spec fn resolve_scalar(v: u32) -> Option<char> {
    if valid_scalar(v) {
        Some(v as char)
    } else {
        None
    }
}

/// Relies on `char::from_u32`: returns the character with the given
/// numeric value exactly when that value is a Unicode scalar (not a
/// surrogate, at most `0x10FFFF`), and `None` otherwise.
#[verifier::external_body]
pub fn char_from_u32(v: u32) -> (r: Option<char>)
    ensures
        r == resolve_scalar(v),
{
    char::from_u32(v)
}

} // verus!
