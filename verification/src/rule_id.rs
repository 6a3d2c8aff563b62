//! The rule-identifier grammar.
//!
//! A rule id is a hierarchical, lowercase identifier such as
//! `channel.id.allocation`: it starts with a lowercase letter, consists only
//! of lowercase letters, digits, hyphens and dots, contains at least one dot,
//! never starts or ends with a dot, and has no empty segment.

use vstd::prelude::*;

verus! {

/// A lowercase ASCII letter.
pub open spec fn is_lower_char(c: char) -> bool {
    97 <= (c as u32) && (c as u32) <= 122
}

/// An ASCII digit.
pub open spec fn is_digit_char(c: char) -> bool {
    48 <= (c as u32) && (c as u32) <= 57
}

/// An ASCII uppercase letter.
pub open spec fn is_upper_char(c: char) -> bool {
    65 <= (c as u32) && (c as u32) <= 90
}

/// A character allowed inside a rule-id segment.
pub open spec fn is_segment_char(c: char) -> bool {
    is_lower_char(c) || is_digit_char(c) || c == '-'
}

/// A character allowed anywhere in a rule id (segment characters and the dot).
pub open spec fn is_id_char(c: char) -> bool {
    is_segment_char(c) || c == '.'
}

/// The rule-id grammar `[a-z][a-z0-9-]*(\.[a-z0-9-]+)+`: lowercase-first,
/// id characters throughout, at least one dot, no trailing dot, and no two
/// adjacent dots.
pub open spec fn valid_rule_id(s: Seq<char>) -> bool {
    &&& s.len() > 0
    &&& is_lower_char(s[0])
    &&& forall|i: int| 0 <= i < s.len() ==> is_id_char(#[trigger] s[i])
    &&& exists|i: int| 0 <= i < s.len() && #[trigger] s[i] == '.'
    &&& s[s.len() - 1] != '.'
    &&& forall|i: int| 0 < i < s.len() ==> !(#[trigger] s[i] == '.' && s[i - 1] == '.')
}

/// Whether the characters of `s` between `lo` (inclusive) and `hi`
/// (exclusive) form a valid rule id.
pub fn valid_rule_id_range(s: &Vec<char>, lo: usize, hi: usize) -> (r: bool)
    requires
        lo <= hi <= s@.len(),
    ensures
        r == valid_rule_id(s@.subrange(lo as int, hi as int)),
{
    let ghost sub = s@.subrange(lo as int, hi as int);
    if lo == hi {
        return false;
    }
    let c0 = s[lo] as u32;
    if !(97 <= c0 && c0 <= 122) {
        assert(!is_lower_char(sub[0]));
        return false;
    }
    let mut i: usize = lo;
    let mut seen_dot = false;
    while i < hi
        invariant
            lo <= i <= hi <= s@.len(),
            sub == s@.subrange(lo as int, hi as int),
            forall|k: int| 0 <= k < i - lo ==> is_id_char(#[trigger] sub[k]),
            seen_dot == exists|k: int| 0 <= k < i - lo && #[trigger] sub[k] == '.',
            forall|k: int| 0 < k < i - lo ==> !(#[trigger] sub[k] == '.' && sub[k - 1] == '.'),
        decreases hi - i,
    {
        let c = s[i];
        proof {
            assert(sub[i - lo] == s@[i as int]);
            if i > lo {
                assert(sub[i - lo - 1] == s@[i - 1]);
            }
        }
        let u = c as u32;
        let is_seg = (97 <= u && u <= 122) || (48 <= u && u <= 57) || c == '-';
        if c == '.' {
            if i > lo && s[i - 1] == '.' {
                assert(sub[i - lo] == '.' && sub[i - lo - 1] == '.');
                return false;
            }
            seen_dot = true;
        } else if !is_seg {
            assert(!is_id_char(sub[i - lo]));
            return false;
        }
        i = i + 1;
    }
    if !seen_dot {
        return false;
    }
    if s[hi - 1] == '.' {
        assert(sub[sub.len() - 1] == '.');
        return false;
    }
    true
}

/// Whether `s` is a valid rule id.
pub fn is_valid_rule_id(s: &str) -> (r: bool)
    ensures
        r == valid_rule_id(s@),
{
    let chars = crate::strutil::to_chars(s);
    let n = chars.len();
    let r = valid_rule_id_range(&chars, 0, n);
    proof {
        assert(chars@.subrange(0, n as int) =~= s@);
    }
    r
}

/// A valid rule id contains no uppercase letter, no space and no bracket.
pub proof fn lemma_valid_rule_id_chars(s: Seq<char>)
    requires
        valid_rule_id(s),
    ensures
        forall|i: int| 0 <= i < s.len() ==> !is_upper_char(#[trigger] s[i]),
        forall|i: int| 0 <= i < s.len() ==> #[trigger] s[i] != ' ',
        forall|i: int| 0 <= i < s.len() ==> #[trigger] s[i] != '[' && s[i] != ']',
{
    assert forall|i: int| 0 <= i < s.len() implies !is_upper_char(#[trigger] s[i]) && s[i] != ' '
        && s[i] != '[' && s[i] != ']' by {
        assert(is_id_char(s[i]));
    }
}

} // verus!
