//! Small helpers for moving between `&str`, `Vec<char>` and `String`.

use vstd::prelude::*;

verus! {

/// The characters of `s`, as an indexable vector.
pub fn to_chars(s: &str) -> (r: Vec<char>)
    ensures
        r@ == s@,
{
    let len = s.unicode_len();
    let mut r: Vec<char> = Vec::new();
    let mut i: usize = 0;
    while i < len
        invariant
            i <= len,
            len == s@.len(),
            r@ == s@.take(i as int),
        decreases len - i,
    {
        let c = s.get_char(i);
        r.push(c);
        proof {
            assert(r@ =~= s@.take(i + 1 as int));
        }
        i = i + 1;
    }
    proof {
        assert(s@.take(len as int) =~= s@);
    }
    r
}

/// Relies on `String`'s `FromIterator` impl: collecting the characters of a
/// vector yields the string with exactly those characters.
#[verifier::external_body]
pub fn chars_to_string(v: &Vec<char>) -> (r: String)
    ensures
        r@ == v@,
{
    v.iter().collect()
}

/// The characters of `s` between `lo` (inclusive) and `hi` (exclusive), as a
/// `String`.
pub fn range_to_string(s: &Vec<char>, lo: usize, hi: usize) -> (r: String)
    requires
        lo <= hi <= s@.len(),
    ensures
        r@ == s@.subrange(lo as int, hi as int),
{
    let mut part: Vec<char> = Vec::new();
    let mut i: usize = lo;
    while i < hi
        invariant
            lo <= i <= hi <= s@.len(),
            part@ == s@.subrange(lo as int, i as int),
        decreases hi - i,
    {
        part.push(s[i]);
        proof {
            assert(part@ =~= s@.subrange(lo as int, i + 1 as int));
        }
        i = i + 1;
    }
    chars_to_string(&part)
}

/// True iff the characters of `s` between `lo` and `hi` are exactly `pat`.
pub fn range_eq_str(s: &Vec<char>, lo: usize, hi: usize, pat: &str) -> (r: bool)
    requires
        lo <= hi <= s@.len(),
    ensures
        r == (s@.subrange(lo as int, hi as int) == pat@),
{
    let pat_len = pat.unicode_len();
    if hi - lo != pat_len {
        assert(s@.subrange(lo as int, hi as int).len() != pat@.len());
        return false;
    }
    let mut i: usize = 0;
    while i < pat_len
        invariant
            i <= pat_len,
            pat_len == pat@.len(),
            lo <= hi <= s@.len(),
            hi - lo == pat_len,
            forall|j: int| 0 <= j < i ==> s@.subrange(lo as int, hi as int)[j] == pat@[j],
        decreases pat_len - i,
    {
        if s[lo + i] != pat.get_char(i) {
            assert(s@.subrange(lo as int, hi as int)[i as int] != pat@[i as int]);
            return false;
        }
        i = i + 1;
    }
    assert(s@.subrange(lo as int, hi as int) =~= pat@);
    true
}

/// ASCII whitespace, as trimming understands it.
pub open spec fn is_space_char(c: char) -> bool {
    c == ' ' || c == '\t' || c == '\r' || c == '\n'
}

/// The first index at or after `i` whose character is not ASCII whitespace,
/// or `s.len()` if there is none.
pub open spec fn skip_spaces(s: Seq<char>, i: int) -> int
    recommends
        0 <= i <= s.len(),
    decreases s.len() - i when 0 <= i <= s.len()
{
    if i >= s.len() {
        i
    } else if is_space_char(s[i]) {
        skip_spaces(s, i + 1)
    } else {
        i
    }
}

/// The last index strictly before `j` (and at or after `lo`) whose character
/// is not ASCII whitespace, plus one; `lo` if there is none.
pub open spec fn rskip_spaces(s: Seq<char>, lo: int, j: int) -> int
    recommends
        0 <= lo <= j <= s.len(),
    decreases j - lo when 0 <= lo <= j
{
    if j <= lo {
        j
    } else if is_space_char(s[j - 1]) {
        rskip_spaces(s, lo, j - 1)
    } else {
        j
    }
}

/// `s[lo..hi]` with leading and trailing ASCII whitespace removed.
pub open spec fn trimmed(s: Seq<char>, lo: int, hi: int) -> Seq<char>
    recommends
        0 <= lo <= hi <= s.len(),
{
    let a = skip_spaces(s.subrange(lo, hi), 0);
    let b = rskip_spaces(s.subrange(lo, hi), a, s.subrange(lo, hi).len() as int);
    s.subrange(lo, hi).subrange(a, b)
}

proof fn lemma_skip_spaces_bounds(s: Seq<char>, i: int)
    requires
        0 <= i <= s.len(),
    ensures
        i <= skip_spaces(s, i) <= s.len(),
        forall|k: int| i <= k < skip_spaces(s, i) ==> is_space_char(s[k]),
        skip_spaces(s, i) < s.len() ==> !is_space_char(s[skip_spaces(s, i)]),
    decreases s.len() - i,
{
    if i < s.len() && is_space_char(s[i]) {
        lemma_skip_spaces_bounds(s, i + 1);
    }
}

proof fn lemma_rskip_spaces_bounds(s: Seq<char>, lo: int, j: int)
    requires
        0 <= lo <= j <= s.len(),
    ensures
        lo <= rskip_spaces(s, lo, j) <= j,
        forall|k: int| rskip_spaces(s, lo, j) <= k < j ==> is_space_char(s[k]),
        rskip_spaces(s, lo, j) > lo ==> !is_space_char(s[rskip_spaces(s, lo, j) - 1]),
    decreases j - lo,
{
    if j > lo && is_space_char(s[j - 1]) {
        lemma_rskip_spaces_bounds(s, lo, j - 1);
    }
}

/// The characters of `s[lo..hi]`, trimmed of surrounding ASCII whitespace, as
/// a `String`.
pub fn trimmed_range_to_string(s: &Vec<char>, lo: usize, hi: usize) -> (r: String)
    requires
        lo <= hi <= s@.len(),
    ensures
        r@ == trimmed(s@, lo as int, hi as int),
{
    let ghost sub = s@.subrange(lo as int, hi as int);
    let mut a: usize = lo;
    while a < hi && (s[a] == ' ' || s[a] == '\t' || s[a] == '\r' || s[a] == '\n')
        invariant
            lo <= a <= hi <= s@.len(),
            sub == s@.subrange(lo as int, hi as int),
            skip_spaces(sub, 0) == skip_spaces(sub, a - lo),
            forall|k: int| 0 <= k < a - lo ==> is_space_char(sub[k]),
        decreases hi - a,
    {
        proof {
            assert(s@.subrange(lo as int, hi as int)[a - lo] == s@[a as int]);
            assert(is_space_char(sub[a - lo]));
            assert(skip_spaces(sub, a - lo) == skip_spaces(sub, a + 1 - lo));
        }
        a = a + 1;
    }
    proof {
        if a < hi {
            assert(s@.subrange(lo as int, hi as int)[a - lo] == s@[a as int]);
        }
        assert(skip_spaces(sub, a - lo) == a - lo);
    }
    let mut b: usize = hi;
    while b > a && (s[b - 1] == ' ' || s[b - 1] == '\t' || s[b - 1] == '\r' || s[b - 1] == '\n')
        invariant
            lo <= a <= b <= hi <= s@.len(),
            sub == s@.subrange(lo as int, hi as int),
            skip_spaces(sub, 0) == a - lo,
            rskip_spaces(sub, a - lo, sub.len() as int) == rskip_spaces(sub, a - lo, b - lo),
        decreases b - a,
    {
        proof {
            assert(s@.subrange(lo as int, hi as int)[b - lo - 1] == s@[b - 1]);
            assert(is_space_char(sub[b - lo - 1]));
            assert(rskip_spaces(sub, a - lo, b - lo) == rskip_spaces(sub, a - lo, b - 1 - lo));
        }
        b = b - 1;
    }
    proof {
        if b > a {
            assert(s@.subrange(lo as int, hi as int)[b - lo - 1] == s@[b - 1]);
        }
        assert(rskip_spaces(sub, a - lo, b - lo) == b - lo);
    }
    let r = range_to_string(s, a, b);
    proof {
        assert(r@ =~= trimmed(s@, lo as int, hi as int));
    }
    r
}

/// An element-for-element copy of a vector of strings.
pub fn clone_strings(v: &Vec<String>) -> (r: Vec<String>)
    ensures
        r@ == v@,
{
    let mut r: Vec<String> = Vec::new();
    let n = v.len();
    let mut i: usize = 0;
    while i < n
        invariant
            i <= n == v@.len(),
            r@ == v@.take(i as int),
        decreases n - i,
    {
        r.push(v[i].clone());
        proof {
            assert(r@ =~= v@.take(i + 1));
        }
        i = i + 1;
    }
    proof {
        assert(v@.take(n as int) =~= v@);
    }
    r
}

} // verus!
