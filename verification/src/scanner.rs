//! Glob matching over candidate file paths.
//!
//! Pattern semantics: `**/*.rs` matches by suffix, `dir/**` matches by
//! prefix, and any other pattern matches when its literal fragments, split
//! at `*`, occur in the path in order, each found at the earliest position
//! after the previous one.

use vstd::prelude::*;

use crate::strutil::to_chars;
use crate::verb::str_eq;

verus! {

/// `s` ends with `suffix`.
pub open spec fn ends_with(s: Seq<char>, suffix: Seq<char>) -> bool {
    s.len() >= suffix.len() && s.subrange(s.len() - suffix.len(), s.len() as int) == suffix
}

/// `s` starts with `prefix`.
pub open spec fn starts_with(s: Seq<char>, prefix: Seq<char>) -> bool {
    s.len() >= prefix.len() && s.subrange(0, prefix.len() as int) == prefix
}

/// The literal fragments of a pattern, split at `*`, empty fragments
/// dropped, as index ranges.
pub open spec fn star_frags(s: Seq<char>, i: int, hi: int) -> Seq<(int, int)>
    recommends
        0 <= i <= hi <= s.len(),
    decreases hi - i when 0 <= i <= hi <= s.len()
        via star_frags_decreases
{
    let a = crate::spec_doc_model::skip_char(s, i, hi, '*');
    if a >= hi {
        seq![]
    } else {
        let b = crate::spec_doc_model::find_char(s, a, hi, '*');
        seq![(a, b)] + star_frags(s, b, hi)
    }
}

#[via_fn]
proof fn star_frags_decreases(s: Seq<char>, i: int, hi: int) {
    crate::spec_doc_model::lemma_skip_char_bounds(s, i, hi, '*');
    let a = crate::spec_doc_model::skip_char(s, i, hi, '*');
    if a < hi {
        crate::spec_doc_model::lemma_find_char_bounds(s, a, hi, '*');
    }
}

/// The fragment `frag` occurs in `hay` at position `pos`.
pub open spec fn frag_at(hay: Seq<char>, frag: Seq<char>, pos: int) -> bool {
    0 <= pos && pos + frag.len() <= hay.len() && hay.subrange(pos, pos + frag.len()) == frag
}

/// The earliest position at or after `from` where `frag` occurs in `hay`,
/// or `hay.len()` if there is none at all (fragments are nonempty, so the
/// sentinel is unambiguous).
pub open spec fn find_frag(hay: Seq<char>, frag: Seq<char>, from: int) -> int
    recommends
        0 <= from <= hay.len(),
    decreases hay.len() - from when from <= hay.len()
{
    if from + frag.len() > hay.len() {
        hay.len() as int
    } else if frag.len() == 0 {
        from
    } else if hay.subrange(from, from + frag.len()) == frag {
        from
    } else {
        find_frag(hay, frag, from + 1)
    }
}

pub proof fn lemma_find_frag_bounds(hay: Seq<char>, frag: Seq<char>, from: int)
    requires
        0 <= from <= hay.len(),
    ensures
        from <= find_frag(hay, frag, from) <= hay.len(),
        find_frag(hay, frag, from) + frag.len() <= hay.len() ==> frag_at(
            hay,
            frag,
            find_frag(hay, frag, from),
        ),
    decreases hay.len() - from,
{
    if frag.len() == 0 {
        assert(hay.subrange(from, from + frag.len()) =~= frag);
    } else if from + frag.len() <= hay.len() && hay.subrange(from, from + frag.len()) != frag {
        lemma_find_frag_bounds(hay, frag, from + 1);
    }
}

/// Greedy in-order matching of the pattern fragments `frags` (ranges into
/// `pat`) against `hay`, starting at `from`.
pub open spec fn greedy_frags(
    hay: Seq<char>,
    pat: Seq<char>,
    frags: Seq<(int, int)>,
    from: int,
) -> bool
    decreases frags.len(),
{
    if frags.len() == 0 {
        true
    } else {
        let frag = pat.subrange(frags[0].0, frags[0].1);
        let p = find_frag(hay, frag, from);
        if p + frag.len() > hay.len() {
            false
        } else {
            greedy_frags(hay, pat, frags.drop_first(), p + frag.len())
        }
    }
}

/// The glob `pat` matches the path `s`: `**/*.rs` by suffix, `dir/**` by
/// prefix, anything else by its literal fragments in order.
pub open spec fn glob_matches(s: Seq<char>, pat: Seq<char>) -> bool {
    if pat == "**/*.rs"@ {
        ends_with(s, ".rs"@)
    } else if pat.len() >= 3 && pat.subrange(pat.len() - 3, pat.len() as int) == "/**"@ {
        starts_with(s, pat.subrange(0, pat.len() - 3))
    } else {
        greedy_frags(s, pat, star_frags(pat, 0, pat.len() as int), 0)
    }
}

/// The ranges `a[alo..ahi]` and `b[blo..bhi]` hold the same characters.
fn ranges_eq(a: &Vec<char>, alo: usize, ahi: usize, b: &Vec<char>, blo: usize, bhi: usize) -> (r:
    bool)
    requires
        alo <= ahi <= a@.len(),
        blo <= bhi <= b@.len(),
    ensures
        r == (a@.subrange(alo as int, ahi as int) == b@.subrange(blo as int, bhi as int)),
{
    if ahi - alo != bhi - blo {
        proof {
            assert(a@.subrange(alo as int, ahi as int).len() != b@.subrange(
                blo as int,
                bhi as int,
            ).len());
        }
        return false;
    }
    let n = ahi - alo;
    let mut i: usize = 0;
    while i < n
        invariant
            i <= n,
            alo <= ahi <= a@.len(),
            blo <= bhi <= b@.len(),
            n == ahi - alo == bhi - blo,
            forall|j: int|
                0 <= j < i ==> a@.subrange(alo as int, ahi as int)[j] == b@.subrange(
                    blo as int,
                    bhi as int,
                )[j],
        decreases n - i,
    {
        if a[alo + i] != b[blo + i] {
            proof {
                assert(a@.subrange(alo as int, ahi as int)[i as int] == a@[alo + i]);
                assert(b@.subrange(blo as int, bhi as int)[i as int] == b@[blo + i]);
            }
            return false;
        }
        proof {
            assert(a@.subrange(alo as int, ahi as int)[i as int] == a@[alo + i]);
            assert(b@.subrange(blo as int, bhi as int)[i as int] == b@[blo + i]);
        }
        i = i + 1;
    }
    proof {
        assert(a@.subrange(alo as int, ahi as int) =~= b@.subrange(blo as int, bhi as int));
    }
    true
}

/// The earliest occurrence of `pat[f0..f1]` in `hay` at or after `from`.
fn find_frag_exec(hay: &Vec<char>, pat: &Vec<char>, f0: usize, f1: usize, from: usize) -> (r:
    usize)
    requires
        f0 <= f1 <= pat@.len(),
        from <= hay@.len(),
    ensures
        r == find_frag(hay@, pat@.subrange(f0 as int, f1 as int), from as int),
        from <= r <= hay@.len(),
{
    let ghost frag = pat@.subrange(f0 as int, f1 as int);
    let flen = f1 - f0;
    let n = hay.len();
    if flen == 0 {
        return from;
    }
    let mut p = from;
    while n - p >= flen && !ranges_eq(hay, p, p + flen, pat, f0, f1)
        invariant
            from <= p <= n == hay@.len(),
            f0 <= f1 <= pat@.len(),
            flen == f1 - f0,
            flen == frag.len(),
            flen > 0,
            frag == pat@.subrange(f0 as int, f1 as int),
            find_frag(hay@, frag, from as int) == find_frag(hay@, frag, p as int),
        decreases n - p,
    {
        p = p + 1;
    }
    if n - p >= flen {
        p
    } else {
        proof {
            assert(find_frag(hay@, frag, p as int) == n);
        }
        n
    }
}

/// Simple glob matching, supporting `*` and `**`.
pub fn matches_glob(path: &str, pattern: &str) -> (r: bool)
    ensures
        r == glob_matches(path@, pattern@),
{
    proof {
        reveal_strlit("**/*.rs");
        reveal_strlit(".rs");
        reveal_strlit("/**");
    }
    if str_eq(pattern, "**/*.rs") {
        let p = to_chars(path);
        let n = p.len();
        if n < 3 {
            return false;
        }
        let r = crate::strutil::range_eq_str(&p, n - 3, n, ".rs");
        return r;
    }
    let pat = to_chars(pattern);
    let m = pat.len();
    if m >= 3 && crate::strutil::range_eq_str(&pat, m - 3, m, "/**") {
        let p = to_chars(path);
        let n = p.len();
        if n < m - 3 {
            return false;
        }
        let r = ranges_eq(&p, 0, m - 3, &pat, 0, m - 3);
        return r;
    }
    let hay = to_chars(path);
    let n = hay.len();
    let ghost gfrags = star_frags(pat@, 0, m as int);
    let mut i: usize = 0;
    let mut from: usize = 0;
    let ghost mut seen: int = 0;
    proof {
        assert(greedy_frags(hay@, pat@, star_frags(pat@, 0, m as int), 0) == greedy_frags(
            hay@,
            pat@,
            star_frags(pat@, i as int, m as int),
            from as int,
        ));
    }
    let mut result = false;
    loop
        invariant_except_break
            i <= m == pat@.len(),
            from <= n == hay@.len(),
            glob_matches(path@, pattern@) == greedy_frags(
                hay@,
                pat@,
                star_frags(pat@, i as int, m as int),
                from as int,
            ),
        ensures
            glob_matches(path@, pattern@) == result,
        decreases m - i,
    {
        let a = {
            let mut k = i;
            while k < m && pat[k] == '*'
                invariant
                    i <= k <= m == pat@.len(),
                    crate::spec_doc_model::skip_char(pat@, i as int, m as int, '*')
                        == crate::spec_doc_model::skip_char(pat@, k as int, m as int, '*'),
                decreases m - k,
            {
                k = k + 1;
            }
            k
        };
        if a >= m {
            proof {
                assert(star_frags(pat@, i as int, m as int) =~= Seq::<(int, int)>::empty());
            }
            result = true;
            break;
        }
        let b = {
            let mut k = a;
            while k < m && pat[k] != '*'
                invariant
                    a <= k <= m == pat@.len(),
                    crate::spec_doc_model::find_char(pat@, a as int, m as int, '*')
                        == crate::spec_doc_model::find_char(pat@, k as int, m as int, '*'),
                decreases m - k,
            {
                k = k + 1;
            }
            k
        };
        proof {
            let fr = star_frags(pat@, i as int, m as int);
            assert(fr == seq![(a as int, b as int)] + star_frags(pat@, b as int, m as int));
            assert(fr[0] == (a as int, b as int));
            assert(fr.drop_first() =~= star_frags(pat@, b as int, m as int));
        }
        let p = find_frag_exec(&hay, &pat, a, b, from);
        if n - p < b - a {
            proof {
                crate::spec_doc_model::lemma_find_char_bounds(pat@, a as int, m as int, '*');
                lemma_find_frag_bounds(hay@, pat@.subrange(a as int, b as int), from as int);
            }
            result = false;
            break;
        }
        proof {
            crate::spec_doc_model::lemma_find_char_bounds(pat@, a as int, m as int, '*');
        }
        from = p + (b - a);
        i = b;
    }
    result
}

/// Whether the path matches any of the include patterns; an empty pattern
/// list includes everything.
pub fn is_included(path: &str, patterns: &Vec<String>) -> (r: bool)
    ensures
        r == (patterns@.len() == 0 || exists|t: int|
            0 <= t < patterns@.len() && glob_matches(path@, (#[trigger] patterns@[t])@)),
{
    if patterns.len() == 0 {
        return true;
    }
    let n = patterns.len();
    let mut i: usize = 0;
    while i < n
        invariant
            i <= n == patterns@.len(),
            forall|t: int| 0 <= t < i ==> !glob_matches(path@, (#[trigger] patterns@[t])@),
        decreases n - i,
    {
        if matches_glob(path, patterns[i].as_str()) {
            return true;
        }
        i = i + 1;
    }
    false
}

/// Whether the path matches any of the exclude patterns.
pub fn is_excluded(path: &str, patterns: &Vec<String>) -> (r: bool)
    ensures
        r == exists|t: int|
            0 <= t < patterns@.len() && glob_matches(path@, (#[trigger] patterns@[t])@),
{
    let n = patterns.len();
    let mut i: usize = 0;
    while i < n
        invariant
            i <= n == patterns@.len(),
            forall|t: int| 0 <= t < i ==> !glob_matches(path@, (#[trigger] patterns@[t])@),
        decreases n - i,
    {
        if matches_glob(path, patterns[i].as_str()) {
            return true;
        }
        i = i + 1;
    }
    false
}

} // verus!
