//! The mathematical model of the two extraction passes.
//!
//! The first pass scans each line's line comment (everything from the first
//! `//` to the end of the line). The second pass scans block comments: a
//! `/*` opens one, and its content up to the closing `*/` is scanned as one
//! unit attributed to the line where the block opened. A line holds at most
//! one block event; an unterminated block is dropped.

use vstd::prelude::*;

use crate::scan_model::{RefModel, WarnModel, items_refs, items_warns, scan_items};
use crate::strutil::trimmed;

verus! {

/// The first `'\n'` at or after `i`, or the text's length if there is none.
pub open spec fn line_end(s: Seq<char>, i: int) -> int
    recommends
        0 <= i <= s.len(),
    decreases s.len() - i when i <= s.len()
{
    if i >= s.len() {
        s.len() as int
    } else if s[i] == '\n' {
        i
    } else {
        line_end(s, i + 1)
    }
}

pub proof fn lemma_line_end_bounds(s: Seq<char>, i: int)
    requires
        0 <= i <= s.len(),
    ensures
        i <= line_end(s, i) <= s.len(),
        forall|k: int| i <= k < line_end(s, i) ==> s[k] != '\n',
        line_end(s, i) < s.len() ==> s[line_end(s, i)] == '\n',
    decreases s.len() - i,
{
    if i < s.len() && s[i] != '\n' {
        lemma_line_end_bounds(s, i + 1);
    }
}

/// The first position `p` in `[i, b-1)` with `s[p] == c1` and
/// `s[p+1] == c2`, or `b` if there is none.
pub open spec fn find_pair(s: Seq<char>, i: int, b: int, c1: char, c2: char) -> int
    recommends
        0 <= i <= b <= s.len(),
    decreases b - i when i <= b
{
    if i + 1 >= b {
        b
    } else if s[i] == c1 && s[i + 1] == c2 {
        i
    } else {
        find_pair(s, i + 1, b, c1, c2)
    }
}

pub proof fn lemma_find_pair_bounds(s: Seq<char>, i: int, b: int, c1: char, c2: char)
    requires
        0 <= i <= b <= s.len(),
    ensures
        find_pair(s, i, b, c1, c2) == b || (i <= find_pair(s, i, b, c1, c2) < b - 1),
        find_pair(s, i, b, c1, c2) < b ==> s[find_pair(s, i, b, c1, c2)] == c1 && s[find_pair(
            s,
            i,
            b,
            c1,
            c2,
        ) + 1] == c2,
    decreases b - i,
{
    if i + 1 < b && !(s[i] == c1 && s[i + 1] == c2) {
        lemma_find_pair_bounds(s, i + 1, b, c1, c2);
    }
}

/// What one pass produces: references and warnings, in scan order.
pub struct PassOut {
    pub refs: Seq<RefModel>,
    pub warns: Seq<WarnModel>,
}

/// An empty pass result.
pub open spec fn pass_empty() -> PassOut {
    PassOut { refs: seq![], warns: seq![] }
}

/// Two pass results, one after the other.
pub open spec fn pass_cat(x: PassOut, y: PassOut) -> PassOut {
    PassOut { refs: x.refs + y.refs, warns: x.warns + y.warns }
}

/// The result of scanning the region `s[lo..hi]` as one comment attributed
/// to `line`.
pub open spec fn region_out(s: Seq<char>, lo: int, hi: int, line: int) -> PassOut
    recommends
        0 <= lo <= hi <= s.len(),
{
    let items = scan_items(s, lo, hi);
    PassOut { refs: items_refs(items, line, trimmed(s, lo, hi)), warns: items_warns(items) }
}

/// What the line-comment pass produces for the single line `[a, b)`,
/// numbered `ln`: the scan of everything from the first `//` to the end of
/// the line, or nothing if the line has no `//`.
pub open spec fn line_comment_out(s: Seq<char>, a: int, b: int, ln: int) -> PassOut
    recommends
        0 <= a <= b <= s.len(),
{
    let p = find_pair(s, a, b, '/', '/');
    if p < b {
        region_out(s, p, b, ln)
    } else {
        pass_empty()
    }
}

/// The line-comment pass over the lines from position `a` on, the first of
/// them numbered `ln`.
pub open spec fn pass1(s: Seq<char>, a: int, ln: int) -> PassOut
    recommends
        0 <= a <= s.len(),
    decreases s.len() - a when 0 <= a <= s.len()
        via pass1_decreases
{
    let b = line_end(s, a);
    let cur = line_comment_out(s, a, b, ln);
    if b >= s.len() {
        cur
    } else {
        pass_cat(cur, pass1(s, b + 1, ln + 1))
    }
}

#[via_fn]
proof fn pass1_decreases(s: Seq<char>, a: int, ln: int) {
    lemma_line_end_bounds(s, a);
}

/// The block-comment pass over the lines from position `a` on, the first of
/// them numbered `ln`, with no block open.
///
/// A line that opens a block with `/*` either closes it on the same line
/// (the content between the markers is scanned at once) or leaves it open;
/// the rest of a line that closes a block is ignored.
pub open spec fn pass2(s: Seq<char>, a: int, ln: int) -> PassOut
    recommends
        0 <= a <= s.len(),
    decreases s.len() - a, 0int when 0 <= a <= s.len()
        via pass2_decreases
{
    let b = line_end(s, a);
    let p = find_pair(s, a, b, '/', '*');
    if p < b {
        let cs = p + 2;
        let q = find_pair(s, cs, b, '*', '/');
        if q < b {
            let cur = region_out(s, cs, q, ln);
            if b >= s.len() {
                cur
            } else {
                pass_cat(cur, pass2(s, b + 1, ln + 1))
            }
        } else {
            if b >= s.len() {
                pass_empty()
            } else {
                pass2_in(s, b + 1, ln + 1, cs, ln)
            }
        }
    } else {
        if b >= s.len() {
            pass_empty()
        } else {
            pass2(s, b + 1, ln + 1)
        }
    }
}

#[via_fn]
proof fn pass2_decreases(s: Seq<char>, a: int, ln: int) {
    lemma_line_end_bounds(s, a);
    let b = line_end(s, a);
    let p = find_pair(s, a, b, '/', '*');
    if p < b {
        lemma_find_pair_bounds(s, a, b, '/', '*');
    }
}

/// The block-comment pass while a block that opened on line `bl`, with
/// content starting at position `cs`, is still open at the line starting at
/// `a`.
pub open spec fn pass2_in(s: Seq<char>, a: int, ln: int, cs: int, bl: int) -> PassOut
    recommends
        0 <= cs <= a <= s.len(),
    decreases s.len() - a, 1int when 0 <= cs <= a <= s.len()
        via pass2_in_decreases
{
    let b = line_end(s, a);
    let q = find_pair(s, a, b, '*', '/');
    if q < b {
        let cur = region_out(s, cs, q, bl);
        if b >= s.len() {
            cur
        } else {
            pass_cat(cur, pass2(s, b + 1, ln + 1))
        }
    } else {
        if b >= s.len() {
            pass_empty()
        } else {
            pass2_in(s, b + 1, ln + 1, cs, bl)
        }
    }
}

#[via_fn]
proof fn pass2_in_decreases(s: Seq<char>, a: int, ln: int, cs: int, bl: int) {
    lemma_line_end_bounds(s, a);
}

/// Everything extraction produces on `s`: the whole line-comment pass, then
/// the whole block-comment pass.
pub open spec fn extract_model(s: Seq<char>) -> PassOut {
    pass_cat(pass1(s, 0, 1), pass2(s, 0, 1))
}

} // verus!
