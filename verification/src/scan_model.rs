//! The mathematical model of the reference scanner.
//!
//! A candidate comment text is scanned for `[...]` constructs. A bracket
//! holds either a bare rule id (`[channel.id]`, the legacy form, read as an
//! implementation reference) or a verb, one space and a rule id
//! (`[verify channel.id]`). A first token that is not a known verb abandons
//! the whole bracket with an unknown-verb warning and never falls back to the
//! legacy form; a verb-prefixed bracket whose remainder is not a well-formed
//! rule id yields a malformed-reference warning.

use vstd::prelude::*;

use crate::rule_id::{is_id_char, is_lower_char, valid_rule_id};
use crate::verb::{RefVerb, is_verb_chars, verb_of_chars};

verus! {

/// One event produced while scanning a candidate text: a recognized
/// reference, or a warning with its span as character positions into the
/// scanned sequence.
pub enum ScanItem {
    /// A recognized rule reference.
    Reference { verb: RefVerb, id: Seq<char> },
    /// A bracket whose first token is no known verb; the span covers the
    /// token.
    UnknownVerb { verb: Seq<char>, start: int, end: int },
    /// A verb-prefixed bracket whose remainder is not a well-formed rule id;
    /// the span covers the construct.
    Malformed { start: int, end: int },
}

/// The first position in `[i, hi)` whose character is not a rule-id
/// character, or `hi` if all of them are.
pub open spec fn token_end(s: Seq<char>, i: int, hi: int) -> int
    recommends
        0 <= i <= hi <= s.len(),
    decreases hi - i when i <= hi
{
    if i >= hi {
        hi
    } else if !is_id_char(s[i]) {
        i
    } else {
        token_end(s, i + 1, hi)
    }
}

pub proof fn lemma_token_end_bounds(s: Seq<char>, i: int, hi: int)
    requires
        0 <= i <= hi <= s.len(),
    ensures
        i <= token_end(s, i, hi) <= hi,
        forall|k: int| i <= k < token_end(s, i, hi) ==> is_id_char(#[trigger] s[k]),
        token_end(s, i, hi) < hi ==> !is_id_char(s[token_end(s, i, hi)]),
    decreases hi - i,
{
    if i < hi && is_id_char(s[i]) {
        lemma_token_end_bounds(s, i + 1, hi);
    }
}

/// What scanning one bracket (whose `[` stands at `i`) produces, and where
/// scanning resumes.
pub struct BracketResult {
    pub items: Seq<ScanItem>,
    pub next: int,
}

/// The outcome of the bracket whose `[` stands at position `i`.
///
/// The first token must open with a lowercase letter and runs over rule-id
/// characters. A `]` right after it closes the legacy form, valid only if
/// the token is a well-formed rule id (silently skipped otherwise). A space
/// after a known verb starts the rule-id part, which must run to a `]` and
/// be a well-formed rule id. Any other character abandons the bracket, and
/// scanning resumes at that character.
pub open spec fn bracket_result(s: Seq<char>, i: int, hi: int) -> BracketResult
    recommends
        0 <= i < hi <= s.len(),
{
    let j = i + 1;
    if j >= hi {
        BracketResult { items: seq![], next: hi }
    } else if !is_lower_char(s[j]) {
        BracketResult { items: seq![], next: j }
    } else {
        let k = token_end(s, j, hi);
        if k >= hi {
            BracketResult { items: seq![], next: hi }
        } else if s[k] == ']' {
            if valid_rule_id(s.subrange(j, k)) {
                BracketResult {
                    items: seq![
                        ScanItem::Reference { verb: RefVerb::Impl, id: s.subrange(j, k) },
                    ],
                    next: k + 1,
                }
            } else {
                BracketResult { items: seq![], next: k + 1 }
            }
        } else if s[k] == ' ' {
            if is_verb_chars(s.subrange(j, k)) {
                let v = verb_of_chars(s.subrange(j, k));
                let m = k + 1;
                let p = token_end(s, m, hi);
                if p < hi && s[p] == ']' {
                    if valid_rule_id(s.subrange(m, p)) {
                        BracketResult {
                            items: seq![ScanItem::Reference { verb: v, id: s.subrange(m, p) }],
                            next: p + 1,
                        }
                    } else {
                        BracketResult {
                            items: seq![ScanItem::Malformed { start: i, end: p + 1 }],
                            next: p + 1,
                        }
                    }
                } else {
                    BracketResult {
                        items: seq![ScanItem::Malformed { start: i, end: p }],
                        next: p,
                    }
                }
            } else {
                BracketResult {
                    items: seq![ScanItem::UnknownVerb { verb: s.subrange(j, k), start: j, end: k }],
                    next: k,
                }
            }
        } else {
            BracketResult { items: seq![], next: k }
        }
    }
}

/// Scanning always makes progress and stays inside the candidate.
pub proof fn lemma_bracket_result_next(s: Seq<char>, i: int, hi: int)
    requires
        0 <= i < hi <= s.len(),
    ensures
        i < bracket_result(s, i, hi).next <= hi,
{
    let j = i + 1;
    if j < hi && is_lower_char(s[j]) {
        lemma_token_end_bounds(s, j, hi);
        let k = token_end(s, j, hi);
        if k < hi && s[k] == ' ' && is_verb_chars(s.subrange(j, k)) {
            lemma_token_end_bounds(s, k + 1, hi);
        }
    }
}

/// All the events of scanning `s[i..hi]` for bracket constructs, in order.
pub open spec fn scan_items(s: Seq<char>, i: int, hi: int) -> Seq<ScanItem>
    recommends
        0 <= i <= hi <= s.len(),
    decreases hi - i when 0 <= i <= hi <= s.len()
        via scan_items_decreases
{
    if i >= hi {
        seq![]
    } else if s[i] != '[' {
        scan_items(s, i + 1, hi)
    } else {
        bracket_result(s, i, hi).items + scan_items(s, bracket_result(s, i, hi).next, hi)
    }
}

#[via_fn]
proof fn scan_items_decreases(s: Seq<char>, i: int, hi: int) {
    if 0 <= i < hi <= s.len() && s[i] == '[' {
        lemma_bracket_result_next(s, i, hi);
    }
}

/// The references among scanned events, each completed with the line number
/// and the trimmed comment text it is attributed to.
pub struct RefModel {
    pub verb: RefVerb,
    pub id: Seq<char>,
    pub line: int,
    pub context: Seq<char>,
}

/// The warnings among scanned events, with spans as character positions.
pub enum WarnModel {
    UnknownVerb { verb: Seq<char>, start: int, end: int },
    Malformed { start: int, end: int },
}

/// The references among `items`, in order, attributed to `line` and `ctx`.
pub open spec fn items_refs(items: Seq<ScanItem>, line: int, ctx: Seq<char>) -> Seq<RefModel>
    decreases items.len(),
{
    if items.len() == 0 {
        seq![]
    } else {
        let rest = items_refs(items.drop_first(), line, ctx);
        match items[0] {
            ScanItem::Reference { verb, id } => seq![
                RefModel { verb, id, line, context: ctx },
            ] + rest,
            _ => rest,
        }
    }
}

/// The warnings among `items`, in order.
pub open spec fn items_warns(items: Seq<ScanItem>) -> Seq<WarnModel>
    decreases items.len(),
{
    if items.len() == 0 {
        seq![]
    } else {
        let rest = items_warns(items.drop_first());
        match items[0] {
            ScanItem::UnknownVerb { verb, start, end } => seq![
                WarnModel::UnknownVerb { verb, start, end },
            ] + rest,
            ScanItem::Malformed { start, end } => seq![WarnModel::Malformed { start, end }] + rest,
            _ => rest,
        }
    }
}

pub proof fn lemma_items_refs_concat(a: Seq<ScanItem>, b: Seq<ScanItem>, line: int, ctx: Seq<char>)
    ensures
        items_refs(a + b, line, ctx) == items_refs(a, line, ctx) + items_refs(b, line, ctx),
    decreases a.len(),
{
    if a.len() == 0 {
        assert(a + b =~= b);
        assert(items_refs(a, line, ctx) + items_refs(b, line, ctx) =~= items_refs(b, line, ctx));
    } else {
        assert((a + b).drop_first() =~= a.drop_first() + b);
        lemma_items_refs_concat(a.drop_first(), b, line, ctx);
        assert(items_refs(a + b, line, ctx) =~= items_refs(a, line, ctx) + items_refs(
            b,
            line,
            ctx,
        ));
    }
}

pub proof fn lemma_items_warns_concat(a: Seq<ScanItem>, b: Seq<ScanItem>)
    ensures
        items_warns(a + b) == items_warns(a) + items_warns(b),
    decreases a.len(),
{
    if a.len() == 0 {
        assert(a + b =~= b);
        assert(items_warns(a) + items_warns(b) =~= items_warns(b));
    } else {
        assert((a + b).drop_first() =~= a.drop_first() + b);
        lemma_items_warns_concat(a.drop_first(), b);
        assert(items_warns(a + b) =~= items_warns(a) + items_warns(b));
    }
}

/// `items_refs` and `items_warns` of a single scanned event.
pub proof fn lemma_items_singleton(x: ScanItem, line: int, ctx: Seq<char>)
    ensures
        items_refs(seq![x], line, ctx) == (match x {
            ScanItem::Reference { verb, id } => seq![RefModel { verb, id, line, context: ctx }],
            _ => Seq::<RefModel>::empty(),
        }),
        items_warns(seq![x]) == (match x {
            ScanItem::UnknownVerb { verb, start, end } => seq![
                WarnModel::UnknownVerb { verb, start, end },
            ],
            ScanItem::Malformed { start, end } => seq![WarnModel::Malformed { start, end }],
            _ => Seq::<WarnModel>::empty(),
        }),
{
    let s = seq![x];
    assert(s.drop_first() =~= Seq::<ScanItem>::empty());
    assert(items_refs(s.drop_first(), line, ctx) =~= Seq::<RefModel>::empty());
    assert(items_warns(s.drop_first()) =~= Seq::<WarnModel>::empty());
    match x {
        ScanItem::Reference { verb, id } => {
            assert(items_refs(s, line, ctx) =~= seq![RefModel { verb, id, line, context: ctx }]);
            assert(items_warns(s) =~= Seq::<WarnModel>::empty());
        },
        ScanItem::UnknownVerb { verb, start, end } => {
            assert(items_refs(s, line, ctx) =~= Seq::<RefModel>::empty());
            assert(items_warns(s) =~= seq![WarnModel::UnknownVerb { verb, start, end }]);
        },
        ScanItem::Malformed { start, end } => {
            assert(items_refs(s, line, ctx) =~= Seq::<RefModel>::empty());
            assert(items_warns(s) =~= seq![WarnModel::Malformed { start, end }]);
        },
    }
}

} // verus!
