//! Properties of the reference scanner, stated and proved once for all
//! inputs.

use vstd::prelude::*;

use crate::rule_id::{is_id_char, is_lower_char, is_upper_char, valid_rule_id};
use crate::pass_model::{
    extract_model, find_pair, lemma_find_pair_bounds, lemma_line_end_bounds, line_end, pass1,
    pass2, pass_empty, region_out,
};
use crate::scan_model::{
    RefModel, ScanItem, WarnModel, bracket_result, items_refs, items_warns,
    lemma_bracket_result_next, lemma_items_refs_concat, lemma_items_singleton,
    lemma_token_end_bounds, scan_items, token_end,
};
use crate::verb::{RefVerb, is_verb_chars, lemma_verb_chars_injective, verb_chars, verb_of_chars};

verus! {

/// `token_end` lands exactly on the first non-id character.
proof fn lemma_token_end_is(s: Seq<char>, i: int, j: int, hi: int)
    requires
        0 <= i <= j <= hi <= s.len(),
        forall|k: int| i <= k < j ==> is_id_char(#[trigger] s[k]),
        j < hi ==> !is_id_char(s[j]),
    ensures
        token_end(s, i, hi) == j,
    decreases j - i,
{
    if i < j {
        lemma_token_end_is(s, i + 1, j, hi);
    }
}

/// A region without `[` scans to nothing.
proof fn lemma_scan_no_bracket(s: Seq<char>, i: int, hi: int)
    requires
        0 <= i <= hi <= s.len(),
        forall|k: int| i <= k < hi ==> #[trigger] s[k] != '[',
    ensures
        scan_items(s, i, hi) == Seq::<ScanItem>::empty(),
    decreases hi - i,
{
    if i < hi {
        lemma_scan_no_bracket(s, i + 1, hi);
    }
}

/// The spelling of every verb is a nonempty run of lowercase letters.
proof fn lemma_verb_chars_lower(v: RefVerb)
    ensures
        verb_chars(v).len() > 0,
        forall|k: int|
            0 <= k < verb_chars(v).len() ==> is_lower_char(#[trigger] verb_chars(v)[k]),
{
    reveal_strlit("define");
    reveal_strlit("impl");
    reveal_strlit("verify");
    reveal_strlit("depends");
    reveal_strlit("related");
    match v {
        RefVerb::Define => {
            assert(verb_chars(v) == "define"@);
            assert forall|k: int| 0 <= k < verb_chars(v).len() implies is_lower_char(
                #[trigger] verb_chars(v)[k],
            ) by {
                assert(verb_chars(v).len() == 6);
            }
        },
        RefVerb::Impl => {
            assert(verb_chars(v) == "impl"@);
            assert forall|k: int| 0 <= k < verb_chars(v).len() implies is_lower_char(
                #[trigger] verb_chars(v)[k],
            ) by {
                assert(verb_chars(v).len() == 4);
            }
        },
        RefVerb::Verify => {
            assert(verb_chars(v) == "verify"@);
            assert forall|k: int| 0 <= k < verb_chars(v).len() implies is_lower_char(
                #[trigger] verb_chars(v)[k],
            ) by {
                assert(verb_chars(v).len() == 6);
            }
        },
        RefVerb::Depends => {
            assert(verb_chars(v) == "depends"@);
            assert forall|k: int| 0 <= k < verb_chars(v).len() implies is_lower_char(
                #[trigger] verb_chars(v)[k],
            ) by {
                assert(verb_chars(v).len() == 7);
            }
        },
        RefVerb::Related => {
            assert(verb_chars(v) == "related"@);
            assert forall|k: int| 0 <= k < verb_chars(v).len() implies is_lower_char(
                #[trigger] verb_chars(v)[k],
            ) by {
                assert(verb_chars(v).len() == 7);
            }
        },
    }
}

/// A bare bracket around any valid rule id, closing the scanned region,
/// is recognized as exactly one reference: an implementation reference to
/// that rule.
pub proof fn lemma_legacy_bracket_recognized(
    s: Seq<char>,
    i: int,
    id: Seq<char>,
    line: int,
    ctx: Seq<char>,
)
    requires
        valid_rule_id(id),
        0 <= i,
        s.len() == i + id.len() + 2,
        s.subrange(i, s.len() as int) == seq!['['] + id + seq![']'],
    ensures
        items_refs(scan_items(s, i, s.len() as int), line, ctx) == seq![
            RefModel { verb: RefVerb::Impl, id, line, context: ctx },
        ],
        items_warns(scan_items(s, i, s.len() as int)) == Seq::<WarnModel>::empty(),
{
    let hi = s.len() as int;
    let n = id.len() as int;
    let w = s.subrange(i, hi);
    assert(w[0] == '[');
    assert(s[i] == w[0]);
    assert(w[n + 1] == ']');
    assert(s[i + n + 1] == w[n + 1]);
    assert forall|k: int| i + 1 <= k < i + n + 1 implies is_id_char(#[trigger] s[k]) by {
        assert(w[k - i] == id[k - i - 1]);
        assert(s[k] == w[k - i]);
    }
    assert(w[1] == id[0]);
    assert(s[i + 1] == w[1]);
    assert(is_lower_char(s[i + 1]));
    lemma_token_end_is(s, i + 1, i + n + 1, hi);
    let k = token_end(s, i + 1, hi);
    assert(k == i + n + 1);
    assert(s.subrange(i + 1, k) =~= id) by {
        assert forall|t: int| 0 <= t < n implies s.subrange(i + 1, k)[t] == id[t] by {
            assert(w[t + 1] == id[t]);
            assert(s[i + 1 + t] == w[t + 1]);
            assert(s.subrange(i + 1, k)[t] == s[i + 1 + t]);
        }
    }
    let br = bracket_result(s, i, hi);
    assert(br.items =~= seq![ScanItem::Reference { verb: RefVerb::Impl, id }]);
    assert(br.next == hi);
    assert(scan_items(s, hi, hi) =~= Seq::<ScanItem>::empty());
    assert(scan_items(s, i, hi) =~= br.items);
    lemma_items_singleton(ScanItem::Reference { verb: RefVerb::Impl, id }, line, ctx);
    assert(items_refs(scan_items(s, i, hi), line, ctx) =~= seq![
        RefModel { verb: RefVerb::Impl, id, line, context: ctx },
    ]);
    assert(items_warns(scan_items(s, i, hi)) =~= Seq::<WarnModel>::empty());
}

/// A bracket holding any verb, one space and any valid rule id, closing
/// the scanned region, is recognized as exactly one reference with that
/// verb and rule id.
pub proof fn lemma_verb_bracket_recognized(
    s: Seq<char>,
    i: int,
    v: RefVerb,
    id: Seq<char>,
    line: int,
    ctx: Seq<char>,
)
    requires
        valid_rule_id(id),
        0 <= i,
        s.len() == i + verb_chars(v).len() + id.len() + 3,
        s.subrange(i, s.len() as int) == seq!['['] + verb_chars(v) + seq![' '] + id + seq![']'],
    ensures
        items_refs(scan_items(s, i, s.len() as int), line, ctx) == seq![
            RefModel { verb: v, id, line, context: ctx },
        ],
        items_warns(scan_items(s, i, s.len() as int)) == Seq::<WarnModel>::empty(),
{
    let hi = s.len() as int;
    let wc = verb_chars(v);
    let vn = wc.len() as int;
    let n = id.len() as int;
    let w = s.subrange(i, hi);
    lemma_verb_chars_lower(v);
    assert(w[0] == '[');
    assert(s[i] == w[0]);
    assert forall|k: int| i + 1 <= k < i + vn + 1 implies is_id_char(#[trigger] s[k]) by {
        assert(w[k - i] == wc[k - i - 1]);
        assert(s[k] == w[k - i]);
        assert(is_lower_char(wc[k - i - 1]));
    }
    assert(w[vn + 1] == ' ');
    assert(s[i + vn + 1] == w[vn + 1]);
    assert(!is_id_char(s[i + vn + 1]));
    assert(w[1] == wc[0]);
    assert(s[i + 1] == w[1]);
    assert(is_lower_char(s[i + 1]));
    lemma_token_end_is(s, i + 1, i + vn + 1, hi);
    let k = token_end(s, i + 1, hi);
    assert(k == i + vn + 1);
    assert(s.subrange(i + 1, k) =~= wc) by {
        assert forall|t: int| 0 <= t < vn implies s.subrange(i + 1, k)[t] == wc[t] by {
            assert(w[t + 1] == wc[t]);
            assert(s[i + 1 + t] == w[t + 1]);
            assert(s.subrange(i + 1, k)[t] == s[i + 1 + t]);
        }
    }
    assert(is_verb_chars(s.subrange(i + 1, k)));
    assert(verb_chars(verb_of_chars(s.subrange(i + 1, k))) == s.subrange(i + 1, k));
    lemma_verb_chars_injective(verb_of_chars(s.subrange(i + 1, k)), v);
    let m = k + 1;
    assert forall|t: int| m <= t < m + n implies is_id_char(#[trigger] s[t]) by {
        assert(w[t - i] == id[t - m]);
        assert(s[t] == w[t - i]);
    }
    assert(w[vn + n + 2] == ']');
    assert(s[m + n] == w[vn + n + 2]);
    assert(!is_id_char(s[m + n]));
    lemma_token_end_is(s, m, m + n, hi);
    let p = token_end(s, m, hi);
    assert(p == m + n);
    assert(p < hi && s[p] == ']');
    assert(s.subrange(m, p) =~= id) by {
        assert forall|t: int| 0 <= t < n implies s.subrange(m, p)[t] == id[t] by {
            assert(w[vn + 2 + t] == id[t]);
            assert(s[m + t] == w[vn + 2 + t]);
            assert(s.subrange(m, p)[t] == s[m + t]);
        }
    }
    let br = bracket_result(s, i, hi);
    assert(br.items =~= seq![ScanItem::Reference { verb: v, id }]);
    assert(br.next == p + 1 == hi);
    assert(scan_items(s, hi, hi) =~= Seq::<ScanItem>::empty());
    assert(scan_items(s, i, hi) =~= br.items);
    lemma_items_singleton(ScanItem::Reference { verb: v, id }, line, ctx);
    assert(items_refs(scan_items(s, i, hi), line, ctx) =~= seq![
        RefModel { verb: v, id, line, context: ctx },
    ]);
    assert(items_warns(scan_items(s, i, hi)) =~= Seq::<WarnModel>::empty());
}

/// Every reference the scanner emits carries a well-formed rule id.
pub proof fn lemma_scanned_ids_valid(s: Seq<char>, i: int, hi: int, line: int, ctx: Seq<char>)
    requires
        0 <= i <= hi <= s.len(),
    ensures
        forall|t: int|
            0 <= t < items_refs(scan_items(s, i, hi), line, ctx).len() ==> valid_rule_id(
                #[trigger] items_refs(scan_items(s, i, hi), line, ctx)[t].id,
            ),
    decreases hi - i,
{
    if i >= hi {
    } else if s[i] != '[' {
        lemma_scanned_ids_valid(s, i + 1, hi, line, ctx);
    } else {
        let br = bracket_result(s, i, hi);
        lemma_bracket_result_next(s, i, hi);
        lemma_scanned_ids_valid(s, br.next, hi, line, ctx);
        lemma_items_refs_concat(br.items, scan_items(s, br.next, hi), line, ctx);
        let front = items_refs(br.items, line, ctx);
        let j = i + 1;
        assert(forall|t: int| 0 <= t < front.len() ==> valid_rule_id(#[trigger] front[t].id)) by {
            if j < hi && is_lower_char(s[j]) {
                let k = token_end(s, j, hi);
                if k >= hi {
                    assert(br.items =~= Seq::<ScanItem>::empty());
                } else if s[k] == ']' {
                    if valid_rule_id(s.subrange(j, k)) {
                        let item = ScanItem::Reference {
                            verb: RefVerb::Impl,
                            id: s.subrange(j, k),
                        };
                        assert(br.items =~= seq![item]);
                        lemma_items_singleton(item, line, ctx);
                    } else {
                        assert(br.items =~= Seq::<ScanItem>::empty());
                    }
                } else if s[k] == ' ' {
                    if is_verb_chars(s.subrange(j, k)) {
                        let m = k + 1;
                        let p = token_end(s, m, hi);
                        if p < hi && s[p] == ']' {
                            if valid_rule_id(s.subrange(m, p)) {
                                let item = ScanItem::Reference {
                                    verb: verb_of_chars(s.subrange(j, k)),
                                    id: s.subrange(m, p),
                                };
                                assert(br.items =~= seq![item]);
                                lemma_items_singleton(item, line, ctx);
                            } else {
                                let item = ScanItem::Malformed { start: i, end: p + 1 };
                                assert(br.items =~= seq![item]);
                                lemma_items_singleton(item, line, ctx);
                            }
                        } else {
                            let item = ScanItem::Malformed { start: i, end: p };
                            assert(br.items =~= seq![item]);
                            lemma_items_singleton(item, line, ctx);
                        }
                    } else {
                        let item = ScanItem::UnknownVerb {
                            verb: s.subrange(j, k),
                            start: j,
                            end: k,
                        };
                        assert(br.items =~= seq![item]);
                        lemma_items_singleton(item, line, ctx);
                    }
                } else {
                    assert(br.items =~= Seq::<ScanItem>::empty());
                }
            } else {
                assert(br.items =~= Seq::<ScanItem>::empty());
            }
        }
        assert forall|t: int|
            0 <= t < items_refs(scan_items(s, i, hi), line, ctx).len() implies valid_rule_id(
            items_refs(scan_items(s, i, hi), line, ctx)[t].id,
        ) by {
            let back = items_refs(scan_items(s, br.next, hi), line, ctx);
            assert(items_refs(scan_items(s, i, hi), line, ctx) == front + back);
            if t < front.len() {
                assert(items_refs(scan_items(s, i, hi), line, ctx)[t] == front[t]);
            } else {
                assert(items_refs(scan_items(s, i, hi), line, ctx)[t] == back[t - front.len()]);
            }
        }
    }
}

/// A token made only of rule-id characters and uppercase letters that
/// lacks a dot, starts or ends with a dot, or contains an uppercase letter
/// is no valid rule id.
pub proof fn lemma_defective_id_invalid(id: Seq<char>)
    requires
        id.len() > 0,
        forall|k: int|
            0 <= k < id.len() ==> is_id_char(#[trigger] id[k]) || is_upper_char(id[k]),
        (forall|k: int| 0 <= k < id.len() ==> #[trigger] id[k] != '.') || id[0] == '.' || id[id.len()
            - 1] == '.' || (exists|k: int| 0 <= k < id.len() && is_upper_char(#[trigger] id[k])),
    ensures
        !valid_rule_id(id),
{
    if valid_rule_id(id) {
        assert(exists|k: int| 0 <= k < id.len() && #[trigger] id[k] == '.');
        assert(is_lower_char(id[0]));
        assert(id[id.len() - 1] != '.');
        assert forall|k: int| 0 <= k < id.len() implies !is_upper_char(#[trigger] id[k]) by {
            assert(is_id_char(id[k]));
        }
    }
}

/// A bare bracket, closing the scanned region, around a token of rule-id
/// and uppercase characters that is no valid rule id yields no reference.
proof fn lemma_bracket_no_ref(s: Seq<char>, i: int, id: Seq<char>, line: int, ctx: Seq<char>)
    requires
        id.len() > 0,
        forall|k: int|
            0 <= k < id.len() ==> is_id_char(#[trigger] id[k]) || is_upper_char(id[k]),
        !valid_rule_id(id),
        0 <= i,
        s.len() == i + id.len() + 2,
        s.subrange(i, s.len() as int) == seq!['['] + id + seq![']'],
    ensures
        items_refs(scan_items(s, i, s.len() as int), line, ctx) == Seq::<RefModel>::empty(),
{
    let hi = s.len() as int;
    let n = id.len() as int;
    let w = s.subrange(i, hi);
    assert(w[0] == '[');
    assert(s[i] == w[0]);
    assert(w[n + 1] == ']');
    assert(s[i + n + 1] == w[n + 1]);
    assert forall|k: int| i + 1 <= k < hi implies #[trigger] s[k] != '[' by {
        if k < i + n + 1 {
            assert(w[k - i] == id[k - i - 1]);
            assert(s[k] == w[k - i]);
            assert(is_id_char(id[k - i - 1]) || is_upper_char(id[k - i - 1]));
        } else {
            assert(s[k] == ']');
        }
    }
    assert(w[1] == id[0]);
    assert(s[i + 1] == w[1]);
    if !is_lower_char(s[i + 1]) {
        let br = bracket_result(s, i, hi);
        assert(br.items =~= Seq::<ScanItem>::empty());
        assert(br.next == i + 1);
        lemma_scan_no_bracket(s, i + 1, hi);
        assert(scan_items(s, i, hi) =~= Seq::<ScanItem>::empty());
    } else {
        lemma_token_end_bounds(s, i + 1, hi);
        let k = token_end(s, i + 1, hi);
        assert(k < hi) by {
            if k == hi {
                assert(is_id_char(s[hi - 1]));
            }
        }
        let br = bracket_result(s, i, hi);
        if s[k] == ']' {
            assert(k == i + n + 1) by {
                if k < i + n + 1 {
                    assert(w[k - i] == id[k - i - 1]);
                    assert(s[k] == w[k - i]);
                    assert(id[k - i - 1] != ']');
                }
            }
            assert(s.subrange(i + 1, k) =~= id) by {
                assert forall|t: int| 0 <= t < n implies s.subrange(i + 1, k)[t] == id[t] by {
                    assert(w[t + 1] == id[t]);
                    assert(s[i + 1 + t] == w[t + 1]);
                    assert(s.subrange(i + 1, k)[t] == s[i + 1 + t]);
                }
            }
            assert(!valid_rule_id(s.subrange(i + 1, k)));
            assert(br.items =~= Seq::<ScanItem>::empty());
            assert(br.next == k + 1 == hi);
            assert(scan_items(s, i, hi) =~= scan_items(s, hi, hi));
            assert(scan_items(s, i, hi) =~= Seq::<ScanItem>::empty());
        } else {
            assert(k < i + n + 1);
            assert(w[k - i] == id[k - i - 1]);
            assert(s[k] == w[k - i]);
            assert(s[k] != ' ');
            assert(br.items =~= Seq::<ScanItem>::empty());
            assert(br.next == k);
            lemma_scan_no_bracket(s, k, hi);
            assert(scan_items(s, i, hi) =~= Seq::<ScanItem>::empty());
        }
    }
}

/// A verb-prefixed bracket, closing the scanned region, whose rule-id part
/// is no valid rule id yields no reference (a malformed-reference warning
/// at most).
proof fn lemma_verb_no_ref(
    s: Seq<char>,
    i: int,
    v: RefVerb,
    id: Seq<char>,
    line: int,
    ctx: Seq<char>,
)
    requires
        id.len() > 0,
        forall|k: int|
            0 <= k < id.len() ==> is_id_char(#[trigger] id[k]) || is_upper_char(id[k]),
        !valid_rule_id(id),
        0 <= i,
        s.len() == i + verb_chars(v).len() + id.len() + 3,
        s.subrange(i, s.len() as int) == seq!['['] + verb_chars(v) + seq![' '] + id + seq![']'],
    ensures
        items_refs(scan_items(s, i, s.len() as int), line, ctx) == Seq::<RefModel>::empty(),
{
    let hi = s.len() as int;
    let wc = verb_chars(v);
    let vn = wc.len() as int;
    let n = id.len() as int;
    let w = s.subrange(i, hi);
    lemma_verb_chars_lower(v);
    assert(w[0] == '[');
    assert(s[i] == w[0]);
    assert(w[hi - 1 - i] == ']');
    assert(s[hi - 1] == w[hi - 1 - i]);
    assert forall|k: int| i + 1 <= k < hi implies #[trigger] s[k] != '[' by {
        assert(s[k] == w[k - i]);
        if k < i + vn + 1 {
            assert(w[k - i] == wc[k - i - 1]);
            assert(is_lower_char(wc[k - i - 1]));
        } else if k == i + vn + 1 {
            assert(w[k - i] == ' ');
        } else if k < i + vn + 2 + n {
            assert(w[k - i] == id[k - i - vn - 2]);
            assert(is_id_char(id[k - i - vn - 2]) || is_upper_char(id[k - i - vn - 2]));
        } else {
            assert(w[k - i] == ']');
        }
    }
    assert forall|k: int| i + 1 <= k < i + vn + 1 implies is_id_char(#[trigger] s[k]) by {
        assert(w[k - i] == wc[k - i - 1]);
        assert(s[k] == w[k - i]);
        assert(is_lower_char(wc[k - i - 1]));
    }
    assert(w[vn + 1] == ' ');
    assert(s[i + vn + 1] == w[vn + 1]);
    assert(!is_id_char(s[i + vn + 1]));
    assert(w[1] == wc[0]);
    assert(s[i + 1] == w[1]);
    assert(is_lower_char(s[i + 1]));
    lemma_token_end_is(s, i + 1, i + vn + 1, hi);
    let k = token_end(s, i + 1, hi);
    assert(k == i + vn + 1);
    assert(s.subrange(i + 1, k) =~= wc) by {
        assert forall|t: int| 0 <= t < vn implies s.subrange(i + 1, k)[t] == wc[t] by {
            assert(w[t + 1] == wc[t]);
            assert(s[i + 1 + t] == w[t + 1]);
            assert(s.subrange(i + 1, k)[t] == s[i + 1 + t]);
        }
    }
    assert(is_verb_chars(s.subrange(i + 1, k)));
    let m = k + 1;
    lemma_token_end_bounds(s, m, hi);
    let p = token_end(s, m, hi);
    assert(p < hi) by {
        if p == hi {
            assert(is_id_char(s[hi - 1]));
        }
    }
    assert(s.subrange(m, m + n) =~= id) by {
        assert forall|t: int| 0 <= t < n implies s.subrange(m, m + n)[t] == id[t] by {
            assert(w[vn + 2 + t] == id[t]);
            assert(s[m + t] == w[vn + 2 + t]);
            assert(s.subrange(m, m + n)[t] == s[m + t]);
        }
    }
    let br = bracket_result(s, i, hi);
    if s[p] == ']' {
        assert(p == m + n) by {
            if p < m + n {
                assert(s[p] == s.subrange(m, m + n)[p - m]);
                assert(s[p] == id[p - m]);
                assert(id[p - m] != ']');
            }
        }
        assert(s.subrange(m, p) =~= id);
        assert(!valid_rule_id(s.subrange(m, p)));
        let item = ScanItem::Malformed { start: i, end: p + 1 };
        assert(br.items =~= seq![item]);
        assert(br.next == p + 1 == hi);
        assert(scan_items(s, hi, hi) =~= Seq::<ScanItem>::empty());
        assert(scan_items(s, i, hi) =~= br.items);
        lemma_items_singleton(item, line, ctx);
        assert(items_refs(scan_items(s, i, hi), line, ctx) =~= Seq::<RefModel>::empty());
    } else {
        assert(p <= m + n) by {
            if p > m + n {
                assert(is_id_char(s[m + n]));
            }
        }
        assert(p < m + n) by {
            if p == m + n {
                assert(s[p] == ']');
            }
        }
        assert(s[p] == s.subrange(m, m + n)[p - m]);
        assert(s[p] == id[p - m]);
        let item = ScanItem::Malformed { start: i, end: p };
        assert(br.items =~= seq![item]);
        assert(br.next == p);
        assert(scan_items(s, i, hi) =~= br.items + scan_items(s, p, hi));
        lemma_scan_no_bracket(s, p, hi);
        lemma_items_refs_concat(br.items, scan_items(s, p, hi), line, ctx);
        lemma_items_singleton(item, line, ctx);
        assert(items_refs(scan_items(s, i, hi), line, ctx) =~= Seq::<RefModel>::empty());
    }
}

/// For every token of rule-id and uppercase characters that lacks a dot,
/// starts or ends with a dot, or contains an uppercase letter, a line
/// comment holding it bracketed — bare or prefixed by any verb — is
/// extracted with no reference at all.
pub proof fn lemma_extractor_rejects_defective(v: Option<RefVerb>, id: Seq<char>)
    requires
        id.len() > 0,
        forall|k: int|
            0 <= k < id.len() ==> is_id_char(#[trigger] id[k]) || is_upper_char(id[k]),
        (forall|k: int| 0 <= k < id.len() ==> #[trigger] id[k] != '.') || id[0] == '.' || id[id.len()
            - 1] == '.' || (exists|k: int| 0 <= k < id.len() && is_upper_char(#[trigger] id[k])),
    ensures
        ({
            let s = "// "@ + bracket_text(v, id);
            extract_model(s).refs.len() == 0
        }),
{
    reveal_strlit("// ");
    lemma_defective_id_invalid(id);
    let b = bracket_text(v, id);
    let s = "// "@ + b;
    let n = s.len() as int;
    let ctx = crate::strutil::trimmed(s, 0, n);
    assert(s[0] == '/');
    assert(s[1] == '/');
    assert(s[2] == ' ');
    assert(s[3] == '[');
    if v is Some {
        lemma_verb_chars_lower(v->0);
    }
    assert forall|k: int| 0 <= k < n implies #[trigger] s[k] != '\n' && s[k] != '*' by {
        if k >= 3 {
            assert(s[k] == b[k - 3]);
            lemma_bracket_text_chars(v, id, k - 3);
        }
    }
    lemma_line_end_bounds(s, 0);
    assert(line_end(s, 0) == n);
    lemma_find_pair_bounds(s, 0, n, '/', '*');
    assert(find_pair(s, 0, n, '/', '*') == n);
    assert(pass2(s, 0, 1) == pass_empty());
    assert(find_pair(s, 0, n, '/', '/') == 0);
    assert(pass1(s, 0, 1) == region_out(s, 0, n, 1));
    assert(scan_items(s, 0, n) == scan_items(s, 1, n));
    assert(scan_items(s, 1, n) == scan_items(s, 2, n));
    assert(scan_items(s, 2, n) == scan_items(s, 3, n));
    assert(s.subrange(3, n) =~= b);
    match v {
        Some(vv) => {
            lemma_verb_no_ref(s, 3, vv, id, 1, ctx);
        },
        None => {
            lemma_bracket_no_ref(s, 3, id, 1, ctx);
        },
    }
    assert(extract_model(s).refs =~= items_refs(scan_items(s, 3, n), 1, ctx)
        + Seq::<RefModel>::empty());
}

/// The characters of a bracket construct are never a newline or a star:
/// they are a bracket, a space, a lowercase letter, or a rule-id or
/// uppercase character.
proof fn lemma_bracket_text_chars(v: Option<RefVerb>, id: Seq<char>, k: int)
    requires
        forall|t: int|
            0 <= t < id.len() ==> is_id_char(#[trigger] id[t]) || is_upper_char(id[t]),
        0 <= k < bracket_text(v, id).len(),
    ensures
        bracket_text(v, id)[k] != '\n',
        bracket_text(v, id)[k] != '*',
{
    let b = bracket_text(v, id);
    match v {
        None => {
            if k == 0 {
                assert(b[k] == '[');
            } else if k < id.len() + 1 {
                assert(b[k] == id[k - 1]);
                assert(is_id_char(id[k - 1]) || is_upper_char(id[k - 1]));
            } else {
                assert(b[k] == ']');
            }
        },
        Some(vv) => {
            let wc = verb_chars(vv);
            lemma_verb_chars_lower(vv);
            let vn = wc.len() as int;
            if k == 0 {
                assert(b[k] == '[');
            } else if k < vn + 1 {
                assert(b[k] == wc[k - 1]);
                assert(is_lower_char(wc[k - 1]));
            } else if k == vn + 1 {
                assert(b[k] == ' ');
            } else if k < vn + 2 + id.len() {
                assert(b[k] == id[k - vn - 2]);
                assert(is_id_char(id[k - vn - 2]) || is_upper_char(id[k - vn - 2]));
            } else {
                assert(b[k] == ']');
            }
        },
    }
}


/// The bracketed source form of one reference: a bare rule id, or a verb,
/// one space and a rule id.
pub open spec fn bracket_text(v: Option<RefVerb>, id: Seq<char>) -> Seq<char> {
    match v {
        Some(vv) => seq!['['] + verb_chars(vv) + seq![' '] + id + seq![']'],
        None => seq!['['] + id + seq![']'],
    }
}

/// For every valid rule id, the extractor recognizes a line comment holding
/// `[impl id]`, `[verify id]`, `[depends id]`, `[related id]`, `[define
/// id]` or the bare `[id]` (defaulting to impl) as exactly one reference
/// with the matching verb and rule id, and no warning.
pub proof fn lemma_extractor_recognizes_comment(v: Option<RefVerb>, id: Seq<char>)
    requires
        valid_rule_id(id),
    ensures
        ({
            let s = "// "@ + bracket_text(v, id);
            let out = extract_model(s);
            &&& out.refs.len() == 1
            &&& out.refs[0].verb == (match v {
                Some(vv) => vv,
                None => RefVerb::Impl,
            })
            &&& out.refs[0].id == id
            &&& out.refs[0].line == 1
            &&& out.warns.len() == 0
        }),
{
    reveal_strlit("// ");
    let b = bracket_text(v, id);
    let s = "// "@ + b;
    let n = s.len() as int;
    let ctx = crate::strutil::trimmed(s, 0, n);
    assert(s[0] == '/');
    assert(s[1] == '/');
    assert(s[2] == ' ');
    assert(s[3] == '[');
    if v is Some {
        lemma_verb_chars_lower(v->0);
    }
    assert forall|k: int| 0 <= k < n implies #[trigger] s[k] != '\n' && s[k] != '*' by {
        if k >= 3 {
            assert(s[k] == b[k - 3]);
            lemma_bracket_text_chars(v, id, k - 3);
        }
    }
    lemma_line_end_bounds(s, 0);
    assert(line_end(s, 0) == n);
    lemma_find_pair_bounds(s, 0, n, '/', '*');
    assert(find_pair(s, 0, n, '/', '*') == n);
    assert(pass2(s, 0, 1) == pass_empty());
    assert(find_pair(s, 0, n, '/', '/') == 0);
    assert(pass1(s, 0, 1) == region_out(s, 0, n, 1));
    assert(scan_items(s, 0, n) == scan_items(s, 1, n));
    assert(scan_items(s, 1, n) == scan_items(s, 2, n));
    assert(scan_items(s, 2, n) == scan_items(s, 3, n));
    assert(s.subrange(3, n) =~= b);
    match v {
        Some(vv) => {
            lemma_verb_bracket_recognized(s, 3, vv, id, 1, ctx);
        },
        None => {
            lemma_legacy_bracket_recognized(s, 3, id, 1, ctx);
        },
    }
    let out = extract_model(s);
    assert(out.refs =~= items_refs(scan_items(s, 3, n), 1, ctx) + Seq::<RefModel>::empty());
    assert(out.warns =~= items_warns(scan_items(s, 3, n)) + Seq::<WarnModel>::empty());
}

} // verus!
