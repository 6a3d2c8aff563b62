//! Extraction of rule references from source text.
//!
//! `extract_with_warnings` scans a file's text for comments and reads
//! `[rule.id]` and `[verb rule.id]` constructs out of them; its result is
//! pinned, reference by reference and warning by warning, to the scanner
//! model in `scan_model` and `pass_model`.

use vstd::prelude::*;

use crate::pass_model::{
    extract_model, find_pair, line_comment_out, line_end, pass1, pass2, pass2_in, pass_cat,
    pass_empty, region_out,
};
use crate::scan_model::{
    RefModel, ScanItem, WarnModel, bracket_result, items_refs, items_warns,
    lemma_bracket_result_next, lemma_items_refs_concat, lemma_items_singleton,
    lemma_items_warns_concat, scan_items, token_end,
};
use crate::strutil::{range_to_string, to_chars, trimmed, trimmed_range_to_string};
use crate::utf8_span::{byte_offset, lemma_utf8_offset_le, text_fits, utf8_offset};
use crate::verb::{RefVerb, is_verb_chars, lemma_verb_chars_injective, verb_chars, verb_of_chars};

verus! {

/// A reference to a rule found in source text.
#[derive(Debug)]
pub struct RuleReference {
    /// The relationship type (impl, verify, depends, ...).
    pub verb: RefVerb,
    /// The rule id, e.g. `channel.id.allocation`.
    pub rule_id: String,
    /// The file where the reference was found.
    pub file: String,
    /// The line number (1-indexed).
    pub line: usize,
    /// The trimmed comment text the reference was found in.
    pub context: String,
}

impl Clone for RuleReference {
    fn clone(&self) -> (r: Self)
        ensures
            r == *self,
    {
        RuleReference {
            verb: self.verb,
            rule_id: self.rule_id.clone(),
            file: self.file.clone(),
            line: self.line,
            context: self.context.clone(),
        }
    }
}

/// What kind of failed reference attempt a warning reports.
#[derive(Debug)]
pub enum WarningKind {
    /// A bracket whose first token, the named one, is no known verb.
    UnknownVerb(String),
    /// A verb-prefixed bracket whose remainder is not a well-formed rule id.
    MalformedReference,
}

/// A bracketed construct that looked like a reference attempt but failed to
/// validate. Non-fatal; collected alongside references.
#[derive(Debug)]
pub struct ParseWarning {
    /// What failed.
    pub kind: WarningKind,
    /// The file the construct was found in.
    pub file: String,
    /// Byte offset of the span into the file's text.
    pub offset: usize,
    /// Byte length of the span.
    pub length: usize,
}

/// Everything extraction produces on one file.
#[derive(Debug)]
pub struct Extraction {
    /// The recognized references, line-comment pass first, in scan order.
    pub references: Vec<RuleReference>,
    /// The warnings, in the same order.
    pub warnings: Vec<ParseWarning>,
}

/// A warning with its span still as character positions into the text.
struct CharWarn {
    kind: WarningKind,
    start: usize,
    end: usize,
}

/// The exec reference `r` realizes the model reference `m` for file `file`.
pub open spec fn ref_matches(r: RuleReference, m: RefModel, file: Seq<char>) -> bool {
    &&& r.verb == m.verb
    &&& r.rule_id@ == m.id
    &&& r.file@ == file
    &&& r.line == m.line
    &&& r.context@ == m.context
}

/// The char-span warning `w` realizes the model warning `m`.
spec fn char_warn_matches(w: CharWarn, m: WarnModel) -> bool {
    match m {
        WarnModel::UnknownVerb { verb, start, end } => {
            &&& w.kind matches WarningKind::UnknownVerb(v) && v@ == verb
            &&& w.start == start
            &&& w.end == end
        },
        WarnModel::Malformed { start, end } => {
            &&& w.kind is MalformedReference
            &&& w.start == start
            &&& w.end == end
        },
    }
}

/// The exec warning `w` realizes the model warning `m` for file `file` and
/// text `text`, its span converted to byte offsets.
pub open spec fn warn_matches(
    w: ParseWarning,
    m: WarnModel,
    file: Seq<char>,
    text: Seq<char>,
) -> bool {
    &&& w.file@ == file
    &&& match m {
        WarnModel::UnknownVerb { verb, start, end } => {
            &&& w.kind matches WarningKind::UnknownVerb(v) && v@ == verb
            &&& w.offset == utf8_offset(text, start)
            &&& w.length == utf8_offset(text, end) - utf8_offset(text, start)
        },
        WarnModel::Malformed { start, end } => {
            &&& w.kind is MalformedReference
            &&& w.offset == utf8_offset(text, start)
            &&& w.length == utf8_offset(text, end) - utf8_offset(text, start)
        },
    }
}

/// The first `'\n'` at or after `i`, or the text's length.
pub(crate) fn line_end_from(chars: &Vec<char>, i: usize) -> (r: usize)
    requires
        i <= chars@.len(),
    ensures
        r == line_end(chars@, i as int),
        i <= r <= chars@.len(),
{
    let n = chars.len();
    let mut k = i;
    while k < n && chars[k] != '\n'
        invariant
            i <= k <= n == chars@.len(),
            line_end(chars@, i as int) == line_end(chars@, k as int),
        decreases n - k,
    {
        k = k + 1;
    }
    k
}

/// The first position of the two-character sequence `c1 c2` in `[i, b)`, or
/// `b` if there is none.
fn find_pair_exec(chars: &Vec<char>, i: usize, b: usize, c1: char, c2: char) -> (r: usize)
    requires
        i <= b <= chars@.len(),
    ensures
        r == find_pair(chars@, i as int, b as int, c1, c2),
        i <= r <= b,
{
    let mut k = i;
    while b - k > 1 && !(chars[k] == c1 && chars[k + 1] == c2)
        invariant
            i <= k <= b <= chars@.len(),
            k <= b,
            find_pair(chars@, i as int, b as int, c1, c2) == find_pair(
                chars@,
                k as int,
                b as int,
                c1,
                c2,
            ),
        decreases b - k,
    {
        k = k + 1;
    }
    if b - k > 1 {
        k
    } else {
        b
    }
}

/// Whether `c` may stand in a rule id.
fn is_id_char_exec(c: char) -> (r: bool)
    ensures
        r == crate::rule_id::is_id_char(c),
{
    let u = c as u32;
    (97 <= u && u <= 122) || (48 <= u && u <= 57) || c == '-' || c == '.'
}

/// The end of the rule-id token starting at `i`, bounded by `hi`.
fn token_end_exec(chars: &Vec<char>, i: usize, hi: usize) -> (r: usize)
    requires
        i <= hi <= chars@.len(),
    ensures
        r == token_end(chars@, i as int, hi as int),
        i <= r <= hi,
{
    let mut k = i;
    while k < hi && is_id_char_exec(chars[k])
        invariant
            i <= k <= hi <= chars@.len(),
            token_end(chars@, i as int, hi as int) == token_end(chars@, k as int, hi as int),
        decreases hi - k,
    {
        k = k + 1;
    }
    k
}

/// The verb spelled by `chars[lo..hi]`, if any.
fn verb_lookup(chars: &Vec<char>, lo: usize, hi: usize) -> (r: Option<RefVerb>)
    requires
        lo <= hi <= chars@.len(),
    ensures
        match r {
            Some(v) => {
                &&& verb_chars(v) == chars@.subrange(lo as int, hi as int)
                &&& is_verb_chars(chars@.subrange(lo as int, hi as int))
                &&& verb_of_chars(chars@.subrange(lo as int, hi as int)) == v
            },
            None => !is_verb_chars(chars@.subrange(lo as int, hi as int)),
        },
{
    let ghost sub = chars@.subrange(lo as int, hi as int);
    let found: Option<RefVerb> = if crate::strutil::range_eq_str(chars, lo, hi, "define") {
        Some(RefVerb::Define)
    } else if crate::strutil::range_eq_str(chars, lo, hi, "impl") {
        Some(RefVerb::Impl)
    } else if crate::strutil::range_eq_str(chars, lo, hi, "verify") {
        Some(RefVerb::Verify)
    } else if crate::strutil::range_eq_str(chars, lo, hi, "depends") {
        Some(RefVerb::Depends)
    } else if crate::strutil::range_eq_str(chars, lo, hi, "related") {
        Some(RefVerb::Related)
    } else {
        None
    };
    proof {
        match found {
            Some(v) => {
                assert(verb_chars(v) == sub);
                assert(is_verb_chars(sub));
                assert(verb_chars(verb_of_chars(sub)) == sub);
                lemma_verb_chars_injective(verb_of_chars(sub), v);
            },
            None => {
                assert forall|v: RefVerb| verb_chars(v) != sub by {
                    match v {
                        RefVerb::Define => assert(verb_chars(v) == "define"@),
                        RefVerb::Impl => assert(verb_chars(v) == "impl"@),
                        RefVerb::Verify => assert(verb_chars(v) == "verify"@),
                        RefVerb::Depends => assert(verb_chars(v) == "depends"@),
                        RefVerb::Related => assert(verb_chars(v) == "related"@),
                    }
                }
            },
        }
    }
    found
}

/// Scan the region `[lo, hi)` of the text as one comment attributed to
/// `line`, appending the references and warnings it holds.
fn scan_region(
    chars: &Vec<char>,
    lo: usize,
    hi: usize,
    file: &String,
    line: usize,
    refs: &mut Vec<RuleReference>,
    warns: &mut Vec<CharWarn>,
)
    requires
        lo <= hi <= chars@.len(),
    ensures
        ({
            let items = scan_items(chars@, lo as int, hi as int);
            let ctx = trimmed(chars@, lo as int, hi as int);
            let mrefs = items_refs(items, line as int, ctx);
            let mwarns = items_warns(items);
            &&& final(refs)@.len() == old(refs)@.len() + mrefs.len()
            &&& (forall|t: int|
                0 <= t < old(refs)@.len() ==> final(refs)@[t] == old(refs)@[t])
            &&& (forall|t: int|
                0 <= t < mrefs.len() ==> ref_matches(
                    final(refs)@[old(refs)@.len() + t],
                    mrefs[t],
                    file@,
                ))
            &&& final(warns)@.len() == old(warns)@.len() + mwarns.len()
            &&& (forall|t: int|
                0 <= t < old(warns)@.len() ==> final(warns)@[t] == old(warns)@[t])
            &&& (forall|t: int|
                0 <= t < mwarns.len() ==> char_warn_matches(
                    final(warns)@[old(warns)@.len() + t],
                    mwarns[t],
                ))
            &&& (forall|t: int|
                old(warns)@.len() <= t < final(warns)@.len() ==> ((#[trigger] final(warns)@[t]).start
                    <= final(warns)@[t].end && final(warns)@[t].end <= chars@.len()))
        }),
{
    let ghost s = chars@;
    let ghost total = scan_items(s, lo as int, hi as int);
    let ghost ctx = trimmed(s, lo as int, hi as int);
    let ctx_str = trimmed_range_to_string(chars, lo, hi);
    let mut i = lo;
    let ghost mut gdone: Seq<ScanItem> = Seq::empty();
    proof {
        assert(gdone + scan_items(s, i as int, hi as int) =~= total);
    }
    while i < hi
        invariant
            lo <= i <= hi <= chars@.len(),
            s == chars@,
            total == scan_items(s, lo as int, hi as int),
            ctx == trimmed(s, lo as int, hi as int),
            ctx_str@ == ctx,
            gdone + scan_items(s, i as int, hi as int) == total,
            refs@.len() == old(refs)@.len() + items_refs(gdone, line as int, ctx).len(),
            forall|t: int| 0 <= t < old(refs)@.len() ==> refs@[t] == old(refs)@[t],
            forall|t: int|
                0 <= t < items_refs(gdone, line as int, ctx).len() ==> ref_matches(
                    refs@[old(refs)@.len() + t],
                    items_refs(gdone, line as int, ctx)[t],
                    file@,
                ),
            warns@.len() == old(warns)@.len() + items_warns(gdone).len(),
            forall|t: int| 0 <= t < old(warns)@.len() ==> warns@[t] == old(warns)@[t],
            forall|t: int|
                0 <= t < items_warns(gdone).len() ==> char_warn_matches(
                    warns@[old(warns)@.len() + t],
                    items_warns(gdone)[t],
                ),
            forall|t: int|
                old(warns)@.len() <= t < warns@.len() ==> (#[trigger] warns@[t]).start
                    <= warns@[t].end <= chars@.len(),
        decreases hi - i,
    {
        if chars[i] != '[' {
            proof {
                assert(scan_items(s, i as int, hi as int) == scan_items(s, i + 1, hi as int));
            }
            i = i + 1;
        } else {
            let ghost br = bracket_result(s, i as int, hi as int);
            proof {
                lemma_bracket_result_next(s, i as int, hi as int);
                assert(scan_items(s, i as int, hi as int) == br.items + scan_items(
                    s,
                    br.next,
                    hi as int,
                ));
                lemma_items_refs_concat(gdone, br.items, line as int, ctx);
                lemma_items_warns_concat(gdone, br.items);
            }
            let j = i + 1;
            if j >= hi {
                proof {
                    assert(br.items =~= Seq::<ScanItem>::empty());
                    assert(items_refs(br.items, line as int, ctx) =~= Seq::<RefModel>::empty());
                    assert(items_warns(br.items) =~= Seq::<WarnModel>::empty());
                    gdone = gdone + br.items;
                    assert(items_refs(gdone, line as int, ctx) =~= items_refs(
                        gdone.drop_last(),
                        line as int,
                        ctx,
                    ).add(items_refs(br.items, line as int, ctx)) || true);
                    assert(gdone + scan_items(s, hi as int, hi as int) =~= total);
                }
                i = hi;
            } else {
                let cj = chars[j];
                let uj = cj as u32;
                if !(97 <= uj && uj <= 122) {
                    proof {
                        assert(br.items =~= Seq::<ScanItem>::empty());
                        gdone = gdone + br.items;
                        assert(gdone + scan_items(s, j as int, hi as int) =~= total);
                    }
                    i = j;
                } else {
                    let k = token_end_exec(chars, j, hi);
                    if k >= hi {
                        proof {
                            assert(br.items =~= Seq::<ScanItem>::empty());
                            gdone = gdone + br.items;
                            assert(gdone + scan_items(s, hi as int, hi as int) =~= total);
                        }
                        i = hi;
                    } else if chars[k] == ']' {
                        if crate::rule_id::valid_rule_id_range(chars, j, k) {
                            let id = range_to_string(chars, j, k);
                            refs.push(
                                RuleReference {
                                    verb: RefVerb::Impl,
                                    rule_id: id,
                                    file: file.clone(),
                                    line,
                                    context: ctx_str.clone(),
                                },
                            );
                            proof {
                                let item = ScanItem::Reference {
                                    verb: RefVerb::Impl,
                                    id: s.subrange(j as int, k as int),
                                };
                                assert(br.items =~= seq![item]);
                                lemma_items_singleton(item, line as int, ctx);
                                gdone = gdone + br.items;
                                assert(gdone + scan_items(s, k + 1, hi as int) =~= total);
                            }
                            i = k + 1;
                        } else {
                            proof {
                                assert(br.items =~= Seq::<ScanItem>::empty());
                                gdone = gdone + br.items;
                                assert(gdone + scan_items(s, k + 1, hi as int) =~= total);
                            }
                            i = k + 1;
                        }
                    } else if chars[k] == ' ' {
                        match verb_lookup(chars, j, k) {
                            Some(v) => {
                                let m = k + 1;
                                let p = token_end_exec(chars, m, hi);
                                if p < hi && chars[p] == ']' {
                                    if crate::rule_id::valid_rule_id_range(chars, m, p) {
                                        let id = range_to_string(chars, m, p);
                                        refs.push(
                                            RuleReference {
                                                verb: v,
                                                rule_id: id,
                                                file: file.clone(),
                                                line,
                                                context: ctx_str.clone(),
                                            },
                                        );
                                        proof {
                                            let item = ScanItem::Reference {
                                                verb: v,
                                                id: s.subrange(m as int, p as int),
                                            };
                                            assert(br.items =~= seq![item]);
                                            lemma_items_singleton(item, line as int, ctx);
                                            gdone = gdone + br.items;
                                            assert(gdone + scan_items(s, p + 1, hi as int)
                                                =~= total);
                                        }
                                        i = p + 1;
                                    } else {
                                        warns.push(
                                            CharWarn {
                                                kind: WarningKind::MalformedReference,
                                                start: i,
                                                end: p + 1,
                                            },
                                        );
                                        proof {
                                            let item = ScanItem::Malformed {
                                                start: i as int,
                                                end: p + 1,
                                            };
                                            assert(br.items =~= seq![item]);
                                            lemma_items_singleton(item, line as int, ctx);
                                            gdone = gdone + br.items;
                                            assert(gdone + scan_items(s, p + 1, hi as int)
                                                =~= total);
                                        }
                                        i = p + 1;
                                    }
                                } else {
                                    warns.push(
                                        CharWarn {
                                            kind: WarningKind::MalformedReference,
                                            start: i,
                                            end: p,
                                        },
                                    );
                                    proof {
                                        let item = ScanItem::Malformed {
                                            start: i as int,
                                            end: p as int,
                                        };
                                        assert(br.items =~= seq![item]);
                                        lemma_items_singleton(item, line as int, ctx);
                                        gdone = gdone + br.items;
                                        assert(gdone + scan_items(s, p as int, hi as int)
                                            =~= total);
                                    }
                                    i = p;
                                }
                            },
                            None => {
                                let tok = range_to_string(chars, j, k);
                                warns.push(
                                    CharWarn {
                                        kind: WarningKind::UnknownVerb(tok),
                                        start: j,
                                        end: k,
                                    },
                                );
                                proof {
                                    let item = ScanItem::UnknownVerb {
                                        verb: s.subrange(j as int, k as int),
                                        start: j as int,
                                        end: k as int,
                                    };
                                    assert(br.items =~= seq![item]);
                                    lemma_items_singleton(item, line as int, ctx);
                                    gdone = gdone + br.items;
                                    assert(gdone + scan_items(s, k as int, hi as int) =~= total);
                                }
                                i = k;
                            },
                        }
                    } else {
                        proof {
                            assert(br.items =~= Seq::<ScanItem>::empty());
                            gdone = gdone + br.items;
                            assert(gdone + scan_items(s, k as int, hi as int) =~= total);
                        }
                        i = k;
                    }
                }
            }
        }
    }
    proof {
        assert(scan_items(s, hi as int, hi as int) =~= Seq::<ScanItem>::empty());
        assert(gdone =~= total);
    }
}

/// The line-comment pass: scan each line from its first `//` on.
fn run_pass1(
    chars: &Vec<char>,
    file: &String,
    refs: &mut Vec<RuleReference>,
    warns: &mut Vec<CharWarn>,
)
    requires
        chars@.len() < usize::MAX,
    ensures
        ({
            let out = pass1(chars@, 0, 1);
            &&& final(refs)@.len() == old(refs)@.len() + out.refs.len()
            &&& (forall|t: int|
                0 <= t < old(refs)@.len() ==> final(refs)@[t] == old(refs)@[t])
            &&& (forall|t: int|
                0 <= t < out.refs.len() ==> ref_matches(
                    final(refs)@[old(refs)@.len() + t],
                    out.refs[t],
                    file@,
                ))
            &&& final(warns)@.len() == old(warns)@.len() + out.warns.len()
            &&& (forall|t: int|
                0 <= t < old(warns)@.len() ==> final(warns)@[t] == old(warns)@[t])
            &&& (forall|t: int|
                0 <= t < out.warns.len() ==> char_warn_matches(
                    final(warns)@[old(warns)@.len() + t],
                    out.warns[t],
                ))
            &&& (forall|t: int|
                old(warns)@.len() <= t < final(warns)@.len()
                    ==> ((#[trigger] final(warns)@[t]).start <= final(warns)@[t].end
                    && final(warns)@[t].end <= chars@.len()))
        }),
{
    let ghost s = chars@;
    let ghost total = pass1(s, 0, 1);
    let n = chars.len();
    let mut a: usize = 0;
    let mut ln: usize = 1;
    let mut done = false;
    let ghost mut grefs: Seq<RefModel> = Seq::empty();
    let ghost mut gwarns: Seq<WarnModel> = Seq::empty();
    proof {
        assert(grefs + pass1(s, 0, 1).refs =~= total.refs);
        assert(gwarns + pass1(s, 0, 1).warns =~= total.warns);
    }
    while !done
        invariant
            a <= n == chars@.len() < usize::MAX,
            ln <= a + 1,
            1 <= ln,
            s == chars@,
            total == pass1(s, 0, 1),
            !done ==> grefs + pass1(s, a as int, ln as int).refs == total.refs,
            !done ==> gwarns + pass1(s, a as int, ln as int).warns == total.warns,
            done ==> grefs == total.refs,
            done ==> gwarns == total.warns,
            refs@.len() == old(refs)@.len() + grefs.len(),
            forall|t: int| 0 <= t < old(refs)@.len() ==> refs@[t] == old(refs)@[t],
            forall|t: int|
                0 <= t < grefs.len() ==> ref_matches(
                    refs@[old(refs)@.len() + t],
                    grefs[t],
                    file@,
                ),
            warns@.len() == old(warns)@.len() + gwarns.len(),
            forall|t: int| 0 <= t < old(warns)@.len() ==> warns@[t] == old(warns)@[t],
            forall|t: int|
                0 <= t < gwarns.len() ==> char_warn_matches(
                    warns@[old(warns)@.len() + t],
                    gwarns[t],
                ),
            forall|t: int|
                old(warns)@.len() <= t < warns@.len() ==> ((#[trigger] warns@[t]).start
                    <= warns@[t].end && warns@[t].end <= chars@.len()),
        decreases n - a, (if done { 0int } else { 1int }),
    {
        let b = line_end_from(chars, a);
        let ghost cur = line_comment_out(s, a as int, b as int, ln as int);
        let p = find_pair_exec(chars, a, b, '/', '/');
        if p < b {
            scan_region(chars, p, b, file, ln, refs, warns);
        }
        proof {
            if p >= b {
                assert(cur == pass_empty());
                assert(grefs + cur.refs =~= grefs);
                assert(gwarns + cur.warns =~= gwarns);
            }
            grefs = grefs + cur.refs;
            gwarns = gwarns + cur.warns;
        }
        if b >= n {
            done = true;
            proof {
                assert(pass1(s, a as int, ln as int) == cur);
                assert(grefs =~= total.refs);
                assert(gwarns =~= total.warns);
            }
        } else {
            proof {
                assert(pass1(s, a as int, ln as int) == pass_cat(
                    cur,
                    pass1(s, b + 1, ln + 1),
                ));
                assert(grefs + pass1(s, b + 1, ln + 1).refs =~= total.refs);
                assert(gwarns + pass1(s, b + 1, ln + 1).warns =~= total.warns);
            }
            a = b + 1;
            ln = ln + 1;
        }
    }
}

/// The block-comment pass: scan each block's content as one unit attributed
/// to the line where the block opened.
fn run_pass2(
    chars: &Vec<char>,
    file: &String,
    refs: &mut Vec<RuleReference>,
    warns: &mut Vec<CharWarn>,
)
    requires
        chars@.len() < usize::MAX,
    ensures
        ({
            let out = pass2(chars@, 0, 1);
            &&& final(refs)@.len() == old(refs)@.len() + out.refs.len()
            &&& (forall|t: int|
                0 <= t < old(refs)@.len() ==> final(refs)@[t] == old(refs)@[t])
            &&& (forall|t: int|
                0 <= t < out.refs.len() ==> ref_matches(
                    final(refs)@[old(refs)@.len() + t],
                    out.refs[t],
                    file@,
                ))
            &&& final(warns)@.len() == old(warns)@.len() + out.warns.len()
            &&& (forall|t: int|
                0 <= t < old(warns)@.len() ==> final(warns)@[t] == old(warns)@[t])
            &&& (forall|t: int|
                0 <= t < out.warns.len() ==> char_warn_matches(
                    final(warns)@[old(warns)@.len() + t],
                    out.warns[t],
                ))
            &&& (forall|t: int|
                old(warns)@.len() <= t < final(warns)@.len()
                    ==> ((#[trigger] final(warns)@[t]).start <= final(warns)@[t].end
                    && final(warns)@[t].end <= chars@.len()))
        }),
{
    let ghost s = chars@;
    let ghost total = pass2(s, 0, 1);
    let n = chars.len();
    let mut a: usize = 0;
    let mut ln: usize = 1;
    let mut done = false;
    let mut in_block = false;
    let mut cs: usize = 0;
    let mut bl: usize = 1;
    let ghost mut grefs: Seq<RefModel> = Seq::empty();
    let ghost mut gwarns: Seq<WarnModel> = Seq::empty();
    proof {
        assert(grefs + pass2(s, 0, 1).refs =~= total.refs);
        assert(gwarns + pass2(s, 0, 1).warns =~= total.warns);
    }
    while !done
        invariant
            a <= n == chars@.len() < usize::MAX,
            ln <= a + 1,
            1 <= ln,
            s == chars@,
            total == pass2(s, 0, 1),
            in_block ==> cs <= a,
            !done && !in_block ==> grefs + pass2(s, a as int, ln as int).refs == total.refs,
            !done && !in_block ==> gwarns + pass2(s, a as int, ln as int).warns == total.warns,
            !done && in_block ==> grefs + pass2_in(
                s,
                a as int,
                ln as int,
                cs as int,
                bl as int,
            ).refs == total.refs,
            !done && in_block ==> gwarns + pass2_in(
                s,
                a as int,
                ln as int,
                cs as int,
                bl as int,
            ).warns == total.warns,
            done ==> grefs == total.refs,
            done ==> gwarns == total.warns,
            refs@.len() == old(refs)@.len() + grefs.len(),
            forall|t: int| 0 <= t < old(refs)@.len() ==> refs@[t] == old(refs)@[t],
            forall|t: int|
                0 <= t < grefs.len() ==> ref_matches(
                    refs@[old(refs)@.len() + t],
                    grefs[t],
                    file@,
                ),
            warns@.len() == old(warns)@.len() + gwarns.len(),
            forall|t: int| 0 <= t < old(warns)@.len() ==> warns@[t] == old(warns)@[t],
            forall|t: int|
                0 <= t < gwarns.len() ==> char_warn_matches(
                    warns@[old(warns)@.len() + t],
                    gwarns[t],
                ),
            forall|t: int|
                old(warns)@.len() <= t < warns@.len() ==> ((#[trigger] warns@[t]).start
                    <= warns@[t].end && warns@[t].end <= chars@.len()),
        decreases n - a, (if done { 0int } else { 1int }),
    {
        let b = line_end_from(chars, a);
        if !in_block {
            let p = find_pair_exec(chars, a, b, '/', '*');
            if p < b {
                proof {
                    crate::pass_model::lemma_find_pair_bounds(s, a as int, b as int, '/', '*');
                }
                let cs_new = p + 2;
                let q = find_pair_exec(chars, cs_new, b, '*', '/');
                if q < b {
                    let ghost cur = region_out(s, cs_new as int, q as int, ln as int);
                    scan_region(chars, cs_new, q, file, ln, refs, warns);
                    proof {
                        grefs = grefs + cur.refs;
                        gwarns = gwarns + cur.warns;
                    }
                    if b >= n {
                        done = true;
                        proof {
                            assert(grefs =~= total.refs);
                            assert(gwarns =~= total.warns);
                        }
                    } else {
                        proof {
                            assert(grefs + pass2(s, b + 1, ln + 1).refs =~= total.refs);
                            assert(gwarns + pass2(s, b + 1, ln + 1).warns =~= total.warns);
                        }
                        a = b + 1;
                        ln = ln + 1;
                    }
                } else {
                    if b >= n {
                        done = true;
                        proof {
                            assert(grefs =~= total.refs);
                            assert(gwarns =~= total.warns);
                        }
                    } else {
                        in_block = true;
                        cs = cs_new;
                        bl = ln;
                        proof {
                            assert(grefs + pass2_in(s, b + 1, ln + 1, cs_new as int, ln as int).refs
                                =~= total.refs);
                            assert(gwarns + pass2_in(
                                s,
                                b + 1,
                                ln + 1,
                                cs_new as int,
                                ln as int,
                            ).warns =~= total.warns);
                        }
                        a = b + 1;
                        ln = ln + 1;
                    }
                }
            } else {
                if b >= n {
                    done = true;
                    proof {
                        assert(grefs =~= total.refs);
                        assert(gwarns =~= total.warns);
                    }
                } else {
                    proof {
                        assert(grefs + pass2(s, b + 1, ln + 1).refs =~= total.refs);
                        assert(gwarns + pass2(s, b + 1, ln + 1).warns =~= total.warns);
                    }
                    a = b + 1;
                    ln = ln + 1;
                }
            }
        } else {
            let q = find_pair_exec(chars, a, b, '*', '/');
            if q < b {
                let ghost cur = region_out(s, cs as int, q as int, bl as int);
                scan_region(chars, cs, q, file, bl, refs, warns);
                in_block = false;
                proof {
                    grefs = grefs + cur.refs;
                    gwarns = gwarns + cur.warns;
                }
                if b >= n {
                    done = true;
                    proof {
                        assert(grefs =~= total.refs);
                        assert(gwarns =~= total.warns);
                    }
                } else {
                    proof {
                        assert(grefs + pass2(s, b + 1, ln + 1).refs =~= total.refs);
                        assert(gwarns + pass2(s, b + 1, ln + 1).warns =~= total.warns);
                    }
                    a = b + 1;
                    ln = ln + 1;
                }
            } else {
                if b >= n {
                    done = true;
                    proof {
                        assert(grefs =~= total.refs);
                        assert(gwarns =~= total.warns);
                    }
                } else {
                    proof {
                        assert(grefs + pass2_in(s, b + 1, ln + 1, cs as int, bl as int).refs
                            =~= total.refs);
                        assert(gwarns + pass2_in(s, b + 1, ln + 1, cs as int, bl as int).warns
                            =~= total.warns);
                    }
                    a = b + 1;
                    ln = ln + 1;
                }
            }
        }
    }
}

/// Extract all rule references and parse warnings from a source file's text.
///
/// References come in scan order: the whole line-comment pass first, then
/// the block-comment pass. Extraction never fails: parse difficulties
/// degrade to a warning or a silent skip.
pub fn extract_with_warnings(file: &str, content: &str) -> (out: Extraction)
    requires
        text_fits(content@),
    ensures
        ({
            let model = extract_model(content@);
            &&& out.references@.len() == model.refs.len()
            &&& (forall|t: int|
                0 <= t < model.refs.len() ==> ref_matches(
                    #[trigger] out.references@[t],
                    model.refs[t],
                    file@,
                ))
            &&& out.warnings@.len() == model.warns.len()
            &&& (forall|t: int|
                0 <= t < model.warns.len() ==> warn_matches(
                    #[trigger] out.warnings@[t],
                    model.warns[t],
                    file@,
                    content@,
                ))
        }),
{
    let ghost s = content@;
    let chars = to_chars(content);
    let byte_len = content.len();
    proof {
        assert(s.take(s.len() as int) =~= s);
        assert(utf8_offset(s, s.len() as int) == byte_len);
    }
    let file_string = file.to_owned();
    let mut refs: Vec<RuleReference> = Vec::new();
    let mut cwarns: Vec<CharWarn> = Vec::new();
    run_pass1(&chars, &file_string, &mut refs, &mut cwarns);
    run_pass2(&chars, &file_string, &mut refs, &mut cwarns);
    let ghost model = extract_model(s);
    proof {
        assert(model.refs =~= pass1(s, 0, 1).refs + pass2(s, 0, 1).refs);
        assert(model.warns =~= pass1(s, 0, 1).warns + pass2(s, 0, 1).warns);
    }
    let mut warns: Vec<ParseWarning> = Vec::new();
    let mut w: usize = 0;
    let cn = cwarns.len();
    while w < cn
        invariant
            w <= cn == cwarns@.len(),
            s == content@,
            chars@ == s,
            utf8_offset(s, s.len() as int) == byte_len <= usize::MAX,
            model == extract_model(s),
            cwarns@.len() == model.warns.len(),
            forall|t: int|
                0 <= t < model.warns.len() ==> char_warn_matches(
                    #[trigger] cwarns@[t],
                    model.warns[t],
                ),
            forall|t: int|
                0 <= t < cwarns@.len() ==> ((#[trigger] cwarns@[t]).start <= cwarns@[t].end
                    && cwarns@[t].end <= chars@.len()),
            warns@.len() == w,
            forall|t: int|
                0 <= t < w ==> warn_matches(
                    #[trigger] warns@[t],
                    model.warns[t],
                    file_string@,
                    s,
                ),
            file_string@ == file@,
        decreases cn - w,
    {
        let start = cwarns[w].start;
        let end = cwarns[w].end;
        let off = byte_offset(&chars, start, Ghost(byte_len as int));
        let end_off = byte_offset(&chars, end, Ghost(byte_len as int));
        proof {
            lemma_utf8_offset_le(s, start as int, end as int);
        }
        let kind = match &cwarns[w].kind {
            WarningKind::UnknownVerb(v) => WarningKind::UnknownVerb(v.clone()),
            WarningKind::MalformedReference => WarningKind::MalformedReference,
        };
        warns.push(
            ParseWarning {
                kind,
                file: file_string.clone(),
                offset: off,
                length: end_off - off,
            },
        );
        w = w + 1;
    }
    Extraction { references: refs, warnings: warns }
}

/// Extract all rule references from a source file's text.
///
/// Looks for `[rule.id]` (legacy, read as an implementation reference) and
/// `[verb rule.id]` constructs in line and block comments.
pub fn extract_rule_references(file: &str, content: &str) -> (r: Vec<RuleReference>)
    requires
        text_fits(content@),
    ensures
        ({
            let model = extract_model(content@);
            &&& r@.len() == model.refs.len()
            &&& (forall|t: int|
                0 <= t < model.refs.len() ==> ref_matches(
                    #[trigger] r@[t],
                    model.refs[t],
                    file@,
                ))
        }),
{
    let out = extract_with_warnings(file, content);
    out.references
}

/// The references whose line falls within `[lo, hi]`, in order.
pub open spec fn line_filter(refs: Seq<RuleReference>, lo: int, hi: int) -> Seq<RuleReference>
    decreases refs.len(),
{
    if refs.len() == 0 {
        seq![]
    } else {
        let rest = line_filter(refs.drop_last(), lo, hi);
        if lo <= refs.last().line <= hi {
            rest.push(refs.last())
        } else {
            rest
        }
    }
}

/// The references whose line number falls in the inclusive range
/// `[start_line, end_line]`, in extraction order.
///
/// A pure filter over already-extracted references, not a re-parse.
pub fn refs_in_range(refs: &Vec<RuleReference>, start_line: usize, end_line: usize) -> (r: Vec<
    RuleReference,
>)
    ensures
        r@ == line_filter(refs@, start_line as int, end_line as int),
{
    let mut r: Vec<RuleReference> = Vec::new();
    let n = refs.len();
    let mut i: usize = 0;
    while i < n
        invariant
            i <= n == refs@.len(),
            r@ == line_filter(refs@.take(i as int), start_line as int, end_line as int),
        decreases n - i,
    {
        proof {
            assert(refs@.take(i + 1).drop_last() =~= refs@.take(i as int));
            assert(refs@.take(i + 1).last() == refs@[i as int]);
        }
        if start_line <= refs[i].line && refs[i].line <= end_line {
            r.push(refs[i].clone());
        }
        i = i + 1;
    }
    proof {
        assert(refs@.take(n as int) =~= refs@);
    }
    r
}

/// The references found at exactly one line.
pub fn refs_at_line(refs: &Vec<RuleReference>, line: usize) -> (r: Vec<RuleReference>)
    ensures
        r@ == line_filter(refs@, line as int, line as int),
{
    refs_in_range(refs, line, line)
}

} // verus!
