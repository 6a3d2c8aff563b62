//! Parsing rule definitions out of specification documents.
//!
//! `parse_spec_document` reads every line that opens with the `r[` marker
//! and returns the definitions in source order, or the first grammar error;
//! its result is pinned to the parser model in `spec_doc_model`.

use vstd::prelude::*;

use crate::rule_id::valid_rule_id;
use crate::spec_doc_model::{
    DefModel, ErrModel, MetaModel, RuleLevel, RuleStatus, apply_attr, apply_attrs, comma_split,
    dedup, find_char, line_def, meta_empty, parse_doc, skip_char, tokens,
};
use crate::strutil::{range_eq_str, range_to_string};

verus! {

/// A parsed rule's metadata.
#[derive(Debug)]
pub struct RuleMetadata {
    /// Lifecycle stage, if declared.
    pub status: Option<RuleStatus>,
    /// Requirement strength, if declared.
    pub level: Option<RuleLevel>,
    /// Version the rule appeared in, stored verbatim.
    pub since: Option<String>,
    /// Version the rule lasts until, stored verbatim.
    pub until: Option<String>,
    /// Tags, in declaration order, duplicates removed.
    pub tags: Vec<String>,
}

/// A rule definition found in a specification document.
#[derive(Debug)]
pub struct RuleDefinition {
    /// The rule id.
    pub id: String,
    /// The document the rule was defined in.
    pub file: String,
    /// The line number (1-indexed) of the definition.
    pub line: usize,
    /// The declared metadata.
    pub metadata: RuleMetadata,
}

/// A hard error: any of these aborts the whole parse.
#[derive(Debug)]
pub enum SpecError {
    /// An attribute with an unrecognized key, or one without `=`.
    UnknownAttribute { key: String, file: String, line: usize },
    /// A `status` value outside {stable, draft, deprecated}.
    InvalidStatus { value: String, file: String, line: usize },
    /// A `level` value outside {must, should, may}.
    InvalidLevel { value: String, file: String, line: usize },
    /// A marker whose rule id does not satisfy the grammar.
    InvalidRuleId { id: String, file: String, line: usize },
    /// A marker line without a closing `]`.
    UnclosedDefinition { file: String, line: usize },
    /// The same rule id defined twice, in one document or across documents.
    DuplicateRule { id: String, file: String, line: usize },
}

/// The exec metadata `m` realizes the model metadata `g`.
pub open spec fn meta_matches(m: RuleMetadata, g: MetaModel) -> bool {
    &&& m.status == g.status
    &&& m.level == g.level
    &&& match (m.since, g.since) {
        (Option::Some(x), Option::Some(y)) => x@ == y,
        (Option::None, Option::None) => true,
        _ => false,
    }
    &&& match (m.until, g.until) {
        (Option::Some(x), Option::Some(y)) => x@ == y,
        (Option::None, Option::None) => true,
        _ => false,
    }
    &&& m.tags@.len() == g.tags.len()
    &&& forall|t: int| 0 <= t < g.tags.len() ==> (#[trigger] m.tags@[t])@ == g.tags[t]
}

/// The exec definition `d` realizes the model definition `g` for document
/// `file`.
pub open spec fn def_matches(d: RuleDefinition, g: DefModel, file: Seq<char>) -> bool {
    &&& d.id@ == g.id
    &&& d.file@ == file
    &&& d.line == g.line
    &&& meta_matches(d.metadata, g.meta)
}

/// The exec error `e` realizes the model error `g` for document `file`.
pub open spec fn err_matches(e: SpecError, g: ErrModel, file: Seq<char>) -> bool {
    match g {
        ErrModel::UnknownAttribute { key, line } => {
            &&& e matches SpecError::UnknownAttribute { key: k, file: f, line: l }
            &&& k@ == key
            &&& f@ == file
            &&& l == line
        },
        ErrModel::InvalidStatus { value, line } => {
            &&& e matches SpecError::InvalidStatus { value: v, file: f, line: l }
            &&& v@ == value
            &&& f@ == file
            &&& l == line
        },
        ErrModel::InvalidLevel { value, line } => {
            &&& e matches SpecError::InvalidLevel { value: v, file: f, line: l }
            &&& v@ == value
            &&& f@ == file
            &&& l == line
        },
        ErrModel::InvalidRuleId { id, line } => {
            &&& e matches SpecError::InvalidRuleId { id: i, file: f, line: l }
            &&& i@ == id
            &&& f@ == file
            &&& l == line
        },
        ErrModel::Unclosed { line } => {
            &&& e matches SpecError::UnclosedDefinition { file: f, line: l }
            &&& f@ == file
            &&& l == line
        },
    }
}

/// The first position of `c` in `[i, hi)`, or `hi`.
fn find_char_exec(chars: &Vec<char>, i: usize, hi: usize, c: char) -> (r: usize)
    requires
        i <= hi <= chars@.len(),
    ensures
        r == find_char(chars@, i as int, hi as int, c),
        i <= r <= hi,
{
    let mut k = i;
    while k < hi && chars[k] != c
        invariant
            i <= k <= hi <= chars@.len(),
            find_char(chars@, i as int, hi as int, c) == find_char(chars@, k as int, hi as int, c),
        decreases hi - k,
    {
        k = k + 1;
    }
    k
}

/// The first position in `[i, hi)` whose character is not `c`, or `hi`.
fn skip_char_exec(chars: &Vec<char>, i: usize, hi: usize, c: char) -> (r: usize)
    requires
        i <= hi <= chars@.len(),
    ensures
        r == skip_char(chars@, i as int, hi as int, c),
        i <= r <= hi,
{
    let mut k = i;
    while k < hi && chars[k] == c
        invariant
            i <= k <= hi <= chars@.len(),
            skip_char(chars@, i as int, hi as int, c) == skip_char(chars@, k as int, hi as int, c),
        decreases hi - k,
    {
        k = k + 1;
    }
    k
}

/// Parse the comma-separated tag list in `[lo, hi)`, duplicates removed,
/// order of first occurrences kept.
fn parse_tags(chars: &Vec<char>, lo: usize, hi: usize) -> (r: Vec<String>)
    requires
        lo <= hi <= chars@.len(),
    ensures
        ({
            let g = dedup(comma_split(chars@, lo as int, hi as int));
            &&& r@.len() == g.len()
            &&& forall|t: int| 0 <= t < g.len() ==> (#[trigger] r@[t])@ == g[t]
        }),
{
    let ghost s = chars@;
    let mut segs: Vec<String> = Vec::new();
    let ghost mut gsegs: Seq<Seq<char>> = Seq::empty();
    let mut i = lo;
    proof {
        assert(gsegs + comma_split(s, i as int, hi as int) =~= comma_split(
            s,
            lo as int,
            hi as int,
        ));
    }
    while i < hi
        invariant
            lo <= i <= hi <= chars@.len(),
            s == chars@,
            gsegs + comma_split(s, i as int, hi as int) == comma_split(s, lo as int, hi as int),
            segs@.len() == gsegs.len(),
            forall|t: int| 0 <= t < gsegs.len() ==> (#[trigger] segs@[t])@ == gsegs[t],
        decreases hi - i,
    {
        let c = find_char_exec(chars, i, hi, ',');
        if c > i {
            let seg = range_to_string(chars, i, c);
            segs.push(seg);
            proof {
                gsegs = gsegs.push(s.subrange(i as int, c as int));
            }
        }
        proof {
            let c_ = find_char(s, i as int, hi as int, ',');
            let nxt: int = if c_ < hi {
                c_ + 1
            } else {
                hi as int
            };
            if c_ > i {
                assert(gsegs + comma_split(s, nxt, hi as int) =~= comma_split(
                    s,
                    lo as int,
                    hi as int,
                ));
            } else {
                assert(s.subrange(i as int, c_).len() == 0);
                assert(gsegs + comma_split(s, nxt, hi as int) =~= comma_split(
                    s,
                    lo as int,
                    hi as int,
                ));
            }
        }
        if c < hi {
            i = c + 1;
        } else {
            i = hi;
        }
    }
    proof {
        assert(comma_split(s, hi as int, hi as int) =~= Seq::<Seq<char>>::empty());
        assert(gsegs =~= comma_split(s, lo as int, hi as int));
    }
    let mut out: Vec<String> = Vec::new();
    let mut k: usize = 0;
    let n = segs.len();
    proof {
        assert(gsegs.take(0) =~= Seq::<Seq<char>>::empty());
        assert(dedup(gsegs.take(0)) =~= Seq::<Seq<char>>::empty());
    }
    while k < n
        invariant
            k <= n == segs@.len(),
            gsegs.len() == segs@.len(),
            forall|t: int| 0 <= t < gsegs.len() ==> (#[trigger] segs@[t])@ == gsegs[t],
            out@.len() == dedup(gsegs.take(k as int)).len(),
            forall|t: int|
                0 <= t < dedup(gsegs.take(k as int)).len() ==> (#[trigger] out@[t])@ == dedup(
                    gsegs.take(k as int),
                )[t],
            forall|t: int|
                0 <= t < dedup(gsegs.take(k as int)).len() ==> gsegs.take(k as int).contains(
                    #[trigger] dedup(gsegs.take(k as int))[t],
                ),
            forall|x: Seq<char>|
                gsegs.take(k as int).contains(x) ==> dedup(gsegs.take(k as int)).contains(x),
        decreases n - k,
    {
        let mut present = false;
        let mut j: usize = 0;
        let m = out.len();
        while j < m
            invariant
                j <= m == out@.len(),
                k < n == segs@.len(),
                gsegs.len() == segs@.len(),
                forall|t: int| 0 <= t < gsegs.len() ==> (#[trigger] segs@[t])@ == gsegs[t],
                present == exists|t: int|
                    0 <= t < j && (#[trigger] out@[t])@ == segs@[k as int]@,
            decreases m - j,
        {
            if out[j] == segs[k] {
                present = true;
                proof {
                    assert(out@[j as int]@ == segs@[k as int]@);
                }
            }
            j = j + 1;
        }
        proof {
            assert(gsegs.take(k + 1).drop_last() =~= gsegs.take(k as int));
            assert(gsegs.take(k + 1).last() == gsegs[k as int]);
            if present {
                let t = choose|t: int| 0 <= t < m && (#[trigger] out@[t])@ == segs@[k as int]@;
                assert(out@[t]@ == dedup(gsegs.take(k as int))[t]);
                assert(gsegs.take(k as int).contains(dedup(gsegs.take(k as int))[t]));
                assert(gsegs.take(k as int).contains(gsegs[k as int]));
            } else {
                if gsegs.take(k as int).contains(gsegs[k as int]) {
                    assert(dedup(gsegs.take(k as int)).contains(gsegs[k as int]));
                    let t = choose|t: int|
                        0 <= t < dedup(gsegs.take(k as int)).len() && dedup(
                            gsegs.take(k as int),
                        )[t] == gsegs[k as int];
                    assert(out@[t]@ == gsegs[k as int]);
                    assert(segs@[k as int]@ == gsegs[k as int]);
                    assert(false);
                }
            }
        }
        if !present {
            out.push(segs[k].clone());
            proof {
                assert forall|x: Seq<char>|
                    #[trigger] gsegs.take(k + 1).contains(x) implies dedup(
                    gsegs.take(k + 1),
                ).contains(x) by {
                    if gsegs.take(k as int).contains(x) {
                        assert(dedup(gsegs.take(k as int)).contains(x));
                        let t = choose|t: int|
                            0 <= t < dedup(gsegs.take(k as int)).len() && dedup(
                                gsegs.take(k as int),
                            )[t] == x;
                        assert(dedup(gsegs.take(k + 1))[t] == x);
                    } else {
                        assert(x == gsegs[k as int]);
                        assert(dedup(gsegs.take(k + 1)).last() == x);
                    }
                }
            }
        } else {
            proof {
                assert forall|x: Seq<char>|
                    #[trigger] gsegs.take(k + 1).contains(x) implies dedup(
                    gsegs.take(k + 1),
                ).contains(x) by {
                    if gsegs.take(k as int).contains(x) {
                        assert(dedup(gsegs.take(k as int)).contains(x));
                        let t = choose|t: int|
                            0 <= t < dedup(gsegs.take(k as int)).len() && dedup(
                                gsegs.take(k as int),
                            )[t] == x;
                        assert(dedup(gsegs.take(k + 1))[t] == x);
                    } else {
                        assert(x == gsegs[k as int]);
                        assert(gsegs.take(k as int).contains(gsegs[k as int]));
                    }
                }
            }
        }
        k = k + 1;
    }
    proof {
        assert(gsegs.take(n as int) =~= gsegs);
    }
    out
}

/// One `key=value` attribute token applied to the metadata built so far.
fn apply_attr_exec(
    chars: &Vec<char>,
    t0: usize,
    t1: usize,
    meta: RuleMetadata,
    ln: usize,
    path: &String,
    Ghost(gmeta): Ghost<MetaModel>,
) -> (r: Result<RuleMetadata, SpecError>)
    requires
        t0 <= t1 <= chars@.len(),
        meta_matches(meta, gmeta),
    ensures
        match r {
            Ok(m2) => {
                &&& apply_attr(chars@, t0 as int, t1 as int, gmeta, ln as int) matches Ok(g2)
                    && meta_matches(m2, g2)
            },
            Err(e) => {
                &&& apply_attr(chars@, t0 as int, t1 as int, gmeta, ln as int) matches Err(ge)
                    && err_matches(e, ge, path@)
            },
        },
{
    let ghost s = chars@;
    let e = find_char_exec(chars, t0, t1, '=');
    if e >= t1 {
        return Err(
            SpecError::UnknownAttribute {
                key: range_to_string(chars, t0, t1),
                file: path.clone(),
                line: ln,
            },
        );
    }
    let ghost gkey = s.subrange(t0 as int, e as int);
    let ghost gvalue = s.subrange(e + 1, t1 as int);
    if range_eq_str(chars, t0, e, "status") {
        if range_eq_str(chars, e + 1, t1, "stable") {
            Ok(RuleMetadata { status: Some(RuleStatus::Stable), ..meta })
        } else if range_eq_str(chars, e + 1, t1, "draft") {
            Ok(RuleMetadata { status: Some(RuleStatus::Draft), ..meta })
        } else if range_eq_str(chars, e + 1, t1, "deprecated") {
            Ok(RuleMetadata { status: Some(RuleStatus::Deprecated), ..meta })
        } else {
            Err(
                SpecError::InvalidStatus {
                    value: range_to_string(chars, e + 1, t1),
                    file: path.clone(),
                    line: ln,
                },
            )
        }
    } else if range_eq_str(chars, t0, e, "level") {
        if range_eq_str(chars, e + 1, t1, "must") {
            Ok(RuleMetadata { level: Some(RuleLevel::Must), ..meta })
        } else if range_eq_str(chars, e + 1, t1, "should") {
            Ok(RuleMetadata { level: Some(RuleLevel::Should), ..meta })
        } else if range_eq_str(chars, e + 1, t1, "may") {
            Ok(RuleMetadata { level: Some(RuleLevel::May), ..meta })
        } else {
            Err(
                SpecError::InvalidLevel {
                    value: range_to_string(chars, e + 1, t1),
                    file: path.clone(),
                    line: ln,
                },
            )
        }
    } else if range_eq_str(chars, t0, e, "since") {
        Ok(RuleMetadata { since: Some(range_to_string(chars, e + 1, t1)), ..meta })
    } else if range_eq_str(chars, t0, e, "until") {
        Ok(RuleMetadata { until: Some(range_to_string(chars, e + 1, t1)), ..meta })
    } else if range_eq_str(chars, t0, e, "tags") {
        Ok(RuleMetadata { tags: parse_tags(chars, e + 1, t1), ..meta })
    } else {
        Err(
            SpecError::UnknownAttribute {
                key: range_to_string(chars, t0, e),
                file: path.clone(),
                line: ln,
            },
        )
    }
}

/// What the line `[a, b)`, numbered `ln`, contributes: a rule definition,
/// nothing, or a hard error.
fn parse_def_line(
    chars: &Vec<char>,
    a: usize,
    b: usize,
    ln: usize,
    path: &String,
) -> (r: Result<Option<RuleDefinition>, SpecError>)
    requires
        a <= b <= chars@.len(),
    ensures
        match r {
            Ok(opt) => {
                &&& line_def(chars@, a as int, b as int, ln as int) matches Ok(gopt)
                &&& match (opt, gopt) {
                    (Option::Some(d), Option::Some(g)) => def_matches(d, g, path@),
                    (Option::None, Option::None) => true,
                    _ => false,
                }
            },
            Err(e) => {
                &&& line_def(chars@, a as int, b as int, ln as int) matches Err(ge)
                    && err_matches(e, ge, path@)
            },
        },
{
    let ghost s = chars@;
    if b - a < 2 {
        return Ok(None);
    }
    if chars[a] != 'r' {
        return Ok(None);
    }
    if chars[a + 1] != '[' {
        return Ok(None);
    }
    let cb = find_char_exec(chars, a + 2, b, ']');
    if cb >= b {
        return Err(SpecError::UnclosedDefinition { file: path.clone(), line: ln });
    }
    let t0 = skip_char_exec(chars, a + 2, cb, ' ');
    if t0 >= cb {
        proof {
            assert(tokens(s, a + 2, cb as int) =~= Seq::<(int, int)>::empty());
        }
        let empty_id = String::new();
        proof {
            assert(empty_id@ =~= Seq::<char>::empty());
        }
        return Err(SpecError::InvalidRuleId { id: empty_id, file: path.clone(), line: ln });
    }
    let t1 = find_char_exec(chars, t0, cb, ' ');
    let ghost toks = tokens(s, (a + 2) as int, cb as int);
    proof {
        assert(toks == seq![(t0 as int, t1 as int)] + tokens(s, t1 as int, cb as int));
        assert(toks[0] == (t0 as int, t1 as int));
        assert(toks.drop_first() =~= tokens(s, t1 as int, cb as int));
    }
    if !crate::rule_id::valid_rule_id_range(chars, t0, t1) {
        return Err(
            SpecError::InvalidRuleId {
                id: range_to_string(chars, t0, t1),
                file: path.clone(),
                line: ln,
            },
        );
    }
    let mut meta = RuleMetadata {
        status: None,
        level: None,
        since: None,
        until: None,
        tags: Vec::new(),
    };
    let ghost mut gmeta: MetaModel = meta_empty();
    let mut i = t1;
    loop
        invariant_except_break
            t1 <= i <= cb,
            cb <= b <= chars@.len(),
            a + 2 <= cb < b,
            b - a >= 2,
            s == chars@,
            s[a as int] == 'r',
            s[a + 1] == '[',
            cb == find_char(s, a + 2, b as int, ']'),
            t0 == skip_char(s, a + 2, cb as int, ' '),
            t0 < cb,
            t1 == find_char(s, t0 as int, cb as int, ' '),
            tokens(s, a + 2, cb as int) == seq![(t0 as int, t1 as int)] + tokens(
                s,
                t1 as int,
                cb as int,
            ),
            valid_rule_id(s.subrange(t0 as int, t1 as int)),
            meta_matches(meta, gmeta),
            apply_attrs(s, tokens(s, t1 as int, cb as int), meta_empty(), ln as int)
                == apply_attrs(s, tokens(s, i as int, cb as int), gmeta, ln as int),
        ensures
            apply_attrs(s, tokens(s, t1 as int, cb as int), meta_empty(), ln as int) matches Ok(gm)
                && meta_matches(meta, gm),
        decreases cb - i,
    {
        let u0 = skip_char_exec(chars, i, cb, ' ');
        if u0 >= cb {
            proof {
                assert(tokens(s, i as int, cb as int) =~= Seq::<(int, int)>::empty());
            }
            break;
        }
        let u1 = find_char_exec(chars, u0, cb, ' ');
        proof {
            crate::spec_doc_model::lemma_find_char_bounds(s, u0 as int, cb as int, ' ');
            crate::spec_doc_model::lemma_skip_char_bounds(s, i as int, cb as int, ' ');
            assert(s[u0 as int] != ' ');
            assert(u1 > u0);
            let tk = tokens(s, i as int, cb as int);
            assert(tk == seq![(u0 as int, u1 as int)] + tokens(s, u1 as int, cb as int));
            assert(tk[0] == (u0 as int, u1 as int));
            assert(tk.drop_first() =~= tokens(s, u1 as int, cb as int));
        }
        let next_meta = apply_attr_exec(chars, u0, u1, meta, ln, path, Ghost(gmeta));
        match next_meta {
            Ok(m2) => {
                proof {
                    gmeta = apply_attr(s, u0 as int, u1 as int, gmeta, ln as int)->Ok_0;
                }
                meta = m2;
                i = u1;
            },
            Err(e) => {
                proof {
                    let toks2 = tokens(s, a + 2, cb as int);
                    assert(toks2.drop_first() =~= tokens(s, t1 as int, cb as int));
                    let ge = apply_attr(s, u0 as int, u1 as int, gmeta, ln as int)->Err_0;
                    assert(apply_attrs(s, tokens(s, i as int, cb as int), gmeta, ln as int)
                        == Err::<MetaModel, ErrModel>(ge));
                    assert(apply_attrs(s, toks2.drop_first(), meta_empty(), ln as int)
                        == Err::<MetaModel, ErrModel>(ge));
                    assert(line_def(s, a as int, b as int, ln as int)
                        == Err::<Option<DefModel>, ErrModel>(ge));
                }
                return Err(e);
            },
        }
    }
    let id = range_to_string(chars, t0, t1);
    Ok(Some(RuleDefinition { id, file: path.clone(), line: ln, metadata: meta }))
}

/// Parse all rule definitions out of one specification document.
///
/// Returns the definitions in source order; a grammar error aborts the
/// whole parse. Duplicate rule ids are not this function's concern: they
/// are detected when a manifest is built from the definitions.
pub fn parse_spec_document(path: &str, text: &str) -> (r: Result<Vec<RuleDefinition>, SpecError>)
    requires
        text@.len() < usize::MAX,
    ensures
        match r {
            Ok(defs) => {
                &&& parse_doc(text@, 0, 1) matches Ok(gdefs)
                &&& defs@.len() == gdefs.len()
                &&& (forall|t: int|
                    0 <= t < gdefs.len() ==> def_matches(#[trigger] defs@[t], gdefs[t], path@))
            },
            Err(e) => {
                &&& parse_doc(text@, 0, 1) matches Err(ge) && err_matches(e, ge, path@)
            },
        },
{
    let ghost s = text@;
    let chars = crate::strutil::to_chars(text);
    let path_string = {
        let p: String = path.to_owned();
        p
    };
    let ghost total = parse_doc(s, 0, 1);
    let n = chars.len();
    let mut defs: Vec<RuleDefinition> = Vec::new();
    let ghost mut gdone: Seq<DefModel> = Seq::empty();
    let mut a: usize = 0;
    let mut ln: usize = 1;
    let mut done = false;
    proof {
        match parse_doc(s, 0, 1) {
            Ok(rest) => {
                assert(gdone + rest =~= rest);
            },
            Err(_) => {},
        }
    }
    while !done
        invariant
            a <= n == chars@.len() < usize::MAX,
            ln <= a + 1,
            1 <= ln,
            s == chars@,
            s == text@,
            path_string@ == path@,
            total == parse_doc(s, 0, 1),
            !done ==> (match parse_doc(s, a as int, ln as int) {
                Ok(rest) => total == Ok::<Seq<DefModel>, ErrModel>(gdone + rest),
                Err(ge) => total == Err::<Seq<DefModel>, ErrModel>(ge),
            }),
            done ==> total == Ok::<Seq<DefModel>, ErrModel>(gdone),
            defs@.len() == gdone.len(),
            forall|t: int|
                0 <= t < gdone.len() ==> def_matches(#[trigger] defs@[t], gdone[t], path@),
        decreases n - a, (if done { 0int } else { 1int }),
    {
        let b = crate::lexer::line_end_from(&chars, a);
        let line_res = parse_def_line(&chars, a, b, ln, &path_string);
        let ghost cur = line_def(s, a as int, b as int, ln as int);
        match line_res {
            Err(e) => {
                proof {
                    assert(parse_doc(s, a as int, ln as int) == Err::<Seq<DefModel>, ErrModel>(
                        cur->Err_0,
                    ));
                }
                return Err(e);
            },
            Ok(opt) => {
                let ghost front: Seq<DefModel> = match cur->Ok_0 {
                    Some(d) => seq![d],
                    None => seq![],
                };
                match opt {
                    Some(d) => {
                        defs.push(d);
                    },
                    None => {},
                }
                proof {
                    gdone = gdone + front;
                }
                if b >= n {
                    done = true;
                    proof {
                        assert(parse_doc(s, a as int, ln as int) == Ok::<
                            Seq<DefModel>,
                            ErrModel,
                        >(front));
                        match total {
                            Ok(gd) => {
                                assert(gd =~= gdone);
                            },
                            Err(_) => {},
                        }
                    }
                } else {
                    proof {
                        match parse_doc(s, b + 1, ln + 1) {
                            Ok(rest) => {
                                assert(parse_doc(s, a as int, ln as int) == Ok::<
                                    Seq<DefModel>,
                                    ErrModel,
                                >(front + rest));
                                match total {
                                    Ok(gd) => {
                                        assert(gd =~= gdone + rest);
                                    },
                                    Err(_) => {},
                                }
                            },
                            Err(ge) => {
                                assert(parse_doc(s, a as int, ln as int) == Err::<
                                    Seq<DefModel>,
                                    ErrModel,
                                >(ge));
                            },
                        }
                    }
                    a = b + 1;
                    ln = ln + 1;
                }
            },
        }
    }
    Ok(defs)
}

/// The short description of an error kind, as it is reported.
pub open spec fn error_message_chars(e: SpecError) -> Seq<char> {
    match e {
        SpecError::UnknownAttribute { .. } => "unknown attribute"@,
        SpecError::InvalidStatus { .. } => "invalid status"@,
        SpecError::InvalidLevel { .. } => "invalid level"@,
        SpecError::InvalidRuleId { .. } => "invalid rule id"@,
        SpecError::UnclosedDefinition { .. } => "unclosed rule definition"@,
        SpecError::DuplicateRule { .. } => "duplicate rule id"@,
    }
}

impl SpecError {
    /// A short human-readable description of the error kind.
    pub fn message(&self) -> (r: String)
        ensures
            r@ == error_message_chars(*self),
    {
        match self {
            SpecError::UnknownAttribute { .. } => String::from_str("unknown attribute"),
            SpecError::InvalidStatus { .. } => String::from_str("invalid status"),
            SpecError::InvalidLevel { .. } => String::from_str("invalid level"),
            SpecError::InvalidRuleId { .. } => String::from_str("invalid rule id"),
            SpecError::UnclosedDefinition { .. } => String::from_str("unclosed rule definition"),
            SpecError::DuplicateRule { .. } => String::from_str("duplicate rule id"),
        }
    }
}

} // verus!
