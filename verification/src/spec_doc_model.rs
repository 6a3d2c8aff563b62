//! The mathematical model of the spec-document parser.
//!
//! A rule definition is a line that opens with the marker `r[`, holding a
//! rule id and optional space-separated `key=value` attributes, closed by
//! `]`. Recognized keys are `status`, `level`, `since`, `until` and `tags`
//! (a comma-separated list). An unknown key, an out-of-enum `status` or
//! `level` value, a malformed rule id and an unclosed marker are hard
//! errors: they abort the whole parse.

use vstd::prelude::*;

use crate::pass_model::line_end;
use crate::rule_id::valid_rule_id;

verus! {

/// The lifecycle stage a rule may declare.
#[derive(Debug, Clone, Copy, PartialEq, Eq, Structural)]
pub enum RuleStatus {
    Stable,
    Draft,
    Deprecated,
}

/// The requirement strength a rule may declare.
#[derive(Debug, Clone, Copy, PartialEq, Eq, Structural)]
pub enum RuleLevel {
    Must,
    Should,
    May,
}

/// A parsed rule's metadata, at the model level.
pub struct MetaModel {
    pub status: Option<RuleStatus>,
    pub level: Option<RuleLevel>,
    pub since: Option<Seq<char>>,
    pub until: Option<Seq<char>>,
    pub tags: Seq<Seq<char>>,
}

/// A parsed rule definition, at the model level.
pub struct DefModel {
    pub id: Seq<char>,
    pub line: int,
    pub meta: MetaModel,
}

/// A parse error, at the model level.
pub enum ErrModel {
    /// A `key=value` pair with an unrecognized key, or an attribute token
    /// without `=`.
    UnknownAttribute { key: Seq<char>, line: int },
    /// A `status` value outside {stable, draft, deprecated}.
    InvalidStatus { value: Seq<char>, line: int },
    /// A `level` value outside {must, should, may}.
    InvalidLevel { value: Seq<char>, line: int },
    /// A marker line whose rule id does not satisfy the grammar, or one
    /// with no rule id at all.
    InvalidRuleId { id: Seq<char>, line: int },
    /// A marker line without a closing `]`.
    Unclosed { line: int },
}

/// Metadata with nothing declared.
pub open spec fn meta_empty() -> MetaModel {
    MetaModel { status: None, level: None, since: None, until: None, tags: seq![] }
}

/// The first position of `c` in `[i, hi)`, or `hi` if there is none.
pub open spec fn find_char(s: Seq<char>, i: int, hi: int, c: char) -> int
    recommends
        0 <= i <= hi <= s.len(),
    decreases hi - i when i <= hi
{
    if i >= hi {
        hi
    } else if s[i] == c {
        i
    } else {
        find_char(s, i + 1, hi, c)
    }
}

pub proof fn lemma_find_char_bounds(s: Seq<char>, i: int, hi: int, c: char)
    requires
        0 <= i <= hi <= s.len(),
    ensures
        i <= find_char(s, i, hi, c) <= hi,
        forall|k: int| i <= k < find_char(s, i, hi, c) ==> s[k] != c,
        find_char(s, i, hi, c) < hi ==> s[find_char(s, i, hi, c)] == c,
    decreases hi - i,
{
    if i < hi && s[i] != c {
        lemma_find_char_bounds(s, i + 1, hi, c);
    }
}

/// The first position in `[i, hi)` whose character is not `c`, or `hi`.
pub open spec fn skip_char(s: Seq<char>, i: int, hi: int, c: char) -> int
    recommends
        0 <= i <= hi <= s.len(),
    decreases hi - i when i <= hi
{
    if i >= hi {
        hi
    } else if s[i] == c {
        skip_char(s, i + 1, hi, c)
    } else {
        i
    }
}

pub proof fn lemma_skip_char_bounds(s: Seq<char>, i: int, hi: int, c: char)
    requires
        0 <= i <= hi <= s.len(),
    ensures
        i <= skip_char(s, i, hi, c) <= hi,
        forall|k: int| i <= k < skip_char(s, i, hi, c) ==> s[k] == c,
        skip_char(s, i, hi, c) < hi ==> s[skip_char(s, i, hi, c)] != c,
    decreases hi - i,
{
    if i < hi && s[i] == c {
        lemma_skip_char_bounds(s, i + 1, hi, c);
    }
}

/// The space-separated tokens of `s[i..hi]`, as index ranges, empty tokens
/// dropped.
pub open spec fn tokens(s: Seq<char>, i: int, hi: int) -> Seq<(int, int)>
    recommends
        0 <= i <= hi <= s.len(),
    decreases hi - i when 0 <= i <= hi <= s.len()
        via tokens_decreases
{
    let a = skip_char(s, i, hi, ' ');
    if a >= hi {
        seq![]
    } else {
        let b = find_char(s, a, hi, ' ');
        seq![(a, b)] + tokens(s, b, hi)
    }
}

#[via_fn]
proof fn tokens_decreases(s: Seq<char>, i: int, hi: int) {
    lemma_skip_char_bounds(s, i, hi, ' ');
    let a = skip_char(s, i, hi, ' ');
    if a < hi {
        lemma_find_char_bounds(s, a, hi, ' ');
    }
}

/// The comma-separated segments of `s[i..hi]`, empty segments dropped.
pub open spec fn comma_split(s: Seq<char>, i: int, hi: int) -> Seq<Seq<char>>
    recommends
        0 <= i <= hi <= s.len(),
    decreases hi - i when 0 <= i <= hi <= s.len()
        via comma_split_decreases
{
    if i >= hi {
        seq![]
    } else {
        let c = find_char(s, i, hi, ',');
        let seg = s.subrange(i, c);
        let nxt = if c < hi {
            c + 1
        } else {
            hi
        };
        let rest = comma_split(s, nxt, hi);
        if seg.len() == 0 {
            rest
        } else {
            seq![seg] + rest
        }
    }
}

#[via_fn]
proof fn comma_split_decreases(s: Seq<char>, i: int, hi: int) {
    lemma_find_char_bounds(s, i, hi, ',');
}

/// `xs` with later duplicates removed, first occurrences kept in order.
pub open spec fn dedup(xs: Seq<Seq<char>>) -> Seq<Seq<char>>
    decreases xs.len(),
{
    if xs.len() == 0 {
        seq![]
    } else {
        let rest = dedup(xs.drop_last());
        if xs.drop_last().contains(xs.last()) {
            rest
        } else {
            rest.push(xs.last())
        }
    }
}

/// One `key=value` attribute token applied to the metadata built so far.
/// The value of a repeated key overwrites the earlier one.
pub open spec fn apply_attr(s: Seq<char>, t0: int, t1: int, meta: MetaModel, ln: int) -> Result<
    MetaModel,
    ErrModel,
>
    recommends
        0 <= t0 <= t1 <= s.len(),
{
    let e = find_char(s, t0, t1, '=');
    if e >= t1 {
        Err(ErrModel::UnknownAttribute { key: s.subrange(t0, t1), line: ln })
    } else {
        let key = s.subrange(t0, e);
        let value = s.subrange(e + 1, t1);
        if key == "status"@ {
            if value == "stable"@ {
                Ok(MetaModel { status: Some(RuleStatus::Stable), ..meta })
            } else if value == "draft"@ {
                Ok(MetaModel { status: Some(RuleStatus::Draft), ..meta })
            } else if value == "deprecated"@ {
                Ok(MetaModel { status: Some(RuleStatus::Deprecated), ..meta })
            } else {
                Err(ErrModel::InvalidStatus { value, line: ln })
            }
        } else if key == "level"@ {
            if value == "must"@ {
                Ok(MetaModel { level: Some(RuleLevel::Must), ..meta })
            } else if value == "should"@ {
                Ok(MetaModel { level: Some(RuleLevel::Should), ..meta })
            } else if value == "may"@ {
                Ok(MetaModel { level: Some(RuleLevel::May), ..meta })
            } else {
                Err(ErrModel::InvalidLevel { value, line: ln })
            }
        } else if key == "since"@ {
            Ok(MetaModel { since: Some(value), ..meta })
        } else if key == "until"@ {
            Ok(MetaModel { until: Some(value), ..meta })
        } else if key == "tags"@ {
            Ok(MetaModel { tags: dedup(comma_split(s, e + 1, t1)), ..meta })
        } else {
            Err(ErrModel::UnknownAttribute { key, line: ln })
        }
    }
}

/// All attribute tokens applied in order, stopping at the first error.
pub open spec fn apply_attrs(
    s: Seq<char>,
    toks: Seq<(int, int)>,
    meta: MetaModel,
    ln: int,
) -> Result<MetaModel, ErrModel>
    decreases toks.len(),
{
    if toks.len() == 0 {
        Ok(meta)
    } else {
        match apply_attr(s, toks[0].0, toks[0].1, meta, ln) {
            Ok(m2) => apply_attrs(s, toks.drop_first(), m2, ln),
            Err(e) => Err(e),
        }
    }
}

/// What the line `[a, b)`, numbered `ln`, contributes: a definition, an
/// error, or nothing for a line that does not open with the marker.
pub open spec fn line_def(s: Seq<char>, a: int, b: int, ln: int) -> Result<
    Option<DefModel>,
    ErrModel,
>
    recommends
        0 <= a <= b <= s.len(),
{
    if b - a < 2 || s[a] != 'r' || s[a + 1] != '[' {
        Ok(None)
    } else {
        let cb = find_char(s, a + 2, b, ']');
        if cb >= b {
            Err(ErrModel::Unclosed { line: ln })
        } else {
            let toks = tokens(s, a + 2, cb);
            if toks.len() == 0 {
                Err(ErrModel::InvalidRuleId { id: seq![], line: ln })
            } else {
                let id = s.subrange(toks[0].0, toks[0].1);
                if !valid_rule_id(id) {
                    Err(ErrModel::InvalidRuleId { id, line: ln })
                } else {
                    match apply_attrs(s, toks.drop_first(), meta_empty(), ln) {
                        Ok(meta) => Ok(Some(DefModel { id, line: ln, meta })),
                        Err(e) => Err(e),
                    }
                }
            }
        }
    }
}

/// The rule definitions of the document from position `a` on, the first
/// line numbered `ln`, in source order; or the first error.
pub open spec fn parse_doc(s: Seq<char>, a: int, ln: int) -> Result<Seq<DefModel>, ErrModel>
    recommends
        0 <= a <= s.len(),
    decreases s.len() - a when 0 <= a <= s.len()
        via parse_doc_decreases
{
    let b = line_end(s, a);
    let cur = line_def(s, a, b, ln);
    match cur {
        Err(e) => Err(e),
        Ok(opt) => {
            let front = match opt {
                Some(d) => seq![d],
                None => seq![],
            };
            if b >= s.len() {
                Ok(front)
            } else {
                match parse_doc(s, b + 1, ln + 1) {
                    Err(e) => Err(e),
                    Ok(rest) => Ok(front + rest),
                }
            }
        },
    }
}

#[via_fn]
proof fn parse_doc_decreases(s: Seq<char>, a: int, ln: int) {
    crate::pass_model::lemma_line_end_bounds(s, a);
}

} // verus!
