//! Coverage analysis: cross-referencing a rule manifest against the
//! references extracted from source.
//!
//! `CoverageReport::compute` is pure and total: it partitions the
//! references by manifest membership, collapses multiple references to one
//! covered-rule entry, keeps multiplicity in the by-rule and by-verb
//! indices, and never fails.

use vstd::prelude::*;

use vstd::set_lib::lemma_len_subset;

use crate::lexer::RuleReference;
use crate::manifest::SpecManifest;
use crate::spec_doc_model::dedup;
use crate::verb::RefVerb;

verus! {

/// The rule-id views of a run of references.
pub open spec fn ref_ids(refs: Seq<RuleReference>) -> Seq<Seq<char>> {
    refs.map_values(|r: RuleReference| r.rule_id@)
}

/// The references whose rule id the manifest defines, in order.
pub open spec fn valid_filter(refs: Seq<RuleReference>, ids: Seq<Seq<char>>) -> Seq<RuleReference>
    decreases refs.len(),
{
    if refs.len() == 0 {
        seq![]
    } else {
        let rest = valid_filter(refs.drop_last(), ids);
        if ids.contains(refs.last().rule_id@) {
            rest.push(refs.last())
        } else {
            rest
        }
    }
}

/// The references whose rule id the manifest does not define, in order.
pub open spec fn invalid_filter(refs: Seq<RuleReference>, ids: Seq<Seq<char>>) -> Seq<
    RuleReference,
>
    decreases refs.len(),
{
    if refs.len() == 0 {
        seq![]
    } else {
        let rest = invalid_filter(refs.drop_last(), ids);
        if !ids.contains(refs.last().rule_id@) {
            rest.push(refs.last())
        } else {
            rest
        }
    }
}

/// The covered rule ids: the ids of the valid references, first occurrences
/// in order, duplicates collapsed.
pub open spec fn covered_of(refs: Seq<RuleReference>, ids: Seq<Seq<char>>) -> Seq<Seq<char>> {
    dedup(ref_ids(valid_filter(refs, ids)))
}

/// The manifest ids no reference covers, in manifest order.
pub open spec fn uncovered_of(ids: Seq<Seq<char>>, cov: Seq<Seq<char>>) -> Seq<Seq<char>>
    decreases ids.len(),
{
    if ids.len() == 0 {
        seq![]
    } else {
        let rest = uncovered_of(ids.drop_last(), cov);
        if cov.contains(ids.last()) {
            rest
        } else {
            rest.push(ids.last())
        }
    }
}

/// The references carrying the rule id `x`, in order, multiplicity kept.
pub open spec fn refs_with_id(refs: Seq<RuleReference>, x: Seq<char>) -> Seq<RuleReference>
    decreases refs.len(),
{
    if refs.len() == 0 {
        seq![]
    } else {
        let rest = refs_with_id(refs.drop_last(), x);
        if refs.last().rule_id@ == x {
            rest.push(refs.last())
        } else {
            rest
        }
    }
}

/// The references carrying the verb `v`, in order.
pub open spec fn refs_with_verb(refs: Seq<RuleReference>, v: RefVerb) -> Seq<RuleReference>
    decreases refs.len(),
{
    if refs.len() == 0 {
        seq![]
    } else {
        let rest = refs_with_verb(refs.drop_last(), v);
        if refs.last().verb == v {
            rest.push(refs.last())
        } else {
            rest
        }
    }
}

/// The fixed order in which the by-verb index lists the verbs.
pub open spec fn verb_order() -> Seq<RefVerb> {
    seq![RefVerb::Define, RefVerb::Impl, RefVerb::Verify, RefVerb::Depends, RefVerb::Related]
}

/// An exec string vector realizes a model id sequence.
pub open spec fn strs_match(v: Seq<String>, m: Seq<Seq<char>>) -> bool {
    &&& v.len() == m.len()
    &&& forall|t: int| 0 <= t < m.len() ==> (#[trigger] v[t])@ == m[t]
}

/// Deduplication keeps exactly the first occurrences: no duplicates in the
/// result, and the same membership as the input.
pub proof fn lemma_dedup_wf(xs: Seq<Seq<char>>)
    ensures
        dedup(xs).no_duplicates(),
        forall|x: Seq<char>| #[trigger] dedup(xs).contains(x) <==> xs.contains(x),
    decreases xs.len(),
{
    if xs.len() == 0 {
    } else {
        lemma_dedup_wf(xs.drop_last());
        let rest = dedup(xs.drop_last());
        assert forall|x: Seq<char>| #[trigger] dedup(xs).contains(x) implies xs.contains(x) by {
            if rest.contains(x) {
                assert(xs.drop_last().contains(x));
                let j = choose|j: int| 0 <= j < xs.drop_last().len() && xs.drop_last()[j] == x;
                assert(xs[j] == x);
            } else {
                assert(x == xs.last());
                assert(xs[xs.len() - 1] == x);
            }
        }
        assert forall|x: Seq<char>| xs.contains(x) implies #[trigger] dedup(xs).contains(x) by {
            let j = choose|j: int| 0 <= j < xs.len() && xs[j] == x;
            if j < xs.len() - 1 {
                assert(xs.drop_last()[j] == x);
                assert(xs.drop_last().contains(x));
                assert(rest.contains(x));
                if xs.drop_last().contains(xs.last()) {
                    assert(dedup(xs) == rest);
                } else {
                    let t = choose|t: int| 0 <= t < rest.len() && rest[t] == x;
                    assert(dedup(xs)[t] == x);
                }
            } else {
                assert(x == xs.last());
                if xs.drop_last().contains(x) {
                    assert(rest.contains(x));
                } else {
                    assert(dedup(xs).last() == x);
                }
            }
        }
        if !xs.drop_last().contains(xs.last()) {
            assert(!rest.contains(xs.last()));
            assert forall|j: int, k: int|
                0 <= j < k < dedup(xs).len() implies dedup(xs)[j] != dedup(xs)[k] by {
                if k < dedup(xs).len() - 1 {
                    assert(dedup(xs)[j] == rest[j]);
                    assert(dedup(xs)[k] == rest[k]);
                } else {
                    assert(dedup(xs)[j] == rest[j]);
                    assert(rest.contains(rest[j]));
                }
            }
        }
    }
}

/// Every id of a valid reference is a manifest id.
pub proof fn lemma_valid_ids_member(refs: Seq<RuleReference>, ids: Seq<Seq<char>>)
    ensures
        forall|t: int|
            0 <= t < valid_filter(refs, ids).len() ==> ids.contains(
                #[trigger] ref_ids(valid_filter(refs, ids))[t],
            ),
    decreases refs.len(),
{
    if refs.len() > 0 {
        lemma_valid_ids_member(refs.drop_last(), ids);
        let rest = valid_filter(refs.drop_last(), ids);
        assert forall|t: int|
            0 <= t < valid_filter(refs, ids).len() implies ids.contains(
            ref_ids(valid_filter(refs, ids))[t],
        ) by {
            if ids.contains(refs.last().rule_id@) {
                if t < rest.len() {
                    assert(valid_filter(refs, ids)[t] == rest[t]);
                    assert(ref_ids(valid_filter(refs, ids))[t] == ref_ids(rest)[t]);
                } else {
                    assert(ref_ids(valid_filter(refs, ids))[t] == refs.last().rule_id@);
                }
            } else {
                assert(valid_filter(refs, ids)[t] == rest[t]);
                assert(ref_ids(valid_filter(refs, ids))[t] == ref_ids(rest)[t]);
            }
        }
    }
}

/// The covered set never outgrows the manifest.
pub proof fn lemma_covered_le(refs: Seq<RuleReference>, ids: Seq<Seq<char>>)
    ensures
        covered_of(refs, ids).len() <= ids.len(),
{
    let cov = covered_of(refs, ids);
    lemma_dedup_wf(ref_ids(valid_filter(refs, ids)));
    lemma_valid_ids_member(refs, ids);
    assert forall|x: Seq<char>| cov.to_set().contains(x) implies ids.to_set().contains(x) by {
        assert(cov.contains(x));
        assert(ref_ids(valid_filter(refs, ids)).contains(x));
        let t = choose|t: int|
            0 <= t < ref_ids(valid_filter(refs, ids)).len() && ref_ids(
                valid_filter(refs, ids),
            )[t] == x;
        assert(ids.contains(x));
        let k = choose|k: int| 0 <= k < ids.len() && ids[k] == x;
        assert(ids.to_set().contains(x));
    }
    cov.unique_seq_to_set();
    lemma_len_subset(cov.to_set(), ids.to_set());
    ids.lemma_cardinality_of_set();
}

/// All valid references, grouped under one rule id, multiplicity kept.
#[derive(Debug)]
pub struct RuleGroup {
    /// The rule id the group belongs to.
    pub rule_id: String,
    /// The references to that rule, in extraction order.
    pub refs: Vec<RuleReference>,
}

/// The by-rule index of one verb.
#[derive(Debug)]
pub struct VerbGroup {
    /// The verb.
    pub verb: RefVerb,
    /// That verb's references, grouped by rule id in first-occurrence
    /// order.
    pub rules: Vec<RuleGroup>,
}

/// Coverage analysis results for a single spec.
#[derive(Debug)]
pub struct CoverageReport {
    /// Name of the spec.
    pub spec_name: String,
    /// Total number of rules in the spec.
    pub total_rules: usize,
    /// Rules referenced at least once, first occurrences in order.
    pub covered_rules: Vec<String>,
    /// Rules with no references, in manifest order.
    pub uncovered_rules: Vec<String>,
    /// References to rules the manifest does not define, in order.
    pub invalid_references: Vec<RuleReference>,
    /// All valid references, grouped by rule id.
    pub references_by_rule: Vec<RuleGroup>,
    /// References grouped by verb, then by rule id.
    pub references_by_verb: Vec<VerbGroup>,
}

/// The exec group `g` realizes the group of `refs` keyed by `x`.
pub open spec fn group_matches(g: RuleGroup, x: Seq<char>, refs: Seq<RuleReference>) -> bool {
    &&& g.rule_id@ == x
    &&& g.refs@ == refs_with_id(refs, x)
}

/// The exec verb group `g` realizes verb `v`'s index over `refs`.
pub open spec fn verb_group_matches(
    g: VerbGroup,
    v: RefVerb,
    ids: Seq<Seq<char>>,
    refs: Seq<RuleReference>,
) -> bool {
    let vrefs = refs_with_verb(refs, v);
    let keys = covered_of(vrefs, ids);
    &&& g.verb == v
    &&& g.rules@.len() == keys.len()
    &&& forall|t: int| 0 <= t < keys.len() ==> group_matches(#[trigger] g.rules@[t], keys[t], vrefs)
}

/// The report `r` is exactly the coverage of `refs` against the manifest
/// ids `ids`, under the spec name `name`.
pub open spec fn report_matches(
    r: CoverageReport,
    name: Seq<char>,
    ids: Seq<Seq<char>>,
    refs: Seq<RuleReference>,
) -> bool {
    let cov = covered_of(refs, ids);
    &&& r.spec_name@ == name
    &&& r.total_rules == ids.len()
    &&& strs_match(r.covered_rules@, cov)
    &&& strs_match(r.uncovered_rules@, uncovered_of(ids, cov))
    &&& r.invalid_references@ == invalid_filter(refs, ids)
    &&& r.references_by_rule@.len() == cov.len()
    &&& (forall|t: int|
        0 <= t < cov.len() ==> group_matches(#[trigger] r.references_by_rule@[t], cov[t], refs))
    &&& r.references_by_verb@.len() == verb_order().len()
    &&& (forall|t: int|
        0 <= t < verb_order().len() ==> verb_group_matches(
            #[trigger] r.references_by_verb@[t],
            verb_order()[t],
            ids,
            refs,
        ))
}

/// The references among `refs` carrying the rule id `x`, cloned.
fn filter_by_id(refs: &Vec<RuleReference>, x: &String) -> (r: Vec<RuleReference>)
    ensures
        r@ == refs_with_id(refs@, x@),
{
    let mut r: Vec<RuleReference> = Vec::new();
    let n = refs.len();
    let mut i: usize = 0;
    while i < n
        invariant
            i <= n == refs@.len(),
            r@ == refs_with_id(refs@.take(i as int), x@),
        decreases n - i,
    {
        proof {
            assert(refs@.take(i + 1).drop_last() =~= refs@.take(i as int));
            assert(refs@.take(i + 1).last() == refs@[i as int]);
        }
        if crate::verb::str_eq(refs[i].rule_id.as_str(), x.as_str()) {
            r.push(refs[i].clone());
        }
        i = i + 1;
    }
    proof {
        assert(refs@.take(n as int) =~= refs@);
    }
    r
}

/// The references among `refs` carrying the verb `v`, cloned.
fn filter_by_verb(refs: &Vec<RuleReference>, v: RefVerb) -> (r: Vec<RuleReference>)
    ensures
        r@ == refs_with_verb(refs@, v),
{
    let mut r: Vec<RuleReference> = Vec::new();
    let n = refs.len();
    let mut i: usize = 0;
    while i < n
        invariant
            i <= n == refs@.len(),
            r@ == refs_with_verb(refs@.take(i as int), v),
        decreases n - i,
    {
        proof {
            assert(refs@.take(i + 1).drop_last() =~= refs@.take(i as int));
            assert(refs@.take(i + 1).last() == refs@[i as int]);
        }
        if refs[i].verb == v {
            r.push(refs[i].clone());
        }
        i = i + 1;
    }
    proof {
        assert(refs@.take(n as int) =~= refs@);
    }
    r
}

/// The covered rule ids of `refs` against the manifest, and the by-rule
/// groups keyed by them.
fn covered_and_groups(refs: &Vec<RuleReference>, manifest: &SpecManifest) -> (r: (
    Vec<String>,
    Vec<RuleGroup>,
))
    ensures
        ({
            let cov = covered_of(refs@, manifest.ids());
            &&& strs_match(r.0@, cov)
            &&& r.1@.len() == cov.len()
            &&& forall|t: int|
                0 <= t < cov.len() ==> group_matches(#[trigger] r.1@[t], cov[t], refs@)
        }),
{
    let ghost ids = manifest.ids();
    let n = refs.len();
    let mut vids: Vec<String> = Vec::new();
    let ghost mut gvf: Seq<RuleReference> = Seq::empty();
    let mut i: usize = 0;
    proof {
        assert(valid_filter(refs@.take(0), ids) =~= Seq::<RuleReference>::empty());
        assert(ref_ids(Seq::<RuleReference>::empty()) =~= Seq::<Seq<char>>::empty());
    }
    while i < n
        invariant
            i <= n == refs@.len(),
            ids == manifest.ids(),
            gvf == valid_filter(refs@.take(i as int), ids),
            strs_match(vids@, ref_ids(gvf)),
        decreases n - i,
    {
        proof {
            assert(refs@.take(i + 1).drop_last() =~= refs@.take(i as int));
            assert(refs@.take(i + 1).last() == refs@[i as int]);
        }
        if manifest.has_rule(refs[i].rule_id.as_str()) {
            proof {
                assert(ids.contains(refs@[i as int].rule_id@)) by {
                    let k = choose|k: int|
                        0 <= k < ids.len() && ids[k] == refs@[i as int].rule_id@;
                    assert(ids[k] == refs@[i as int].rule_id@);
                }
            }
            vids.push(refs[i].rule_id.clone());
            proof {
                gvf = gvf.push(refs@[i as int]);
                assert(ref_ids(gvf) =~= ref_ids(gvf.drop_last()).push(refs@[i as int].rule_id@));
            }
        } else {
            proof {
                if ids.contains(refs@[i as int].rule_id@) {
                    let k = choose|k: int|
                        0 <= k < ids.len() && ids[k] == refs@[i as int].rule_id@;
                    assert(manifest.spec_has_rule(refs@[i as int].rule_id@));
                }
            }
        }
        i = i + 1;
    }
    proof {
        assert(refs@.take(n as int) =~= refs@);
    }
    let ghost gvids = ref_ids(gvf);
    let m = vids.len();
    let mut cov: Vec<String> = Vec::new();
    let mut k: usize = 0;
    proof {
        assert(gvids.take(0) =~= Seq::<Seq<char>>::empty());
        assert(dedup(gvids.take(0)) =~= Seq::<Seq<char>>::empty());
    }
    while k < m
        invariant
            k <= m == vids@.len(),
            gvids.len() == vids@.len(),
            forall|t: int| 0 <= t < gvids.len() ==> (#[trigger] vids@[t])@ == gvids[t],
            strs_match(cov@, dedup(gvids.take(k as int))),
            forall|t: int|
                0 <= t < dedup(gvids.take(k as int)).len() ==> gvids.take(k as int).contains(
                    #[trigger] dedup(gvids.take(k as int))[t],
                ),
            forall|x: Seq<char>|
                #[trigger] gvids.take(k as int).contains(x) ==> dedup(
                    gvids.take(k as int),
                ).contains(x),
        decreases m - k,
    {
        let mut present = false;
        let mut j: usize = 0;
        let c = cov.len();
        while j < c
            invariant
                j <= c == cov@.len(),
                k < m == vids@.len(),
                gvids.len() == vids@.len(),
                forall|t: int| 0 <= t < gvids.len() ==> (#[trigger] vids@[t])@ == gvids[t],
                present == exists|t: int|
                    0 <= t < j && (#[trigger] cov@[t])@ == vids@[k as int]@,
            decreases c - j,
        {
            if cov[j] == vids[k] {
                present = true;
                proof {
                    assert(cov@[j as int]@ == vids@[k as int]@);
                }
            }
            j = j + 1;
        }
        proof {
            assert(gvids.take(k + 1).drop_last() =~= gvids.take(k as int));
            assert(gvids.take(k + 1).last() == gvids[k as int]);
            if present {
                let t = choose|t: int| 0 <= t < c && (#[trigger] cov@[t])@ == vids@[k as int]@;
                assert(cov@[t]@ == dedup(gvids.take(k as int))[t]);
                assert(gvids.take(k as int).contains(dedup(gvids.take(k as int))[t]));
                assert(gvids.take(k as int).contains(gvids[k as int]));
            } else {
                if gvids.take(k as int).contains(gvids[k as int]) {
                    assert(dedup(gvids.take(k as int)).contains(gvids[k as int]));
                    let t = choose|t: int|
                        0 <= t < dedup(gvids.take(k as int)).len() && dedup(
                            gvids.take(k as int),
                        )[t] == gvids[k as int];
                    assert(cov@[t]@ == gvids[k as int]);
                    assert(vids@[k as int]@ == gvids[k as int]);
                    assert(false);
                }
            }
        }
        if !present {
            cov.push(vids[k].clone());
            proof {
                assert forall|x: Seq<char>|
                    #[trigger] gvids.take(k + 1).contains(x) implies dedup(
                    gvids.take(k + 1),
                ).contains(x) by {
                    if gvids.take(k as int).contains(x) {
                        assert(dedup(gvids.take(k as int)).contains(x));
                        let t = choose|t: int|
                            0 <= t < dedup(gvids.take(k as int)).len() && dedup(
                                gvids.take(k as int),
                            )[t] == x;
                        assert(dedup(gvids.take(k + 1))[t] == x);
                    } else {
                        assert(x == gvids[k as int]);
                        assert(dedup(gvids.take(k + 1)).last() == x);
                    }
                }
            }
        } else {
            proof {
                assert forall|x: Seq<char>|
                    #[trigger] gvids.take(k + 1).contains(x) implies dedup(
                    gvids.take(k + 1),
                ).contains(x) by {
                    if gvids.take(k as int).contains(x) {
                        assert(dedup(gvids.take(k as int)).contains(x));
                        let t = choose|t: int|
                            0 <= t < dedup(gvids.take(k as int)).len() && dedup(
                                gvids.take(k as int),
                            )[t] == x;
                        assert(dedup(gvids.take(k + 1))[t] == x);
                    } else {
                        assert(x == gvids[k as int]);
                        assert(gvids.take(k as int).contains(gvids[k as int]));
                    }
                }
            }
        }
        k = k + 1;
    }
    proof {
        assert(gvids.take(m as int) =~= gvids);
        assert(covered_of(refs@, ids) == dedup(gvids));
    }
    let mut groups: Vec<RuleGroup> = Vec::new();
    let cn = cov.len();
    let mut t: usize = 0;
    while t < cn
        invariant
            t <= cn == cov@.len(),
            strs_match(cov@, covered_of(refs@, manifest.ids())),
            groups@.len() == t,
            forall|u: int|
                0 <= u < t ==> group_matches(
                    #[trigger] groups@[u],
                    covered_of(refs@, manifest.ids())[u],
                    refs@,
                ),
        decreases cn - t,
    {
        let grefs = filter_by_id(refs, &cov[t]);
        groups.push(RuleGroup { rule_id: cov[t].clone(), refs: grefs });
        t = t + 1;
    }
    (cov, groups)
}

impl CoverageReport {
    /// Compute coverage from references and a manifest.
    ///
    /// Pure and total: identical inputs give identical reports, and no
    /// input fails. References to defined rules populate the covered set
    /// (collapsed) and both indices (multiplicity kept); the rest
    /// accumulate, in order, as invalid references.
    pub fn compute(
        spec_name: String,
        manifest: &SpecManifest,
        references: Vec<RuleReference>,
    ) -> (r: CoverageReport)
        ensures
            report_matches(r, spec_name@, manifest.ids(), references@),
            r.covered_rules@.len() <= r.total_rules,
    {
        let ghost ids = manifest.ids();
        let n = references.len();
        let mut invalid: Vec<RuleReference> = Vec::new();
        let mut i: usize = 0;
        proof {
            assert(invalid_filter(references@.take(0), ids) =~= Seq::<RuleReference>::empty());
        }
        while i < n
            invariant
                i <= n == references@.len(),
                ids == manifest.ids(),
                invalid@ == invalid_filter(references@.take(i as int), ids),
            decreases n - i,
        {
            proof {
                assert(references@.take(i + 1).drop_last() =~= references@.take(i as int));
                assert(references@.take(i + 1).last() == references@[i as int]);
            }
            if !manifest.has_rule(references[i].rule_id.as_str()) {
                proof {
                    if ids.contains(references@[i as int].rule_id@) {
                        let k = choose|k: int|
                            0 <= k < ids.len() && ids[k] == references@[i as int].rule_id@;
                        assert(manifest.spec_has_rule(references@[i as int].rule_id@));
                    }
                }
                invalid.push(references[i].clone());
            } else {
                proof {
                    assert(ids.contains(references@[i as int].rule_id@)) by {
                        let k = choose|k: int|
                            0 <= k < ids.len() && ids[k] == references@[i as int].rule_id@;
                        assert(ids[k] == references@[i as int].rule_id@);
                    }
                }
            }
            i = i + 1;
        }
        proof {
            assert(references@.take(n as int) =~= references@);
        }
        let (covered, by_rule) = covered_and_groups(&references, manifest);
        let mut uncovered: Vec<String> = Vec::new();
        let ghost gcov = covered_of(references@, ids);
        let mn = manifest.rules.len();
        let mut u: usize = 0;
        proof {
            assert(ids.take(0) =~= Seq::<Seq<char>>::empty());
            assert(uncovered_of(ids.take(0), gcov) =~= Seq::<Seq<char>>::empty());
        }
        while u < mn
            invariant
                u <= mn == manifest.rules@.len(),
                ids == manifest.ids(),
                gcov == covered_of(references@, ids),
                strs_match(covered@, gcov),
                strs_match(uncovered@, uncovered_of(ids.take(u as int), gcov)),
            decreases mn - u,
        {
            proof {
                assert(ids.take(u + 1).drop_last() =~= ids.take(u as int));
                assert(ids.take(u + 1).last() == ids[u as int]);
                assert(ids[u as int] == manifest.rules@[u as int].id@);
            }
            let mut present = false;
            let mut j: usize = 0;
            let c = covered.len();
            while j < c
                invariant
                    j <= c == covered@.len(),
                    u < mn == manifest.rules@.len(),
                    ids == manifest.ids(),
                    strs_match(covered@, gcov),
                    present == exists|t: int|
                        0 <= t < j && (#[trigger] covered@[t])@ == manifest.rules@[u as int].id@,
                decreases c - j,
            {
                if covered[j] == manifest.rules[u].id {
                    present = true;
                    proof {
                        assert(covered@[j as int]@ == manifest.rules@[u as int].id@);
                    }
                }
                j = j + 1;
            }
            proof {
                if present {
                    let t = choose|t: int|
                        0 <= t < c && (#[trigger] covered@[t])@ == manifest.rules@[u as int].id@;
                    assert(gcov[t] == manifest.rules@[u as int].id@);
                    assert(gcov.contains(ids[u as int]));
                } else {
                    if gcov.contains(ids[u as int]) {
                        let t = choose|t: int| 0 <= t < gcov.len() && gcov[t] == ids[u as int];
                        assert(covered@[t]@ == ids[u as int]);
                        assert(false);
                    }
                }
            }
            if !present {
                uncovered.push(manifest.rules[u].id.clone());
            }
            u = u + 1;
        }
        proof {
            assert(ids.take(mn as int) =~= ids);
        }
        let mut by_verb: Vec<VerbGroup> = Vec::new();
        let vd = filter_by_verb(&references, RefVerb::Define);
        let (_kd, gd) = covered_and_groups(&vd, manifest);
        by_verb.push(VerbGroup { verb: RefVerb::Define, rules: gd });
        let vi = filter_by_verb(&references, RefVerb::Impl);
        let (_ki, gi) = covered_and_groups(&vi, manifest);
        by_verb.push(VerbGroup { verb: RefVerb::Impl, rules: gi });
        let vv = filter_by_verb(&references, RefVerb::Verify);
        let (_kv, gv) = covered_and_groups(&vv, manifest);
        by_verb.push(VerbGroup { verb: RefVerb::Verify, rules: gv });
        let vp = filter_by_verb(&references, RefVerb::Depends);
        let (_kp, gp) = covered_and_groups(&vp, manifest);
        by_verb.push(VerbGroup { verb: RefVerb::Depends, rules: gp });
        let vr = filter_by_verb(&references, RefVerb::Related);
        let (_kr, gr) = covered_and_groups(&vr, manifest);
        by_verb.push(VerbGroup { verb: RefVerb::Related, rules: gr });
        let total_rules = manifest.rules.len();
        proof {
            lemma_covered_le(references@, ids);
            assert forall|t: int|
                0 <= t < verb_order().len() implies verb_group_matches(
                #[trigger] by_verb@[t],
                verb_order()[t],
                ids,
                references@,
            ) by {
                assert(verb_order()[0] == RefVerb::Define);
                assert(verb_order()[1] == RefVerb::Impl);
                assert(verb_order()[2] == RefVerb::Verify);
                assert(verb_order()[3] == RefVerb::Depends);
                assert(verb_order()[4] == RefVerb::Related);
            }
        }
        CoverageReport {
            spec_name,
            total_rules,
            covered_rules: covered,
            uncovered_rules: uncovered,
            invalid_references: invalid,
            references_by_rule: by_rule,
            references_by_verb: by_verb,
        }
    }

    /// Coverage as a fraction of the covered rules over the total, in
    /// hundredths of a percent (`10000` is full coverage, `5000` half).
    /// An empty spec is vacuously fully covered.
    pub fn coverage_percent(&self) -> (p: u64)
        requires
            self.covered_rules@.len() <= self.total_rules,
        ensures
            p == percent_hundredths(self.covered_rules@.len() as int, self.total_rules as int),
    {
        if self.total_rules == 0 {
            10000
        } else {
            let c = self.covered_rules.len() as u128;
            let t = self.total_rules as u128;
            let p = c * 10000 / t;
            proof {
                let ci = c as int;
                let ti = t as int;
                assert(ci * 10000 <= ti * 10000) by (nonlinear_arith)
                    requires
                        0 <= ci <= ti,
                ;
                assert(ti * 10000 / ti == 10000) by (nonlinear_arith)
                    requires
                        ti > 0,
                ;
                assert(ci * 10000 / ti <= ti * 10000 / ti) by (nonlinear_arith)
                    requires
                        ci * 10000 <= ti * 10000,
                        ti > 0,
                ;
                assert(p <= 10000);
            }
            p as u64
        }
    }

    /// Whether the coverage is passing: no invalid references, and the
    /// coverage fraction at or above the threshold (in hundredths of a
    /// percent). Any invalid reference fails the report regardless of
    /// percentage.
    pub fn is_passing(&self, threshold_hundredths: u64) -> (b: bool)
        ensures
            b == (self.invalid_references@.len() == 0 && passes_threshold(
                self.covered_rules@.len() as int,
                self.total_rules as int,
                threshold_hundredths as int,
            )),
            b ==> self.invalid_references@.len() == 0,
    {
        if self.invalid_references.len() != 0 {
            return false;
        }
        if self.total_rules == 0 {
            threshold_hundredths <= 10000
        } else {
            let c = self.covered_rules.len() as u128;
            let t = self.total_rules as u128;
            let th = threshold_hundredths as u128;
            proof {
                let thi = th as int;
                let ti = t as int;
                assert(thi * ti <= 0xFFFFFFFFFFFFFFFF * 0xFFFFFFFFFFFFFFFF) by (nonlinear_arith)
                    requires
                        0 <= thi <= 0xFFFFFFFFFFFFFFFF,
                        0 <= ti <= 0xFFFFFFFFFFFFFFFF,
                ;
            }
            c * 10000 >= th * t
        }
    }
}

/// The coverage fraction in hundredths of a percent; `10000` for an empty
/// total.
pub open spec fn percent_hundredths(c: int, t: int) -> int {
    if t == 0 {
        10000
    } else {
        c * 10000 / t
    }
}

/// The exact threshold comparison: for a nonempty total,
/// `c/t >= threshold/10000` without rounding; an empty total passes any
/// threshold up to full coverage.
pub open spec fn passes_threshold(c: int, t: int, threshold: int) -> bool {
    if t == 0 {
        threshold <= 10000
    } else {
        c * 10000 >= threshold * t
    }
}

/// For a nonempty total, passing the threshold is the same as the
/// reported percentage reaching it: the exact product comparison agrees
/// with the rounded-down division.
pub proof fn lemma_threshold_agrees_with_percent(c: int, t: int, threshold: int)
    requires
        0 <= c,
        0 < t,
        0 <= threshold,
    ensures
        passes_threshold(c, t, threshold) <==> threshold <= percent_hundredths(c, t),
{
    let q = c * 10000 / t;
    vstd::arithmetic::div_mod::lemma_fundamental_div_mod(c * 10000, t);
    vstd::arithmetic::div_mod::lemma_mod_bound(c * 10000, t);
    if threshold * t <= c * 10000 {
        assert(threshold <= q) by (nonlinear_arith)
            requires
                0 < t,
                threshold * t <= c * 10000,
                c * 10000 == t * q + (c * 10000) % t,
                0 <= (c * 10000) % t < t,
        ;
    }
    if threshold <= q {
        assert(threshold * t <= c * 10000) by (nonlinear_arith)
            requires
                0 < t,
                threshold <= q,
                c * 10000 == t * q + (c * 10000) % t,
                0 <= (c * 10000) % t < t,
        ;
    }
}

/// Coverage computation is pure: two reports computed from identical
/// inputs agree on every observable field.
pub proof fn lemma_compute_pure(
    r1: CoverageReport,
    r2: CoverageReport,
    name: Seq<char>,
    ids: Seq<Seq<char>>,
    refs: Seq<RuleReference>,
)
    requires
        report_matches(r1, name, ids, refs),
        report_matches(r2, name, ids, refs),
    ensures
        r1.spec_name@ == r2.spec_name@,
        r1.total_rules == r2.total_rules,
        r1.covered_rules@.len() == r2.covered_rules@.len(),
        forall|t: int|
            0 <= t < r1.covered_rules@.len() ==> (#[trigger] r1.covered_rules@[t])@
                == (#[trigger] r2.covered_rules@[t])@,
        r1.uncovered_rules@.len() == r2.uncovered_rules@.len(),
        forall|t: int|
            0 <= t < r1.uncovered_rules@.len() ==> (#[trigger] r1.uncovered_rules@[t])@
                == (#[trigger] r2.uncovered_rules@[t])@,
        r1.invalid_references@ == r2.invalid_references@,
        r1.references_by_rule@.len() == r2.references_by_rule@.len(),
        r1.references_by_verb@.len() == r2.references_by_verb@.len(),
{
}

} // verus!
