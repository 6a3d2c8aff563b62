//! The spec manifest: the rule ids a spec defines, each with its link.
//!
//! A manifest is keyed by rule id: no two entries share one, not even when
//! the definitions come from different spec documents loaded into the same
//! run. Building a manifest enforces that, and the rule-id grammar, as hard
//! errors.

use vstd::prelude::*;

use crate::rule_id::valid_rule_id;
use crate::spec_doc::{RuleDefinition, SpecError};
use crate::verb::str_eq;

verus! {

/// A rule's entry data in the manifest.
#[derive(Debug)]
pub struct RuleInfo {
    /// URL fragment to link to this rule.
    pub url: String,
}

/// One manifest entry: a rule id and its info.
#[derive(Debug)]
pub struct ManifestRule {
    /// The rule id.
    pub id: String,
    /// The rule's info.
    pub info: RuleInfo,
}

/// The set of rules a spec defines, keyed by rule id.
#[derive(Debug)]
pub struct SpecManifest {
    /// The entries, in insertion order.
    pub rules: Vec<ManifestRule>,
}

impl Clone for RuleInfo {
    fn clone(&self) -> (r: Self)
        ensures
            r == *self,
    {
        RuleInfo { url: self.url.clone() }
    }
}

impl Clone for ManifestRule {
    fn clone(&self) -> (r: Self)
        ensures
            r == *self,
    {
        ManifestRule { id: self.id.clone(), info: self.info.clone() }
    }
}

impl Clone for SpecManifest {
    fn clone(&self) -> (r: Self)
        ensures
            r.rules@ == self.rules@,
    {
        let mut rules: Vec<ManifestRule> = Vec::new();
        let mut i: usize = 0;
        let n = self.rules.len();
        while i < n
            invariant
                i <= n == self.rules@.len(),
                rules@ == self.rules@.take(i as int),
            decreases n - i,
        {
            rules.push(self.rules[i].clone());
            proof {
                assert(rules@ =~= self.rules@.take(i + 1));
            }
            i = i + 1;
        }
        proof {
            assert(self.rules@.take(n as int) =~= self.rules@);
        }
        let r = SpecManifest { rules };
        proof {
            assert(r.rules@ =~= self.rules@);
        }
        r
    }
}

/// What is wrong with a prospective set of manifest entries.
pub enum ManifestProblem {
    /// An id that does not satisfy the rule-id grammar.
    InvalidId { id: Seq<char> },
    /// An id defined twice.
    Duplicate { id: Seq<char> },
}

/// The first problem in `ids` at or after position `i`: a malformed id, or
/// an id already seen earlier in the sequence.
pub open spec fn manifest_check(ids: Seq<Seq<char>>, i: int) -> Option<ManifestProblem>
    recommends
        0 <= i <= ids.len(),
    decreases ids.len() - i when i <= ids.len()
{
    if i >= ids.len() {
        None
    } else if !valid_rule_id(ids[i]) {
        Some(ManifestProblem::InvalidId { id: ids[i] })
    } else if exists|j: int| 0 <= j < i && ids[j] == ids[i] {
        Some(ManifestProblem::Duplicate { id: ids[i] })
    } else {
        manifest_check(ids, i + 1)
    }
}

/// A clean check means exactly: every id well-formed, no two equal.
pub proof fn lemma_manifest_check_clean(ids: Seq<Seq<char>>, i: int)
    requires
        0 <= i <= ids.len(),
    ensures
        manifest_check(ids, i) is None <==> ((forall|k: int|
            i <= k < ids.len() ==> valid_rule_id(#[trigger] ids[k])) && (forall|j: int, k: int|
            0 <= j < k < ids.len() && i <= k ==> ids[j] != ids[k])),
    decreases ids.len() - i,
{
    if i < ids.len() {
        lemma_manifest_check_clean(ids, i + 1);
    }
}

/// Duplicate detection: a sequence of ids in which any id occurs twice is
/// rejected, wherever the two occurrences come from.
pub proof fn lemma_duplicate_rejected(ids: Seq<Seq<char>>, i: int, j: int)
    requires
        0 <= i < j < ids.len(),
        ids[i] == ids[j],
    ensures
        manifest_check(ids, 0) is Some,
{
    lemma_manifest_check_clean(ids, 0);
}

/// The id views of a run of manifest entries.
pub open spec fn entry_ids(entries: Seq<ManifestRule>) -> Seq<Seq<char>> {
    entries.map_values(|r: ManifestRule| r.id@)
}

impl SpecManifest {
    /// The id views of this manifest's entries, in insertion order.
    pub open spec fn ids(&self) -> Seq<Seq<char>> {
        entry_ids(self.rules@)
    }

    /// Well-formed: every id satisfies the grammar, and no two entries
    /// share an id.
    pub open spec fn wf(&self) -> bool {
        &&& forall|k: int| 0 <= k < self.ids().len() ==> valid_rule_id(#[trigger] self.ids()[k])
        &&& forall|j: int, k: int| 0 <= j < k < self.ids().len() ==> self.ids()[j] != self.ids()[k]
    }

    /// Whether some entry carries the id `id`.
    pub open spec fn spec_has_rule(&self, id: Seq<char>) -> bool {
        exists|k: int| 0 <= k < self.ids().len() && self.ids()[k] == id
    }

    /// An empty manifest.
    pub fn new() -> (r: SpecManifest)
        ensures
            r.rules@.len() == 0,
            r.wf(),
    {
        SpecManifest { rules: Vec::new() }
    }

    /// Build a manifest from entries, enforcing the id grammar and
    /// uniqueness. Succeeds exactly when neither is violated.
    pub fn from_entries(entries: Vec<ManifestRule>) -> (r: Result<SpecManifest, SpecError>)
        ensures
            match r {
                Ok(m) => {
                    &&& manifest_check(entry_ids(entries@), 0) is None
                    &&& m.rules@ == entries@
                    &&& m.wf()
                },
                Err(e) => {
                    &&& match manifest_check(entry_ids(entries@), 0) {
                        Some(ManifestProblem::InvalidId { id }) => e matches
                            SpecError::InvalidRuleId { id: i, .. } && i@ == id,
                        Some(ManifestProblem::Duplicate { id }) => e matches
                            SpecError::DuplicateRule { id: i, .. } && i@ == id,
                        None => false,
                    }
                },
            },
    {
        let ghost gids = entry_ids(entries@);
        let n = entries.len();
        let mut i: usize = 0;
        while i < n
            invariant
                i <= n == entries@.len(),
                gids == entry_ids(entries@),
                manifest_check(gids, 0) == manifest_check(gids, i as int),
            decreases n - i,
        {
            proof {
                assert(gids[i as int] == entries@[i as int].id@);
            }
            if !crate::rule_id::is_valid_rule_id(entries[i].id.as_str()) {
                let e = SpecError::InvalidRuleId {
                    id: entries[i].id.clone(),
                    file: String::new(),
                    line: 0,
                };
                return Err(e);
            }
            let mut j: usize = 0;
            while j < i
                invariant
                    j <= i < n == entries@.len(),
                    gids == entry_ids(entries@),
                    valid_rule_id(gids[i as int]),
                    manifest_check(gids, 0) == manifest_check(gids, i as int),
                    forall|t: int| 0 <= t < j ==> gids[t] != gids[i as int],
                decreases i - j,
            {
                proof {
                    assert(gids[j as int] == entries@[j as int].id@);
                }
                if str_eq(entries[j].id.as_str(), entries[i].id.as_str()) {
                    proof {
                        assert(gids[j as int] == gids[i as int]);
                        assert(exists|t: int| 0 <= t < i && gids[t] == gids[i as int]);
                        assert(manifest_check(gids, i as int) == Some(
                            ManifestProblem::Duplicate { id: gids[i as int] },
                        ));
                    }
                    let e = SpecError::DuplicateRule {
                        id: entries[i].id.clone(),
                        file: String::new(),
                        line: 0,
                    };
                    return Err(e);
                }
                j = j + 1;
            }
            proof {
                assert(manifest_check(gids, i as int) == manifest_check(gids, i + 1));
            }
            i = i + 1;
        }
        let m = SpecManifest { rules: entries };
        proof {
            lemma_manifest_check_clean(gids, 0);
        }
        Ok(m)
    }

    /// Whether a rule id exists in this manifest.
    pub fn has_rule(&self, id: &str) -> (r: bool)
        ensures
            r == self.spec_has_rule(id@),
    {
        let n = self.rules.len();
        let mut i: usize = 0;
        while i < n
            invariant
                i <= n == self.rules@.len(),
                forall|t: int| 0 <= t < i ==> self.ids()[t] != id@,
            decreases n - i,
        {
            proof {
                assert(self.ids()[i as int] == self.rules@[i as int].id@);
            }
            if str_eq(self.rules[i].id.as_str(), id) {
                return true;
            }
            i = i + 1;
        }
        false
    }

    /// All rule ids in this manifest, in insertion order.
    pub fn rule_ids(&self) -> (r: Vec<String>)
        ensures
            r@.len() == self.ids().len(),
            forall|t: int| 0 <= t < self.ids().len() ==> (#[trigger] r@[t])@ == self.ids()[t],
    {
        let n = self.rules.len();
        let mut r: Vec<String> = Vec::new();
        let mut i: usize = 0;
        while i < n
            invariant
                i <= n == self.rules@.len(),
                r@.len() == i,
                forall|t: int| 0 <= t < i ==> (#[trigger] r@[t])@ == self.ids()[t],
            decreases n - i,
        {
            proof {
                assert(self.ids()[i as int] == self.rules@[i as int].id@);
            }
            r.push(self.rules[i].id.clone());
            i = i + 1;
        }
        r
    }

    /// The URL for a rule, or `None` if the manifest does not define it.
    pub fn get_rule_url(&self, id: &str) -> (r: Option<String>)
        ensures
            match r {
                Some(u) => exists|t: int|
                    0 <= t < self.rules@.len() && (#[trigger] self.rules@[t]).id@ == id@
                        && u@ == self.rules@[t].info.url@,
                None => !self.spec_has_rule(id@),
            },
    {
        let n = self.rules.len();
        let mut i: usize = 0;
        while i < n
            invariant
                i <= n == self.rules@.len(),
                forall|t: int| 0 <= t < i ==> (#[trigger] self.rules@[t]).id@ != id@,
            decreases n - i,
        {
            if str_eq(self.rules[i].id.as_str(), id) {
                return Some(self.rules[i].info.url.clone());
            }
            i = i + 1;
        }
        proof {
            assert forall|k: int| 0 <= k < self.ids().len() implies self.ids()[k] != id@ by {
                assert(self.ids()[k] == self.rules@[k].id@);
            }
        }
        None
    }

    /// Build a manifest from parsed rule definitions, linking each rule as
    /// `base_url` + `#r-` + id. Fails exactly on a malformed or duplicate
    /// id, wherever the definitions came from.
    pub fn from_definitions(defs: &Vec<RuleDefinition>, base_url: &str) -> (r: Result<
        SpecManifest,
        SpecError,
    >)
        ensures
            ({
                let gids = defs@.map_values(|d: RuleDefinition| d.id@);
                match r {
                    Ok(m) => {
                        &&& manifest_check(gids, 0) is None
                        &&& m.wf()
                        &&& m.ids() == gids
                        &&& (forall|t: int|
                            0 <= t < defs@.len() ==> (#[trigger] m.rules@[t]).info.url@ == base_url@
                                + "#r-"@ + defs@[t].id@)
                    },
                    Err(e) => {
                        &&& match manifest_check(gids, 0) {
                            Some(ManifestProblem::InvalidId { id }) => e matches
                                SpecError::InvalidRuleId { id: i, .. } && i@ == id,
                            Some(ManifestProblem::Duplicate { id }) => e matches
                                SpecError::DuplicateRule { id: i, .. } && i@ == id,
                            None => false,
                        }
                    },
                }
            }),
    {
        let ghost gids = defs@.map_values(|d: RuleDefinition| d.id@);
        let n = defs.len();
        let mut entries: Vec<ManifestRule> = Vec::new();
        let mut i: usize = 0;
        while i < n
            invariant
                i <= n == defs@.len(),
                gids == defs@.map_values(|d: RuleDefinition| d.id@),
                entries@.len() == i,
                forall|t: int| 0 <= t < i ==> (#[trigger] entries@[t]).id@ == gids[t],
                forall|t: int|
                    0 <= t < i ==> (#[trigger] entries@[t]).info.url@ == base_url@ + "#r-"@
                        + defs@[t].id@,
            decreases n - i,
        {
            let url = rule_url(base_url, defs[i].id.as_str());
            entries.push(ManifestRule { id: defs[i].id.clone(), info: RuleInfo { url } });
            i = i + 1;
        }
        proof {
            assert(entry_ids(entries@) =~= gids);
        }
        let ghost gentries = entries@;
        let r = Self::from_entries(entries);
        match r {
            Ok(m) => {
                proof {
                    assert(m.ids() =~= gids);
                }
                Ok(m)
            },
            Err(e) => Err(e),
        }
    }
}

/// The link for a rule: the spec's base URL, `#r-` and the rule id.
pub fn rule_url(base_url: &str, id: &str) -> (r: String)
    ensures
        r@ == base_url@ + "#r-"@ + id@,
{
    let mut r = base_url.to_owned();
    r.append("#r-");
    r.append(id);
    r
}

} // verus!
