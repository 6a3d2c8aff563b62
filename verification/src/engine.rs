//! The engine: the versioned snapshot and the rebuild pipeline.
//!
//! `EngineState` holds the canonical snapshot, the file overlay, the
//! last-known-good configuration and the current configuration error. A
//! rebuild is one state transition: decide the candidate configuration from
//! the reload outcome, apply the overlay over the disk contents, run
//! extract, parse-specs and compute-coverage, and publish a new snapshot
//! with the next version — or leave snapshot and version untouched when the
//! pipeline fails. Locking, file reads and the clock stay with the caller;
//! the engine is verified for every outcome they hand it.

use vstd::prelude::*;

use crate::config::Config;
use crate::coverage::{CoverageReport, report_matches};
use crate::lexer::{ParseWarning, RuleReference, extract_with_warnings, ref_matches, warn_matches};
use crate::manifest::{ManifestProblem, SpecManifest, manifest_check};
use crate::overlay::{Doc, FileOverlay, apply_overlay};
use crate::pass_model::extract_model;
use crate::scan_model::{RefModel, WarnModel};
use crate::spec_doc::{RuleDefinition, SpecError, err_matches, parse_spec_document};
use crate::spec_doc_model::{DefModel, ErrModel, parse_doc};
use crate::utf8_span::text_fits;

verus! {

/// One spec to build coverage for: its name, the base URL its rules link
/// to, its spec documents, and the source files to scan (disk contents;
/// the overlay is applied on top during a rebuild).
#[derive(Debug)]
pub struct SpecJob {
    /// Name of the spec.
    pub name: String,
    /// Base URL for rule links.
    pub rules_base_url: String,
    /// The spec documents defining the rules.
    pub spec_docs: Vec<Doc>,
    /// The source files to scan for references.
    pub source_files: Vec<Doc>,
}

/// One spec's build products.
#[derive(Debug)]
pub struct SpecResult {
    /// The rule manifest parsed from the spec documents.
    pub manifest: SpecManifest,
    /// The coverage report.
    pub report: CoverageReport,
    /// All extracted references, in scan order.
    pub refs: Vec<RuleReference>,
    /// All extraction warnings, in scan order.
    pub warnings: Vec<ParseWarning>,
}

/// One immutable, versioned result of a full rebuild pass.
#[derive(Debug)]
pub struct DashboardData {
    /// One result per configured spec, in configuration order.
    pub results: Vec<SpecResult>,
    /// The rebuild's version number.
    pub version: u64,
    /// How long the rebuild took, in milliseconds.
    pub build_millis: u64,
}

/// What reloading the configuration file yielded. The caller performs the
/// read; the engine decides what the outcome means.
#[derive(Debug)]
pub enum ConfigOutcome {
    /// The file parsed: this is the candidate configuration.
    Loaded(Config),
    /// The file does not exist: the candidate is the empty configuration.
    NotFound,
    /// The file was unreadable or malformed: the message is recorded and
    /// the previous configuration is reused.
    Unreadable(String),
}

/// The id views of each definition a run of spec documents declares, in
/// order; or the first document error, with the document's path.
pub open spec fn docs_def_ids(docs: Seq<Doc>) -> Result<Seq<Seq<char>>, (Seq<char>, ErrModel)>
    decreases docs.len(),
{
    if docs.len() == 0 {
        Ok(seq![])
    } else {
        match parse_doc(docs[0].content@, 0, 1) {
            Err(e) => Err((docs[0].path@, e)),
            Ok(ds) => match docs_def_ids(docs.drop_first()) {
                Err(e) => Err(e),
                Ok(rest) => Ok(ds.map_values(|d: DefModel| d.id) + rest),
            },
        }
    }
}

/// The id views of a run of parsed definitions.
pub open spec fn def_ids(defs: Seq<RuleDefinition>) -> Seq<Seq<char>> {
    defs.map_values(|x: RuleDefinition| x.id@)
}

/// The path and content views of a run of files.
pub open spec fn file_views(files: Seq<Doc>) -> Seq<(Seq<char>, Seq<char>)> {
    files.map_values(|d: Doc| (d.path@, d.content@))
}

/// The path and effective content views of a run of files with the overlay
/// applied: an overlay entry takes precedence over the disk content.
pub open spec fn overlaid_views(files: Seq<Doc>, ov: FileOverlay) -> Seq<(Seq<char>, Seq<char>)> {
    Seq::new(
        files.len(),
        |i: int|
            (
                files[i].path@,
                match ov.spec_get(files[i].path@) {
                    Some(c) => c,
                    None => files[i].content@,
                },
            ),
    )
}

/// Every reference every file yields, tagged with its file, in file order
/// then scan order.
pub open spec fn files_refs(files: Seq<(Seq<char>, Seq<char>)>) -> Seq<(Seq<char>, RefModel)>
    decreases files.len(),
{
    if files.len() == 0 {
        seq![]
    } else {
        let cur = extract_model(files[0].1).refs.map_values(
            |m: RefModel| (files[0].0, m),
        );
        cur + files_refs(files.drop_first())
    }
}

/// Every warning every file yields, tagged with its file and text.
pub open spec fn files_warns(files: Seq<(Seq<char>, Seq<char>)>) -> Seq<
    (Seq<char>, Seq<char>, WarnModel),
>
    decreases files.len(),
{
    if files.len() == 0 {
        seq![]
    } else {
        let cur = extract_model(files[0].1).warns.map_values(
            |m: WarnModel| (files[0].0, files[0].1, m),
        );
        cur + files_warns(files.drop_first())
    }
}

/// The exec references realize the tagged model references.
pub open spec fn refs_match_tagged(
    refs: Seq<RuleReference>,
    m: Seq<(Seq<char>, RefModel)>,
) -> bool {
    &&& refs.len() == m.len()
    &&& forall|t: int| 0 <= t < m.len() ==> ref_matches(#[trigger] refs[t], m[t].1, m[t].0)
}

/// The exec warnings realize the tagged model warnings.
pub open spec fn warns_match_tagged(
    ws: Seq<ParseWarning>,
    m: Seq<(Seq<char>, Seq<char>, WarnModel)>,
) -> bool {
    &&& ws.len() == m.len()
    &&& forall|t: int| 0 <= t < m.len() ==> warn_matches(#[trigger] ws[t], m[t].2, m[t].0, m[t].1)
}

/// Why a job cannot build: a spec-document grammar error, or a manifest
/// problem (malformed or duplicate rule id).
pub enum JobErr {
    Doc { file: Seq<char>, e: ErrModel },
    Manifest { p: ManifestProblem },
}

/// What stops the given job from building, if anything. Extraction and
/// coverage computation never fail, so only the spec documents decide.
pub open spec fn job_err(job: SpecJob) -> Option<JobErr> {
    match docs_def_ids(job.spec_docs@) {
        Err((f, e)) => Some(JobErr::Doc { file: f, e }),
        Ok(gids) => match manifest_check(gids, 0) {
            Some(p) => Some(JobErr::Manifest { p }),
            None => None,
        },
    }
}

/// The first failing job's error, if any.
pub open spec fn jobs_first_err(jobs: Seq<SpecJob>) -> Option<JobErr>
    decreases jobs.len(),
{
    if jobs.len() == 0 {
        None
    } else {
        match job_err(jobs[0]) {
            Some(e) => Some(e),
            None => jobs_first_err(jobs.drop_first()),
        }
    }
}

/// The exec error realizes the model job error.
pub open spec fn job_err_matches(e: SpecError, g: JobErr) -> bool {
    match g {
        JobErr::Doc { file, e: ge } => err_matches(e, ge, file),
        JobErr::Manifest { p } => match p {
            ManifestProblem::InvalidId { id } => e matches SpecError::InvalidRuleId {
                id: i,
                ..
            } && i@ == id,
            ManifestProblem::Duplicate { id } => e matches SpecError::DuplicateRule {
                id: i,
                ..
            } && i@ == id,
        },
    }
}

/// The result `sr` is exactly what building the spec named `name` from
/// `spec_docs` over the overlaid files `views` yields.
pub open spec fn spec_result_for(
    sr: SpecResult,
    name: Seq<char>,
    spec_docs: Seq<Doc>,
    views: Seq<(Seq<char>, Seq<char>)>,
) -> bool {
    &&& docs_def_ids(spec_docs) matches Ok(gids) && {
        &&& manifest_check(gids, 0) is None
        &&& sr.manifest.wf()
        &&& sr.manifest.ids() == gids
        &&& refs_match_tagged(sr.refs@, files_refs(views))
        &&& warns_match_tagged(sr.warnings@, files_warns(views))
        &&& report_matches(sr.report, name, sr.manifest.ids(), sr.refs@)
        &&& sr.report.covered_rules@.len() <= sr.report.total_rules
    }
}

/// Every content in a run of files is within the machine limit on texts.
pub open spec fn docs_fit(files: Seq<Doc>) -> bool {
    forall|t: int| 0 <= t < files.len() ==> text_fits((#[trigger] files[t]).content@)
}

/// Every view'd content is within the machine limit on texts.
pub open spec fn views_fit(views: Seq<(Seq<char>, Seq<char>)>) -> bool {
    forall|t: int| 0 <= t < views.len() ==> text_fits((#[trigger] views[t]).1)
}

/// An element-for-element copy of a vector of references.
pub fn clone_refs(v: &Vec<RuleReference>) -> (r: Vec<RuleReference>)
    ensures
        r@ == v@,
{
    let mut r: Vec<RuleReference> = Vec::new();
    let n = v.len();
    let mut i: usize = 0;
    while i < n
        invariant
            i <= n == v@.len(),
            r@ == v@.take(i as int),
        decreases n - i,
    {
        r.push(v[i].clone());
        proof {
            assert(r@ =~= v@.take(i + 1));
        }
        i = i + 1;
    }
    proof {
        assert(v@.take(n as int) =~= v@);
    }
    r
}

/// Build one spec's manifest, extraction and coverage over the given
/// (already overlaid) files. Fails exactly when a spec document breaks the
/// grammar or the definitions hold a malformed or duplicate rule id.
pub fn build_spec_result(
    name: String,
    base_url: &str,
    spec_docs: &Vec<Doc>,
    files: &Vec<Doc>,
) -> (r: Result<SpecResult, SpecError>)
    requires
        forall|t: int| 0 <= t < spec_docs@.len() ==> (#[trigger] spec_docs@[t]).content@.len()
            < usize::MAX,
        docs_fit(files@),
    ensures
        match r {
            Ok(sr) => {
                &&& spec_result_for(sr, name@, spec_docs@, file_views(files@))
            },
            Err(e) => {
                &&& match docs_def_ids(spec_docs@) {
                    Err((f, ge)) => err_matches(e, ge, f),
                    Ok(gids) => match manifest_check(gids, 0) {
                        Some(ManifestProblem::InvalidId { id }) => e matches
                            SpecError::InvalidRuleId { id: i, .. } && i@ == id,
                        Some(ManifestProblem::Duplicate { id }) => e matches
                            SpecError::DuplicateRule { id: i, .. } && i@ == id,
                        None => false,
                    },
                }
            },
        },
{
    let dn = spec_docs.len();
    let mut defs: Vec<RuleDefinition> = Vec::new();
    let ghost mut gids: Seq<Seq<char>> = Seq::empty();
    let mut d: usize = 0;
    proof {
        assert(spec_docs@.skip(0) =~= spec_docs@);
        match docs_def_ids(spec_docs@) {
            Ok(rest) => {
                assert(gids + rest =~= rest);
            },
            Err(_) => {},
        }
    }
    while d < dn
        invariant
            d <= dn == spec_docs@.len(),
            forall|t: int| 0 <= t < spec_docs@.len() ==> (#[trigger] spec_docs@[t]).content@.len()
                < usize::MAX,
            def_ids(defs@) == gids,
            (match docs_def_ids(spec_docs@.skip(d as int)) {
                Ok(rest) => docs_def_ids(spec_docs@) == Ok::<Seq<Seq<char>>, (Seq<char>, ErrModel)>(
                    gids + rest,
                ),
                Err(e) => docs_def_ids(spec_docs@) == Err::<
                    Seq<Seq<char>>,
                    (Seq<char>, ErrModel),
                >(e),
            }),
        decreases dn - d,
    {
        let ghost pre = spec_docs@.skip(d as int);
        proof {
            assert(pre[0] == spec_docs@[d as int]);
            assert(pre.drop_first() =~= spec_docs@.skip(d + 1));
        }
        let doc_res = parse_spec_document(
            spec_docs[d].path.as_str(),
            spec_docs[d].content.as_str(),
        );
        match doc_res {
            Err(e) => {
                return Err(e);
            },
            Ok(ds) => {
                let ghost gds = parse_doc(spec_docs@[d as int].content@, 0, 1)->Ok_0;
                let m = ds.len();
                let mut k: usize = 0;
                while k < m
                    invariant
                        k <= m == ds@.len(),
                        gds.len() == m,
                        forall|t: int|
                            0 <= t < m ==> (#[trigger] ds@[t]).id@ == gds[t].id,
                        def_ids(defs@) == gids + gds.map_values(
                            |x: DefModel| x.id,
                        ).take(k as int),
                    decreases m - k,
                {
                    let dd = RuleDefinition {
                        id: ds[k].id.clone(),
                        file: ds[k].file.clone(),
                        line: ds[k].line,
                        metadata: crate::spec_doc::RuleMetadata {
                            status: ds[k].metadata.status,
                            level: ds[k].metadata.level,
                            since: match &ds[k].metadata.since {
                                Some(x) => Some(x.clone()),
                                None => None,
                            },
                            until: match &ds[k].metadata.until {
                                Some(x) => Some(x.clone()),
                                None => None,
                            },
                            tags: crate::strutil::clone_strings(&ds[k].metadata.tags),
                        },
                    };
                    let ghost old_defs = defs@;
                    defs.push(dd);
                    proof {
                        assert(dd.id@ == gds[k as int].id);
                        assert(gds.map_values(|x: DefModel| x.id)[k as int] == gds[k as int].id);
                        assert(def_ids(defs@) =~~= def_ids(old_defs).push(dd.id@));
                        assert(def_ids(defs@) =~~= gids + gds.map_values(
                            |x: DefModel| x.id,
                        ).take(k + 1));
                    }
                    k = k + 1;
                }
                proof {
                    let ds_ids = gds.map_values(|x: DefModel| x.id);
                    assert(ds_ids.take(m as int) =~= ds_ids);
                    let old_gids = gids;
                    gids = gids + ds_ids;
                    match docs_def_ids(spec_docs@.skip(d + 1)) {
                        Ok(rest) => {
                            assert(docs_def_ids(spec_docs@.skip(d as int)) == Ok::<
                                Seq<Seq<char>>,
                                (Seq<char>, ErrModel),
                            >(ds_ids + rest));
                            assert(old_gids + (ds_ids + rest) =~~= gids + rest);
                        },
                        Err(e) => {
                            assert(docs_def_ids(spec_docs@.skip(d as int)) == Err::<
                                Seq<Seq<char>>,
                                (Seq<char>, ErrModel),
                            >(e));
                        },
                    }
                }
            },
        }
        d = d + 1;
    }
    proof {
        assert(spec_docs@.skip(dn as int) =~= Seq::<Doc>::empty());
        match docs_def_ids(spec_docs@) {
            Ok(rest) => {
                assert(gids + Seq::<Seq<char>>::empty() =~= gids);
            },
            Err(_) => {},
        }
    }
    proof {
        assert(defs@.map_values(|d: RuleDefinition| d.id@) =~~= def_ids(defs@));
    }
    let manifest = match SpecManifest::from_definitions(&defs, base_url) {
        Ok(m) => m,
        Err(e) => {
            return Err(e);
        },
    };
    let fcount = files.len();
    let mut refs: Vec<RuleReference> = Vec::new();
    let mut warns: Vec<ParseWarning> = Vec::new();
    let ghost mut grefs: Seq<(Seq<char>, RefModel)> = Seq::empty();
    let ghost mut gwarns: Seq<(Seq<char>, Seq<char>, WarnModel)> = Seq::empty();
    let mut f: usize = 0;
    proof {
        assert(file_views(files@).skip(0) =~= file_views(files@));
        assert(grefs + files_refs(file_views(files@).skip(0)) =~= files_refs(file_views(files@)));
        assert(gwarns + files_warns(file_views(files@).skip(0)) =~= files_warns(
            file_views(files@),
        ));
    }
    while f < fcount
        invariant
            f <= fcount == files@.len(),
            docs_fit(files@),
            refs_match_tagged(refs@, grefs),
            warns_match_tagged(warns@, gwarns),
            grefs + files_refs(file_views(files@).skip(f as int)) == files_refs(
                file_views(files@),
            ),
            gwarns + files_warns(file_views(files@).skip(f as int)) == files_warns(
                file_views(files@),
            ),
        decreases fcount - f,
    {
        let ghost pre = file_views(files@).skip(f as int);
        proof {
            assert(pre[0] == file_views(files@)[f as int]);
            assert(file_views(files@)[f as int] == (
                files@[f as int].path@,
                files@[f as int].content@,
            ));
            assert(pre.drop_first() =~= file_views(files@).skip(f + 1));
            assert(text_fits(files@[f as int].content@));
        }
        let ext = extract_with_warnings(files[f].path.as_str(), files[f].content.as_str());
        let ghost model = extract_model(files@[f as int].content@);
        let en = ext.references.len();
        let mut k: usize = 0;
        while k < en
            invariant
                k <= en == ext.references@.len(),
                model == extract_model(files@[f as int].content@),
                en == model.refs.len(),
                forall|t: int|
                    0 <= t < en ==> ref_matches(
                        #[trigger] ext.references@[t],
                        model.refs[t],
                        files@[f as int].path@,
                    ),
                refs_match_tagged(
                    refs@,
                    grefs + model.refs.map_values(
                        |m: RefModel| (files@[f as int].path@, m),
                    ).take(k as int),
                ),
            decreases en - k,
        {
            refs.push(ext.references[k].clone());
            proof {
                assert(grefs + model.refs.map_values(
                    |m: RefModel| (files@[f as int].path@, m),
                ).take(k + 1) =~= (grefs + model.refs.map_values(
                    |m: RefModel| (files@[f as int].path@, m),
                ).take(k as int)).push((files@[f as int].path@, model.refs[k as int])));
            }
            k = k + 1;
        }
        let wn = ext.warnings.len();
        let mut w: usize = 0;
        while w < wn
            invariant
                w <= wn == ext.warnings@.len(),
                model == extract_model(files@[f as int].content@),
                wn == model.warns.len(),
                forall|t: int|
                    0 <= t < wn ==> warn_matches(
                        #[trigger] ext.warnings@[t],
                        model.warns[t],
                        files@[f as int].path@,
                        files@[f as int].content@,
                    ),
                warns_match_tagged(
                    warns@,
                    gwarns + model.warns.map_values(
                        |m: WarnModel| (files@[f as int].path@, files@[f as int].content@, m),
                    ).take(w as int),
                ),
        decreases wn - w,
        {
            let pw = &ext.warnings[w];
            let kind = match &pw.kind {
                crate::lexer::WarningKind::UnknownVerb(v) => crate::lexer::WarningKind::UnknownVerb(
                    v.clone(),
                ),
                crate::lexer::WarningKind::MalformedReference => crate::lexer::WarningKind::MalformedReference,
            };
            warns.push(
                ParseWarning {
                    kind,
                    file: pw.file.clone(),
                    offset: pw.offset,
                    length: pw.length,
                },
            );
            proof {
                assert(gwarns + model.warns.map_values(
                    |m: WarnModel| (files@[f as int].path@, files@[f as int].content@, m),
                ).take(w + 1) =~= (gwarns + model.warns.map_values(
                    |m: WarnModel| (files@[f as int].path@, files@[f as int].content@, m),
                ).take(w as int)).push(
                    (
                        files@[f as int].path@,
                        files@[f as int].content@,
                        model.warns[w as int],
                    ),
                ));
            }
            w = w + 1;
        }
        proof {
            let tag_r = model.refs.map_values(|m: RefModel| (files@[f as int].path@, m));
            assert(tag_r.take(en as int) =~= tag_r);
            grefs = grefs + tag_r;
            let tag_w = model.warns.map_values(
                |m: WarnModel| (files@[f as int].path@, files@[f as int].content@, m),
            );
            assert(tag_w.take(wn as int) =~= tag_w);
            gwarns = gwarns + tag_w;
            assert(grefs + files_refs(file_views(files@).skip(f + 1)) =~= files_refs(
                file_views(files@),
            ));
            assert(gwarns + files_warns(file_views(files@).skip(f + 1)) =~= files_warns(
                file_views(files@),
            ));
        }
        f = f + 1;
    }
    proof {
        assert(file_views(files@).skip(fcount as int) =~= Seq::<(Seq<char>, Seq<char>)>::empty());
        assert(grefs + Seq::<(Seq<char>, RefModel)>::empty() =~= grefs);
        assert(gwarns + Seq::<(Seq<char>, Seq<char>, WarnModel)>::empty() =~= gwarns);
    }
    let refs_copy = clone_refs(&refs);
    let report = CoverageReport::compute(name, &manifest, refs);
    Ok(SpecResult { manifest, report, refs: refs_copy, warnings: warns })
}

/// Build the whole dashboard: every configured spec built over the disk
/// contents with the overlay applied on top, tagged with the new version.
/// All-or-nothing: the first failing spec fails the build.
pub fn build_dashboard(
    jobs: &Vec<SpecJob>,
    overlay: &FileOverlay,
    version: u64,
    build_millis: u64,
) -> (r: Result<DashboardData, SpecError>)
    requires
        forall|j: int, t: int|
            0 <= j < jobs@.len() && 0 <= t < jobs@[j].spec_docs@.len()
                ==> (#[trigger] jobs@[j].spec_docs@[t]).content@.len() < usize::MAX,
        forall|j: int| 0 <= j < jobs@.len() ==> docs_fit((#[trigger] jobs@[j]).source_files@),
        docs_fit(overlay.entries@),
    ensures
        match r {
            Ok(d) => {
                &&& jobs_first_err(jobs@) is None
                &&& d.version == version
                &&& d.build_millis == build_millis
                &&& d.results@.len() == jobs@.len()
                &&& (forall|j: int|
                    0 <= j < jobs@.len() ==> spec_result_for(
                        #[trigger] d.results@[j],
                        jobs@[j].name@,
                        jobs@[j].spec_docs@,
                        overlaid_views(jobs@[j].source_files@, *overlay),
                    ))
            },
            Err(e) => {
                &&& jobs_first_err(jobs@) matches Some(be) && job_err_matches(e, be)
            },
        },
{
    let n = jobs.len();
    let mut results: Vec<SpecResult> = Vec::new();
    let mut j: usize = 0;
    proof {
        assert(jobs@.skip(0) =~= jobs@);
    }
    while j < n
        invariant
            j <= n == jobs@.len(),
            forall|jj: int, t: int|
                0 <= jj < jobs@.len() && 0 <= t < jobs@[jj].spec_docs@.len()
                    ==> (#[trigger] jobs@[jj].spec_docs@[t]).content@.len() < usize::MAX,
            forall|jj: int| 0 <= jj < jobs@.len() ==> docs_fit((#[trigger] jobs@[jj]).source_files@),
            docs_fit(overlay.entries@),
            jobs_first_err(jobs@) == jobs_first_err(jobs@.skip(j as int)),
            results@.len() == j,
            forall|jj: int|
                0 <= jj < j ==> spec_result_for(
                    #[trigger] results@[jj],
                    jobs@[jj].name@,
                    jobs@[jj].spec_docs@,
                    overlaid_views(jobs@[jj].source_files@, *overlay),
                ),
        decreases n - j,
    {
        proof {
            assert(jobs@.skip(j as int)[0] == jobs@[j as int]);
            assert(jobs@.skip(j as int).drop_first() =~= jobs@.skip(j + 1));
        }
        let files = apply_overlay(&jobs[j].source_files, overlay);
        proof {
            assert forall|t: int| 0 <= t < files@.len() implies text_fits(
                (#[trigger] files@[t]).content@,
            ) by {
                assert(docs_fit(jobs@[j as int].source_files@));
                assert(text_fits(jobs@[j as int].source_files@[t].content@));
                match overlay.spec_get(jobs@[j as int].source_files@[t].path@) {
                    Some(c) => {
                        lemma_lookup_fits(overlay.entries@, jobs@[j as int].source_files@[t].path@);
                    },
                    None => {},
                }
            }
            assert(file_views(files@) =~~= overlaid_views(
                jobs@[j as int].source_files@,
                *overlay,
            ));
        }
        let name = jobs[j].name.clone();
        let res = build_spec_result(
            name,
            jobs[j].rules_base_url.as_str(),
            &jobs[j].spec_docs,
            &files,
        );
        match res {
            Ok(sr) => {
                proof {
                    assert(job_err(jobs@[j as int]) is None);
                }
                results.push(sr);
            },
            Err(e) => {
                proof {
                    assert(job_err(jobs@[j as int]) is Some);
                }
                return Err(e);
            },
        }
        j = j + 1;
    }
    proof {
        assert(jobs@.skip(n as int) =~= Seq::<SpecJob>::empty());
    }
    Ok(DashboardData { results, version, build_millis })
}

/// Every overlay content obeys the machine limit, so every lookup result
/// does too.
proof fn lemma_lookup_fits(entries: Seq<Doc>, path: Seq<char>)
    requires
        docs_fit(entries),
    ensures
        match crate::overlay::lookup(entries, path) {
            Some(c) => text_fits(c),
            None => true,
        },
    decreases entries.len(),
{
    if entries.len() > 0 {
        if entries.last().path@ == path {
            assert(text_fits(entries[entries.len() - 1].content@));
        } else {
            assert(forall|t: int|
                0 <= t < entries.drop_last().len() ==> text_fits(
                    (#[trigger] entries.drop_last()[t]).content@,
                ));
            lemma_lookup_fits(entries.drop_last(), path);
        }
    }
}

/// The configuration-error string each reload outcome records.
pub open spec fn outcome_error(outcome: ConfigOutcome) -> Option<Seq<char>> {
    match outcome {
        ConfigOutcome::Unreadable(m) => Some(m@),
        _ => None,
    }
}

/// The engine's state: the canonical snapshot, the overlay, the
/// last-known-good configuration and the current configuration error.
#[derive(Debug)]
pub struct EngineState {
    /// The canonical snapshot: the last successful rebuild's data.
    pub snapshot: DashboardData,
    /// The in-memory overlay of unsaved editor buffers.
    pub overlay: FileOverlay,
    /// The last-known-good configuration.
    pub config: Config,
    /// The current configuration error, if the last reload failed.
    pub config_error: Option<String>,
    /// The version of the last successful rebuild.
    pub version: u64,
}

impl EngineState {
    /// Construct an engine by running the first rebuild synchronously;
    /// a spec grammar error during this startup build is fatal.
    pub fn new(outcome: ConfigOutcome, jobs: &Vec<SpecJob>, build_millis: u64) -> (r: Result<
        EngineState,
        SpecError,
    >)
        requires
            forall|j: int, t: int|
                0 <= j < jobs@.len() && 0 <= t < jobs@[j].spec_docs@.len()
                    ==> (#[trigger] jobs@[j].spec_docs@[t]).content@.len() < usize::MAX,
            forall|j: int|
                0 <= j < jobs@.len() ==> docs_fit((#[trigger] jobs@[j]).source_files@),
        ensures
            match r {
                Ok(st) => {
                    &&& jobs_first_err(jobs@) is None
                    &&& st.version == 1
                    &&& st.snapshot.version == 1
                    &&& st.snapshot.build_millis == build_millis
                    &&& st.snapshot.results@.len() == jobs@.len()
                    &&& (forall|j: int|
                        0 <= j < jobs@.len() ==> spec_result_for(
                            #[trigger] st.snapshot.results@[j],
                            jobs@[j].name@,
                            jobs@[j].spec_docs@,
                            overlaid_views(jobs@[j].source_files@, st.overlay),
                        ))
                    &&& st.overlay.entries@.len() == 0
                    &&& st.overlay.wf()
                    &&& (match outcome {
                        ConfigOutcome::Loaded(c) => st.config == c,
                        _ => st.config.specs@.len() == 0,
                    })
                    &&& (match (st.config_error, outcome_error(outcome)) {
                        (Option::Some(x), Option::Some(y)) => x@ == y,
                        (Option::None, Option::None) => true,
                        _ => false,
                    })
                },
                Err(e) => {
                    &&& jobs_first_err(jobs@) matches Some(be) && job_err_matches(e, be)
                },
            },
    {
        let overlay = FileOverlay::new();
        let (config, config_error) = match outcome {
            ConfigOutcome::Loaded(c) => (c, None),
            ConfigOutcome::NotFound => (Config::default(), None),
            ConfigOutcome::Unreadable(m) => (Config::default(), Some(m)),
        };
        let data = match build_dashboard(jobs, &overlay, 1, build_millis) {
            Ok(d) => d,
            Err(e) => {
                return Err(e);
            },
        };
        Ok(EngineState { snapshot: data, overlay, config, config_error, version: 1 })
    }

    /// The current snapshot. In the daemon the caller guards this with its
    /// read gate; a reader never observes a partially rebuilt snapshot
    /// because a rebuild replaces the whole value at once.
    pub fn current_snapshot(&self) -> (r: &DashboardData)
        ensures
            *r == self.snapshot,
    {
        &self.snapshot
    }

    /// The version of the last successful rebuild.
    pub fn version(&self) -> (r: u64)
        ensures
            r == self.version,
    {
        self.version
    }

    /// The current configuration error, if any.
    pub fn config_error(&self) -> (r: Option<String>)
        ensures
            match (r, self.config_error) {
                (Option::Some(x), Option::Some(y)) => x@ == y@,
                (Option::None, Option::None) => true,
                _ => false,
            },
    {
        match &self.config_error {
            Some(m) => Some(m.clone()),
            None => None,
        }
    }

    /// Register a file in the overlay (editor open): its content now
    /// shadows the disk. The caller triggers a rebuild afterwards.
    pub fn vfs_open(&mut self, path: String, content: String)
        requires
            old(self).overlay.wf(),
        ensures
            final(self).overlay.wf(),
            final(self).overlay.spec_get(path@) == Some(content@),
            forall|q: Seq<char>|
                q != path@ ==> final(self).overlay.spec_get(q) == old(self).overlay.spec_get(q),
            final(self).snapshot == old(self).snapshot,
            final(self).version == old(self).version,
            final(self).config == old(self).config,
            final(self).config_error == old(self).config_error,
    {
        self.overlay.insert(path, content);
    }

    /// Update a file in the overlay (editor change). Same contract as
    /// opening: the latest content wins.
    pub fn vfs_change(&mut self, path: String, content: String)
        requires
            old(self).overlay.wf(),
        ensures
            final(self).overlay.wf(),
            final(self).overlay.spec_get(path@) == Some(content@),
            forall|q: Seq<char>|
                q != path@ ==> final(self).overlay.spec_get(q) == old(self).overlay.spec_get(q),
            final(self).snapshot == old(self).snapshot,
            final(self).version == old(self).version,
            final(self).config == old(self).config,
            final(self).config_error == old(self).config_error,
    {
        self.overlay.insert(path, content);
    }

    /// Remove a file from the overlay (editor close): the disk content
    /// shows through again.
    pub fn vfs_close(&mut self, path: &str)
        requires
            old(self).overlay.wf(),
        ensures
            final(self).overlay.wf(),
            final(self).overlay.spec_get(path@) is None,
            forall|q: Seq<char>|
                q != path@ ==> final(self).overlay.spec_get(q) == old(self).overlay.spec_get(q),
            final(self).snapshot == old(self).snapshot,
            final(self).version == old(self).version,
            final(self).config == old(self).config,
            final(self).config_error == old(self).config_error,
    {
        self.overlay.remove(path);
    }

    /// One rebuild pass: record the configuration outcome, run the whole
    /// pipeline over the overlaid files, and on success publish the new
    /// snapshot under the next version. On failure the snapshot, the
    /// version and the configuration are left untouched — only the
    /// configuration error is updated.
    pub fn rebuild(&mut self, outcome: ConfigOutcome, jobs: &Vec<SpecJob>, build_millis: u64) -> (r:
        Result<(u64, u64), SpecError>)
        requires
            old(self).version < u64::MAX,
            old(self).overlay.wf(),
            docs_fit(old(self).overlay.entries@),
            forall|j: int, t: int|
                0 <= j < jobs@.len() && 0 <= t < jobs@[j].spec_docs@.len()
                    ==> (#[trigger] jobs@[j].spec_docs@[t]).content@.len() < usize::MAX,
            forall|j: int|
                0 <= j < jobs@.len() ==> docs_fit((#[trigger] jobs@[j]).source_files@),
        ensures
            final(self).overlay == old(self).overlay,
            (match (final(self).config_error, outcome_error(outcome)) {
                (Option::Some(x), Option::Some(y)) => x@ == y,
                (Option::None, Option::None) => true,
                _ => false,
            }),
            match r {
                Ok(v_ms) => {
                    &&& jobs_first_err(jobs@) is None
                    &&& v_ms.0 == old(self).version + 1
                    &&& v_ms.1 == build_millis
                    &&& final(self).version == v_ms.0
                    &&& final(self).snapshot.version == v_ms.0
                    &&& final(self).snapshot.build_millis == build_millis
                    &&& final(self).snapshot.results@.len() == jobs@.len()
                    &&& (forall|j: int|
                        0 <= j < jobs@.len() ==> spec_result_for(
                            #[trigger] final(self).snapshot.results@[j],
                            jobs@[j].name@,
                            jobs@[j].spec_docs@,
                            overlaid_views(jobs@[j].source_files@, old(self).overlay),
                        ))
                    &&& (match outcome {
                        ConfigOutcome::Loaded(c) => final(self).config == c,
                        ConfigOutcome::NotFound => final(self).config.specs@.len() == 0,
                        ConfigOutcome::Unreadable(_) => final(self).config == old(self).config,
                    })
                },
                Err(e) => {
                    &&& (jobs_first_err(jobs@) matches Some(be) && job_err_matches(e, be))
                    &&& final(self).version == old(self).version
                    &&& final(self).snapshot == old(self).snapshot
                    &&& final(self).config == old(self).config
                },
            },
    {
        let (candidate, new_error): (Option<Config>, Option<String>) = match outcome {
            ConfigOutcome::Loaded(c) => (Some(c), None),
            ConfigOutcome::NotFound => (Some(Config::default()), None),
            ConfigOutcome::Unreadable(m) => (None, Some(m)),
        };
        self.config_error = new_error;
        let new_version = self.version + 1;
        let data = match build_dashboard(jobs, &self.overlay, new_version, build_millis) {
            Ok(d) => d,
            Err(e) => {
                return Err(e);
            },
        };
        self.snapshot = data;
        self.version = new_version;
        match candidate {
            Some(c) => {
                self.config = c;
            },
            None => {},
        }
        Ok((new_version, build_millis))
    }
}

} // verus!
