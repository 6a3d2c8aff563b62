use tracey::config::Config;
use tracey::engine::{ConfigOutcome, EngineState, SpecJob, build_spec_result};
use tracey::overlay::{Doc, FileOverlay, apply_overlay};

fn doc(path: &str, content: &str) -> Doc {
    Doc { path: String::from(path), content: String::from(content) }
}

fn simple_job() -> SpecJob {
    SpecJob {
        name: String::from("demo"),
        rules_base_url: String::from("https://example.com"),
        spec_docs: vec![doc("reqs.md", "r[a.b]\nr[a.c]\n")],
        source_files: vec![doc("src/lib.rs", "// [impl a.b]\nfn covered() {}\n")],
    }
}

#[test]
fn test_engine_starts_at_version_one() {
    let jobs = vec![simple_job()];
    let st = EngineState::new(ConfigOutcome::NotFound, &jobs, 7).unwrap();
    assert_eq!(st.version(), 1);
    let snap = st.current_snapshot();
    assert_eq!(snap.version, 1);
    assert_eq!(snap.build_millis, 7);
    assert_eq!(snap.results.len(), 1);
    assert_eq!(snap.results[0].report.covered_rules, vec!["a.b"]);
    assert_eq!(snap.results[0].report.uncovered_rules, vec!["a.c"]);
    assert!(st.config_error().is_none());
}

// After N successful rebuilds the version is N, counting the build at
// construction as the first.
#[test]
fn test_rebuild_version_monotonicity() {
    let jobs = vec![simple_job()];
    let mut st = EngineState::new(ConfigOutcome::NotFound, &jobs, 1).unwrap();
    assert_eq!(st.version(), 1);

    let (v2, _) = st.rebuild(ConfigOutcome::NotFound, &jobs, 2).unwrap();
    assert_eq!(v2, 2);
    assert_eq!(st.version(), 2);
    assert_eq!(st.current_snapshot().version, 2);

    let (v3, _) = st.rebuild(ConfigOutcome::NotFound, &jobs, 3).unwrap();
    assert_eq!(v3, 3);
    assert_eq!(st.version(), 3);

    // An earlier version number observed by a reader stays what it was:
    // snapshots are replaced, never mutated.
    assert_eq!(v2, 2);
}

// A failed rebuild leaves the snapshot and the version untouched.
#[test]
fn test_failed_rebuild_keeps_snapshot() {
    let jobs = vec![simple_job()];
    let mut st = EngineState::new(ConfigOutcome::NotFound, &jobs, 1).unwrap();

    let bad_jobs = vec![SpecJob {
        name: String::from("demo"),
        rules_base_url: String::from("https://example.com"),
        spec_docs: vec![doc("reqs.md", "r[dup.rule]\nr[dup.rule]\n")],
        source_files: vec![],
    }];
    let err = st.rebuild(ConfigOutcome::NotFound, &bad_jobs, 2);
    assert!(err.is_err());
    assert_eq!(st.version(), 1);
    assert_eq!(st.current_snapshot().version, 1);
    assert_eq!(st.current_snapshot().results[0].report.covered_rules, vec!["a.b"]);
}

// A spec grammar error during the startup build is fatal.
#[test]
fn test_startup_spec_error_is_fatal() {
    let jobs = vec![SpecJob {
        name: String::from("demo"),
        rules_base_url: String::from("https://example.com"),
        spec_docs: vec![doc("reqs.md", "r[test.rule status=invalid]\n")],
        source_files: vec![],
    }];
    assert!(EngineState::new(ConfigOutcome::NotFound, &jobs, 1).is_err());
}

// Configuration outcomes: a parseable file becomes the config, a missing
// file means the empty config, an unreadable file records the error and
// keeps the previous config.
#[test]
fn test_config_outcomes() {
    let jobs = vec![simple_job()];
    let mut cfg = Config::default();
    cfg.specs.push(tracey::config::SpecConfig::default());
    let mut st = EngineState::new(ConfigOutcome::Loaded(cfg), &jobs, 1).unwrap();
    assert_eq!(st.config.specs.len(), 1);
    assert!(st.config_error().is_none());

    st.rebuild(ConfigOutcome::Unreadable(String::from("bad syntax")), &jobs, 2).unwrap();
    assert_eq!(st.config.specs.len(), 1); // previous config reused
    assert_eq!(st.config_error().as_deref(), Some("bad syntax"));

    st.rebuild(ConfigOutcome::NotFound, &jobs, 3).unwrap();
    assert_eq!(st.config.specs.len(), 0); // empty config
    assert!(st.config_error().is_none());
}

// Overlay precedence: an overlay entry for a path shadows the disk
// content; scanning reads the overlay's text.
#[test]
fn test_overlay_precedence() {
    let jobs = vec![simple_job()];
    let mut st = EngineState::new(ConfigOutcome::NotFound, &jobs, 1).unwrap();
    assert_eq!(st.current_snapshot().results[0].report.covered_rules, vec!["a.b"]);

    st.vfs_open(String::from("src/lib.rs"), String::from("// [impl a.c]\nfn edited() {}\n"));
    st.rebuild(ConfigOutcome::NotFound, &jobs, 2).unwrap();
    assert_eq!(st.current_snapshot().results[0].report.covered_rules, vec!["a.c"]);
    assert_eq!(st.current_snapshot().results[0].report.uncovered_rules, vec!["a.b"]);

    // Closing the buffer lets the disk content show through again.
    st.vfs_close("src/lib.rs");
    st.rebuild(ConfigOutcome::NotFound, &jobs, 3).unwrap();
    assert_eq!(st.current_snapshot().results[0].report.covered_rules, vec!["a.b"]);
}

#[test]
fn test_overlay_operations() {
    let mut ov = FileOverlay::new();
    assert_eq!(ov.get("a.rs"), None);

    ov.insert(String::from("a.rs"), String::from("one"));
    ov.insert(String::from("b.rs"), String::from("two"));
    assert_eq!(ov.get("a.rs").as_deref(), Some("one"));
    assert_eq!(ov.get("b.rs").as_deref(), Some("two"));

    // A change replaces the held content; entries never expire on their
    // own.
    ov.insert(String::from("a.rs"), String::from("three"));
    assert_eq!(ov.get("a.rs").as_deref(), Some("three"));
    assert_eq!(ov.entries.len(), 2);

    ov.remove("a.rs");
    assert_eq!(ov.get("a.rs"), None);
    assert_eq!(ov.get("b.rs").as_deref(), Some("two"));
}

#[test]
fn test_apply_overlay_merges() {
    let mut ov = FileOverlay::new();
    ov.insert(String::from("b.rs"), String::from("B-overlaid"));
    let files = vec![doc("a.rs", "A-disk"), doc("b.rs", "B-disk")];
    let merged = apply_overlay(&files, &ov);
    assert_eq!(merged.len(), 2);
    assert_eq!(merged[0].content, "A-disk");
    assert_eq!(merged[1].content, "B-overlaid");
}

#[test]
fn test_build_spec_result_collects_warnings() {
    let spec_docs = vec![doc("reqs.md", "r[a.b]\n")];
    let files = vec![doc("x.rs", "// [impl a.b]\n// [bogusverb a.b]\n")];
    let sr = build_spec_result(String::from("s"), "https://example.com", &spec_docs, &files)
        .unwrap();
    assert_eq!(sr.refs.len(), 1);
    assert_eq!(sr.warnings.len(), 1);
    assert_eq!(sr.report.covered_rules, vec!["a.b"]);
}

#[test]
fn test_multiple_specs_build_independently() {
    let jobs = vec![
        simple_job(),
        SpecJob {
            name: String::from("other"),
            rules_base_url: String::from("https://other.example"),
            spec_docs: vec![doc("other.md", "r[x.y]\n")],
            source_files: vec![doc("y.rs", "// [verify x.y]\n")],
        },
    ];
    let st = EngineState::new(ConfigOutcome::NotFound, &jobs, 1).unwrap();
    let snap = st.current_snapshot();
    assert_eq!(snap.results.len(), 2);
    assert_eq!(snap.results[0].report.spec_name, "demo");
    assert_eq!(snap.results[1].report.spec_name, "other");
    assert_eq!(snap.results[1].report.covered_rules, vec!["x.y"]);
}
