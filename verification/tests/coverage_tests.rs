use tracey::coverage::CoverageReport;
use tracey::rule_id::is_valid_rule_id;
use tracey::scanner::{is_excluded, is_included, matches_glob};
use tracey::lexer::{RuleReference, extract_rule_references};
use tracey::manifest::SpecManifest;
use tracey::spec_doc::parse_spec_document;
use tracey::verb::RefVerb;

fn manifest_of(spec_text: &str) -> SpecManifest {
    let defs = parse_spec_document("reqs.md", spec_text).unwrap();
    SpecManifest::from_definitions(&defs, "https://example.com").unwrap()
}

fn reference(verb: RefVerb, id: &str, line: usize) -> RuleReference {
    RuleReference {
        verb,
        rule_id: String::from(id),
        file: String::from("src/lib.rs"),
        line,
        context: String::from("// context"),
    }
}

// End-to-end: spec defines a.b and a.c; source references a.b.
#[test]
fn test_end_to_end_covered_and_uncovered() {
    let manifest = manifest_of("r[a.b]\nr[a.c]\n");
    let refs = extract_rule_references("src/lib.rs", "// [impl a.b]\nfn covered() {}\n");
    let report = CoverageReport::compute(String::from("demo"), &manifest, refs);

    assert_eq!(report.spec_name, "demo");
    assert_eq!(report.total_rules, 2);
    assert_eq!(report.covered_rules, vec!["a.b"]);
    assert_eq!(report.uncovered_rules, vec!["a.c"]);
    assert_eq!(report.invalid_references.len(), 0);
    assert_eq!(report.coverage_percent(), 5000); // 50.00 percent
    assert!(report.is_passing(5000));
    assert!(!report.is_passing(5001));
}

// End-to-end: a reference to a rule the spec does not define.
#[test]
fn test_end_to_end_invalid_reference() {
    let manifest = manifest_of("r[a.b]\nr[a.c]\n");
    let refs = extract_rule_references("src/lib.rs", "// [impl a.nonexistent]\nfn bad() {}\n");
    let report = CoverageReport::compute(String::from("demo"), &manifest, refs);

    assert_eq!(report.invalid_references.len(), 1);
    assert_eq!(report.invalid_references[0].rule_id, "a.nonexistent");
    assert_eq!(report.covered_rules.len(), 0);
    let mut uncovered = report.uncovered_rules.clone();
    uncovered.sort();
    assert_eq!(uncovered, vec!["a.b", "a.c"]);
    assert!(!report.is_passing(0));
}

// An empty manifest is vacuously fully covered.
#[test]
fn test_coverage_percent_empty_manifest() {
    let manifest = SpecManifest::new();
    let report = CoverageReport::compute(String::from("empty"), &manifest, Vec::new());
    assert_eq!(report.total_rules, 0);
    assert_eq!(report.coverage_percent(), 10000); // exactly 100.00 percent
    assert!(report.is_passing(10000));
}

// A manifest with 2 rules and 1 covered yields exactly half.
#[test]
fn test_coverage_percent_half() {
    let manifest = manifest_of("r[a.b]\nr[a.c]\n");
    let refs = vec![reference(RefVerb::Impl, "a.b", 1)];
    let report = CoverageReport::compute(String::from("s"), &manifest, refs);
    assert_eq!(report.coverage_percent(), 5000);
}

// is_passing is false whenever invalid references exist, even at full
// coverage.
#[test]
fn test_is_passing_rejects_invalid_references() {
    let manifest = manifest_of("r[a.b]\n");
    let refs = vec![
        reference(RefVerb::Impl, "a.b", 1),
        reference(RefVerb::Impl, "a.ghost", 2),
    ];
    let report = CoverageReport::compute(String::from("s"), &manifest, refs);
    assert_eq!(report.coverage_percent(), 10000);
    assert!(!report.is_passing(0));
}

// Computing twice from identical inputs yields identical reports.
#[test]
fn test_compute_is_pure() {
    let manifest = manifest_of("r[a.b]\nr[a.c]\n");
    let refs1 = vec![
        reference(RefVerb::Impl, "a.b", 1),
        reference(RefVerb::Verify, "a.b", 2),
        reference(RefVerb::Impl, "a.ghost", 3),
    ];
    let refs2 = vec![
        reference(RefVerb::Impl, "a.b", 1),
        reference(RefVerb::Verify, "a.b", 2),
        reference(RefVerb::Impl, "a.ghost", 3),
    ];
    let r1 = CoverageReport::compute(String::from("s"), &manifest, refs1);
    let r2 = CoverageReport::compute(String::from("s"), &manifest, refs2);
    assert_eq!(r1.spec_name, r2.spec_name);
    assert_eq!(r1.total_rules, r2.total_rules);
    assert_eq!(r1.covered_rules, r2.covered_rules);
    assert_eq!(r1.uncovered_rules, r2.uncovered_rules);
    assert_eq!(r1.invalid_references.len(), r2.invalid_references.len());
    for (a, b) in r1.invalid_references.iter().zip(r2.invalid_references.iter()) {
        assert_eq!(a.rule_id, b.rule_id);
        assert_eq!(a.line, b.line);
    }
    assert_eq!(r1.references_by_rule.len(), r2.references_by_rule.len());
    assert_eq!(r1.references_by_verb.len(), r2.references_by_verb.len());
}

// Multiple references to one rule collapse to one covered entry but keep
// multiplicity in the by-rule index.
#[test]
fn test_grouping_keeps_multiplicity() {
    let manifest = manifest_of("r[a.b]\nr[a.c]\n");
    let refs = vec![
        reference(RefVerb::Impl, "a.b", 1),
        reference(RefVerb::Impl, "a.b", 5),
        reference(RefVerb::Verify, "a.b", 9),
        reference(RefVerb::Impl, "a.c", 3),
    ];
    let report = CoverageReport::compute(String::from("s"), &manifest, refs);
    assert_eq!(report.covered_rules, vec!["a.b", "a.c"]);
    assert_eq!(report.uncovered_rules.len(), 0);

    assert_eq!(report.references_by_rule.len(), 2);
    assert_eq!(report.references_by_rule[0].rule_id, "a.b");
    assert_eq!(report.references_by_rule[0].refs.len(), 3);
    assert_eq!(report.references_by_rule[1].rule_id, "a.c");
    assert_eq!(report.references_by_rule[1].refs.len(), 1);

    // Fixed verb order: define, impl, verify, depends, related.
    assert_eq!(report.references_by_verb.len(), 5);
    assert_eq!(report.references_by_verb[0].verb, RefVerb::Define);
    assert_eq!(report.references_by_verb[0].rules.len(), 0);
    assert_eq!(report.references_by_verb[1].verb, RefVerb::Impl);
    assert_eq!(report.references_by_verb[1].rules.len(), 2);
    assert_eq!(report.references_by_verb[1].rules[0].rule_id, "a.b");
    assert_eq!(report.references_by_verb[1].rules[0].refs.len(), 2);
    assert_eq!(report.references_by_verb[2].verb, RefVerb::Verify);
    assert_eq!(report.references_by_verb[2].rules.len(), 1);
    assert_eq!(report.references_by_verb[2].rules[0].refs.len(), 1);
}

#[test]
fn test_invalid_references_keep_order() {
    let manifest = manifest_of("r[a.b]\n");
    let refs = vec![
        reference(RefVerb::Impl, "x.one", 1),
        reference(RefVerb::Impl, "a.b", 2),
        reference(RefVerb::Verify, "x.two", 3),
    ];
    let report = CoverageReport::compute(String::from("s"), &manifest, refs);
    assert_eq!(report.invalid_references.len(), 2);
    assert_eq!(report.invalid_references[0].rule_id, "x.one");
    assert_eq!(report.invalid_references[1].rule_id, "x.two");
}

#[test]
fn test_glob_matching() {
    assert!(matches_glob("src/lib.rs", "**/*.rs"));
    assert!(matches_glob("deep/nested/mod.rs", "**/*.rs"));
    assert!(!matches_glob("README.md", "**/*.rs"));

    assert!(matches_glob("target/debug/build.rs", "target/**"));
    assert!(!matches_glob("src/target.rs", "target/**"));

    assert!(matches_glob("src/lib.rs", "src*lib"));
    assert!(matches_glob("vendor/external.rs", "vendor*"));
    assert!(!matches_glob("src/lib.rs", "vendor*"));

    assert!(is_included("anything.rs", &Vec::new()));
    assert!(is_included("src/lib.rs", &vec![String::from("**/*.rs")]));
    assert!(!is_included("notes.txt", &vec![String::from("**/*.rs")]));
    assert!(is_excluded("target/debug/x.rs", &vec![String::from("target/**")]));
    assert!(!is_excluded("src/x.rs", &vec![String::from("target/**")]));
}

#[test]
fn test_rule_id_validation() {
    assert!(is_valid_rule_id("a.b"));
    assert!(is_valid_rule_id("channel.id.no-reuse"));
    assert!(is_valid_rule_id("a1.b2-c3.d"));
    assert!(!is_valid_rule_id(""));
    assert!(!is_valid_rule_id("nodot"));
    assert!(!is_valid_rule_id(".leading"));
    assert!(!is_valid_rule_id("trailing."));
    assert!(!is_valid_rule_id("a..b"));
    assert!(!is_valid_rule_id("Upper.case"));
    assert!(!is_valid_rule_id("1starts.with.digit"));
    assert!(!is_valid_rule_id("has space.x"));
}

// The percentage is reported in hundredths of a percent, rounded down.
#[test]
fn test_coverage_percent_rounds_down() {
    let manifest = manifest_of("r[a.one]\nr[a.two]\nr[a.three]\n");
    let refs = vec![reference(RefVerb::Impl, "a.one", 1)];
    let report = CoverageReport::compute(String::from("s"), &manifest, refs);
    assert_eq!(report.coverage_percent(), 3333); // one third, 33.33 percent
}
