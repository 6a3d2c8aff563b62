use tracey::manifest::{ManifestRule, RuleInfo, SpecManifest, rule_url};
use tracey::spec_doc::{RuleDefinition, SpecError, parse_spec_document};
use tracey::spec_doc_model::{RuleLevel, RuleStatus};

fn parse_ok(text: &str) -> Vec<RuleDefinition> {
    parse_spec_document("reqs.md", text).expect("document should parse")
}

#[test]
fn test_parse_single_rule() {
    let defs = parse_ok("# Title\n\nr[channel.id.allocation]\nBody text.\n");
    assert_eq!(defs.len(), 1);
    assert_eq!(defs[0].id, "channel.id.allocation");
    assert_eq!(defs[0].file, "reqs.md");
    assert_eq!(defs[0].line, 3);
    assert!(defs[0].metadata.status.is_none());
    assert!(defs[0].metadata.level.is_none());
    assert_eq!(defs[0].metadata.tags.len(), 0);
}

#[test]
fn test_parse_metadata() {
    let text = "\
r[test.rule.one status=stable level=must since=1.0]
r[test.rule.two status=draft]
r[test.rule.three status=deprecated until=2.0]
r[test.rule.four tags=legacy,migration]
";
    let defs = parse_ok(text);
    assert_eq!(defs.len(), 4);
    assert_eq!(defs[0].metadata.status, Some(RuleStatus::Stable));
    assert_eq!(defs[0].metadata.level, Some(RuleLevel::Must));
    assert_eq!(defs[0].metadata.since.as_deref(), Some("1.0"));
    assert_eq!(defs[1].metadata.status, Some(RuleStatus::Draft));
    assert_eq!(defs[2].metadata.status, Some(RuleStatus::Deprecated));
    assert_eq!(defs[2].metadata.until.as_deref(), Some("2.0"));
    assert_eq!(defs[3].metadata.tags, vec!["legacy", "migration"]);
}

#[test]
fn test_parse_levels() {
    let defs = parse_ok("r[a.one level=must]\nr[a.two level=should]\nr[a.three level=may]\n");
    assert_eq!(defs[0].metadata.level, Some(RuleLevel::Must));
    assert_eq!(defs[1].metadata.level, Some(RuleLevel::Should));
    assert_eq!(defs[2].metadata.level, Some(RuleLevel::May));
}

#[test]
fn test_tags_are_an_ordered_set() {
    let defs = parse_ok("r[a.b tags=one,two,one,three,two]\n");
    assert_eq!(defs[0].metadata.tags, vec!["one", "two", "three"]);
}

#[test]
fn test_invalid_status_is_hard_error() {
    let text = "# Test Spec\n\nr[test.rule status=invalid]\nThis has an invalid status.\n";
    let err = parse_spec_document("reqs.md", text).unwrap_err();
    match &err {
        SpecError::InvalidStatus { value, line, .. } => {
            assert_eq!(value, "invalid");
            assert_eq!(*line, 3);
        }
        other => panic!("expected an invalid-status error, got {:?}", other),
    }
    assert_eq!(err.message(), "invalid status");
}

#[test]
fn test_invalid_level_is_hard_error() {
    let text = "# Test Spec\n\nr[test.rule level=invalid]\nThis has an invalid level.\n";
    let err = parse_spec_document("reqs.md", text).unwrap_err();
    match &err {
        SpecError::InvalidLevel { value, .. } => assert_eq!(value, "invalid"),
        other => panic!("expected an invalid-level error, got {:?}", other),
    }
    assert_eq!(err.message(), "invalid level");
}

#[test]
fn test_unknown_attribute_is_hard_error() {
    let text = "# Test Spec\n\nr[test.rule unknown=value]\nThis has an unknown attribute.\n";
    let err = parse_spec_document("reqs.md", text).unwrap_err();
    match &err {
        SpecError::UnknownAttribute { key, .. } => assert_eq!(key, "unknown"),
        other => panic!("expected an unknown-attribute error, got {:?}", other),
    }
    assert_eq!(err.message(), "unknown attribute");
}

#[test]
fn test_invalid_rule_id_is_hard_error() {
    let err = parse_spec_document("reqs.md", "r[NotARule]\n").unwrap_err();
    match &err {
        SpecError::InvalidRuleId { id, .. } => assert_eq!(id, "NotARule"),
        other => panic!("expected an invalid-rule-id error, got {:?}", other),
    }
    assert_eq!(err.message(), "invalid rule id");
}

#[test]
fn test_unclosed_definition_is_hard_error() {
    let err = parse_spec_document("reqs.md", "r[test.rule status=stable\n").unwrap_err();
    assert!(matches!(err, SpecError::UnclosedDefinition { .. }));
    assert_eq!(err.message(), "unclosed rule definition");
}

#[test]
fn test_duplicate_within_one_document() {
    // The document parses; building the manifest detects the duplicate.
    let defs = parse_ok("r[dup.rule]\nSome text.\nr[dup.rule]\n");
    assert_eq!(defs.len(), 2);
    let err = SpecManifest::from_definitions(&defs, "https://example.com").unwrap_err();
    match &err {
        SpecError::DuplicateRule { id, .. } => assert_eq!(id, "dup.rule"),
        other => panic!("expected a duplicate-rule error, got {:?}", other),
    }
    assert_eq!(err.message(), "duplicate rule id");
}

#[test]
fn test_duplicate_across_documents() {
    // Two documents each define the same rule id: the manifest build over
    // the combined definitions fails, just as within one file.
    let mut defs = parse_spec_document("one.md", "r[shared.rule]\n").unwrap();
    let more = parse_spec_document("two.md", "r[shared.rule]\n").unwrap();
    defs.extend(more);
    let err = SpecManifest::from_definitions(&defs, "https://example.com").unwrap_err();
    assert!(matches!(err, SpecError::DuplicateRule { .. }));
}

#[test]
fn test_manifest_lookup() {
    let defs = parse_ok("r[a.one]\nr[a.two]\n");
    let manifest = SpecManifest::from_definitions(&defs, "https://rapace.dev").unwrap();
    assert!(manifest.has_rule("a.one"));
    assert!(manifest.has_rule("a.two"));
    assert!(!manifest.has_rule("a.three"));
    let ids = manifest.rule_ids();
    assert_eq!(ids, vec!["a.one", "a.two"]);
    assert_eq!(
        manifest.get_rule_url("a.one").as_deref(),
        Some("https://rapace.dev#r-a.one")
    );
    assert_eq!(manifest.get_rule_url("a.three"), None);
}

#[test]
fn test_manifest_from_entries_checks_ids() {
    let entries = vec![ManifestRule {
        id: String::from("not a rule id"),
        info: RuleInfo { url: String::from("u") },
    }];
    let err = SpecManifest::from_entries(entries).unwrap_err();
    assert!(matches!(err, SpecError::InvalidRuleId { .. }));

    let good = vec![
        ManifestRule { id: String::from("a.b"), info: RuleInfo { url: String::from("u1") } },
        ManifestRule { id: String::from("a.c"), info: RuleInfo { url: String::from("u2") } },
    ];
    let m = SpecManifest::from_entries(good).unwrap();
    assert_eq!(m.rules.len(), 2);
}

#[test]
fn test_rule_url_shape() {
    assert_eq!(rule_url("https://example.com/spec", "a.b"), "https://example.com/spec#r-a.b");
}

#[test]
fn test_non_marker_lines_are_ignored() {
    let defs = parse_ok("# heading\nplain prose with r[not.at.line.start] inside\n  r[indented.rule]\n");
    assert_eq!(defs.len(), 0);
}
