use tracey::lexer::{WarningKind, extract_rule_references, extract_with_warnings, refs_at_line, refs_in_range};
use tracey::verb::RefVerb;

#[test]
fn test_extract_simple_reference_legacy() {
    let content = r#"
            // See [channel.id.allocation] for details
            fn allocate_id() {}
        "#;

    let refs = extract_rule_references("test.rs", content);
    assert_eq!(refs.len(), 1);
    assert_eq!(refs[0].rule_id, "channel.id.allocation");
    assert_eq!(refs[0].verb, RefVerb::Impl); // legacy defaults to impl
}

#[test]
fn test_extract_with_explicit_verb() {
    let content = r#"
            // [impl channel.id.allocation]
            fn allocate_id() {}

            // [verify channel.id.parity]
            #[test]
            fn test_parity() {}

            // [depends channel.framing]
            fn needs_framing() {}

            // [related channel.errors]
            fn handle_errors() {}

            // [define channel.id.format]
            // This is where we define the format
        "#;

    let refs = extract_rule_references("test.rs", content);
    assert_eq!(refs.len(), 5);

    assert_eq!(refs[0].verb, RefVerb::Impl);
    assert_eq!(refs[0].rule_id, "channel.id.allocation");

    assert_eq!(refs[1].verb, RefVerb::Verify);
    assert_eq!(refs[1].rule_id, "channel.id.parity");

    assert_eq!(refs[2].verb, RefVerb::Depends);
    assert_eq!(refs[2].rule_id, "channel.framing");

    assert_eq!(refs[3].verb, RefVerb::Related);
    assert_eq!(refs[3].rule_id, "channel.errors");

    assert_eq!(refs[4].verb, RefVerb::Define);
    assert_eq!(refs[4].rule_id, "channel.id.format");
}

#[test]
fn test_extract_multiple_references() {
    let content = r#"
            /// Implements [channel.id.parity] and [channel.id.no-reuse]
            fn next_channel_id() {}
        "#;

    let refs = extract_rule_references("test.rs", content);
    assert_eq!(refs.len(), 2);
    assert_eq!(refs[0].rule_id, "channel.id.parity");
    assert_eq!(refs[1].rule_id, "channel.id.no-reuse");
}

#[test]
fn test_mixed_syntax() {
    let content = r#"
            // Legacy: [channel.id.one] and explicit: [verify channel.id.two]
            fn foo() {}
        "#;

    let refs = extract_rule_references("test.rs", content);
    assert_eq!(refs.len(), 2);
    assert_eq!(refs[0].rule_id, "channel.id.one");
    assert_eq!(refs[0].verb, RefVerb::Impl);
    assert_eq!(refs[1].rule_id, "channel.id.two");
    assert_eq!(refs[1].verb, RefVerb::Verify);
}

#[test]
fn test_ignore_non_rule_brackets() {
    let content = r#"
            // array[0] is not a rule
            // [Some text] is not a rule either
            // [unknown-verb rule.id] is not valid
            fn foo() {}
        "#;

    let refs = extract_rule_references("test.rs", content);
    assert_eq!(refs.len(), 0);
}

#[test]
fn test_verb_display() {
    assert_eq!(RefVerb::Impl.as_str(), "impl");
    assert_eq!(RefVerb::Verify.as_str(), "verify");
    assert_eq!(RefVerb::Depends.as_str(), "depends");
    assert_eq!(RefVerb::Related.as_str(), "related");
    assert_eq!(RefVerb::Define.as_str(), "define");
}

#[test]
fn test_verb_from_str() {
    assert_eq!(RefVerb::from_str("impl"), Some(RefVerb::Impl));
    assert_eq!(RefVerb::from_str("verify"), Some(RefVerb::Verify));
    assert_eq!(RefVerb::from_str("depends"), Some(RefVerb::Depends));
    assert_eq!(RefVerb::from_str("related"), Some(RefVerb::Related));
    assert_eq!(RefVerb::from_str("define"), Some(RefVerb::Define));
    assert_eq!(RefVerb::from_str("unknownverb"), None);
    assert_eq!(RefVerb::from_str(""), None);
}

// An unknown verb abandons the whole bracket: zero references, not a
// legacy match on the trailing rule id.
#[test]
fn test_unknown_verb_no_reference() {
    let content = "// [unknownverb some.rule]\nfn foo() {}\n";
    let out = extract_with_warnings("test.rs", content);
    assert_eq!(out.references.len(), 0);
    assert_eq!(out.warnings.len(), 1);
    match &out.warnings[0].kind {
        WarningKind::UnknownVerb(v) => assert_eq!(v, "unknownverb"),
        WarningKind::MalformedReference => panic!("expected an unknown-verb warning"),
    }
    // The span covers the verb token, as byte offsets into the text.
    assert_eq!(out.warnings[0].offset, 4);
    assert_eq!(out.warnings[0].length, 11);
    assert_eq!(out.warnings[0].file, "test.rs");
}

#[test]
fn test_malformed_reference_warning() {
    let content = "// [impl Bad]\n";
    let out = extract_with_warnings("test.rs", content);
    assert_eq!(out.references.len(), 0);
    assert_eq!(out.warnings.len(), 1);
    assert!(matches!(out.warnings[0].kind, WarningKind::MalformedReference));
    assert_eq!(out.warnings[0].offset, 3);
    assert_eq!(out.warnings[0].length, 6);
}

#[test]
fn test_invalid_ids_produce_no_references() {
    // No dot, leading dot, trailing dot, uppercase: none is a rule id.
    let content = "\
// [nodot]
// [impl nodot]
// [impl .leading.dot]
// [impl trailing.dot.]
// [impl Upper.case]
// [verify miXed.case]
";
    let refs = extract_rule_references("test.rs", content);
    assert_eq!(refs.len(), 0);
}

#[test]
fn test_block_comments() {
    let content = "\
fn foo() {}
/* A block comment with [impl test.block.comment]
   spanning lines */
fn bar() {}
/* single-line block [test.single.block] */
";
    let refs = extract_rule_references("test.rs", content);
    assert_eq!(refs.len(), 2);
    assert_eq!(refs[0].rule_id, "test.block.comment");
    assert_eq!(refs[0].line, 2); // attributed to the line the block opened on
    assert_eq!(refs[1].rule_id, "test.single.block");
    assert_eq!(refs[1].line, 5);
}

#[test]
fn test_doc_comments() {
    let content = "\
/// Outer doc: [impl test.doc.comment]
fn foo() {}
//! Inner doc: [verify test.inner.doc]
";
    let refs = extract_rule_references("test.rs", content);
    assert_eq!(refs.len(), 2);
    assert_eq!(refs[0].rule_id, "test.doc.comment");
    assert_eq!(refs[1].rule_id, "test.inner.doc");
}

#[test]
fn test_line_numbers_and_context() {
    let content = "fn a() {}\n// [impl test.rule.one]\nfn b() {}\n";
    let refs = extract_rule_references("lib.rs", content);
    assert_eq!(refs.len(), 1);
    assert_eq!(refs[0].line, 2);
    assert_eq!(refs[0].file, "lib.rs");
    assert_eq!(refs[0].context, "// [impl test.rule.one]");
}

#[test]
fn test_refs_at_line_and_range() {
    let content = "\n// [impl test.rule.one]\n// [verify test.rule.two]\nfn x() {}\n// [related test.rule.three]\n";
    let refs = extract_rule_references("f.rs", content);
    assert_eq!(refs.len(), 3);

    let at2 = refs_at_line(&refs, 2);
    assert_eq!(at2.len(), 1);
    assert_eq!(at2[0].rule_id, "test.rule.one");

    let at_range = refs_in_range(&refs, 2, 3);
    assert_eq!(at_range.len(), 2);
    assert_eq!(at_range[0].rule_id, "test.rule.one");
    assert_eq!(at_range[1].rule_id, "test.rule.two");

    let none = refs_at_line(&refs, 4);
    assert_eq!(none.len(), 0);
}

#[test]
fn test_empty_text_extracts_nothing() {
    let out = extract_with_warnings("empty.rs", "");
    assert_eq!(out.references.len(), 0);
    assert_eq!(out.warnings.len(), 0);
}

#[test]
fn test_all_verb_forms_recognized() {
    // Each explicit verb form and the bare form yield exactly one
    // reference with the matching verb and rule id.
    let cases = [
        ("// [impl s.one]", RefVerb::Impl, "s.one"),
        ("// [verify s.one]", RefVerb::Verify, "s.one"),
        ("// [depends s.one]", RefVerb::Depends, "s.one"),
        ("// [related s.one]", RefVerb::Related, "s.one"),
        ("// [define s.one]", RefVerb::Define, "s.one"),
        ("// [s.one]", RefVerb::Impl, "s.one"),
    ];
    for (text, verb, id) in cases {
        let refs = extract_rule_references("t.rs", text);
        assert_eq!(refs.len(), 1, "on input {:?}", text);
        assert_eq!(refs[0].verb, verb);
        assert_eq!(refs[0].rule_id, id);
    }
}

// Warning spans are byte offsets, also when earlier characters take more
// than one byte.
#[test]
fn test_warning_span_is_byte_offset() {
    let content = "// é [bogus a.b]\n";
    let out = extract_with_warnings("t.rs", content);
    assert_eq!(out.references.len(), 0);
    assert_eq!(out.warnings.len(), 1);
    match &out.warnings[0].kind {
        WarningKind::UnknownVerb(v) => assert_eq!(v, "bogus"),
        WarningKind::MalformedReference => panic!("expected an unknown-verb warning"),
    }
    // "// " is 3 bytes, "é" is 2, " [" is 2: the token starts at byte 7.
    assert_eq!(out.warnings[0].offset, 7);
    assert_eq!(out.warnings[0].length, 5);
    assert_eq!(&content.as_bytes()[7..12], b"bogus");
}

// Windows line endings: the reference is still found, and the trimmed
// context carries no carriage return.
#[test]
fn test_crlf_line_endings() {
    let content = "fn a() {}\r\n// [impl test.rule.crlf]\r\nfn b() {}\r\n";
    let refs = extract_rule_references("t.rs", content);
    assert_eq!(refs.len(), 1);
    assert_eq!(refs[0].rule_id, "test.rule.crlf");
    assert_eq!(refs[0].line, 2);
    assert_eq!(refs[0].context, "// [impl test.rule.crlf]");
}
