use fluent_bundle::FluentResource;
use fluent_symbols::ast::Attribute;
use fluent_symbols::ast::CallArguments;
use fluent_symbols::ast::Entry;
use fluent_symbols::ast::Expression;
use fluent_symbols::ast::InlineExpression;
use fluent_symbols::ast::Pattern;
use fluent_symbols::ast::PatternElement;
use fluent_symbols::bundle::Bundle;
use fluent_symbols::bundle::ConstructionError;
use fluent_symbols::bundle::ResourceInput;
use fluent_symbols::diag::CompileError;
use fluent_symbols::diag::RawParseError;
use fluent_symbols::diag::ValidationErrorKind;
use fluent_symbols::locate::byte_pos_to_line_col;

fn text(s: &str) -> PatternElement {
    PatternElement::Text { value: s.to_string() }
}

fn var_ref(name: &str) -> PatternElement {
    PatternElement::Placeable {
        expression: Expression::Inline(InlineExpression::VariableReference {
            id: name.to_string(),
        }),
    }
}

fn msg_ref(id: &str, attr: Option<&str>) -> PatternElement {
    PatternElement::Placeable {
        expression: Expression::Inline(InlineExpression::MessageReference {
            id: id.to_string(),
            attribute: attr.map(|a| a.to_string()),
        }),
    }
}

fn term_ref(id: &str) -> PatternElement {
    PatternElement::Placeable {
        expression: Expression::Inline(InlineExpression::TermReference {
            id: id.to_string(),
            attribute: None,
            arguments: None,
        }),
    }
}

fn term_call_positional(id: &str, arg: &str) -> PatternElement {
    PatternElement::Placeable {
        expression: Expression::Inline(InlineExpression::TermReference {
            id: id.to_string(),
            attribute: None,
            arguments: Some(CallArguments {
                positional: vec![InlineExpression::StringLiteral { value: arg.to_string() }],
                named: vec![],
            }),
        }),
    }
}

fn pattern(elements: Vec<PatternElement>) -> Pattern {
    Pattern { elements }
}

fn message(id: &str, elements: Vec<PatternElement>) -> Entry {
    Entry::Message {
        id: id.to_string(),
        value: Some(pattern(elements)),
        attributes: vec![],
    }
}

fn term(id: &str, elements: Vec<PatternElement>) -> Entry {
    Entry::Term { id: id.to_string(), value: pattern(elements), attributes: vec![] }
}

fn make_input(filename: &str, source: &str, entries: Vec<Entry>) -> ResourceInput {
    let (parsed, errors) = match FluentResource::try_new(source.to_string()) {
        Ok(r) => (r, vec![]),
        Err((r, es)) => (r, es),
    };
    let syntax_errors = errors
        .iter()
        .map(|e| RawParseError {
            message: e.kind.to_string(),
            start: e.pos.start,
            end: e.pos.end,
        })
        .collect();
    ResourceInput {
        filename: filename.to_string(),
        source: source.as_bytes().to_vec(),
        entries,
        parsed,
        syntax_errors,
    }
}

#[test]
fn merge_override_prefers_second_definition() {
    let first = make_input("a.ftl", "m = first\n", vec![message("m", vec![text("first")])]);
    let second = make_input("b.ftl", "m = second\n", vec![message("m", vec![text("second")])]);
    let mut bundle = Bundle::new("en-US", vec![first, second], false, true).unwrap();
    let mut errors = Vec::new();
    let value = bundle.get_translation("m", None, false, &mut errors).unwrap();
    assert_eq!(value, "second");
    let dups: Vec<_> = bundle
        .get_validation_errors()
        .into_iter()
        .filter(|e| {
            e.kind == ValidationErrorKind::DuplicateId && e.entry_id.as_deref() == Some("m")
        })
        .collect();
    assert_eq!(dups.len(), 1);
    assert_eq!(
        dups[0].message,
        "Duplicate message: 'm'. Later definition will override."
    );
}

#[test]
fn unknown_term_reported_once_until_defined() {
    let referencing = make_input(
        "a.ftl",
        "a = { -missing }\n",
        vec![message("a", vec![term_ref("missing")])],
    );
    let bundle = Bundle::new("en-US", vec![referencing], false, true).unwrap();
    let errs = bundle.get_validation_errors();
    let unknown: Vec<_> = errs
        .iter()
        .filter(|e| e.kind == ValidationErrorKind::UnknownTerm)
        .collect();
    assert_eq!(unknown.len(), 1);
    assert_eq!(unknown[0].reference.as_deref(), Some("-missing"));

    let defining = make_input("t.ftl", "-missing = here\n", vec![term("missing", vec![text("here")])]);
    let referencing = make_input(
        "a.ftl",
        "a = { -missing }\n",
        vec![message("a", vec![term_ref("missing")])],
    );
    let bundle = Bundle::new("en-US", vec![defining, referencing], false, true).unwrap();
    assert_eq!(bundle.get_validation_errors().len(), 0);
}

#[test]
fn missing_attribute_is_unknown_attribute_not_unknown_message() {
    let input = make_input(
        "a.ftl",
        "m = hello\nn = { m.missing }\n",
        vec![
            message("m", vec![text("hello")]),
            message("n", vec![msg_ref("m", Some("missing"))]),
        ],
    );
    let bundle = Bundle::new("en-US", vec![input], false, true).unwrap();
    let errs = bundle.get_validation_errors();
    assert_eq!(errs.len(), 1);
    assert_eq!(errs[0].kind, ValidationErrorKind::UnknownAttribute);
    assert_ne!(errs[0].kind, ValidationErrorKind::UnknownMessage);
    assert_eq!(errs[0].reference.as_deref(), Some("m.missing"));
}

#[test]
fn cycle_between_message_and_term_is_reported() {
    let input = make_input(
        "a.ftl",
        "a = { -b }\n-b = { a }\n",
        vec![
            message("a", vec![term_ref("b")]),
            term("b", vec![msg_ref("a", None)]),
        ],
    );
    let bundle = Bundle::new("en-US", vec![input], false, true).unwrap();
    let cycles: Vec<_> = bundle
        .get_validation_errors()
        .into_iter()
        .filter(|e| e.kind == ValidationErrorKind::CyclicReference)
        .collect();
    assert!(cycles.len() >= 1);
    assert!(cycles[0].message.contains("a"));
    assert!(cycles[0].message.contains("-b"));
}

#[test]
fn acyclic_chain_yields_no_cycle_diagnostics() {
    let input = make_input(
        "a.ftl",
        "a = { b }\nb = { c }\nc = ok\n",
        vec![
            message("a", vec![msg_ref("b", None)]),
            message("b", vec![msg_ref("c", None)]),
            message("c", vec![text("ok")]),
        ],
    );
    let bundle = Bundle::new("en-US", vec![input], false, true).unwrap();
    let cycles: Vec<_> = bundle
        .get_validation_errors()
        .into_iter()
        .filter(|e| e.kind == ValidationErrorKind::CyclicReference)
        .collect();
    assert_eq!(cycles.len(), 0);
}

#[test]
fn positional_argument_to_term_is_flagged() {
    let input = make_input(
        "a.ftl",
        "-t = word\nm = { -t(\"x\") }\n",
        vec![
            term("t", vec![text("word")]),
            message("m", vec![term_call_positional("t", "x")]),
        ],
    );
    let bundle = Bundle::new("en-US", vec![input], false, true).unwrap();
    let flagged: Vec<_> = bundle
        .get_validation_errors()
        .into_iter()
        .filter(|e| e.kind == ValidationErrorKind::IgnoredPositionalArgument)
        .collect();
    assert_eq!(flagged.len(), 1);
}

#[test]
fn strict_mode_fails_with_aggregated_diagnostics() {
    let source = "good = { -nope }\n123bad\n";
    let entries = vec![message("good", vec![term_ref("nope")])];
    let strict = Bundle::new("en-US", vec![make_input("x.ftl", source, entries)], true, true);
    match strict {
        Err(ConstructionError::Diagnostics { parse_errors, validation_errors }) => {
            assert_eq!(parse_errors.len(), 1);
            assert_eq!(validation_errors.len(), 1);
        },
        _ => panic!("strict construction should fail with aggregated diagnostics"),
    }

    let entries = vec![message("good", vec![term_ref("nope")])];
    let lax = Bundle::new("en-US", vec![make_input("x.ftl", source, entries)], false, true)
        .unwrap();
    let all = lax.get_all_compile_errors();
    assert_eq!(all.len(), 2);
    assert!(matches!(all[0], CompileError::Parse(_)));
    assert!(matches!(all[1], CompileError::Validation(_)));
}

#[test]
fn invalid_language_tag_is_rejected() {
    let r = Bundle::new("not a language tag!!", vec![], false, true);
    match r {
        Err(ConstructionError::InvalidLanguage { language }) => {
            assert_eq!(language, "not a language tag!!");
        },
        _ => panic!("an ill-formed language tag should fail construction"),
    }
}

#[test]
fn validation_can_be_switched_off() {
    let input = make_input(
        "a.ftl",
        "a = { -missing }\n",
        vec![message("a", vec![term_ref("missing")])],
    );
    let bundle = Bundle::new("en-US", vec![input], false, false).unwrap();
    assert_eq!(bundle.get_validation_errors().len(), 0);
}

#[test]
fn parse_error_locations_are_one_indexed() {
    let source = b"first line\nsecond line\n";
    assert_eq!(byte_pos_to_line_col(source, 0), (1, 1));
    assert_eq!(byte_pos_to_line_col(source, 5), (1, 6));
    assert_eq!(byte_pos_to_line_col(source, 11), (2, 1));
    assert_eq!(byte_pos_to_line_col(source, 17), (2, 7));
    assert_eq!(byte_pos_to_line_col(source, 999), (3, 1));
}

#[test]
fn syntax_error_detail_carries_location() {
    let source = "ok = fine\n123bad\n";
    let input = make_input("bad.ftl", source, vec![message("ok", vec![text("fine")])]);
    let bundle = Bundle::new("en-US", vec![input], false, true).unwrap();
    let perrs = bundle.get_parse_errors();
    assert_eq!(perrs.len(), 1);
    assert_eq!(perrs[0].line, 2);
    assert_eq!(perrs[0].filename.as_deref(), Some("bad.ftl"));
    assert!(perrs[0].byte_start >= 10);
}

#[test]
fn attribute_only_message_attributes_resolve() {
    let entries = vec![Entry::Message {
        id: "m".to_string(),
        value: None,
        attributes: vec![Attribute {
            id: "label".to_string(),
            value: pattern(vec![text("the label")]),
        }],
    }];
    let mut bundle = Bundle::new(
        "en-US",
        vec![make_input("a.ftl", "m =\n    .label = the label\n", entries)],
        false,
        true,
    )
    .unwrap();
    let mut errors = Vec::new();
    let value = bundle
        .get_translation("m.label", None, false, &mut errors)
        .unwrap();
    assert_eq!(value, "the label");
}

#[test]
fn strict_report_renders_count_and_messages() {
    let errors = vec![
        fluent_symbols::diag::ValidationError {
            kind: ValidationErrorKind::UnknownMessage,
            message: "Unknown message: b".to_string(),
            entry_id: Some("a".to_string()),
            reference: Some("b".to_string()),
        },
        fluent_symbols::diag::ValidationError {
            kind: ValidationErrorKind::UnknownTerm,
            message: "Unknown term: -t".to_string(),
            entry_id: Some("a".to_string()),
            reference: Some("-t".to_string()),
        },
    ];
    let report = fluent_symbols::report::strict_report(&errors);
    assert_eq!(
        report,
        "Found 2 validation error(s):\n  - Unknown message: b\n  - Unknown term: -t"
    );
    assert_eq!(fluent_symbols::report::strict_report(&vec![]), "Found 0 validation error(s):\n");
}

#[test]
fn decimal_rendering_is_exact() {
    assert_eq!(fluent_symbols::report::to_decimal(0), "0");
    assert_eq!(fluent_symbols::report::to_decimal(9), "9");
    assert_eq!(fluent_symbols::report::to_decimal(10), "10");
    assert_eq!(fluent_symbols::report::to_decimal(905), "905");
    assert_eq!(fluent_symbols::report::to_decimal(18446744073709551615), "18446744073709551615");
}
