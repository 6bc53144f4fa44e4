use fluent_bundle::FluentResource;
use fluent_symbols::ast::Entry;
use fluent_symbols::ast::Expression;
use fluent_symbols::ast::InlineExpression;
use fluent_symbols::ast::Pattern;
use fluent_symbols::ast::PatternElement;
use fluent_symbols::ast::Variant;
use fluent_symbols::bundle::Bundle;
use fluent_symbols::bundle::ResourceInput;
use fluent_symbols::diag::FormatErrorKind;
use fluent_symbols::diag::RawParseError;
use fluent_symbols::resolve::ResolutionError;
use fluent_symbols::resolve::Variable;

fn text2(s: &str) -> PatternElement {
    PatternElement::Text { value: s.to_string() }
}

fn var_ref2(name: &str) -> PatternElement {
    PatternElement::Placeable {
        expression: Expression::Inline(InlineExpression::VariableReference {
            id: name.to_string(),
        }),
    }
}

fn pattern2(elements: Vec<PatternElement>) -> Pattern {
    Pattern { elements }
}

fn message2(id: &str, elements: Vec<PatternElement>) -> Entry {
    Entry::Message {
        id: id.to_string(),
        value: Some(pattern2(elements)),
        attributes: vec![],
    }
}

fn make_input2(filename: &str, source: &str, entries: Vec<Entry>) -> ResourceInput {
    let (parsed, errors) = match FluentResource::try_new(source.to_string()) {
        Ok(r) => (r, vec![]),
        Err((r, es)) => (r, es),
    };
    let syntax_errors = errors
        .iter()
        .map(|e| RawParseError {
            message: e.kind.to_string(),
            start: e.pos.start,
            end: e.pos.end,
        })
        .collect();
    ResourceInput {
        filename: filename.to_string(),
        source: source.as_bytes().to_vec(),
        entries,
        parsed,
        syntax_errors,
    }
}

fn greeting_bundle() -> Bundle {
    let source = "hello = Hello { $name }, you have { $count } items\n";
    let entries = vec![message2(
        "hello",
        vec![
            text2("Hello "),
            var_ref2("name"),
            text2(", you have "),
            var_ref2("count"),
            text2(" items"),
        ],
    )];
    Bundle::new("en-US", vec![make_input2("g.ftl", source, entries)], false, true).unwrap()
}

#[test]
fn required_variables_are_sorted_and_deduplicated() {
    let bundle = greeting_bundle();
    let vars = bundle.get_required_variables("hello").unwrap();
    assert_eq!(vars, vec!["count".to_string(), "name".to_string()]);
}

#[test]
fn required_variables_found_inside_selection_branches() {
    // so-many = { $count -> ... } with $name repeated in both variants.
    let source = "so-many =\n    { $count ->\n        [one] One for { $name }\n       *[other] Many for { $name }\n    }\n";
    let selector = InlineExpression::VariableReference { id: "count".to_string() };
    let select = PatternElement::Placeable {
        expression: Expression::Select {
            selector,
            variants: vec![
                Variant {
                    key: "one".to_string(),
                    value: pattern2(vec![text2("One for "), var_ref2("name")]),
                    default: false,
                },
                Variant {
                    key: "other".to_string(),
                    value: pattern2(vec![text2("Many for "), var_ref2("name")]),
                    default: true,
                },
            ],
        },
    };
    let entries = vec![message2("so-many", vec![select])];
    let bundle =
        Bundle::new("en-US", vec![make_input2("s.ftl", source, entries)], false, true).unwrap();
    let vars = bundle.get_required_variables("so-many").unwrap();
    assert_eq!(vars, vec!["count".to_string(), "name".to_string()]);
}

#[test]
fn resolution_with_all_variables_has_no_diagnostics() {
    let mut bundle = greeting_bundle();
    let variables = vec![
        ("name".to_string(), Variable::Str("World".to_string())),
        ("count".to_string(), Variable::Int(5)),
    ];
    let mut errors = Vec::new();
    let value = bundle
        .get_translation("hello", Some(&variables), false, &mut errors)
        .unwrap();
    assert_eq!(value, "Hello World, you have 5 items");
    assert_eq!(errors.len(), 0);
    assert!(!value.contains("{$"));
}

#[test]
fn missing_variable_is_reported_and_string_still_returned() {
    let mut bundle = greeting_bundle();
    let variables = vec![("count".to_string(), Variable::Int(5))];
    let mut errors = Vec::new();
    let value = bundle
        .get_translation("hello", Some(&variables), false, &mut errors)
        .unwrap();
    assert!(value.contains("you have 5 items"));
    let missing: Vec<_> = errors
        .iter()
        .filter(|e| e.kind == FormatErrorKind::MissingVariable)
        .collect();
    assert_eq!(missing.len(), 1);
    assert_eq!(missing[0].variable_name.as_deref(), Some("name"));
    assert_eq!(missing[0].message, "Unknown external: name");
    assert!(errors.iter().any(|e| e.kind == FormatErrorKind::Resolver));
}

#[test]
fn date_variable_renders_as_iso_date() {
    let source = "when = Date is { $day }\n";
    let entries = vec![message2("when", vec![text2("Date is "), var_ref2("day")])];
    let mut bundle =
        Bundle::new("en-US", vec![make_input2("d.ftl", source, entries)], false, true).unwrap();
    let variables = vec![(
        "day".to_string(),
        Variable::Date { year: 2024, month: 3, day: 5 },
    )];
    let mut errors = Vec::new();
    let value = bundle
        .get_translation("when", Some(&variables), false, &mut errors)
        .unwrap();
    assert_eq!(value, "Date is 2024-03-05");
    assert_eq!(errors.len(), 0);
}

#[test]
fn unsupported_variable_type_falls_back_to_its_name() {
    let source = "who = Value { $thing }\n";
    let entries = vec![message2("who", vec![text2("Value "), var_ref2("thing")])];
    let mut bundle =
        Bundle::new("en-US", vec![make_input2("u.ftl", source, entries)], false, true).unwrap();
    let variables = vec![(
        "thing".to_string(),
        Variable::Other { kind_name: "list".to_string() },
    )];
    let mut errors = Vec::new();
    let value = bundle
        .get_translation("who", Some(&variables), false, &mut errors)
        .unwrap();
    assert_eq!(value, "Value thing");
    let invalid: Vec<_> = errors
        .iter()
        .filter(|e| e.kind == FormatErrorKind::InvalidVariableType)
        .collect();
    assert_eq!(invalid.len(), 1);
    assert_eq!(invalid[0].variable_name.as_deref(), Some("thing"));
    assert_eq!(invalid[0].expected_type.as_deref(), Some("str|int|date"));
    assert_eq!(invalid[0].actual_type.as_deref(), Some("list"));
}

#[test]
fn unknown_identifier_is_a_fatal_error() {
    let mut bundle = greeting_bundle();
    let mut errors = Vec::new();
    match bundle.get_translation("absent", None, false, &mut errors) {
        Err(ResolutionError::NotFound { id }) => assert_eq!(id, "absent"),
        _ => panic!("an unknown identifier should be fatal to the call"),
    }
    assert_eq!(errors.len(), 0);
}

#[test]
fn unknown_attribute_is_a_fatal_error() {
    let mut bundle = greeting_bundle();
    let mut errors = Vec::new();
    match bundle.get_translation("hello.shape", None, false, &mut errors) {
        Err(ResolutionError::AttributeNotFound { message, attribute }) => {
            assert_eq!(message, "hello");
            assert_eq!(attribute, "shape");
        },
        _ => panic!("an unknown attribute should be fatal to the call"),
    }
}

#[test]
fn message_without_value_cannot_resolve_bare() {
    let entries = vec![Entry::Message {
        id: "m".to_string(),
        value: None,
        attributes: vec![fluent_symbols::ast::Attribute {
            id: "label".to_string(),
            value: pattern2(vec![text2("x")]),
        }],
    }];
    let mut bundle = Bundle::new(
        "en-US",
        vec![make_input2("m.ftl", "m =\n    .label = x\n", entries)],
        false,
        true,
    )
    .unwrap();
    let mut errors = Vec::new();
    match bundle.get_translation("m", None, false, &mut errors) {
        Err(ResolutionError::NoValue { id }) => assert_eq!(id, "m"),
        _ => panic!("a message without a value cannot be resolved bare"),
    }
}

#[test]
fn bidi_isolation_marks_follow_the_flag() {
    let mut bundle = greeting_bundle();
    let variables = vec![
        ("name".to_string(), Variable::Str("World".to_string())),
        ("count".to_string(), Variable::Int(5)),
    ];
    let mut errors = Vec::new();
    let isolated = bundle
        .get_translation("hello", Some(&variables), true, &mut errors)
        .unwrap();
    assert!(isolated.contains('\u{2068}'));
    let plain = bundle
        .get_translation("hello", Some(&variables), false, &mut errors)
        .unwrap();
    assert!(!plain.contains('\u{2068}'));
}

#[test]
fn required_variables_error_variants() {
    let bundle = greeting_bundle();
    match bundle.get_required_variables("absent") {
        Err(ResolutionError::NotFound { id }) => assert_eq!(id, "absent"),
        _ => panic!("an unknown identifier should be reported"),
    }
    match bundle.get_required_variables("hello.shape") {
        Err(ResolutionError::AttributeNotFound { message, attribute }) => {
            assert_eq!(message, "hello");
            assert_eq!(attribute, "shape");
        },
        _ => panic!("an unknown attribute should be reported"),
    }
}

#[test]
fn term_reference_is_resolved_through_the_engine() {
    let source = "-brand = Fluency\ngreeting = Welcome to { -brand }!\n";
    let term_entry = Entry::Term {
        id: "brand".to_string(),
        value: pattern2(vec![text2("Fluency")]),
        attributes: vec![],
    };
    let term_ref_element = PatternElement::Placeable {
        expression: Expression::Inline(InlineExpression::TermReference {
            id: "brand".to_string(),
            attribute: None,
            arguments: None,
        }),
    };
    let msg_entry = message2("greeting", vec![text2("Welcome to "), term_ref_element, text2("!")]);
    let mut bundle = Bundle::new(
        "en-US",
        vec![make_input2("b.ftl", source, vec![term_entry, msg_entry])],
        false,
        true,
    )
    .unwrap();
    assert_eq!(bundle.get_validation_errors().len(), 0);
    let mut errors = Vec::new();
    let value = bundle
        .get_translation("greeting", None, false, &mut errors)
        .unwrap();
    assert_eq!(value, "Welcome to Fluency!");
}

#[test]
fn compile_errors_accessor_mirrors_validation_errors() {
    let source = "a = { b }\n";
    let entries = vec![message2(
        "a",
        vec![PatternElement::Placeable {
            expression: Expression::Inline(InlineExpression::MessageReference {
                id: "b".to_string(),
                attribute: None,
            }),
        }],
    )];
    let bundle =
        Bundle::new("en-US", vec![make_input2("c.ftl", source, entries)], false, true).unwrap();
    let a = bundle.get_validation_errors();
    let b = bundle.get_compile_errors();
    assert_eq!(a.len(), 1);
    assert_eq!(a.len(), b.len());
    assert_eq!(a[0].kind, b[0].kind);
    assert_eq!(a[0].message, "Unknown message: b");
}
