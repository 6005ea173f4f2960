use enum2contract::generate::generate_all;
use enum2contract::casing::to_snake_case;
use enum2contract::payload::{FieldValue, NamedFieldValue, PayloadValue};
use enum2contract::schema::{FieldDef, FieldShape, FieldType, KindDeclaration, SchemaError,
    TopicArg};
use enum2contract::template::{extract_substrings, parse, remove_substrings, render};

fn kind(name: &str, template: &str, fields: FieldShape) -> KindDeclaration {
    KindDeclaration {
        name: name.to_string(),
        topics: vec![TopicArg::StringArg(template.to_string())],
        fields,
    }
}

#[test]
fn placeholders_in_order() {
    let names = extract_substrings("system/{id}/start/{mode}");
    assert_eq!(names, vec!["id".to_string(), "mode".to_string()]);

    let normalized = remove_substrings("system/{id}/start/{mode}", &names);
    assert_eq!(normalized, "system/{}/start/{}");
}

#[test]
fn adjacent_placeholders() {
    let (normalized, names) = parse("{a}{b}");
    assert_eq!(names, vec!["a".to_string(), "b".to_string()]);
    assert_eq!(normalized, "{}{}");
}

#[test]
fn no_placeholders_unchanged() {
    let (normalized, names) = parse("notify_all");
    assert!(names.is_empty());
    assert_eq!(normalized, "notify_all");
}

#[test]
fn unmatched_brace_kept_verbatim() {
    let (normalized, names) = parse("notify/{group");
    assert!(names.is_empty());
    assert_eq!(normalized, "notify/{group");
}

#[test]
fn substituting_empty_arguments_strips_placeholders() {
    let (normalized, names) = parse("system/{id}/start/{mode}");
    let empties: Vec<String> = names.iter().map(|_| String::new()).collect();
    assert_eq!(render(&normalized, &empties), "system//start/");
}

#[test]
fn render_accepts_any_argument_text() {
    let (normalized, _) = parse("notify/{group}");
    assert_eq!(render(&normalized, &vec!["a/b{c}".to_string()]), "notify/a/b{c}");
}

#[test]
fn snake_case_examples() {
    assert_eq!(to_snake_case("NotifyAll"), "notify_all");
    assert_eq!(to_snake_case("Notify"), "notify");
    assert_eq!(to_snake_case("NotifyAllSystems"), "notify_all_systems");
}

#[test]
fn generated_names() {
    let gens = generate_all(vec![kind(
        "NotifyAll",
        "notify_all",
        FieldShape::NoFields,
    )])
    .unwrap();
    assert_eq!(gens[0].payload_type_name, "NotifyAllPayload");
    assert_eq!(gens[0].message_fn_name, "notify_all");
    assert_eq!(gens[0].topic_fn_name, "notify_all_topic");
    assert!(gens[0].params.is_empty());
}

#[test]
fn missing_template_fails_whole_pass() {
    let schema = vec![
        kind("Notify", "notify/{group}", FieldShape::NoFields),
        KindDeclaration {
            name: "Bare".to_string(),
            topics: vec![],
            fields: FieldShape::NoFields,
        },
        kind("Later", "later/{id}", FieldShape::NoFields),
    ];
    let r = generate_all(schema);
    assert_eq!(r.unwrap_err(), SchemaError::MissingTopicTemplate("Bare".to_string()));
}

#[test]
fn unsupported_field_shape_fails_whole_pass() {
    let schema = vec![
        kind("Tuple", "tuple/{id}", FieldShape::UnnamedFields(vec![FieldType::U64])),
        kind("Notify", "notify/{group}", FieldShape::NoFields),
    ];
    let r = generate_all(schema);
    assert_eq!(r.unwrap_err(), SchemaError::UnsupportedFieldShape("Tuple".to_string()));
}

#[test]
fn non_string_template_argument_is_malformed() {
    let schema = vec![KindDeclaration {
        name: "Odd".to_string(),
        topics: vec![TopicArg::NotAString],
        fields: FieldShape::NoFields,
    }];
    let r = generate_all(schema);
    assert_eq!(r.unwrap_err(), SchemaError::MalformedTopicTemplate("Odd".to_string()));
}

#[test]
fn duplicate_template_is_malformed() {
    let schema = vec![KindDeclaration {
        name: "Twice".to_string(),
        topics: vec![
            TopicArg::StringArg("a/{x}".to_string()),
            TopicArg::StringArg("b/{y}".to_string()),
        ],
        fields: FieldShape::NoFields,
    }];
    let r = generate_all(schema);
    assert_eq!(r.unwrap_err(), SchemaError::MalformedTopicTemplate("Twice".to_string()));
}

#[test]
fn empty_template_is_malformed() {
    let schema = vec![kind("Empty", "", FieldShape::NoFields)];
    let r = generate_all(schema);
    assert_eq!(r.unwrap_err(), SchemaError::MalformedTopicTemplate("Empty".to_string()));
}

#[test]
fn first_error_wins() {
    let schema = vec![
        KindDeclaration {
            name: "Bare".to_string(),
            topics: vec![],
            fields: FieldShape::NoFields,
        },
        kind("Tuple", "tuple/{id}", FieldShape::UnnamedFields(vec![FieldType::Bool])),
    ];
    let r = generate_all(schema);
    assert_eq!(r.unwrap_err(), SchemaError::MissingTopicTemplate("Bare".to_string()));
}

#[test]
fn diagnostic_names_the_kind_and_expected_shape() {
    let err = SchemaError::MissingTopicTemplate("Bare".to_string());
    assert_eq!(err.kind_name().as_str(), "Bare");
    assert_eq!(
        err.message(),
        "kind 'Bare': the topic template annotation is required; declare exactly one, as in topic(\"system/{id}/start\")"
    );
}

fn start_shape() -> FieldShape {
    FieldShape::NamedFields(vec![
        FieldDef { name: "immediate".to_string(), ty: FieldType::Bool },
        FieldDef { name: "timeout".to_string(), ty: FieldType::U64 },
    ])
}

fn start_value(immediate: bool, timeout: u64) -> PayloadValue {
    PayloadValue::Named(vec![
        NamedFieldValue { name: "immediate".to_string(), value: FieldValue::Bool(immediate) },
        NamedFieldValue { name: "timeout".to_string(), value: FieldValue::U64(timeout) },
    ])
}

#[test]
fn binary_round_trip_default_and_populated() {
    let empty = PayloadValue::Empty;
    let bytes = empty.to_bytes();
    assert!(bytes.is_empty());
    assert_eq!(PayloadValue::from_binary(&FieldShape::NoFields, &bytes).unwrap(), empty);

    let populated = start_value(true, 77_000_000_000);
    let bytes = populated.to_bytes();
    assert_eq!(bytes.len(), 9);
    assert_eq!(PayloadValue::from_binary(&start_shape(), &bytes).unwrap(), populated);

    let defaulted = start_value(false, 0);
    let bytes = defaulted.to_bytes();
    assert_eq!(PayloadValue::from_binary(&start_shape(), &bytes).unwrap(), defaulted);
}

#[test]
fn binary_rejects_wrong_length_and_bad_boolean() {
    assert!(PayloadValue::from_binary(&FieldShape::NoFields, &[0u8]).is_err());
    assert!(PayloadValue::from_binary(&start_shape(), &[1u8]).is_err());
    let mut bytes = start_value(true, 5).to_bytes();
    bytes[0] = 2;
    assert!(PayloadValue::from_binary(&start_shape(), &bytes).is_err());
}

#[test]
fn json_round_trip_large_value() {
    let populated = start_value(false, u64::MAX);
    let json = populated.to_json();
    assert_eq!(json, "{\"immediate\":false,\"timeout\":18446744073709551615}");
    assert_eq!(PayloadValue::from_json(&start_shape(), &json).unwrap(), populated);
}

#[test]
fn json_rejects_non_canonical_text() {
    assert!(PayloadValue::from_json(&FieldShape::NoFields, "nul").is_err());
    assert!(PayloadValue::from_json(&FieldShape::NoFields, "null ").is_err());
    assert!(PayloadValue::from_json(&start_shape(), "{\"immediate\":true,\"timeout\":007}")
        .is_err());
    assert!(PayloadValue::from_json(&start_shape(), "{\"timeout\":40,\"immediate\":true}")
        .is_err());
    assert!(PayloadValue::from_json(&start_shape(), "{\"immediate\":true,\"timeout\":40} ")
        .is_err());
    assert!(
        PayloadValue::from_json(
            &start_shape(),
            "{\"immediate\":true,\"timeout\":99999999999999999999999}"
        )
        .is_err()
    );
}

#[test]
fn arguments_never_reach_payload_fields() {
    let gens = generate_all(vec![kind(
        "Start",
        "system/{immediate}/start/{timeout}",
        start_shape(),
    )])
    .unwrap();
    let (topic, payload) = gens[0].message(&vec!["yes".to_string(), "250".to_string()]);
    assert_eq!(topic, "system/yes/start/250");
    assert_eq!(payload, start_value(false, 0));
}
