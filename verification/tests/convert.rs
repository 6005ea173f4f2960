use enum2contract::generate::{generate_all, GeneratedKind};
use enum2contract::payload::{default_payload, FieldValue, NamedFieldValue, PayloadValue};
use enum2contract::schema::{FieldDef, FieldShape, FieldType, KindDeclaration, TopicArg};

fn start_fields() -> Vec<FieldDef> {
    vec![
        FieldDef { name: "immediate".to_string(), ty: FieldType::Bool },
        FieldDef { name: "timeout".to_string(), ty: FieldType::U64 },
    ]
}

fn message_schema() -> Vec<KindDeclaration> {
    vec![
        KindDeclaration {
            name: "Notify".to_string(),
            topics: vec![TopicArg::StringArg("notify/{group}".to_string())],
            fields: FieldShape::NoFields,
        },
        KindDeclaration {
            name: "NotifyAll".to_string(),
            topics: vec![TopicArg::StringArg("notify_all".to_string())],
            fields: FieldShape::NoFields,
        },
        KindDeclaration {
            name: "Start".to_string(),
            topics: vec![TopicArg::StringArg("system/{id}/start/{mode}".to_string())],
            fields: FieldShape::NamedFields(start_fields()),
        },
    ]
}

fn generated() -> Vec<GeneratedKind> {
    generate_all(message_schema()).unwrap()
}

fn start_payload(immediate: bool, timeout: u64) -> PayloadValue {
    PayloadValue::Named(vec![
        NamedFieldValue { name: "immediate".to_string(), value: FieldValue::Bool(immediate) },
        NamedFieldValue { name: "timeout".to_string(), value: FieldValue::U64(timeout) },
    ])
}

#[test]
fn topic() {
    let gens = generated();
    assert_eq!(gens[0].topic(&vec!["subset".to_string()]), "notify/subset");

    assert_eq!(gens[1].topic(&vec![]), "notify_all");

    assert_eq!(
        gens[2].topic(&vec![3.to_string(), "idle".to_string()]),
        "system/3/start/idle"
    );
}

#[test]
fn message() {
    let gens = generated();
    assert_eq!(
        gens[0].message(&vec!["subgroup".to_string()]),
        ("notify/subgroup".to_string(), default_payload(&FieldShape::NoFields))
    );

    assert_eq!(
        gens[1].message(&vec![]),
        ("notify_all".to_string(), default_payload(&FieldShape::NoFields))
    );

    assert_eq!(
        gens[2].message(&vec![3.to_string(), "idle".to_string()]),
        (
            "system/3/start/idle".to_string(),
            default_payload(&FieldShape::NamedFields(start_fields()))
        )
    );
}

#[test]
fn notify_message() {
    let gens = generated();
    let (topic, payload) = gens[0].message(&vec!["partial".to_string()]);
    assert_eq!(topic, "notify/partial");
    assert_eq!(payload, default_payload(&FieldShape::NoFields));
}

#[test]
fn notify_all_message() {
    let gens = generated();
    let (topic, payload) = gens[1].message(&vec![]);
    assert_eq!(topic, "notify_all");
    assert_eq!(payload, default_payload(&FieldShape::NoFields));
}

#[test]
fn start_message() {
    let gens = generated();
    let (topic, mut payload) = gens[2].message(&vec!["76".to_string(), "idle".to_string()]);
    if let PayloadValue::Named(ref mut fields) = payload {
        fields[1].value = FieldValue::U64(100);
    }
    assert_eq!(topic, "system/76/start/idle");
    assert_eq!(payload, start_payload(false, 100));
}

#[test]
fn notify_payload_json_conversion() {
    let payload = default_payload(&FieldShape::NoFields);
    let json = payload.to_json();
    assert_eq!(json, "null");

    let payload2 = PayloadValue::from_json(&FieldShape::NoFields, &json).unwrap();
    assert_eq!(payload2, payload);
}

#[test]
fn notify_all_payload_json_conversion() {
    let payload = default_payload(&FieldShape::NoFields);
    let json = payload.to_json();
    assert_eq!(json, "null");

    let payload2 = PayloadValue::from_json(&FieldShape::NoFields, &json).unwrap();
    assert_eq!(payload2, payload);
}

#[test]
fn start_payload_json_conversion() {
    let payload = start_payload(true, 321);
    let json = payload.to_json();
    assert_eq!(json, "{\"immediate\":true,\"timeout\":321}");

    let payload2 =
        PayloadValue::from_json(&FieldShape::NamedFields(start_fields()), &json).unwrap();
    assert_eq!(payload2, payload);
}

#[test]
fn notify_payload_from_json() {
    let json = "null";
    let payload = PayloadValue::from_json(&FieldShape::NoFields, json).unwrap();
    assert_eq!(payload, default_payload(&FieldShape::NoFields));
}

#[test]
fn notify_payload_from_json_with_data() {
    let json = "{\"immediate\":true,\"timeout\":40}";
    let payload =
        PayloadValue::from_json(&FieldShape::NamedFields(start_fields()), json).unwrap();
    assert_eq!(payload, start_payload(true, 40));
}
