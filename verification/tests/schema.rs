use autocommit::ai::prompts::CANDIDATE_COUNT;
use autocommit::ai::schema::{candidate_schema, openapi_compatible_schema, Json};
use serde_json::Value;

fn to_value(json: &Json) -> Value {
    match json {
        Json::Null => Value::Null,
        Json::Bool(b) => Value::Bool(*b),
        Json::Number(n) => Value::from(*n),
        Json::Str(s) => Value::String(s.clone()),
        Json::Array(items) => Value::Array(items.iter().map(to_value).collect()),
        Json::Object(members) => Value::Object(
            members.iter().map(|(key, value)| (key.clone(), to_value(value))).collect(),
        ),
    }
}

#[test]
fn schema_requires_exact_candidate_count() {
    let schema = to_value(&candidate_schema());
    assert_eq!(
        schema["properties"]["candidates"]["minItems"],
        CANDIDATE_COUNT
    );
    assert_eq!(
        schema["properties"]["candidates"]["maxItems"],
        CANDIDATE_COUNT
    );
}

#[test]
fn schema_strips_additional_properties_for_gemini() {
    let schema = candidate_schema();
    assert!(to_value(&schema).get("additionalProperties").is_some());

    let adapted = to_value(&openapi_compatible_schema(schema));
    assert_eq!(adapted["type"], "object");
    assert!(!adapted.to_string().contains("additionalProperties"));
}

#[test]
fn schema_requires_the_candidates_member() {
    let schema = to_value(&candidate_schema());
    assert_eq!(schema["required"], serde_json::Value::Array(vec!["candidates".into()]));
    assert_eq!(schema["properties"]["candidates"]["items"]["type"], "string");
    assert_eq!(schema["additionalProperties"], false);
}

#[test]
fn adapting_removes_nested_members_and_keeps_the_rest_in_order() {
    let nested = Json::Object(vec![
        ("a".to_string(), Json::Number(1)),
        ("additionalProperties".to_string(), Json::Bool(true)),
        (
            "b".to_string(),
            Json::Array(vec![Json::Object(vec![
                ("additionalProperties".to_string(), Json::Null),
                ("c".to_string(), Json::Str("x".to_string())),
            ])]),
        ),
    ]);
    match openapi_compatible_schema(nested) {
        Json::Object(members) => {
            let keys: Vec<&str> = members.iter().map(|(k, _)| k.as_str()).collect();
            assert_eq!(keys, ["a", "b"]);
            assert_eq!(
                to_value(&members[1].1).to_string(),
                "[{\"c\":\"x\"}]"
            );
        }
        other => panic!("unexpected {other:?}"),
    }
}

#[test]
fn adapting_leaves_scalars_alone() {
    assert!(matches!(openapi_compatible_schema(Json::Number(7)), Json::Number(7)));
    assert!(matches!(openapi_compatible_schema(Json::Null), Json::Null));
}
