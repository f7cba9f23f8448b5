use ferriskey_sdk::contract::{
    build_registry, generate_artifacts, normalize_and_build, normalize_contract, normalized_contract_path,
    normalized_json_text, parse_document, source_contract_path, ContractError, ContractRegistry,
    ParameterLocationSeed,
};
use ferriskey_sdk::document::{JsonMember, JsonValue};

fn s(v: &str) -> JsonValue {
    JsonValue::String(v.to_string())
}

fn obj(members: Vec<(&str, JsonValue)>) -> JsonValue {
    JsonValue::Object(members.into_iter().map(|(k, v)| JsonMember { key: k.to_string(), value: v }).collect())
}

fn arr(items: Vec<JsonValue>) -> JsonValue {
    JsonValue::Array(items)
}

fn member<'a>(v: &'a JsonValue, key: &str) -> Option<&'a JsonValue> {
    match v {
        JsonValue::Object(ms) => ms.iter().find(|m| m.key == key).map(|m| &m.value),
        _ => None,
    }
}

fn realm_schema_ref() -> JsonValue {
    obj(vec![("$ref", s("#/components/schemas/Realm"))])
}

fn get_realm() -> JsonValue {
    obj(vec![
        ("operationId", s("get_realm")),
        ("tags", arr(vec![s("realm")])),
        (
            "parameters",
            arr(vec![
                obj(vec![("name", s("name")), ("in", s("path"))]),
                obj(vec![
                    ("name", s("verbose")),
                    ("in", s("query")),
                    ("required", JsonValue::Bool(true)),
                    ("description", s("More")),
                ]),
            ]),
        ),
        (
            "responses",
            obj(vec![
                ("200", obj(vec![("content", obj(vec![("application/json", obj(vec![("schema", realm_schema_ref())]))]))])),
                ("404", obj(vec![("description", s("missing"))])),
            ]),
        ),
        ("security", arr(vec![obj(vec![("Authorization", arr(vec![s("Bearer")]))])])),
        ("summary", s("Get a realm")),
    ])
}

fn update_realm() -> JsonValue {
    obj(vec![
        ("operationId", s("update_realm")),
        ("tags", arr(vec![s("realm")])),
        (
            "requestBody",
            obj(vec![
                ("required", JsonValue::Bool(true)),
                ("content", obj(vec![("application/json", obj(vec![("schema", realm_schema_ref())]))])),
            ]),
        ),
        (
            "responses",
            obj(vec![
                ("default", obj(vec![])),
                ("+204", obj(vec![])),
                ("400", obj(vec![("content", obj(vec![("text/plain", obj(vec![]))]))])),
            ]),
        ),
    ])
}

fn health() -> JsonValue {
    obj(vec![
        ("operationId", s("a_health")),
        ("tags", arr(vec![s("auth"), s("other")])),
        ("responses", obj(vec![("500", obj(vec![]))])),
    ])
}

fn paths() -> JsonValue {
    obj(vec![
        (
            "/realms/{name}",
            obj(vec![
                ("get", get_realm()),
                ("parameters", arr(vec![obj(vec![("name", s("x-trace")), ("in", s("header")), ("required", JsonValue::Bool(true))])])),
                ("put", update_realm()),
            ]),
        ),
        ("/health", obj(vec![("get", health())])),
    ])
}

fn sample_document() -> JsonValue {
    obj(vec![
        ("components", obj(vec![("schemas", obj(vec![("Realm", obj(vec![])), ("Error", obj(vec![]))]))])),
        ("paths", paths()),
    ])
}

fn invalid_message<T: std::fmt::Debug>(r: Result<T, ContractError>) -> String {
    match r {
        Err(ContractError::InvalidDocument(m)) => m,
        other => panic!("expected an invalid document, got {other:?}"),
    }
}

fn registry() -> ContractRegistry {
    build_registry(&sample_document()).expect("the sample document has a registry")
}

#[test]
fn registry_counts_and_inventories() {
    let r = registry();
    assert_eq!(r.path_count, 2);
    assert_eq!(r.schema_count, 2);
    assert_eq!(r.schemas, vec!["Error".to_string(), "Realm".to_string()]);
    assert_eq!(r.tags, vec!["auth".to_string(), "realm".to_string()]);
    assert_eq!(r.operation_count, 3);
    let ids: Vec<&str> = r.operations.iter().map(|o| o.operation_id.as_str()).collect();
    assert_eq!(ids, vec!["a_health", "get_realm", "update_realm"]);
}

#[test]
fn registry_describes_parameters_by_location_then_name() {
    let r = registry();
    let get = &r.operations[1];
    assert_eq!(get.method, "GET");
    assert_eq!(get.path, "/realms/{name}");
    assert_eq!(get.tag, "realm");
    let params: Vec<(ParameterLocationSeed, &str, bool)> =
        get.parameters.iter().map(|p| (p.location, p.name.as_str(), p.required)).collect();
    assert_eq!(
        params,
        vec![
            (ParameterLocationSeed::Header, "x-trace", true),
            (ParameterLocationSeed::Path, "name", true),
            (ParameterLocationSeed::Query, "verbose", true),
        ]
    );
    assert_eq!(get.parameters[2].description.as_deref(), Some("More"));
    assert_eq!(get.summary.as_deref(), Some("Get a realm"));
    assert_eq!(get.description, None);
}

#[test]
fn registry_describes_responses_and_auth() {
    let r = registry();
    let get = &r.operations[1];
    let statuses: Vec<u16> = get.responses.iter().map(|x| x.status).collect();
    assert_eq!(statuses, vec![200, 404]);
    assert_eq!(get.responses[0].content_type.as_deref(), Some("application/json"));
    assert_eq!(get.responses[0].schema_name.as_deref(), Some("Realm"));
    assert!(!get.responses[0].is_error);
    assert!(get.responses[1].is_error);
    assert_eq!(get.responses[1].content_type, None);
    assert_eq!(get.primary_success_status, 200);
    assert_eq!(get.primary_response_schema.as_deref(), Some("Realm"));
    assert!(get.requires_auth);
    assert!(!get.has_request_body);
}

#[test]
fn registry_reads_status_keys_and_request_bodies() {
    let r = registry();
    let put = &r.operations[2];
    assert_eq!(put.method, "PUT");
    let statuses: Vec<u16> = put.responses.iter().map(|x| x.status).collect();
    assert_eq!(statuses, vec![204, 400]);
    assert_eq!(put.responses[1].content_type.as_deref(), Some("text/plain"));
    assert_eq!(put.primary_success_status, 204);
    assert_eq!(put.primary_response_schema, None);
    assert!(!put.requires_auth);
    assert!(put.has_request_body);
    let body = put.request_body.as_ref().expect("a request body");
    assert_eq!(body.content_type.as_deref(), Some("application/json"));
    assert!(body.required);
    assert!(!body.nullable);
    assert_eq!(body.schema_name.as_deref(), Some("Realm"));
    assert_eq!(put.parameters.len(), 1);
}

#[test]
fn primary_status_falls_back_to_first_response() {
    let r = registry();
    assert_eq!(r.operations[0].primary_success_status, 500);
    assert_eq!(r.operations[0].tag, "auth");
}

#[test]
fn later_parameter_replaces_earlier_one() {
    let op = obj(vec![
        ("operationId", s("op")),
        ("tags", arr(vec![s("t")])),
        ("parameters", arr(vec![obj(vec![("name", s("q")), ("in", s("query")), ("description", s("second"))])])),
        ("responses", obj(vec![("200", obj(vec![]))])),
    ]);
    let doc = obj(vec![
        ("components", obj(vec![("schemas", obj(vec![]))])),
        (
            "paths",
            obj(vec![(
                "/p",
                obj(vec![
                    ("get", op),
                    ("parameters", arr(vec![obj(vec![("name", s("q")), ("in", s("query")), ("description", s("first"))])])),
                ]),
            )]),
        ),
    ]);
    let r = build_registry(&doc).expect("registry");
    assert_eq!(r.operations[0].parameters.len(), 1);
    assert_eq!(r.operations[0].parameters[0].description.as_deref(), Some("second"));
    assert!(!r.operations[0].parameters[0].required);
}

#[test]
fn nullable_body_from_type_list() {
    let op = obj(vec![
        ("operationId", s("op")),
        ("tags", arr(vec![s("t")])),
        (
            "requestBody",
            obj(vec![(
                "content",
                obj(vec![
                    ("text/plain", obj(vec![])),
                    ("application/merge-patch+json", obj(vec![("schema", obj(vec![("type", arr(vec![s("object"), s("null")]))]))])),
                ]),
            )]),
        ),
        ("responses", obj(vec![("201", obj(vec![]))])),
    ]);
    let doc = obj(vec![
        ("components", obj(vec![("schemas", obj(vec![]))])),
        ("paths", obj(vec![("/p", obj(vec![("post", op)]))])),
    ]);
    let r = build_registry(&doc).expect("registry");
    let body = r.operations[0].request_body.as_ref().expect("body");
    assert_eq!(body.content_type.as_deref(), Some("application/merge-patch+json"));
    assert!(body.nullable);
    assert!(!body.required);
    assert_eq!(body.schema_name, None);
}

fn doc_with_operation(op: JsonValue) -> JsonValue {
    obj(vec![
        ("components", obj(vec![("schemas", obj(vec![]))])),
        ("paths", obj(vec![("/p", obj(vec![("get", op)]))])),
    ])
}

fn tagged(mut members: Vec<(&'static str, JsonValue)>) -> JsonValue {
    members.insert(0, ("tags", arr(vec![s("t")])));
    obj(members)
}

#[test]
fn registry_errors_name_the_problem() {
    assert_eq!(invalid_message(build_registry(&arr(vec![]))), "OpenAPI document must be a JSON object");
    assert_eq!(invalid_message(build_registry(&obj(vec![]))), "missing top-level field: paths");
    assert_eq!(
        invalid_message(build_registry(&obj(vec![("paths", arr(vec![]))]))),
        "top-level field paths must be an object"
    );
    assert_eq!(
        invalid_message(build_registry(&obj(vec![("paths", obj(vec![]))]))),
        "missing top-level field: components"
    );
    assert_eq!(
        invalid_message(build_registry(&obj(vec![("paths", obj(vec![])), ("components", obj(vec![]))]))),
        "components.schemas is required"
    );
    assert_eq!(
        invalid_message(build_registry(&obj(vec![
            ("paths", obj(vec![])),
            ("components", obj(vec![("schemas", arr(vec![]))]))
        ]))),
        "components.schemas must be an object"
    );
    let bad_item = obj(vec![
        ("components", obj(vec![("schemas", obj(vec![]))])),
        ("paths", obj(vec![("/p", arr(vec![]))])),
    ]);
    assert_eq!(invalid_message(build_registry(&bad_item)), "path item must be an object");
}

#[test]
fn operation_errors_name_the_problem() {
    let cases: Vec<(JsonValue, &str)> = vec![
        (obj(vec![("operationId", s("x"))]), "operation tags are required"),
        (obj(vec![("tags", s("t"))]), "operation tags must be an array"),
        (obj(vec![("tags", arr(vec![]))]), "operation tag list must contain a string"),
        (obj(vec![("tags", arr(vec![JsonValue::Null]))]), "operation tag list must contain a string"),
        (tagged(vec![]), "missing required string field: operationId"),
        (tagged(vec![("operationId", JsonValue::Bool(true))]), "field operationId must be a string"),
        (
            tagged(vec![("operationId", s("x")), ("parameters", obj(vec![]))]),
            "operation parameters must be an array",
        ),
        (
            tagged(vec![("operationId", s("x")), ("parameters", arr(vec![s("p")]))]),
            "parameter entry must be an object",
        ),
        (
            tagged(vec![("operationId", s("x")), ("parameters", arr(vec![obj(vec![("in", s("path"))])]))]),
            "missing required string field: name",
        ),
        (
            tagged(vec![
                ("operationId", s("x")),
                ("parameters", arr(vec![obj(vec![("name", s("c")), ("in", s("cookie"))])])),
            ]),
            "unsupported parameter location: cookie",
        ),
        (tagged(vec![("operationId", s("x")), ("requestBody", s("b"))]), "requestBody must be an object"),
        (
            tagged(vec![("operationId", s("x")), ("requestBody", obj(vec![]))]),
            "requestBody.content must be an object",
        ),
        (
            tagged(vec![("operationId", s("x")), ("requestBody", obj(vec![("content", obj(vec![]))]))]),
            "requestBody.content cannot be empty",
        ),
        (
            tagged(vec![
                ("operationId", s("x")),
                ("requestBody", obj(vec![("content", obj(vec![("application/json", obj(vec![("schema", s("x"))]))]))])),
            ]),
            "schema must be an object",
        ),
        (tagged(vec![("operationId", s("x"))]), "operation responses are required"),
        (tagged(vec![("operationId", s("x")), ("responses", arr(vec![]))]), "operation responses must be an object"),
        (
            tagged(vec![("operationId", s("x")), ("responses", obj(vec![("200", s("ok"))]))]),
            "response entry must be an object",
        ),
        (
            tagged(vec![("operationId", s("x")), ("responses", obj(vec![("default", obj(vec![])), ("70000", obj(vec![]))]))]),
            "operation responses must contain at least one numeric status code",
        ),
        (
            tagged(vec![
                ("operationId", s("x")),
                ("responses", obj(vec![("200", obj(vec![]))])),
                ("security", obj(vec![])),
            ]),
            "operation security must be an array",
        ),
        (
            tagged(vec![
                ("operationId", s("x")),
                ("responses", obj(vec![("200", obj(vec![]))])),
                ("security", arr(vec![s("s")])),
            ]),
            "security entry must be an object",
        ),
        (
            tagged(vec![
                ("operationId", s("x")),
                ("responses", obj(vec![("200", obj(vec![]))])),
                ("security", arr(vec![obj(vec![("Authorization", s("Bearer"))])])),
            ]),
            "security scheme scopes must be an array",
        ),
    ];
    for (op, expected) in cases {
        assert_eq!(invalid_message(build_registry(&doc_with_operation(op))), expected);
    }
}

#[test]
fn non_object_operation_is_reported() {
    assert_eq!(
        invalid_message(build_registry(&doc_with_operation(s("nope")))),
        "operation must be an object"
    );
}

#[test]
fn normalization_adds_servers_tags_and_security() {
    let n = normalize_contract(&sample_document()).expect("normalizes");
    let servers = member(&n, "servers").expect("servers");
    assert_eq!(servers, &arr(vec![obj(vec![("url", s("http://127.0.0.1:4010"))])]));
    let tags = member(&n, "tags").expect("tags");
    assert_eq!(tags, &arr(vec![obj(vec![("name", s("auth"))]), obj(vec![("name", s("realm"))])]));
    let components = member(&n, "components").expect("components");
    let schemes = member(components, "securitySchemes").expect("schemes");
    let auth = member(schemes, "Authorization").expect("scheme");
    assert_eq!(
        auth,
        &obj(vec![("bearerFormat", s("JWT")), ("scheme", s("bearer")), ("type", s("http"))])
    );
    assert!(member(components, "schemas").is_some());
}

#[test]
fn normalization_inserts_members_in_key_order() {
    let doc = obj(vec![
        ("components", obj(vec![("schemas", obj(vec![]))])),
        ("openapi", s("3.0.0")),
        ("paths", obj(vec![])),
    ]);
    let n = normalize_contract(&doc).expect("normalizes");
    match n {
        JsonValue::Object(ms) => {
            let keys: Vec<&str> = ms.iter().map(|m| m.key.as_str()).collect();
            assert_eq!(keys, vec!["components", "openapi", "paths", "servers", "tags"]);
        },
        _ => panic!("object expected"),
    }
}

#[test]
fn normalization_keeps_existing_servers_and_tag_entries() {
    let doc = obj(vec![
        ("components", obj(vec![("schemas", obj(vec![]))])),
        ("paths", paths()),
        ("servers", arr(vec![obj(vec![("url", s("https://example.test"))])])),
        ("tags", arr(vec![obj(vec![("name", s("realm")), ("description", s("Realms"))]), obj(vec![("name", s("gone"))])])),
    ]);
    let n = normalize_contract(&doc).expect("normalizes");
    assert_eq!(member(&n, "servers"), Some(&arr(vec![obj(vec![("url", s("https://example.test"))])])));
    assert_eq!(
        member(&n, "tags"),
        Some(&arr(vec![
            obj(vec![("name", s("auth"))]),
            obj(vec![("name", s("realm")), ("description", s("Realms"))]),
        ]))
    );
}

#[test]
fn empty_server_list_is_replaced() {
    let doc = obj(vec![
        ("components", obj(vec![("schemas", obj(vec![]))])),
        ("paths", obj(vec![])),
        ("servers", arr(vec![])),
    ]);
    let n = normalize_contract(&doc).expect("normalizes");
    assert_eq!(member(&n, "servers"), Some(&arr(vec![obj(vec![("url", s("http://127.0.0.1:4010"))])])));
    assert!(member(&n, "components").and_then(|c| member(c, "securitySchemes")).is_none());
}

#[test]
fn normalization_errors() {
    let bad_tags = obj(vec![("paths", obj(vec![])), ("tags", obj(vec![]))]);
    assert_eq!(invalid_message(normalize_contract(&bad_tags)), "top-level tags must be an array");
    let bad_entry = obj(vec![("paths", obj(vec![])), ("tags", arr(vec![s("x")]))]);
    assert_eq!(invalid_message(normalize_contract(&bad_entry)), "tag entry must be an object");
    let nameless = obj(vec![("paths", obj(vec![])), ("tags", arr(vec![obj(vec![])]))]);
    assert_eq!(invalid_message(normalize_contract(&nameless)), "missing required string field: name");
    let bad_components = obj(vec![("components", s("c")), ("paths", paths())]);
    assert_eq!(invalid_message(normalize_contract(&bad_components)), "components must be an object");
    let bad_schemes = obj(vec![("components", obj(vec![("securitySchemes", s("s"))])), ("paths", paths())]);
    assert_eq!(
        invalid_message(normalize_contract(&bad_schemes)),
        "components.securitySchemes must be an object"
    );
    assert_eq!(invalid_message(normalize_contract(&s("x"))), "OpenAPI document must be a JSON object");
}

#[test]
fn normalization_is_idempotent() {
    let once = normalize_contract(&sample_document()).expect("normalizes");
    let twice = normalize_contract(&once).expect("normalizes again");
    assert_eq!(once, twice);
}

#[test]
fn normalization_keeps_the_registry() {
    let before = build_registry(&sample_document()).expect("registry");
    let normalized = normalize_contract(&sample_document()).expect("normalizes");
    let after = build_registry(&normalized).expect("registry after normalization");
    assert_eq!(before, after);
    let (n, r) = normalize_and_build(&sample_document()).expect("artifacts");
    assert_eq!(n, normalized);
    assert_eq!(r, before);
}

#[test]
fn contract_paths_join_the_manifest_directory() {
    assert_eq!(source_contract_path("/work/crates/sdk"), "/work/crates/sdk/../../docs/openai.json");
    assert_eq!(source_contract_path("/work/crates/sdk/"), "/work/crates/sdk/../../docs/openai.json");
    assert_eq!(normalized_contract_path(""), "../../target/prism/openai.prism.json");
    assert_eq!(
        normalized_contract_path("/w"),
        "/w/../../target/prism/openai.prism.json"
    );
}

const SOURCE_TEXT: &str = r#"{"components":{"schemas":{"Health":{}}},"openapi":"3.0.0","paths":{"/health":{"get":{"operationId":"health","tags":["ops"],"responses":{"200":{}}}}}}"#;

#[test]
fn contract_text_is_parsed_into_the_document_model() {
    let doc = parse_document(r#"{"b":[1,true,null],"a":"x"}"#).expect("parses");
    assert_eq!(
        doc,
        obj(vec![("a", s("x")), ("b", arr(vec![JsonValue::Number("1".to_string()), JsonValue::Bool(true), JsonValue::Null]))])
    );
    assert!(matches!(parse_document("{not json"), Err(ContractError::Json(_))));
}

#[test]
fn normalized_documents_are_written_as_indented_json() {
    let text = normalized_json_text(&obj(vec![("a", arr(vec![s("x")]))])).expect("writes");
    assert_eq!(text, "{\n  \"a\": [\n    \"x\"\n  ]\n}");
}

#[test]
fn artifacts_are_generated_from_contract_text() {
    let artifacts = generate_artifacts(SOURCE_TEXT).expect("artifacts");
    assert_eq!(artifacts.registry.operation_count, 1);
    assert_eq!(artifacts.registry.path_count, 1);
    assert_eq!(artifacts.registry.tags, vec!["ops".to_string()]);
    let written = parse_document(&artifacts.normalized_json).expect("artifact parses");
    let expected = normalize_contract(&parse_document(SOURCE_TEXT).expect("source parses")).expect("normalizes");
    assert_eq!(written, expected);
    assert_eq!(member(&written, "servers"), Some(&arr(vec![obj(vec![("url", s("http://127.0.0.1:4010"))])])));
    assert!(artifacts.normalized_json.starts_with("{\n  \""));
}

#[test]
fn artifact_generation_errors() {
    assert!(matches!(generate_artifacts("nope"), Err(ContractError::Json(_))));
    assert!(matches!(generate_artifacts("[]"), Err(ContractError::InvalidDocument(_))));
    assert!(matches!(generate_artifacts(r#"{"paths":[]}"#), Err(ContractError::InvalidDocument(_))));
}
