use ferriskey_sdk::client::{check_status, FerriskeySdk, OperationInput, SdkExt};
use ferriskey_sdk::config::{AuthStrategy, AuthStrategyExt, SdkConfig};
use ferriskey_sdk::contract::{
    OperationDescriptorSeed, ParameterDescriptorSeed, ParameterLocationSeed, RequestBodyDescriptorSeed,
    ResponseDescriptorSeed,
};
use ferriskey_sdk::document::{JsonMember, JsonValue};
use ferriskey_sdk::encoding::{decode_response, encode_request};
use ferriskey_sdk::error::SdkError;
use ferriskey_sdk::maps::{MultiValueMap, StringMap};
use ferriskey_sdk::transport::{SdkRequest, SdkResponse};
use std::time::Duration;

fn parameter(location: ParameterLocationSeed, name: &str, required: bool) -> ParameterDescriptorSeed {
    ParameterDescriptorSeed { location, name: name.to_string(), required, description: None }
}

fn response(status: u16, is_error: bool, content_type: Option<&str>, schema_name: Option<&str>) -> ResponseDescriptorSeed {
    ResponseDescriptorSeed {
        content_type: content_type.map(|c| c.to_string()),
        is_error,
        schema_name: schema_name.map(|c| c.to_string()),
        status,
    }
}

fn update_realm() -> OperationDescriptorSeed {
    OperationDescriptorSeed {
        has_request_body: true,
        method: "PUT".to_string(),
        operation_id: "update_realm".to_string(),
        parameters: vec![
            parameter(ParameterLocationSeed::Header, "x-test-case", true),
            parameter(ParameterLocationSeed::Path, "realm_name", true),
            parameter(ParameterLocationSeed::Query, "page", false),
            parameter(ParameterLocationSeed::Query, "size", true),
        ],
        path: "/realms/{realm_name}".to_string(),
        primary_response_schema: Some("Realm".to_string()),
        primary_success_status: 200,
        request_body: Some(RequestBodyDescriptorSeed {
            content_type: Some("application/json".to_string()),
            nullable: false,
            required: true,
            schema_name: Some("UpdateRealm".to_string()),
        }),
        requires_auth: true,
        responses: vec![
            response(200, false, Some("application/json"), Some("Realm")),
            response(204, false, None, None),
            response(400, true, Some("application/json"), Some("ApiErrorResponse")),
        ],
        tag: "realm".to_string(),
        summary: None,
        description: None,
    }
}

fn plain_get() -> OperationDescriptorSeed {
    OperationDescriptorSeed {
        has_request_body: false,
        method: "GET".to_string(),
        operation_id: "get_openid_configuration".to_string(),
        parameters: vec![],
        path: "/realms/test/.well-known".to_string(),
        primary_response_schema: None,
        primary_success_status: 200,
        request_body: None,
        requires_auth: false,
        responses: vec![response(200, false, Some("text/plain"), None)],
        tag: "auth".to_string(),
        summary: None,
        description: None,
    }
}

fn full_input() -> OperationInput {
    OperationInput::builder()
        .header("x-test-case", "one")
        .path_param("realm_name", "my realm/α")
        .query_param("size", vec!["10".to_string()])
        .query_param_single("extra", "a&b")
        .body(b"{\"display_name\":\"x\"}".to_vec())
        .build()
}

#[test]
fn request_encoding_substitutes_and_encodes() {
    let request = encode_request(&update_realm(), full_input()).expect("request");
    assert_eq!(request.method, "PUT");
    assert_eq!(request.path, "/realms/my%20realm%2F%CE%B1?size=10&extra=a%26b");
    assert!(request.requires_auth);
    assert_eq!(request.headers.get("content-type"), Some(&"application/json".to_string()));
    assert_eq!(request.headers.get("x-test-case"), Some(&"one".to_string()));
    assert_eq!(request.body.as_deref(), Some(&b"{\"display_name\":\"x\"}"[..]));
}

#[test]
fn request_encoding_reports_missing_pieces_in_order() {
    let no_body = OperationInput::builder().path_param("realm_name", "r").build();
    assert!(matches!(encode_request(&update_realm(), no_body), Err(SdkError::MissingRequestBody { operation_id }) if operation_id == "update_realm"));
    let no_path = OperationInput::builder().body(vec![1]).build();
    assert!(matches!(
        encode_request(&update_realm(), no_path),
        Err(SdkError::MissingParameter { location: "path", name, .. }) if name == "realm_name"
    ));
    let no_query = OperationInput::builder().body(vec![1]).path_param("realm_name", "r").build();
    assert!(matches!(
        encode_request(&update_realm(), no_query),
        Err(SdkError::MissingParameter { location: "query", name, .. }) if name == "size"
    ));
    let no_header =
        OperationInput::builder().body(vec![1]).path_param("realm_name", "r").query_param_single("size", "1").build();
    assert!(matches!(
        encode_request(&update_realm(), no_header),
        Err(SdkError::MissingParameter { location: "header", name, .. }) if name == "x-test-case"
    ));
}

#[test]
fn unresolved_path_template_is_reported() {
    let mut descriptor = plain_get();
    descriptor.path = "/realms/{unknown}".to_string();
    assert!(matches!(
        encode_request(&descriptor, OperationInput::new()),
        Err(SdkError::InvalidPathTemplate { path_template, .. }) if path_template == "/realms/{unknown}"
    ));
}

#[test]
fn explicit_content_type_is_kept() {
    let input = OperationInput::builder()
        .header("x-test-case", "one")
        .header("content-type", "application/merge-patch+json")
        .path_param("realm_name", "r")
        .query_param_single("size", "1")
        .body(vec![b'{', b'}'])
        .build();
    let request = encode_request(&update_realm(), input).expect("request");
    assert_eq!(request.headers.get("content-type"), Some(&"application/merge-patch+json".to_string()));
}

fn sdk_response(status: u16, body: &[u8]) -> SdkResponse {
    SdkResponse { body: body.to_vec(), headers: StringMap::new(), status }
}

#[test]
fn responses_decode_by_documented_status() {
    let decoded = decode_response(&update_realm(), sdk_response(200, b"{\"ok\":true}")).expect("decoded");
    assert_eq!(decoded.status, 200);
    assert_eq!(decoded.schema_name.as_deref(), Some("Realm"));
    assert_eq!(
        decoded.json_body(),
        Some(&JsonValue::Object(vec![JsonMember { key: "ok".to_string(), value: JsonValue::Bool(true) }]))
    );
    let empty = decode_response(&update_realm(), sdk_response(204, b"")).expect("decoded");
    assert!(empty.json_body().is_none());
    let text = decode_response(&plain_get(), sdk_response(200, b"not-json")).expect("decoded");
    assert!(text.json_body.is_none());
    assert_eq!(text.raw_body, b"not-json".to_vec());
}

#[test]
fn documented_errors_and_mismatches() {
    let api = decode_response(&update_realm(), sdk_response(400, b"{\"message\":\"invalid realm\"}"));
    assert!(matches!(api, Err(SdkError::ApiResponse { status: 400, body: Some(_), .. })));
    let api = decode_response(&update_realm(), sdk_response(400, br#"{"message":"invalid realm","code":"bad_request"}"#));
    match api {
        Err(SdkError::ApiResponse { body, status, .. }) => {
            assert_eq!(status, 400);
            assert_eq!(
                body,
                Some(JsonValue::Object(vec![
                    JsonMember { key: "code".to_string(), value: JsonValue::String("bad_request".to_string()) },
                    JsonMember { key: "message".to_string(), value: JsonValue::String("invalid realm".to_string()) },
                ]))
            );
        },
        other => panic!("unexpected {:?}", other),
    }
    let unexpected = decode_response(&update_realm(), sdk_response(500, b""));
    assert!(matches!(unexpected, Err(SdkError::UnexpectedStatus { expected: 200, actual: 500 })));
    let bad_json = decode_response(&update_realm(), sdk_response(200, b"not-json"));
    assert!(matches!(bad_json, Err(SdkError::Decode(_))));
}

fn sdk(auth: AuthStrategy) -> FerriskeySdk<()> {
    FerriskeySdk::new(SdkConfig::new("https://api.ferriskey.test/", auth), (), vec![update_realm(), plain_get()])
}

#[test]
fn prepared_requests_resolve_urls_and_carry_bearer_auth() {
    let sdk = sdk(AuthStrategy::Bearer("secret-token".to_string()));
    let mut request = SdkRequest::new("GET", "/realms/test");
    request.requires_auth = true;
    let prepared = sdk.prepare_request(request).expect("prepared");
    assert_eq!(prepared.path, "https://api.ferriskey.test/realms/test");
    assert_eq!(prepared.headers.get("authorization"), Some(&"Bearer secret-token".to_string()));
    let absolute = sdk.prepare_request(SdkRequest::new("GET", "http://other.test/x")).expect("prepared");
    assert_eq!(absolute.path, "http://other.test/x");
    assert!(absolute.headers.get("authorization").is_none());
}

#[test]
fn prepared_requests_report_missing_auth_and_bad_urls() {
    let sdk = sdk(AuthStrategy::NoAuth);
    let mut request = SdkRequest::new("GET", "/realms/secured");
    request.requires_auth = true;
    assert!(matches!(sdk.prepare_request(request), Err(SdkError::MissingAuth)));
    assert!(matches!(
        sdk.prepare_request(SdkRequest::new("GET", "///")),
        Err(SdkError::InvalidUrl { path, .. }) if path == "///"
    ));
    let empty_base = FerriskeySdk::new(SdkConfig::new("/", AuthStrategy::NoAuth), (), vec![]);
    assert!(matches!(empty_base.prepare_request(SdkRequest::new("GET", "/x")), Err(SdkError::InvalidUrl { .. })));
}

#[test]
fn operations_are_found_by_identifier_and_tag() {
    let sdk = sdk(AuthStrategy::NoAuth);
    assert_eq!(sdk.operations().len(), 2);
    let call = sdk.operation("update_realm").expect("operation");
    assert_eq!(call.descriptor().path, "/realms/{realm_name}");
    assert!(sdk.operation("missing").is_none());
    assert_eq!(sdk.require_operation("update_realm").expect("known").descriptor().operation_id, "update_realm");
    assert!(matches!(sdk.require_operation("missing"), Err(SdkError::UnknownOperation { operation_id }) if operation_id == "missing"));
    let tag = sdk.tag("auth");
    assert_eq!(tag.tag(), "auth");
    let ids: Vec<&str> = tag.descriptors().iter().map(|d| d.operation_id.as_str()).collect();
    assert_eq!(ids, vec!["get_openid_configuration"]);
    assert!(tag.operation("update_realm").is_none());
    assert!(tag.operation("get_openid_configuration").is_some());
    let request = call.to_request(full_input()).expect("request");
    assert_eq!(request.method, "PUT");
}

#[test]
fn sdk_builders_keep_configuration() {
    let config = SdkConfig::builder("https://api.ferriskey.test")
        .auth(AuthStrategy::bearer("tok"))
        .timeout(Duration::from_secs(3))
        .user_agent("agent/1")
        .build();
    assert_eq!(config.base_url(), "https://api.ferriskey.test");
    assert_eq!(config.auth().bearer_token(), Some(&"tok".to_string()));
    assert!(config.auth().is_configured());
    assert_eq!(config.timeout(), Some(Duration::from_secs(3)));
    assert_eq!(config.user_agent(), Some("agent/1"));
    assert!(!AuthStrategy::default().is_configured());
    let sdk = FerriskeySdk::builder(config.clone(), vec![plain_get()]).transport(7u8).build();
    assert_eq!(*sdk.transport(), 7u8);
    assert_eq!(sdk.config().base_url(), "https://api.ferriskey.test");
    let other = FerriskeySdk::with_transport(config, 1u8, vec![]);
    assert!(other.operations().is_empty());
}

#[test]
fn request_builder_and_maps() {
    let request = SdkRequest::builder("POST", "/x").body(vec![1]).auth_required(true).header("a", "1").build();
    assert_eq!(request.method, "POST");
    assert!(request.requires_auth);
    assert_eq!(request.headers.get("a"), Some(&"1".to_string()));
    let mut map = StringMap::new();
    map.insert("b".to_string(), "2".to_string());
    map.insert("a".to_string(), "1".to_string());
    map.insert("b".to_string(), "3".to_string());
    assert_eq!(map.len(), 2);
    assert_eq!(map.key_at(0), "a");
    assert_eq!(map.value_at(1), "3");
    map.insert_if_absent("a".to_string(), "9".to_string());
    assert_eq!(map.get("a"), Some(&"1".to_string()));
    let mut multi = MultiValueMap::new();
    multi.insert("k".to_string(), vec!["v".to_string()]);
    assert!(multi.contains_key("k"));
    assert_eq!(multi.values_at(0), &vec!["v".to_string()]);
}

#[test]
fn every_operation_is_reachable_and_encodes() {
    let sdk = sdk(AuthStrategy::NoAuth);
    for descriptor in sdk.operations().to_vec() {
        let operation = sdk.operation(&descriptor.operation_id).expect("reachable");
        let mut input = OperationInput::default();
        for parameter in &descriptor.parameters {
            let value = format!("{}-value", parameter.name);
            match parameter.location {
                ParameterLocationSeed::Path => input.path_params.insert(parameter.name.clone(), value),
                ParameterLocationSeed::Query => input.query_params.insert(parameter.name.clone(), vec![value]),
                ParameterLocationSeed::Header => input.headers.insert(parameter.name.clone(), value),
            }
        }
        if descriptor.request_body.is_some() {
            input.body = Some(b"{}".to_vec());
        }
        let request = operation.to_request(input).expect("descriptor-backed request building should succeed");
        assert_eq!(operation.descriptor(), &descriptor);
        assert_eq!(request.method, descriptor.method);
        assert!(!request.path.contains('{'));
        assert_eq!(request.requires_auth, descriptor.requires_auth);
        assert!(sdk.tag(&descriptor.tag).operation(&descriptor.operation_id).is_some());
    }
}

#[test]
fn status_check_before_typed_decoding() {
    assert!(check_status(&sdk_response(200, b""), 200).is_ok());
    assert!(matches!(
        check_status(&sdk_response(201, b""), 200),
        Err(SdkError::UnexpectedStatus { expected: 200, actual: 201 })
    ));
}

#[test]
fn one_query_pair_per_value_and_no_query_without_values() {
    let input = OperationInput::builder()
        .header("x-test-case", "one")
        .path_param("realm_name", "r")
        .query_param("size", vec!["1".to_string(), "2".to_string()])
        .query_param("page", vec!["3".to_string()])
        .query_param("scope", vec!["a".to_string(), "b".to_string(), "c".to_string()])
        .body(vec![b'{', b'}'])
        .build();
    let request = encode_request(&update_realm(), input).expect("request");
    assert_eq!(request.path, "/realms/r?page=3&size=1&size=2&scope=a&scope=b&scope=c");
    assert_eq!(request.path.matches("scope=").count(), 3);
    assert_eq!(request.path.matches('&').count() + 1, 6);
    let plain = encode_request(&plain_get(), OperationInput::new()).expect("request");
    assert_eq!(plain.path, "/realms/test/.well-known");
    assert!(!plain.path.contains('?'));
    let empty_values = OperationInput::builder().query_param("scope", vec![]).build();
    let request = encode_request(&plain_get(), empty_values).expect("request");
    assert!(!request.path.contains('?'));
}
