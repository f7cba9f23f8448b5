use ferriskey_sdk::contract::{
    ContractRegistry, OperationDescriptorSeed, ParameterDescriptorSeed, ParameterLocationSeed,
    RequestBodyDescriptorSeed, ResponseDescriptorSeed,
};
use ferriskey_sdk::render::{
    join_strings, render_generated_module, render_operation_descriptor, render_parameter_descriptors,
    render_parameter_location, render_request_body_descriptor, render_response_descriptors,
    sanitize_identifier, sanitize_module_identifier,
};

#[test]
fn pascal_and_camel_identifiers() {
    assert_eq!(sanitize_identifier("user-profile", true), "UserProfile");
    assert_eq!(sanitize_identifier("user-profile", false), "userProfile");
    assert_eq!(sanitize_identifier("HTTPServer config", true), "HttpserverConfig");
    assert_eq!(sanitize_identifier("HTTPServer config", false), "httpserverConfig");
    assert_eq!(sanitize_identifier("2fa_token", true), "_2faToken");
    assert_eq!(sanitize_identifier("2fa_token", false), "_2faToken");
    assert_eq!(sanitize_identifier("--", true), "GeneratedValue");
    assert_eq!(sanitize_identifier("", false), "generated_value");
}

#[test]
fn module_identifiers() {
    assert_eq!(sanitize_module_identifier("realm"), "realm");
    assert_eq!(sanitize_module_identifier("ClientScope"), "client_scope");
    assert_eq!(sanitize_module_identifier("API Keys"), "a_p_i_keys");
    assert_eq!(sanitize_module_identifier("--x--"), "x");
    assert_eq!(sanitize_module_identifier("9lives"), "_9lives");
    assert_eq!(sanitize_module_identifier("???"), "generated_value");
    assert_eq!(sanitize_module_identifier("user-Role"), "user_role");
}

fn parameter(location: ParameterLocationSeed, name: &str, required: bool, description: Option<&str>) -> ParameterDescriptorSeed {
    ParameterDescriptorSeed { location, name: name.to_string(), required, description: description.map(|d| d.to_string()) }
}

fn response(status: u16, is_error: bool, content_type: Option<&str>, schema_name: Option<&str>) -> ResponseDescriptorSeed {
    ResponseDescriptorSeed {
        content_type: content_type.map(|c| c.to_string()),
        is_error,
        schema_name: schema_name.map(|c| c.to_string()),
        status,
    }
}

fn health() -> OperationDescriptorSeed {
    OperationDescriptorSeed {
        has_request_body: false,
        method: "GET".to_string(),
        operation_id: "a_health".to_string(),
        parameters: vec![],
        path: "/health".to_string(),
        primary_response_schema: None,
        primary_success_status: 500,
        request_body: None,
        requires_auth: false,
        responses: vec![response(500, true, None, None)],
        tag: "auth".to_string(),
        summary: None,
        description: None,
    }
}

fn realm() -> OperationDescriptorSeed {
    OperationDescriptorSeed {
        has_request_body: true,
        method: "PUT".to_string(),
        operation_id: "update_realm".to_string(),
        parameters: vec![parameter(ParameterLocationSeed::Path, "name", true, Some("Realm \"name\""))],
        path: "/realms/{name}".to_string(),
        primary_response_schema: Some("Realm".to_string()),
        primary_success_status: 200,
        request_body: Some(RequestBodyDescriptorSeed {
            content_type: Some("application/json".to_string()),
            nullable: false,
            required: true,
            schema_name: None,
        }),
        requires_auth: true,
        responses: vec![response(200, false, Some("application/json"), Some("Realm"))],
        tag: "realm".to_string(),
        summary: Some("Update".to_string()),
        description: None,
    }
}

#[test]
fn descriptor_pieces_render_as_rust() {
    assert_eq!(render_parameter_location(ParameterLocationSeed::Query), "Query");
    assert_eq!(render_request_body_descriptor(&None), "None");
    assert_eq!(
        render_parameter_descriptors(&realm().parameters),
        "GeneratedParameterDescriptor { location: ParameterLocation::Path, name: \"name\", required: true, description: Some(\"Realm \\\"name\\\"\") }"
    );
    assert_eq!(
        render_response_descriptors(&vec![response(200, false, None, Some("R")), response(404, true, None, None)]),
        "GeneratedResponseDescriptor { content_type: None, is_error: false, schema_name: Some(\"R\"), status: 200 }, GeneratedResponseDescriptor { content_type: None, is_error: true, schema_name: None, status: 404 }"
    );
    assert_eq!(
        render_request_body_descriptor(&realm().request_body),
        "Some(GeneratedRequestBodyDescriptor { content_type: Some(\"application/json\"), nullable: false, required: true, schema_name: None })"
    );
}

#[test]
fn operation_descriptor_renders_every_field() {
    assert_eq!(
        render_operation_descriptor(&health()),
        "    GeneratedOperationDescriptor { operation_id: \"a_health\", method: \"GET\", path: \"/health\", tag: \"auth\", has_request_body: false, summary: None, description: None, primary_response_schema: None, primary_success_status: 500, parameters: &[], request_body: None, requires_auth: false, responses: &[GeneratedResponseDescriptor { content_type: None, is_error: true, schema_name: None, status: 500 }] }"
    );
}

#[test]
fn strings_join_with_separator() {
    assert_eq!(join_strings(&vec![], ", "), "");
    assert_eq!(join_strings(&vec!["a".to_string()], ", "), "a");
    assert_eq!(join_strings(&vec!["a".to_string(), "b".to_string(), "c".to_string()], "-"), "a-b-c");
}

#[test]
fn generated_module_lists_registry() {
    let registry = ContractRegistry {
        operation_count: 2,
        operations: vec![health(), realm()],
        path_count: 2,
        schema_count: 1,
        schemas: vec!["realm-record".to_string()],
        tags: vec!["auth".to_string(), "realm".to_string()],
    };
    let text = render_generated_module(&registry);
    assert!(text.starts_with("/// Generated parameter location metadata.\n"));
    assert!(text.contains("pub const PATH_COUNT: usize = 2;\n"));
    assert!(text.contains("pub const OPERATION_COUNT: usize = 2;\n"));
    assert!(text.contains("pub const SCHEMA_COUNT: usize = 1;\n"));
    assert!(text.contains("pub const TAG_NAMES: &[&str] = &[\n    \"auth\",\n    \"realm\"\n];\n"));
    assert!(text.contains("    pub const SCHEMA_NAMES: &[&str] = &[\n        \"realm-record\"\n    ];\n"));
    assert!(text.contains("    pub type RealmRecord = serde_json::Value;"));
    assert!(text.contains("    pub mod realm {\n        /// Operation identifiers grouped under this API tag.\n        pub const OPERATION_IDS: &[&str] = &[\n            \"update_realm\"\n        ];\n    }"));
    assert!(text.contains(&render_operation_descriptor(&health())));
    assert!(text.ends_with("    }\n}\n"));
}
