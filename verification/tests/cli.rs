use ferriskey_sdk::cli::{
    body_source, build_command, command_name, operation_command, parameter_help, parse_command, parse_login,
    parse_matches, parse_operation_input, render_output, response_payload, BodySource, CliConfig, CliError,
    MatchedArgs, OutputFormat, ParsedCommand, ResponsePayload,
};
use ferriskey_sdk::document::JsonValue;
use ferriskey_sdk::login::SavedCredentials;
use ferriskey_sdk::config::AuthStrategy;
use ferriskey_sdk::contract::{
    OperationDescriptorSeed, ParameterDescriptorSeed, ParameterLocationSeed, RequestBodyDescriptorSeed,
};
use ferriskey_sdk::encoding::DecodedResponse;
use ferriskey_sdk::maps::{MultiValueMap, StringMap};

fn parameter(location: ParameterLocationSeed, name: &str, required: bool) -> ParameterDescriptorSeed {
    ParameterDescriptorSeed { location, name: name.to_string(), required, description: None }
}

fn operation(id: &str, tag: &str, parameters: Vec<ParameterDescriptorSeed>, body: Option<(bool, bool)>) -> OperationDescriptorSeed {
    OperationDescriptorSeed {
        has_request_body: body.is_some(),
        method: "POST".to_string(),
        operation_id: id.to_string(),
        parameters,
        path: "/p".to_string(),
        primary_response_schema: None,
        primary_success_status: 200,
        request_body: body.map(|(required, nullable)| RequestBodyDescriptorSeed {
            content_type: Some("application/json".to_string()),
            nullable,
            required,
            schema_name: None,
        }),
        requires_auth: false,
        responses: vec![],
        tag: tag.to_string(),
        summary: None,
        description: None,
    }
}

fn operations() -> Vec<OperationDescriptorSeed> {
    vec![
        operation(
            "update_realm",
            "realm",
            vec![
                parameter(ParameterLocationSeed::Header, "x_trace", false),
                parameter(ParameterLocationSeed::Path, "realm_name", true),
                parameter(ParameterLocationSeed::Query, "tag", false),
            ],
            Some((true, false)),
        ),
        operation("get_openid_configuration", "auth", vec![], None),
        operation("get_realms", "realm", vec![], Some((true, true))),
    ]
}

#[test]
fn output_format_parses_pretty_only() {
    assert_eq!(OutputFormat::from_str("pretty"), OutputFormat::Pretty);
    assert_eq!(OutputFormat::from_str("json"), OutputFormat::Json);
    assert_eq!(OutputFormat::from_str("PRETTY"), OutputFormat::Json);
}

#[test]
fn cli_config_converts_to_sdk_config() {
    let with_token = CliConfig {
        base_url: "http://127.0.0.1:4010".to_string(),
        bearer_token: Some("cli-token".to_string()),
        output_format: OutputFormat::Json,
    };
    let config = with_token.to_sdk_config();
    assert_eq!(config.base_url(), "http://127.0.0.1:4010");
    assert_eq!(config.auth(), &AuthStrategy::Bearer("cli-token".to_string()));
    let without = CliConfig { bearer_token: None, ..with_token };
    assert_eq!(without.to_sdk_config().auth(), &AuthStrategy::NoAuth);
}

#[test]
fn names_and_help_texts() {
    assert_eq!(command_name("update_realm"), "update-realm");
    assert_eq!(command_name("plain"), "plain");
    assert_eq!(parameter_help(ParameterLocationSeed::Header), "Header parameter");
    assert_eq!(parameter_help(ParameterLocationSeed::Path), "Path parameter");
    assert_eq!(parameter_help(ParameterLocationSeed::Query), "Query parameter");
}

#[test]
fn operation_command_has_one_argument_per_parameter_and_a_body() {
    let command = operation_command(&operations()[0]);
    assert_eq!(command.name, "update-realm");
    let ids: Vec<&str> = command.args.iter().map(|a| a.id.as_str()).collect();
    assert_eq!(ids, vec!["x_trace", "realm_name", "tag", "body"]);
    assert_eq!(command.args[1].long, "realm-name");
    assert!(command.args[1].required);
    assert!(!command.args[0].required);
    assert!(command.args[2].append);
    assert!(!command.args[1].append);
    assert_eq!(command.args[2].help, "Query parameter");
    assert_eq!(command.args[3].value_name, "JSON_OR_@FILE");
    assert!(command.args[3].required);
    let nullable = operation_command(&operations()[2]);
    assert!(!nullable.args[0].required);
    assert!(operation_command(&operations()[1]).args.is_empty());
}

#[test]
fn command_tree_groups_operations_by_tag() {
    let tags = vec!["auth".to_string(), "realm".to_string()];
    let command = build_command(&operations(), &tags);
    assert_eq!(command.name, "ferriskey-cli");
    assert_eq!(command.about, "FerrisKey CLI");
    let globals: Vec<&str> = command.args.iter().map(|a| a.id.as_str()).collect();
    assert_eq!(globals, vec!["base-url", "bearer-token", "output"]);
    assert!(!command.args[0].required);
    assert!(command.args[0].global);
    assert!(command.args[1].global);
    assert_eq!(command.login.name, "login");
    let login_args: Vec<&str> = command.login.args.iter().map(|a| a.id.as_str()).collect();
    assert_eq!(login_args, vec!["username", "password", "realm-name"]);
    assert!(command.login.args[0].required);
    assert!(command.login.args[1].required);
    assert!(!command.login.args[2].required);
    assert_eq!(command.login.args[2].default_value.as_deref(), Some("master"));
    assert_eq!(command.args[2].default_value.as_deref(), Some("json"));
    assert_eq!(command.args[2].possible_values, vec!["json".to_string(), "pretty".to_string()]);
    assert_eq!(command.tags.len(), 2);
    assert_eq!(command.tags[0].name, "auth");
    let auth_ops: Vec<&str> = command.tags[0].operations.iter().map(|o| o.name.as_str()).collect();
    assert_eq!(auth_ops, vec!["get-openid-configuration"]);
    let realm_ops: Vec<&str> = command.tags[1].operations.iter().map(|o| o.name.as_str()).collect();
    assert_eq!(realm_ops, vec!["update-realm", "get-realms"]);
}

fn matched(values: MultiValueMap) -> MatchedArgs {
    MatchedArgs {
        base_url: Some("http://127.0.0.1:4010".to_string()),
        bearer_token: Some("cli-token".to_string()),
        output: Some("pretty".to_string()),
        tag: Some("realm".to_string()),
        operation: Some("update-realm".to_string()),
        values,
        body: Some(b"{\"display_name\":\"example\"}".to_vec()),
    }
}

fn values() -> MultiValueMap {
    let mut values = MultiValueMap::new();
    values.insert("realm_name".to_string(), vec!["test".to_string()]);
    values.insert("tag".to_string(), vec!["a".to_string(), "b".to_string()]);
    values.insert("x_trace".to_string(), vec!["t1".to_string(), "t2".to_string()]);
    values.insert("unknown".to_string(), vec!["u".to_string()]);
    values
}

#[test]
fn parsed_arguments_become_an_invocation() {
    let invocation = parse_matches(matched(values()), &None, &operations()).expect("invocation");
    assert_eq!(invocation.operation_id, "update_realm");
    assert_eq!(invocation.config.base_url, "http://127.0.0.1:4010");
    assert_eq!(invocation.config.bearer_token.as_deref(), Some("cli-token"));
    assert_eq!(invocation.config.output_format, OutputFormat::Pretty);
    assert_eq!(invocation.input.path_params.get("realm_name"), Some(&"test".to_string()));
    assert_eq!(invocation.input.headers.get("x_trace"), Some(&"t1".to_string()));
    assert_eq!(invocation.input.query_params.get("tag"), Some(&vec!["a".to_string(), "b".to_string()]));
    assert_eq!(invocation.input.query_params.get("unknown"), None);
    assert_eq!(invocation.input.body.as_deref(), Some(&b"{\"display_name\":\"example\"}"[..]));
}

#[test]
fn body_is_dropped_for_operations_without_one() {
    let mut m = matched(MultiValueMap::new());
    m.operation = Some("get-openid-configuration".to_string());
    let invocation = parse_matches(m, &None, &operations()).expect("invocation");
    assert_eq!(invocation.operation_id, "get_openid_configuration");
    assert_eq!(invocation.input.body, None);
    assert_eq!(invocation.config.output_format, OutputFormat::Pretty);
}

#[test]
fn parse_errors_by_case() {
    let mut m = matched(MultiValueMap::new());
    m.base_url = None;
    assert!(matches!(parse_matches(m, &None, &operations()), Err(CliError::MissingRequiredArgument(msg)) if msg == "missing required argument --base-url"));
    let mut m = matched(MultiValueMap::new());
    m.output = None;
    assert!(matches!(parse_matches(m, &None, &operations()), Err(CliError::MissingRequiredArgument(msg)) if msg == "missing required argument --output"));
    let mut m = matched(MultiValueMap::new());
    m.tag = None;
    assert!(matches!(parse_matches(m, &None, &operations()), Err(CliError::MissingSubcommand(msg)) if msg == "an API tag is required"));
    let mut m = matched(MultiValueMap::new());
    m.operation = None;
    assert!(matches!(parse_matches(m, &None, &operations()), Err(CliError::MissingSubcommand(msg)) if msg == "an operation is required"));
    let mut m = matched(MultiValueMap::new());
    m.operation = Some("no-such-thing".to_string());
    assert!(matches!(parse_matches(m, &None, &operations()), Err(CliError::UnknownOperation { operation_id }) if operation_id == "no_such_thing"));
}

#[test]
fn operation_input_keeps_first_value_for_single_parameters() {
    let input = parse_operation_input(&operations()[0], &values(), None);
    assert_eq!(input.headers.len(), 1);
    assert_eq!(input.path_params.len(), 1);
    assert_eq!(input.query_params.len(), 1);
    assert_eq!(input.body, None);
    let empty = parse_operation_input(&operations()[0], &MultiValueMap::new(), Some(vec![1, 2]));
    assert_eq!(empty.headers.len(), 0);
    assert_eq!(empty.body, Some(vec![1, 2]));
}

#[test]
fn body_values_name_a_file_or_hold_the_body() {
    assert_eq!(body_source("@payload.json"), BodySource::File("payload.json".to_string()));
    assert_eq!(body_source("{\"a\":1}"), BodySource::Inline(b"{\"a\":1}".to_vec()));
    assert_eq!(body_source(""), BodySource::Inline(vec![]));
    assert_eq!(body_source("@"), BodySource::File(String::new()));
}

fn decoded(raw: &[u8]) -> DecodedResponse {
    DecodedResponse { headers: StringMap::new(), json_body: None, raw_body: raw.to_vec(), schema_name: None, status: 200 }
}

#[test]
fn response_payload_by_case() {
    assert_eq!(response_payload(&decoded(b"")), ResponsePayload::Null);
    assert_eq!(response_payload(&decoded(b"plain")), ResponsePayload::Text("plain".to_string()));
    assert_eq!(response_payload(&decoded(&[0x61, 0xff])), ResponsePayload::Text("a\u{fffd}".to_string()));
    let mut with_json = decoded(b"{}");
    with_json.json_body = Some(JsonValue::Object(vec![]));
    assert_eq!(response_payload(&with_json), ResponsePayload::Json);
}

fn saved() -> Option<SavedCredentials> {
    Some(SavedCredentials {
        base_url: "http://saved.example:8080".to_string(),
        bearer_token: Some("saved-token".to_string()),
    })
}

#[test]
fn saved_credentials_fill_in_base_url_and_token() {
    let mut m = matched(values());
    m.base_url = None;
    m.bearer_token = None;
    let invocation = parse_matches(m, &saved(), &operations()).expect("invocation");
    assert_eq!(invocation.config.base_url, "http://saved.example:8080");
    assert_eq!(invocation.config.bearer_token.as_deref(), Some("saved-token"));
}

#[test]
fn explicit_arguments_override_saved_credentials() {
    let invocation = parse_matches(matched(values()), &saved(), &operations()).expect("invocation");
    assert_eq!(invocation.config.base_url, "http://127.0.0.1:4010");
    assert_eq!(invocation.config.bearer_token.as_deref(), Some("cli-token"));
    let mut m = matched(values());
    m.base_url = Some("http://different-server:8080".to_string());
    m.bearer_token = None;
    let invocation = parse_matches(m, &saved(), &operations()).expect("invocation");
    assert_eq!(invocation.config.base_url, "http://different-server:8080");
    assert_eq!(invocation.config.bearer_token.as_deref(), Some("saved-token"));
}

#[test]
fn saved_credentials_without_token_leave_it_absent() {
    let mut m = matched(values());
    m.base_url = None;
    m.bearer_token = None;
    let no_token = Some(SavedCredentials { base_url: "http://s".to_string(), bearer_token: None });
    let invocation = parse_matches(m, &no_token, &operations()).expect("invocation");
    assert_eq!(invocation.config.base_url, "http://s");
    assert_eq!(invocation.config.bearer_token, None);
}

fn login_matches(values: MultiValueMap) -> MatchedArgs {
    MatchedArgs {
        base_url: Some("http://127.0.0.1:8080".to_string()),
        bearer_token: None,
        output: Some("json".to_string()),
        tag: Some("login".to_string()),
        operation: None,
        values,
        body: None,
    }
}

fn login_values(realm: Option<&str>) -> MultiValueMap {
    let mut values = MultiValueMap::new();
    values.insert("username".to_string(), vec!["admin".to_string()]);
    values.insert("password".to_string(), vec!["secret".to_string()]);
    if let Some(r) = realm {
        values.insert("realm-name".to_string(), vec![r.to_string()]);
    }
    values
}

#[test]
fn login_command_is_read_with_default_realm() {
    let parsed = parse_command(login_matches(login_values(None)), &None, &operations()).expect("login");
    match parsed {
        ParsedCommand::Login(l) => {
            assert_eq!(l.base_url, "http://127.0.0.1:8080");
            assert_eq!(l.username, "admin");
            assert_eq!(l.password, "secret");
            assert_eq!(l.realm_name, "master");
        },
        other => panic!("unexpected {:?}", other),
    }
    let parsed = parse_command(login_matches(login_values(Some("staff"))), &None, &operations()).expect("login");
    assert!(matches!(parsed, ParsedCommand::Login(l) if l.realm_name == "staff"));
}

#[test]
fn login_errors_by_case() {
    let mut m = login_matches(login_values(None));
    m.base_url = None;
    assert!(matches!(parse_login(&m, &None), Err(CliError::MissingRequiredArgument(msg)) if msg == "missing required argument --base-url"));
    let l = parse_login(&m, &saved()).expect("saved base url");
    assert_eq!(l.base_url, "http://saved.example:8080");
    let mut values = MultiValueMap::new();
    values.insert("password".to_string(), vec!["secret".to_string()]);
    assert!(matches!(parse_login(&login_matches(values), &None), Err(CliError::MissingRequiredArgument(msg)) if msg == "missing required argument --username"));
    let mut values = MultiValueMap::new();
    values.insert("username".to_string(), vec!["admin".to_string()]);
    assert!(matches!(parse_login(&login_matches(values), &None), Err(CliError::MissingRequiredArgument(msg)) if msg == "missing required argument --password"));
}

#[test]
fn other_commands_are_operation_invocations() {
    let parsed = parse_command(matched(values()), &None, &operations()).expect("invocation");
    assert!(matches!(parsed, ParsedCommand::Invoke(inv) if inv.operation_id == "update_realm"));
    let mut m = matched(values());
    m.operation = None;
    assert!(matches!(parse_command(m, &None, &operations()), Err(CliError::MissingSubcommand(msg)) if msg == "an operation is required"));
}

#[test]
fn output_is_rendered_as_structured_json() {
    let mut response = decoded(b"{\"a\":1}");
    response.json_body = Some(JsonValue::Object(vec![ferriskey_sdk::document::JsonMember {
        key: "a".to_string(),
        value: JsonValue::Number("1".to_string()),
    }]));
    response.schema_name = Some("Realm".to_string());
    let compact = render_output("get_realm", &response, OutputFormat::Json).expect("render");
    assert_eq!(compact, r#"{"operation_id":"get_realm","response":{"a":1},"schema_name":"Realm","status":200}"#);
    let pretty = render_output("get_realm", &response, OutputFormat::Pretty).expect("render");
    assert_eq!(
        pretty,
        "{\n  \"operation_id\": \"get_realm\",\n  \"response\": {\n    \"a\": 1\n  },\n  \"schema_name\": \"Realm\",\n  \"status\": 200\n}"
    );
    let text = render_output("ping", &decoded(b"pong"), OutputFormat::Json).expect("render");
    assert_eq!(text, r#"{"operation_id":"ping","response":"pong","schema_name":null,"status":200}"#);
    let empty = render_output("ping", &decoded(b""), OutputFormat::Json).expect("render");
    assert_eq!(empty, r#"{"operation_id":"ping","response":null,"schema_name":null,"status":200}"#);
}
