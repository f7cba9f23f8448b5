use ferriskey_sdk::login::{login_request, login_token, parse_credentials, render_credentials, LoginInvocation, SavedCredentials};
use ferriskey_sdk::maps::StringMap;
use ferriskey_sdk::transport::SdkResponse;

fn login() -> LoginInvocation {
    LoginInvocation {
        base_url: "http://127.0.0.1:8080/".to_string(),
        username: "admin".to_string(),
        password: "p@ss word".to_string(),
        realm_name: "master".to_string(),
    }
}

#[test]
fn login_posts_a_password_grant_to_the_realm_token_endpoint() {
    let request = login_request(&login());
    assert_eq!(request.method, "POST");
    assert_eq!(request.path, "http://127.0.0.1:8080/realms/master/protocol/openid-connect/token");
    assert_eq!(request.headers.get("content-type"), Some(&"application/x-www-form-urlencoded".to_string()));
    assert_eq!(request.headers.len(), 1);
    assert_eq!(
        request.body.as_deref(),
        Some(&b"grant_type=password&client_id=admin-cli&username=admin&password=p%40ss%20word"[..])
    );
    assert!(!request.requires_auth);
}

#[test]
fn realm_names_are_encoded_in_the_token_path() {
    let mut l = login();
    l.base_url = "https://id.example".to_string();
    l.realm_name = "my realm".to_string();
    assert_eq!(login_request(&l).path, "https://id.example/realms/my%20realm/protocol/openid-connect/token");
}

fn answer(status: u16, body: &[u8]) -> SdkResponse {
    SdkResponse { body: body.to_vec(), headers: StringMap::new(), status }
}

#[test]
fn access_token_is_read_from_a_successful_answer() {
    let ok = answer(200, br#"{"access_token":"abc.def","expires_in":300}"#);
    assert_eq!(login_token(&ok), Some("abc.def".to_string()));
    assert_eq!(login_token(&answer(401, br#"{"access_token":"abc"}"#)), None);
    assert_eq!(login_token(&answer(200, b"not-json")), None);
    assert_eq!(login_token(&answer(200, br#"{"access_token":42}"#)), None);
    assert_eq!(login_token(&answer(200, br#"["access_token"]"#)), None);
    assert_eq!(login_token(&answer(200, br#"{"token_type":"Bearer"}"#)), None);
}

#[test]
fn credentials_file_text() {
    let c = SavedCredentials {
        base_url: "http://127.0.0.1:8080".to_string(),
        bearer_token: Some("to\"k\\en".to_string()),
    };
    let text = render_credentials(&c);
    assert_eq!(text, "base_url = \"http://127.0.0.1:8080\"\nbearer_token = \"to\\\"k\\\\en\"\n");
    let no_token = SavedCredentials { base_url: "http://x".to_string(), bearer_token: None };
    assert_eq!(render_credentials(&no_token), "base_url = \"http://x\"\n");
}

#[test]
fn saved_credentials_read_back_what_was_written() {
    for c in [
        SavedCredentials { base_url: "http://127.0.0.1:8080".to_string(), bearer_token: Some("tok".to_string()) },
        SavedCredentials { base_url: "http://x/\"q\"".to_string(), bearer_token: Some("a\\b\nc".to_string()) },
        SavedCredentials { base_url: "http://x".to_string(), bearer_token: None },
    ] {
        assert_eq!(parse_credentials(&render_credentials(&c)), Some(c.clone()));
    }
}

#[test]
fn credentials_file_is_read_leniently() {
    let text = "# saved by login\nbearer_token = \"t1\"\nbase_url = \"http://a\"\nbase_url = \"http://b\"\n";
    assert_eq!(
        parse_credentials(text),
        Some(SavedCredentials { base_url: "http://a".to_string(), bearer_token: Some("t1".to_string()) })
    );
    assert_eq!(parse_credentials("bearer_token = \"t1\"\n"), None);
    assert_eq!(parse_credentials(""), None);
    assert_eq!(
        parse_credentials("base_url = \"http://a\""),
        Some(SavedCredentials { base_url: "http://a".to_string(), bearer_token: None })
    );
}
