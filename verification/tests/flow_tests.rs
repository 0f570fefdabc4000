use jack::auth::begin_authentication;
use jack::auth::complete_authentication;
use jack::auth::AuthStart;
use jack::config::OAuthConfig;
use jack::flow::build_authorize_url;
use jack::flow::build_token_request_body;
use jack::flow::callback_response;
use jack::flow::Flow;
use jack::json::extract_access_token;
use jack::store::CacheToken;
use jack::AuthError;

fn test_config() -> OAuthConfig {
    let pairs = vec![
        ("client_id".to_string(), "cid".to_string()),
        ("client_secret".to_string(), "sec".to_string()),
        ("auth_uri".to_string(), "https://provider.test/auth".to_string()),
        ("token_uri".to_string(), "https://provider.test/token".to_string()),
        ("scope".to_string(), "read write".to_string()),
    ];
    OAuthConfig::from_pairs(&pairs).expect("complete block")
}

#[test]
fn authorize_url_is_built_exactly() {
    let url = build_authorize_url(
        "https://provider.test/auth",
        "ci d",
        &Some("read write".to_string()),
        "STATE",
        "CHAL",
    );
    assert_eq!(
        url,
        "https://provider.test/auth?response_type=code&client_id=ci%20d\
         &redirect_uri=http%3A%2F%2Flocalhost%3A8080&scope=read%20write\
         &state=STATE&code_challenge=CHAL&code_challenge_method=S256"
    );
}

#[test]
fn authorize_url_without_scope_has_no_scope_parameter() {
    let url = build_authorize_url("https://p.test/a", "cid", &None, "S", "C");
    assert_eq!(
        url,
        "https://p.test/a?response_type=code&client_id=cid\
         &redirect_uri=http%3A%2F%2Flocalhost%3A8080&state=S\
         &code_challenge=C&code_challenge_method=S256"
    );
}

#[test]
fn token_request_body_is_built_exactly() {
    let body = build_token_request_body("co/de", "VERIF", "cid", &Some("s&c".to_string()));
    assert_eq!(
        body,
        "grant_type=authorization_code&code=co%2Fde\
         &redirect_uri=http%3A%2F%2Flocalhost%3A8080&client_id=cid\
         &code_verifier=VERIF&client_secret=s%26c"
    );
}

#[test]
fn callback_response_is_the_fixed_page() {
    assert_eq!(
        callback_response(),
        "HTTP/1.1 200 OK\r\ncontent-length: 27\r\n\r\nGo back to your terminal :)"
    );
    assert_eq!("Go back to your terminal :)".len(), 27);
}

#[test]
fn cached_token_short_circuits_the_flow() {
    let mut store = CacheToken::new();
    store.insert("yt", "cached-token");
    let start = begin_authentication(&store, &test_config(), "yt");
    match start {
        AuthStart::CachedToken(t) => assert_eq!(t, "cached-token"),
        AuthStart::StartFlow(_) => panic!("a cached token must not start a flow"),
    }
}

#[test]
fn full_flow_yields_and_caches_the_exchanged_token() {
    let mut store = CacheToken::new();
    let cfg = test_config();
    let flow = match begin_authentication(&store, &cfg, "yt") {
        AuthStart::StartFlow(f) => f,
        AuthStart::CachedToken(_) => panic!("the store is empty"),
    };
    let state = match &flow {
        Flow::AwaitingUserConsent { attempt, authorize_url } => {
            assert!(authorize_url.starts_with("https://provider.test/auth?response_type=code"));
            assert!(authorize_url.contains(&format!("&state={}", attempt.state)));
            attempt.state.clone()
        },
        _ => panic!("a fresh flow awaits the user"),
    };
    let flow = flow.on_browser_result(false);
    assert!(matches!(flow, Flow::AwaitingCallback { .. }));
    let line = format!("GET /?code=4xCODE&state={} HTTP/1.1", state);
    let flow = flow.on_callback(&line);
    match &flow {
        Flow::Exchanging { token_endpoint, request_body } => {
            assert_eq!(token_endpoint, "https://provider.test/token");
            assert!(request_body.starts_with("grant_type=authorization_code&code=4xCODE"));
            assert!(request_body.contains("&client_id=cid"));
            assert!(request_body.contains("&code_verifier="));
            assert!(request_body.contains("&client_secret=sec"));
        },
        _ => panic!("a good callback leads to the exchange"),
    }
    let flow = flow.on_token_response(200, "{\"access_token\":\"abc123\"}");
    let token = match flow {
        Flow::Done { token } => token,
        _ => panic!("a good response yields the token"),
    };
    assert_eq!(token, "abc123");
    let returned = complete_authentication(&mut store, "yt", &token);
    assert_eq!(returned, "abc123");
    assert_eq!(store.lookup("yt"), Some("abc123".to_string()));
}

#[test]
fn callback_without_code_fails_before_any_exchange() {
    let flow = Flow::begin(&test_config());
    let flow = flow.on_browser_result(true);
    let flow = flow.on_callback("GET /?state=whatever HTTP/1.1");
    assert!(matches!(flow, Flow::Failed { error: AuthError::MalformedRedirect }));
}

#[test]
fn callback_with_foreign_state_fails_before_any_exchange() {
    let flow = Flow::begin(&test_config());
    let flow = flow.on_browser_result(true);
    let flow = flow.on_callback("GET /?code=4xCODE&state=FORGED HTTP/1.1");
    assert!(matches!(flow, Flow::Failed { error: AuthError::StateMismatch }));
}

#[test]
fn missing_token_endpoint_fails_the_exchange_step() {
    let pairs = vec![
        ("client_id".to_string(), "cid".to_string()),
        ("auth_uri".to_string(), "https://p.test/a".to_string()),
    ];
    let cfg = OAuthConfig::from_pairs(&pairs).expect("minimal block");
    let flow = Flow::begin(&cfg);
    let state = match &flow {
        Flow::AwaitingUserConsent { attempt, .. } => attempt.state.clone(),
        _ => panic!("a fresh flow awaits the user"),
    };
    let flow = flow.on_browser_result(true);
    let flow = flow.on_callback(&format!("GET /?code=C&state={} HTTP/1.1", state));
    assert!(matches!(flow, Flow::Failed { error: AuthError::TokenExchangeFailed }));
}

#[test]
fn non_success_status_fails_the_exchange() {
    let flow = Flow::Exchanging {
        token_endpoint: "https://p.test/t".to_string(),
        request_body: "grant_type=authorization_code".to_string(),
    };
    let flow = flow.on_token_response(400, "{\"error\":\"invalid_grant\"}");
    assert!(matches!(flow, Flow::Failed { error: AuthError::TokenExchangeFailed }));
}

#[test]
fn response_without_access_token_fails_the_exchange() {
    let flow = Flow::Exchanging {
        token_endpoint: "https://p.test/t".to_string(),
        request_body: "grant_type=authorization_code".to_string(),
    };
    let flow = flow.on_token_response(200, "{\"token_type\":\"Bearer\"}");
    assert!(matches!(flow, Flow::Failed { error: AuthError::TokenExchangeFailed }));
}

#[test]
fn access_token_is_extracted_from_a_realistic_response() {
    let body = "{\n  \"access_token\": \"ya29.a0AfH6\",\n  \"expires_in\": 3599,\n  \
                \"refresh_token\": \"1//0gabc\",\n  \"scope\": \"https://read.test\",\n  \
                \"token_type\": \"Bearer\"\n}";
    assert_eq!(extract_access_token(body), Some("ya29.a0AfH6".to_string()));
}

#[test]
fn access_token_string_escapes_are_decoded() {
    let body = "{\"access_token\":\"a\\\"b\\\\c\\n\\u0041\"}";
    assert_eq!(extract_access_token(body), Some("a\"b\\c\nA".to_string()));
}

#[test]
fn later_access_token_members_are_found_too() {
    let body = "{\"token_type\":\"Bearer\",\"expires_in\":3599,\"access_token\":\"tok\"}";
    assert_eq!(extract_access_token(body), Some("tok".to_string()));
}

#[test]
fn malformed_or_foreign_bodies_yield_no_token() {
    assert_eq!(extract_access_token(""), None);
    assert_eq!(extract_access_token("not json"), None);
    assert_eq!(extract_access_token("[1,2,3]"), None);
    assert_eq!(extract_access_token("{\"access_token\":42}"), None);
    assert_eq!(extract_access_token("{\"access_token\":\"unterminated"), None);
    assert_eq!(extract_access_token("{\"nested\":{\"access_token\":\"x\"}}"), None);
}

#[test]
fn error_messages_name_their_failure() {
    assert_eq!(AuthError::StoreUnavailable.message(), "token cache unavailable");
    assert_eq!(
        AuthError::MalformedRedirect.message(),
        "redirect callback carried no authorization code"
    );
    assert_eq!(
        AuthError::StateMismatch.message(),
        "redirect callback carried a foreign state value"
    );
    assert_eq!(
        AuthError::TokenExchangeFailed.message(),
        "token endpoint did not yield an access token"
    );
}
