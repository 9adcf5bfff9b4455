//! The authorization flow's decisions: discovery, PKCE, the callback with
//! its CSRF check, the acquisition policy, and the credential store.

use base64::Engine;
use sha2::Digest;

use relay::json::parse_json_text;
use relay::oauth::{AcquisitionPlan, CallbackError, build_authorize_url,
    build_authorize_url_with_scope, build_scope_param, exchange_code_form, extract_port_from_uri,
    make_redirect_uri, oidc_discovery_url, oauth_discovery_url, origin_of, parse_callback,
    parse_auth_server_metadata, parse_registration_response, parse_resource_metadata,
    parse_token_response, parse_www_authenticate, refresh_form, registration_body,
    stored_token_from_response, TokenResponse};
use relay::pkce::{generate_pkce, generate_state, generate_verifier, pkce_challenge};
use relay::store::{AuthStore, StoredClient, StoredToken, store_from_json, store_to_json};

#[test]
fn test_parse_www_authenticate_extracts_metadata_url() {
    let r = parse_www_authenticate("Bearer realm=\"x\", resource_metadata=\"https://a/b\"");
    assert_eq!(r.as_deref(), Some("https://a/b"));
}

#[test]
fn test_parse_www_authenticate_requires_bearer() {
    assert!(parse_www_authenticate("Basic realm=\"x\", resource_metadata=\"https://a/b\"").is_none());
    assert!(parse_www_authenticate("").is_none());
    let ci = parse_www_authenticate("bEaReR realm=\"x\", resource_metadata=\"https://c/d\"");
    assert_eq!(ci.as_deref(), Some("https://c/d"));
}

#[test]
fn test_pkce_challenge_is_sha256_base64url() {
    let verifier = "dBjftJeZ4CVP-mB92K27uhbUJU1p1r_wW1gFWFOEjXk";
    let digest = sha2::Sha256::digest(verifier.as_bytes());
    let expected = base64::engine::general_purpose::URL_SAFE_NO_PAD.encode(digest);
    assert_eq!(pkce_challenge(verifier), expected);
}

#[test]
fn test_pkce_verifier_length_and_charset() {
    let v = generate_verifier();
    assert_eq!(v.len(), 64);
    assert!(43 <= v.len() && v.len() <= 128);
    assert!(v.chars().all(|c| c.is_ascii_alphanumeric() || "-._~".contains(c)));
    let (verifier, challenge) = generate_pkce();
    let digest = sha2::Sha256::digest(verifier.as_bytes());
    let expected = base64::engine::general_purpose::URL_SAFE_NO_PAD.encode(digest);
    assert_eq!(challenge, expected);
}

#[test]
fn test_state_token_shape() {
    let s = generate_state();
    assert_eq!(s.len(), 16);
    assert!(s.chars().all(|c| c.is_ascii_hexdigit()));
}

#[test]
fn test_parse_callback_accepts_matching_state() {
    let r = parse_callback("GET /callback?code=ABC&state=S1 HTTP/1.1", "S1");
    assert_eq!(r.unwrap(), "ABC");
}

#[test]
fn test_parse_callback_rejects_state_mismatch() {
    let r = parse_callback("GET /callback?code=ABC&state=S1 HTTP/1.1", "S2");
    assert!(matches!(r, Err(CallbackError::StateMismatch)));
}

#[test]
fn test_parse_callback_rejects_missing_state() {
    let r = parse_callback("GET /callback?code=ABC HTTP/1.1", "S1");
    assert!(matches!(r, Err(CallbackError::MissingState)));
}

#[test]
fn test_parse_callback_surfaces_denial() {
    let r = parse_callback(
        "GET /callback?error=access_denied&error_description=no HTTP/1.1",
        "S1",
    );
    match r {
        Err(CallbackError::Denied { error, description }) => {
            assert_eq!(error, "access_denied");
            assert_eq!(description, "no");
        }
        _ => panic!("expected the server-reported denial"),
    }
}

#[test]
fn test_parse_callback_decodes_percent_escapes() {
    let r = parse_callback("GET /cb?code=A%20B&state=S%31 HTTP/1.1", "S1");
    assert_eq!(r.unwrap(), "A B");
}

#[test]
fn test_parse_callback_needs_query() {
    assert!(matches!(parse_callback("GET /callback HTTP/1.1", "S"), Err(CallbackError::NoQuery)));
    assert!(matches!(parse_callback("", "S"), Err(CallbackError::MissingPath)));
}

#[test]
fn test_extract_port_from_uri_cases() {
    assert_eq!(extract_port_from_uri("http://localhost:12345/callback"), Some(12345));
    assert_eq!(extract_port_from_uri("http://localhost:80"), Some(80));
    assert_eq!(extract_port_from_uri("http://localhost/callback"), None);
    assert_eq!(extract_port_from_uri("no scheme"), None);
    assert_eq!(extract_port_from_uri("http://h:99999/x"), None);
}

#[test]
fn test_make_redirect_uri_round_trips_port() {
    let uri = make_redirect_uri(43121);
    assert_eq!(uri, "http://localhost:43121/callback");
    assert_eq!(extract_port_from_uri(&uri), Some(43121));
}

#[test]
fn test_acquisition_policy() {
    let stored = StoredClient {
        client_id: "c1".to_string(),
        client_secret: None,
        redirect_uri: Some("http://localhost:7777/callback".to_string()),
    };
    match relay::oauth::plan_client_acquisition(Some(&stored)) {
        AcquisitionPlan::ReusePort { port, redirect_uri, client } => {
            assert_eq!(port, 7777);
            assert_eq!(redirect_uri, "http://localhost:7777/callback");
            assert_eq!(client.client_id, "c1");
        }
        _ => panic!("a stored client with a usable port must be reused"),
    }

    let no_uri = StoredClient {
        client_id: "c2".to_string(),
        client_secret: None,
        redirect_uri: None,
    };
    assert!(matches!(
        relay::oauth::plan_client_acquisition(Some(&no_uri)),
        AcquisitionPlan::Register
    ));
    assert!(matches!(relay::oauth::plan_client_acquisition(None), AcquisitionPlan::Register));
}

#[test]
fn test_discovery_urls() {
    assert_eq!(
        oidc_discovery_url("https://auth.example"),
        "https://auth.example/.well-known/openid-configuration"
    );
    assert_eq!(
        oauth_discovery_url("https://auth.example"),
        "https://auth.example/.well-known/oauth-authorization-server"
    );
    assert_eq!(origin_of("https://h.example/path/x/"), "https://h.example");
    assert_eq!(origin_of("https://h.example"), "https://h.example");
}

#[test]
fn test_authorize_url_shapes() {
    let url = build_authorize_url_with_scope("https://a/authorize", "cid", "http://localhost:1/cb", "read write", "st", "ch");
    assert_eq!(
        url,
        "https://a/authorize?client_id=cid&redirect_uri=http%3A%2F%2Flocalhost%3A1%2Fcb&response_type=code&scope=read%20write&state=st&code_challenge=ch&code_challenge_method=S256"
    );
    let url2 = build_authorize_url("https://a/authorize", "cid", "u", "st", "ch");
    assert!(url2.contains("response_type=code&state=st"));
    assert!(!url2.contains("scope="));
}

#[test]
fn test_scope_param_defaults() {
    assert_eq!(build_scope_param(&vec![]), "read write");
    assert_eq!(build_scope_param(&vec!["a".to_string(), "b".to_string()]), "a b");
}

#[test]
fn test_form_bodies() {
    let f = exchange_code_form("c0de", "cid", "http://localhost:1/cb", "ver", Some("sec"));
    assert_eq!(
        f,
        "grant_type=authorization_code&code=c0de&client_id=cid&redirect_uri=http%3A%2F%2Flocalhost%3A1%2Fcb&code_verifier=ver&client_secret=sec"
    );
    let f2 = refresh_form("rt", "cid", None);
    assert_eq!(f2, "grant_type=refresh_token&refresh_token=rt&client_id=cid");
}

#[test]
fn test_registration_body_shape() {
    let body = registration_body("http://localhost:5/cb").render_string();
    assert_eq!(
        body,
        "{\"client_name\":\"relay\",\"redirect_uris\":[\"http://localhost:5/cb\"],\"grant_types\":[\"authorization_code\",\"refresh_token\"],\"response_types\":[\"code\"]}"
    );
}

#[test]
fn test_metadata_parsers() {
    let rm = parse_json_text(
        "{\"resource\":\"https://r\",\"authorization_servers\":[\"https://a\"],\"scopes_supported\":[\"s1\",\"s2\"]}",
    ).unwrap();
    let m = parse_resource_metadata(&rm).unwrap();
    assert_eq!(m.resource, "https://r");
    assert_eq!(m.authorization_servers, vec!["https://a"]);
    assert_eq!(m.scopes_supported, vec!["s1", "s2"]);

    let rm2 = parse_json_text("{\"resource\":\"r\",\"authorization_servers\":[]}").unwrap();
    let m2 = parse_resource_metadata(&rm2).unwrap();
    assert!(m2.authorization_servers.is_empty());
    assert!(m2.scopes_supported.is_empty());

    let am = parse_json_text(
        "{\"issuer\":\"https://a\",\"authorization_endpoint\":\"https://a/auth\",\"token_endpoint\":\"https://a/tok\",\"registration_endpoint\":\"https://a/reg\"}",
    ).unwrap();
    let a = parse_auth_server_metadata(&am).unwrap();
    assert_eq!(a.issuer, "https://a");
    assert_eq!(a.registration_endpoint.as_deref(), Some("https://a/reg"));

    let reg = parse_json_text("{\"client_id\":\"c\",\"client_secret\":null}").unwrap();
    let r = parse_registration_response(&reg).unwrap();
    assert_eq!(r.client_id, "c");
    assert!(r.client_secret.is_none());

    let tok = parse_json_text(
        "{\"access_token\":\"at\",\"token_type\":\"Bearer\",\"expires_in\":3600,\"refresh_token\":\"rt\"}",
    ).unwrap();
    let t = parse_token_response(&tok).unwrap();
    assert_eq!(t.access_token, "at");
    assert_eq!(t.expires_in, Some(3600));
}

#[test]
fn test_stored_token_expiry_is_absolute() {
    let tr = TokenResponse {
        access_token: "at".to_string(),
        token_type: "Bearer".to_string(),
        expires_in: Some(3600),
        refresh_token: None,
    };
    let st = stored_token_from_response(&tr, 1_000_000);
    assert_eq!(st.expires_at, Some(1_003_600));
    assert_eq!(st.access_token, "at");

    let tr2 = TokenResponse {
        access_token: "at".to_string(),
        token_type: "Bearer".to_string(),
        expires_in: None,
        refresh_token: None,
    };
    assert_eq!(stored_token_from_response(&tr2, 5).expires_at, None);
}

#[test]
fn test_store_operations() {
    let mut st = AuthStore::new();
    assert!(st.get_token("srv").is_none());
    st.set_token("srv".to_string(), StoredToken {
        access_token: "a1".to_string(),
        refresh_token: None,
        expires_at: None,
        token_type: "Bearer".to_string(),
    });
    assert_eq!(st.get_token("srv").unwrap().access_token, "a1");
    st.set_token("srv".to_string(), StoredToken {
        access_token: "a2".to_string(),
        refresh_token: None,
        expires_at: None,
        token_type: "Bearer".to_string(),
    });
    assert_eq!(st.get_token("srv").unwrap().access_token, "a2");
    assert_eq!(st.tokens.len(), 1);
    st.remove_token("srv");
    assert!(st.get_token("srv").is_none());
}

#[test]
fn test_token_expiry_window() {
    let mut st = AuthStore::new();
    st.set_token("srv".to_string(), StoredToken {
        access_token: "a".to_string(),
        refresh_token: None,
        expires_at: Some(1000),
        token_type: "Bearer".to_string(),
    });
    assert!(st.is_token_expired_at("srv", 1000));
    assert!(st.is_token_expired_at("srv", 700));
    assert!(!st.is_token_expired_at("srv", 699));
    assert!(!st.is_token_expired_at("other", 5000));
}

#[test]
fn test_credential_store_round_trip() {
    let mut st = AuthStore::new();
    st.set_token("srv".to_string(), StoredToken {
        access_token: "tok".to_string(),
        refresh_token: Some("ref".to_string()),
        expires_at: Some(123456),
        token_type: "Bearer".to_string(),
    });
    st.set_client("https://auth.example".to_string(), StoredClient {
        client_id: "cid".to_string(),
        client_secret: Some("stored-client-credential".to_string()),
        redirect_uri: Some("http://localhost:7777/callback".to_string()),
    });

    let text = store_to_json(&st).render_string();
    let parsed = parse_json_text(&text).unwrap();
    let st2 = store_from_json(&parsed).unwrap();
    assert!(st2.check_wf());

    assert_eq!(st2.tokens.len(), 1);
    assert_eq!(st2.tokens[0].0, "srv");
    let t = &st2.tokens[0].1;
    assert_eq!(t.access_token, "tok");
    assert_eq!(t.refresh_token.as_deref(), Some("ref"));
    assert_eq!(t.expires_at, Some(123456));
    assert_eq!(t.token_type, "Bearer");

    assert_eq!(st2.clients.len(), 1);
    assert_eq!(st2.clients[0].0, "https://auth.example");
    let c = &st2.clients[0].1;
    assert_eq!(c.client_id, "cid");
    assert_eq!(c.client_secret.as_deref(), Some("stored-client-credential"));
    assert_eq!(c.redirect_uri.as_deref(), Some("http://localhost:7777/callback"));

    let text2 = store_to_json(&st2).render_string();
    assert_eq!(text, text2);
}
