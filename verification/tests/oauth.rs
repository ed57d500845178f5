use base64::Engine;
use gloss::json::{JsonNumber, JsonValue};
use gloss::oauth::{
    after_read, after_refresh, authorization_query, callback_response, claims_bytes,
    claims_segment, clean_error_detail, error_html, exchange_form, oauth_error_detail,
    parse_callback_request, pkce_challenge, prepare_login, random_urlsafe, status,
    token_from_exchange, token_from_refresh, token_http_error, token_is_fresh, AuthStatus,
    OAuthToken, ReadStep, TokenExchangePayload, TokenRefreshPayload,
};

fn to_json(value: &serde_json::Value) -> JsonValue {
    match value {
        serde_json::Value::Null => JsonValue::Null,
        serde_json::Value::Bool(b) => JsonValue::Bool(*b),
        serde_json::Value::Number(n) => {
            JsonValue::Number(JsonNumber { as_i64: n.as_i64(), text: n.to_string() })
        }
        serde_json::Value::String(s) => JsonValue::String(s.clone()),
        serde_json::Value::Array(items) => JsonValue::Array(items.iter().map(to_json).collect()),
        serde_json::Value::Object(map) => {
            JsonValue::Object(map.iter().map(|(k, v)| (k.clone(), to_json(v))).collect())
        }
    }
}

fn object(entries: Vec<(&str, serde_json::Value)>) -> serde_json::Value {
    let mut map = serde_json::Map::new();
    for (k, v) in entries {
        map.insert(k.to_owned(), v);
    }
    serde_json::Value::Object(map)
}

fn unsigned_test_jwt(claims: &serde_json::Value) -> String {
    let encoded = base64::engine::general_purpose::URL_SAFE_NO_PAD
        .encode(serde_json::to_vec(claims).unwrap());
    format!("header.{encoded}.signature")
}

fn decoded_claims(token: &str) -> Option<JsonValue> {
    let bytes = claims_bytes(token).ok()?;
    let value: serde_json::Value = serde_json::from_slice(&bytes).ok()?;
    Some(to_json(&value))
}

fn sample_token() -> OAuthToken {
    OAuthToken {
        access_token: "old-access".to_owned(),
        refresh_token: "old-refresh".to_owned(),
        expires_at_ms: 5_000,
        account_id: "old-account".to_owned(),
    }
}

#[test]
fn callback_requires_matching_state() {
    let request = "GET /auth/callback?code=abc&state=wrong HTTP/1.1\r\n\r\n";
    assert!(parse_callback_request(request, "expected").is_err());
}

#[test]
fn callback_extracts_code() {
    let request = "GET /auth/callback?code=abc&state=expected HTTP/1.1\r\n\r\n";
    assert_eq!(parse_callback_request(request, "expected").unwrap(), "abc");
}

#[test]
fn callback_refusals_name_the_reason() {
    assert_eq!(
        parse_callback_request("", "s").unwrap_err(),
        "The ChatGPT sign-in callback was empty."
    );
    assert_eq!(
        parse_callback_request("POST /auth/callback HTTP/1.1\r\n", "s").unwrap_err(),
        "The ChatGPT sign-in callback used an unsupported method."
    );
    assert_eq!(
        parse_callback_request("GET\r\n", "s").unwrap_err(),
        "The ChatGPT sign-in callback had no URL."
    );
    assert_eq!(
        parse_callback_request("GET /other?state=s&code=c HTTP/1.1\r\n", "s").unwrap_err(),
        "The ChatGPT sign-in callback path was invalid."
    );
    assert_eq!(
        parse_callback_request("GET /auth/callback?code=c HTTP/1.1\r\n", "s").unwrap_err(),
        "The ChatGPT sign-in callback had no state."
    );
    assert_eq!(
        parse_callback_request("GET /auth/callback?state=s&error=access_denied HTTP/1.1\r\n", "s")
            .unwrap_err(),
        "ChatGPT sign-in was not completed (access_denied)."
    );
    assert_eq!(
        parse_callback_request("GET /auth/callback?state=s&code= HTTP/1.1\r\n", "s").unwrap_err(),
        "The ChatGPT sign-in callback had no authorization code."
    );
    assert_eq!(
        parse_callback_request("GET /auth/callback?state=x&state=s&code=a%20b HTTP/1.1\r\n", "s")
            .unwrap(),
        "a b"
    );
}

#[test]
fn exchange_tokens_use_jwt_expiry_without_expires_in() {
    let account_claims = object(vec![
        ("exp", serde_json::Value::from(4_100_000_000_i64)),
        (
            "https://api.openai.com/auth",
            object(vec![("chatgpt_account_id", serde_json::Value::from("account-123"))]),
        ),
    ]);
    let access_claims = object(vec![("exp", serde_json::Value::from(4_000_000_000_i64))]);
    let payload = TokenExchangePayload {
        id_token: unsigned_test_jwt(&account_claims),
        access_token: unsigned_test_jwt(&access_claims),
        refresh_token: "refresh-token".to_owned(),
    };
    let id = decoded_claims(&payload.id_token);
    let access = decoded_claims(&payload.access_token);
    let token = token_from_exchange(payload, id.as_ref(), access.as_ref()).unwrap();
    assert_eq!(token.account_id, "account-123");
    assert_eq!(token.expires_at_ms, 4_000_000_000_000);
}

#[test]
fn exchange_refuses_incomplete_or_unreadable_tokens() {
    let payload = TokenExchangePayload {
        id_token: String::new(),
        access_token: "a".to_owned(),
        refresh_token: "r".to_owned(),
    };
    assert_eq!(
        token_from_exchange(payload, None, None).unwrap_err(),
        "ChatGPT returned an incomplete token response."
    );
    let payload = TokenExchangePayload {
        id_token: "i".to_owned(),
        access_token: "a".to_owned(),
        refresh_token: "r".to_owned(),
    };
    assert_eq!(
        token_from_exchange(payload, None, None).unwrap_err(),
        "ChatGPT returned an invalid token."
    );
    assert_eq!(claims_bytes("no-dots").unwrap_err(), "ChatGPT returned an invalid token.");
    assert_eq!(claims_segment("a.b.c"), Some("b".to_owned()));
    assert_eq!(claims_segment("a.b"), Some("b".to_owned()));
}

#[test]
fn refresh_keeps_what_the_response_leaves_out() {
    let access_claims = object(vec![("exp", serde_json::Value::from(10_i64))]);
    let payload = TokenRefreshPayload {
        id_token: None,
        access_token: Some(unsigned_test_jwt(&access_claims)),
        refresh_token: Some(String::new()),
    };
    let access = decoded_claims(payload.access_token.as_deref().unwrap());
    let old = sample_token();
    let token = token_from_refresh(payload, &old, None, access.as_ref()).unwrap();
    assert_eq!(token.refresh_token, "old-refresh");
    assert_eq!(token.account_id, "old-account");
    assert_eq!(token.expires_at_ms, 10_000);
    let none = TokenRefreshPayload { id_token: None, access_token: None, refresh_token: None };
    assert_eq!(
        token_from_refresh(none, &old, None, None).unwrap_err(),
        "ChatGPT returned an invalid token."
    );
}

#[test]
fn expiry_must_be_positive_and_fit() {
    let claims = to_json(&object(vec![("exp", serde_json::Value::from(0_i64))]));
    let payload = TokenExchangePayload {
        id_token: "i".to_owned(),
        access_token: "a".to_owned(),
        refresh_token: "r".to_owned(),
    };
    let with_account = to_json(&object(vec![(
        "https://api.openai.com/auth",
        object(vec![("chatgpt_account_id", serde_json::Value::from("acc"))]),
    )]));
    assert_eq!(
        token_from_exchange(payload, Some(&with_account), Some(&claims)).unwrap_err(),
        "The ChatGPT token had no valid expiration time."
    );
}

#[test]
fn freshness_and_refresh_fallback() {
    assert!(token_is_fresh(200_000, 100_000, false));
    assert!(!token_is_fresh(160_000, 100_000, false));
    assert!(!token_is_fresh(200_000, 100_000, true));
    let kept = after_refresh(Err("offline".to_owned()), sample_token(), 4_000, false).unwrap();
    assert_eq!(kept.access_token, "old-access");
    assert_eq!(
        after_refresh(Err("offline".to_owned()), sample_token(), 6_000, false).unwrap_err(),
        "offline"
    );
    assert_eq!(
        after_refresh(Err("offline".to_owned()), sample_token(), 4_000, true).unwrap_err(),
        "offline"
    );
}

#[test]
fn status_follows_the_saved_sign_in() {
    assert!(matches!(status(Ok(None)), Ok(AuthStatus::SignedOut)));
    assert!(matches!(
        status(Ok(Some(sample_token()))),
        Ok(AuthStatus::Connected { expires_at_ms: 5_000 })
    ));
    assert_eq!(status(Err("broken".to_owned())).err(), Some("broken".to_owned()));
}

#[test]
fn error_page_escapes_the_message() {
    let page = error_html("a<b> & c");
    assert!(page.contains("<title>Sign-in failed</title>"));
    assert!(page.contains("<p>a&lt;b&gt; &amp; c Return to Gloss and try again.</p>"));
    assert!(!page.contains("{{"));
}

#[test]
fn callback_response_has_headers_and_byte_length() {
    assert_eq!(
        callback_response(400, "é"),
        "HTTP/1.1 400 Bad Request\r\nContent-Type: text/html; charset=utf-8\r\nContent-Length: 2\r\nConnection: close\r\n\r\né"
    );
    assert!(callback_response(200, "").starts_with("HTTP/1.1 200 OK\r\n"));
}

#[test]
fn callback_reading_stops_at_the_blank_line_or_the_limit() {
    assert!(matches!(after_read(b"GET / HTTP/1.1\r\n\r\n", 18), ReadStep::Done));
    assert!(matches!(after_read(b"GET / HTTP/1.1\r\n", 16), ReadStep::Continue));
    assert!(matches!(after_read(b"partial", 0), ReadStep::Done));
    let big = vec![b'a'; 16 * 1024 + 1];
    assert!(matches!(after_read(&big, 10), ReadStep::TooLarge));
}

#[test]
fn error_details_are_cleaned() {
    assert_eq!(clean_error_detail("bad\u{7}\nthing"), Some("badthing".to_owned()));
    assert_eq!(clean_error_detail("\n\t"), None);
    assert_eq!(clean_error_detail(&"x".repeat(300)).unwrap().len(), 240);
    let body = to_json(&object(vec![
        ("error", serde_json::Value::from("invalid_grant")),
        ("error_description", serde_json::Value::from("Refresh token expired")),
    ]));
    assert_eq!(oauth_error_detail(Some(&body)), Some("Refresh token expired".to_owned()));
    assert_eq!(oauth_error_detail(None), None);
    assert_eq!(
        token_http_error(true, 400, Some("Refresh token expired")),
        "ChatGPT token refresh failed with HTTP 400: Refresh token expired. Sign in again."
    );
    assert_eq!(token_http_error(false, 500, None), "ChatGPT token exchange failed with HTTP 500.");
}

#[test]
fn login_uses_pkce_s256() {
    let challenge = pkce_challenge("verifier");
    let expected = base64::engine::general_purpose::URL_SAFE_NO_PAD
        .encode(<sha2::Sha256 as sha2::Digest>::digest(b"verifier"));
    assert_eq!(challenge, expected);
    assert_ne!(challenge, "verifier");
    assert_eq!(random_urlsafe(32).len(), 43);
    let query = authorization_query("ch", "st");
    assert_eq!(query[4], ("code_challenge".to_owned(), "ch".to_owned()));
    assert_eq!(query[5], ("code_challenge_method".to_owned(), "S256".to_owned()));
    let login = prepare_login().unwrap();
    let url = login.start.authorization_url;
    assert!(url.starts_with("https://auth.openai.com/oauth/authorize?response_type=code&"));
    assert!(url.contains(&format!("state={}", login.state)));
    assert!(url.contains(&format!("code_challenge={}", pkce_challenge(&login.verifier))));
    assert_eq!(exchange_form("c", "v")[2], ("code".to_owned(), "c".to_owned()));
}
