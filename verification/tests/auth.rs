use bullpen::auth::codex::{
    adopt, approval, borrowed, credential, device_code, keep_refresh_token, login_failure,
    parsed_device_code, parsed_tokens, poll_body, refresh_form, timed_out, token_reply,
    usercode_body, CodexAuth, CodexCliBorrow, DeviceCode, Stored, StoredCodex, TokenSet,
    CLIENT_ID, PROVIDER,
};
use bullpen::auth::jwt::{
    chatgpt_account_id, claimed_account, claimed_expiry, claims, craft_unsigned, expiry,
};
use bullpen::auth::openrouter::{
    authorize_url, callback, exchange_body, exchange_url, exchanged_key, parsed_key, read_request,
    urldecode, urlencode, Callback,
};
use bullpen::auth::pkce::{challenge_s256, Pkce};
use bullpen::auth::{AuthError, AuthFile, Credential};
use bullpen::json::{parse, to_text, Json};
use bullpen::llm::ProviderError;

const NOW: u64 = 1_700_000_000;

fn json(text: &str) -> Json {
    parse(text).unwrap()
}

fn flow(e: AuthError) -> String {
    match e {
        AuthError::Flow(m) => m,
        other => panic!("{other:?}"),
    }
}

fn failure(e: ProviderError) -> String {
    match e {
        ProviderError::Failure(m) => m,
        other => panic!("{other:?}"),
    }
}

// ── The store ───────────────────────────────────────────────────────────────

#[test]
fn roundtrip_and_missing_file() {
    let mut file = AuthFile::new();
    assert!(file.get("openrouter").is_none());

    file.set(
        "openrouter",
        Credential::ApiKey {
            key: "sk-or-x".into(),
        },
    );
    file.set(
        "codex",
        Credential::Oauth {
            access_token: "at".into(),
            refresh_token: "rt".into(),
            expires_at: 123,
            account_id: "acct".into(),
        },
    );

    let mut reloaded = AuthFile::new();
    for (name, credential) in file.entries() {
        reloaded.set(name, credential.clone());
    }
    assert!(
        matches!(reloaded.get("openrouter"), Some(Credential::ApiKey { key }) if key == "sk-or-x")
    );
    assert!(matches!(
        reloaded.get("codex"),
        Some(Credential::Oauth { account_id, .. }) if account_id == "acct"
    ));
}

#[test]
fn a_credential_gives_way_to_a_newer_one() {
    let mut file = AuthFile::new();
    file.set("p", Credential::ApiKey { key: "old".into() });
    file.set("q", Credential::ApiKey { key: "other".into() });
    file.set("p", Credential::ApiKey { key: "new".into() });
    assert!(matches!(file.get("p"), Some(Credential::ApiKey { key }) if key == "new"));
    assert!(matches!(file.get("q"), Some(Credential::ApiKey { key }) if key == "other"));
}

#[test]
fn errors_say_what_failed() {
    let words = |e: AuthError| e.to_string();
    assert_eq!(words(AuthError::Io("no".into())), "io error: no");
    assert_eq!(words(AuthError::Transport("no".into())), "transport error: no");
    assert_eq!(words(AuthError::Flow("no".into())), "no");
    assert_eq!(
        words(AuthError::Corrupt("no".into())),
        "credential store is corrupt: no"
    );
    assert_eq!(
        words(AuthError::Missing("codex".into())),
        "no stored credential for `codex`"
    );
    assert_eq!(
        login_failure(&AuthError::Flow("no".into())).to_string(),
        "codex auth: no"
    );
}

// ── Tokens ──────────────────────────────────────────────────────────────────

#[test]
fn extracts_account_id_and_expiry() {
    let token = craft_unsigned(&json(
        "{\"exp\": 1999999999, \
         \"https://api.openai.com/auth\": {\"chatgpt_account_id\": \"acct_42\"}}",
    ));
    assert_eq!(chatgpt_account_id(&token).unwrap(), "acct_42");
    assert_eq!(expiry(&token), Some(1999999999));
    // The header of every unsigned token, and its made-up signature.
    assert!(token.starts_with("eyJhbGciOiJub25lIn0."));
    assert!(token.ends_with(".sig"));
}

#[test]
fn rejects_non_jwt() {
    assert!(chatgpt_account_id("not-a-jwt").is_err());
    assert!(expiry("nope").is_none());
}

#[test]
fn claims_name_what_is_wrong_with_a_token() {
    assert_eq!(
        flow(claims("not-a-jwt").unwrap_err()),
        "access token is not a JWT"
    );
    assert!(flow(claims("h.!!.s").unwrap_err()).starts_with("decode token payload: "));
    // `bm8` is `no`, which is no JSON.
    assert!(flow(claims("h.bm8.s").unwrap_err()).starts_with("parse token claims: "));
    // `e30` is `{}`; padding is tolerated.
    assert_eq!(to_text(&claims("h.e30=.s").unwrap()), "{}");
    assert_eq!(claimed_expiry(&json("{\"exp\": 5}")), Some(5));
    assert_eq!(claimed_expiry(&json("{\"exp\": -5}")), None);
    assert_eq!(
        flow(claimed_account(Ok(json("{}"))).unwrap_err()),
        "token missing chatgpt_account_id claim"
    );
    let empty = json("{\"https://api.openai.com/auth\": {\"chatgpt_account_id\": \"\"}}");
    assert!(claimed_account(Ok(empty)).is_err());
}

#[test]
fn rfc7636_test_vector() {
    // Appendix B of RFC 7636.
    assert_eq!(
        challenge_s256("dBjftJeZ4CVP-mB92K27uhbUJU1p1r_wW1gFWFOEjXk"),
        "E9Melhoa2OwvFrEMTJguCHaoeK1t8URWbuGJSstw-cM"
    );
}

#[test]
fn verifier_shape() {
    let p = Pkce::generate().unwrap();
    assert_eq!(p.verifier.len(), 43);
    assert!(p
        .verifier
        .chars()
        .all(|c| c.is_ascii_alphanumeric() || c == '-' || c == '_'));
    assert_eq!(p.challenge, challenge_s256(&p.verifier));
    assert_ne!(Pkce::generate().unwrap().verifier, p.verifier);
}

#[test]
fn a_verifier_is_its_octets_in_base64() {
    let p = Pkce::from_octets(&vec![0u8; 32]);
    assert_eq!(p.verifier, "A".repeat(43));
}

// ── OpenRouter ──────────────────────────────────────────────────────────────

#[test]
fn authorize_url_shapes() {
    let with_cb = authorize_url("CHAL", Some("http://localhost:8123/callback"));
    assert!(with_cb.contains("callback_url=http%3A%2F%2Flocalhost%3A8123%2Fcallback"));
    assert!(with_cb.contains("code_challenge=CHAL"));
    assert!(with_cb.contains("code_challenge_method=S256"));

    let headless = authorize_url("CHAL", None);
    assert!(headless.contains("key_label=bullpen"));
    assert!(!headless.contains("callback_url"));
}

#[test]
fn url_coding_reads_back() {
    for s in ["", "abc-_.~", "a b+c/d?e=f&g", "100 % ☃"] {
        assert_eq!(urldecode(&urlencode(s)), s);
    }
    assert_eq!(urlencode("a/☃"), "a%2F%E2%98%83");
    assert_eq!(urldecode("a+b%2Fc"), "a b/c");
    // A percent sign that no number follows stands for itself.
    assert_eq!(urldecode("50%"), "50%");
    assert_eq!(urldecode("%zz"), "%zz");
    // Bytes that are no UTF-8 are replaced.
    assert_eq!(urldecode("%FF"), "\u{fffd}");
}

#[test]
fn captures_code_and_ignores_favicon() {
    // A stray request first: it must not end the wait.
    let stray = read_request(&b"GET /favicon.ico HTTP/1.1\r\n\r\n".to_vec());
    assert!(matches!(stray, Callback::Stray));
    assert!(stray.answer().unwrap().starts_with("HTTP/1.1 404 Not Found\r\n"));
    assert!(stray.end().is_none());

    let hit = read_request(
        &b"GET /callback?code=abc%2F123 HTTP/1.1\r\nHost: x\r\n\r\n".to_vec(),
    );
    let answer = hit.answer().unwrap();
    assert!(answer.contains("200 OK"));
    let (head, page) = answer.split_once("\r\n\r\n").unwrap();
    assert!(head.contains(&format!("Content-Length: {}\r\n", page.len())));
    assert_eq!(hit.end().unwrap().unwrap(), "abc/123");
}

#[test]
fn denial_is_an_error() {
    let denied = callback("GET /callback?error=access_denied HTTP/1.1\r\n\r\n");
    let err = denied.end().unwrap().unwrap_err();
    assert!(err.to_string().contains("access_denied"));
}

#[test]
fn a_request_without_a_target_is_left_alone() {
    let unreadable = callback("");
    assert!(matches!(unreadable, Callback::Unreadable));
    assert!(unreadable.answer().is_none());
    assert!(unreadable.end().is_none());
    assert!(matches!(callback("GET\r\n"), Callback::Unreadable));
}

#[test]
fn an_empty_code_is_no_code_and_a_code_outweighs_an_error() {
    assert!(matches!(callback("GET /?code= HTTP/1.1"), Callback::Stray));
    let both = callback("GET /?error=e&code=c HTTP/1.1");
    assert_eq!(both.end().unwrap().unwrap(), "c");
}

#[test]
fn exchange_parses_key() {
    let key = exchanged_key(true, "200 OK", "{\"key\":\"sk-or-v1-test\"}").unwrap();
    assert_eq!(key, "sk-or-v1-test");
}

#[test]
fn exchange_failures_carry_the_answer() {
    assert_eq!(
        flow(exchanged_key(false, "403 Forbidden", "no").unwrap_err()),
        "openrouter key exchange failed (403 Forbidden): no"
    );
    assert_eq!(
        flow(exchanged_key(true, "200 OK", "{}").unwrap_err()),
        "key exchange response missing `key`: {}"
    );
    let parsed = parsed_key(true, "200 OK", "b", Ok(json("{\"key\": \"k\"}")));
    assert_eq!(parsed.unwrap(), "k");
    assert_eq!(exchange_url(None), "https://openrouter.ai/api/v1/auth/keys");
    assert_eq!(exchange_url(Some("http://h")), "http://h/api/v1/auth/keys");
    let body = exchange_body("c", "v");
    assert_eq!(body.str_field("code"), Some("c"));
    assert_eq!(body.str_field("code_verifier"), Some("v"));
    assert_eq!(body.str_field("code_challenge_method"), Some("S256"));
}

// ── Codex ───────────────────────────────────────────────────────────────────

fn access_jwt(account: &str, exp: u64) -> String {
    craft_unsigned(&json(&format!(
        "{{\"exp\": {exp}, \"https://api.openai.com/auth\": {{\"chatgpt_account_id\": \"{account}\"}}}}"
    )))
}

#[test]
fn full_device_flow() {
    let auth = CodexAuth::new("http://h");
    assert_eq!(usercode_body().str_field("client_id"), Some(CLIENT_ID));
    let device = device_code(
        true,
        "200 OK",
        "{\"device_auth_id\": \"dev_1\", \"user_code\": \"ABCD-EFGH\", \"interval\": \"0\"}",
    )
    .unwrap();
    let prompt = auth.prompt(&device);
    assert!(prompt.verification_url.ends_with("/codex/device"));
    assert_eq!(prompt.user_code, "ABCD-EFGH");
    assert_eq!(device.interval, 5);
    assert_eq!(poll_body(&device).str_field("device_auth_id"), Some("dev_1"));

    assert!(approval(403, "").is_none());
    let approved = approval(
        200,
        "{\"authorization_code\": \"authz\", \"code_verifier\": \"ver\"}",
    )
    .unwrap()
    .unwrap();
    let form = auth.exchange_form(&approved);
    assert!(form.contains(&("code".to_string(), "authz".to_string())));
    assert!(form.contains(&(
        "redirect_uri".to_string(),
        "http://h/deviceauth/callback".to_string()
    )));

    let token = access_jwt("acct_9", NOW + 3600);
    let body =
        format!("{{\"access_token\": \"{token}\", \"refresh_token\": \"rt_1\", \"expires_in\": 3600}}");
    let reply = token_reply(true, "200 OK", &body, NOW).unwrap().unwrap();
    let Credential::Oauth {
        refresh_token,
        account_id,
        expires_at,
        ..
    } = reply
    else {
        panic!("expected oauth credential");
    };
    assert_eq!(refresh_token, "rt_1");
    assert_eq!(account_id, "acct_9");
    assert_eq!(expires_at, NOW + 3600);
}

#[test]
fn device_codes_come_in_several_shapes() {
    let read = |text: &str| parsed_device_code(true, "200 OK", "b", Ok(json(text)));
    let other_name =
        read("{\"device_auth_id\": \"d\", \"usercode\": \"U\", \"interval\": 7}").unwrap();
    assert_eq!(other_name.user_code, "U");
    assert_eq!(other_name.interval, 7);
    let said = read("{\"device_auth_id\": \"d\", \"user_code\": \"U\", \"interval\": \" 9 \"}");
    assert_eq!(said.unwrap().interval, 9);
    assert_eq!(
        flow(read("{\"device_auth_id\": \"d\"}").unwrap_err()),
        "device-code response missing device_auth_id or user_code: b"
    );
    assert_eq!(
        flow(device_code(false, "500 Internal Server Error", "no").unwrap_err()),
        "device-code endpoint 500 Internal Server Error: no"
    );
    assert!(flow(device_code(true, "200 OK", "{").unwrap_err())
        .starts_with("decode device-code response: "));
}

#[test]
fn a_poll_ends_with_an_approval_or_an_error() {
    assert!(approval(404, "").is_none());
    assert_eq!(
        flow(approval(400, "no").unwrap().unwrap_err()),
        "device-code token endpoint 400: no"
    );
    assert_eq!(
        flow(approval(200, "{}").unwrap().unwrap_err()),
        "device-code token response missing fields: {}"
    );
    assert!(flow(approval(200, "{").unwrap().unwrap_err())
        .starts_with("decode device-code token response: "));
    assert!(timed_out(0, 5).is_none());
    assert!(timed_out(895_000_000_000, 5).is_none());
    assert_eq!(
        flow(timed_out(895_000_000_001, 5).unwrap()),
        "device-code login timed out after 900s"
    );
}

#[test]
fn token_failures_carry_the_answer() {
    assert_eq!(
        flow(token_reply(false, "401 Unauthorized", "no", NOW).unwrap().unwrap_err()),
        "token endpoint 401 Unauthorized: no"
    );
    assert_eq!(
        flow(token_reply(true, "200 OK", "{}", NOW).unwrap().unwrap_err()),
        "token response missing access_token: {}"
    );
    assert!(flow(token_reply(true, "200 OK", "{", NOW).unwrap().unwrap_err())
        .starts_with("decode token response: "));
    assert_eq!(
        flow(
            token_reply(true, "200 OK", "{\"access_token\": \"opaque\"}", NOW)
                .unwrap()
                .unwrap_err()
        ),
        "access token is not a JWT"
    );
    let far = parsed_tokens(
        true,
        "200 OK",
        "b",
        Ok(json("{\"access_token\": \"a\", \"expires_in\": 18446744073709551615}")),
    )
    .unwrap();
    assert!(credential(far, Ok("acct".into()), NOW).is_none());
    let near = TokenSet {
        access_token: "a".into(),
        refresh_token: "r".into(),
        expires_in: 10,
    };
    assert!(matches!(
        credential(near, Ok("acct".into()), NOW),
        Some(Ok(Credential::Oauth { expires_at, .. })) if expires_at == NOW + 10
    ));
}

#[test]
fn refresh_keeps_old_token_when_omitted() {
    let token = access_jwt("acct_1", NOW + 3600);
    let body = format!("{{\"access_token\": \"{token}\", \"expires_in\": 100}}");
    let fresh = token_reply(true, "200 OK", &body, NOW).unwrap().unwrap();
    let Credential::Oauth { refresh_token, .. } = keep_refresh_token(fresh, "rt_old") else {
        panic!("expected oauth");
    };
    assert_eq!(refresh_token, "rt_old");
    assert!(refresh_form("rt_old").contains(&("refresh_token".to_string(), "rt_old".to_string())));
}

#[test]
fn borrow_reads_fresh_cli_tokens() {
    let raw = format!(
        "{{\"auth_mode\": \"chatgpt\", \"OPENAI_API_KEY\": null, \"tokens\": {{\
         \"id_token\": \"x\", \"access_token\": \"{}\", \"refresh_token\": \"rt\", \
         \"account_id\": \"acct_cli\"}}, \"last_refresh\": \"2026-08-07T00:00:00Z\"}}",
        access_jwt("acct_cli", NOW + 3600)
    );
    let token = CodexCliBorrow::new("/h/.codex/auth.json")
        .token(&raw.into_bytes(), NOW)
        .unwrap();
    assert_eq!(token.account_id, "acct_cli");
}

#[test]
fn borrow_rejects_expired_token() {
    let raw = format!(
        "{{\"tokens\": {{\"access_token\": \"{}\", \"account_id\": \"acct_cli\"}}}}",
        access_jwt("acct_cli", NOW - 10)
    );
    let err = CodexCliBorrow::new("/h/.codex/auth.json")
        .token(&raw.into_bytes(), NOW)
        .unwrap_err();
    assert!(err.to_string().contains("expired"), "{err:?}");
}

#[test]
fn borrow_needs_a_token_and_an_account() {
    let lender = CodexCliBorrow::new("/p");
    assert_eq!(CodexCliBorrow::default_path(Some("/h")), "/h/.codex/auth.json");
    assert_eq!(lender.path(), "/p");
    assert_eq!(failure(lender.unreadable("gone")), "cannot read /p: gone");
    assert!(failure(lender.token(&b"{".to_vec(), NOW).unwrap_err())
        .starts_with("cannot parse /p: "));
    assert!(failure(lender.token(&b"{}".to_vec(), NOW).unwrap_err())
        .starts_with("/p has no usable subscription tokens"));
    // The account of the token itself stands in for the file's.
    let v = json("{\"tokens\": {\"access_token\": \"a\"}}");
    let token = borrowed("/p", &v, Ok("claimed".into()), None, NOW).unwrap();
    assert_eq!(token.account_id, "claimed");
    assert!(borrowed("/p", &v, Ok("claimed".into()), Some(NOW + 60), NOW).is_err());
    assert!(borrowed("/p", &v, Ok("claimed".into()), Some(NOW + 61), NOW).is_ok());
}

#[test]
fn stored_source_refreshes_and_persists() {
    let source = StoredCodex::new("/h/auth.json");
    let mut file = AuthFile::new();
    assert_eq!(
        failure(source.token(&file, NOW).unwrap_err()),
        "no codex credentials — run `bullpen login codex`"
    );
    file.set(
        PROVIDER,
        Credential::Oauth {
            access_token: "stale".into(),
            refresh_token: "rt_old".into(),
            expires_at: NOW - 5,
            account_id: "acct_s".into(),
        },
    );
    let Stored::Stale(refresh_token) = source.token(&file, NOW).unwrap() else {
        panic!("expected a stale token");
    };
    assert_eq!(refresh_token, "rt_old");

    let fresh = access_jwt("acct_s", NOW + 3600);
    let body = format!(
        "{{\"access_token\": \"{fresh}\", \"refresh_token\": \"rt_new\", \"expires_in\": 3600}}"
    );
    let answered = token_reply(true, "200 OK", &body, NOW).unwrap().unwrap();
    let token = adopt(&mut file, keep_refresh_token(answered, &refresh_token));
    assert_ne!(token.access_token, "stale");

    // The rotation is kept.
    let Some(Credential::Oauth { refresh_token, .. }) = file.get(PROVIDER) else {
        panic!("expected stored oauth");
    };
    assert_eq!(refresh_token, "rt_new");
    assert!(matches!(
        source.token(&file, NOW).unwrap(),
        Stored::Fresh(t) if t.account_id == "acct_s"
    ));
}

#[test]
fn urls_lie_below_the_host() {
    let auth = CodexAuth::default();
    assert_eq!(
        auth.usercode_url(),
        "https://auth.openai.com/api/accounts/deviceauth/usercode"
    );
    assert_eq!(
        auth.poll_url(),
        "https://auth.openai.com/api/accounts/deviceauth/token"
    );
    assert_eq!(auth.token_url(), "https://auth.openai.com/oauth/token");
    let device = DeviceCode {
        device_auth_id: "d".into(),
        user_code: "u".into(),
        interval: 5,
    };
    assert_eq!(
        auth.prompt(&device).verification_url,
        "https://auth.openai.com/codex/device"
    );
}
