use devin_usage::auth::{
    account_id, account_identity, auth_start, authorize_url, callback_uri, decimal, exchange_step, exchange_token, lower_hex,
    normalize_token, pct_encode, pkce_challenge, pkce_verifier, ExchangeError, ExchangeEvent, ExchangeStep,
};

fn s(x: &str) -> Option<String> {
    Some(x.to_string())
}

#[test]
fn pct_encode_reserved_and_unicode() {
    assert_eq!(pct_encode("a b/ü"), "a%20b%2F%C3%BC");
    assert_eq!(pct_encode("AZaz09-_.~"), "AZaz09-_.~");
    assert_eq!(pct_encode(""), "");
    assert_eq!(pct_encode("?&="), "%3F%26%3D");
}

#[test]
fn hex_and_decimal() {
    assert_eq!(lower_hex(0), "0");
    assert_eq!(lower_hex(255), "ff");
    assert_eq!(lower_hex(0x1a2b3c), "1a2b3c");
    assert_eq!(lower_hex(u128::MAX), "ffffffffffffffffffffffffffffffff");
    assert_eq!(decimal(0), "0");
    assert_eq!(decimal(8080), "8080");
    assert_eq!(decimal(65535), "65535");
}

#[test]
fn pkce_verifier_is_base64url() {
    assert_eq!(pkce_verifier(&[0u8; 48]), "A".repeat(64));
    let mut raw = [0u8; 48];
    raw[0] = 251;
    raw[1] = 255;
    assert!(pkce_verifier(&raw).starts_with("-_8"));
}

#[test]
fn pkce_challenge_rfc_example() {
    assert_eq!(
        pkce_challenge("dBjftJeZ4CVP-mB92K27uhbUJU1p1r_wW1gFWFOEjXk"),
        "E9Melhoa2OwvFrEMTJguCHaoeK1t8URWbuGJSstw-cM"
    );
}

#[test]
fn callback_address() {
    assert_eq!(callback_uri(8080), "http://127.0.0.1:8080/callback");
    assert_eq!(callback_uri(0), "http://127.0.0.1:0/callback");
}

#[test]
fn authorize_url_manual() {
    assert_eq!(
        authorize_url("s1", "ch", None),
        "https://app.devin.ai/auth/cli/continue?state=s1&prompt=select_account&code_challenge=ch&code_challenge_method=S256&cli_pkce_marker=1"
    );
}

#[test]
fn authorize_url_with_redirect() {
    assert_eq!(
        authorize_url("s1", "ch", Some("http://127.0.0.1:8080/callback")),
        "https://app.devin.ai/auth/cli/continue?redirect_uri=http%3A%2F%2F127.0.0.1%3A8080%2Fcallback&state=s1&prompt=select_account&code_challenge=ch&code_challenge_method=S256&cli_pkce_marker=1"
    );
}

#[test]
fn auth_start_loopback() {
    let a = auth_start(&[0u8; 48], 255, Some(8080));
    assert_eq!(a.state, "ff");
    assert_eq!(a.verifier, "A".repeat(64));
    assert!(!a.manual);
    assert_eq!(
        a.url,
        "https://app.devin.ai/auth/cli/continue?redirect_uri=http%3A%2F%2F127.0.0.1%3A8080%2Fcallback&state=ff&prompt=select_account&code_challenge=1T7aemN8mcx_tWbZbp-hCb8VxHhBCj9etNTE4mzQgfY&code_challenge_method=S256&cli_pkce_marker=1"
    );
}

#[test]
fn auth_start_manual() {
    let a = auth_start(&[0u8; 48], 16, None);
    assert_eq!(a.state, "10");
    assert!(a.manual);
    assert_eq!(
        a.url,
        "https://app.devin.ai/auth/cli/continue?state=10&prompt=select_account&code_challenge=1T7aemN8mcx_tWbZbp-hCb8VxHhBCj9etNTE4mzQgfY&code_challenge_method=S256&cli_pkce_marker=1"
    );
}

#[test]
fn normalize_jwt_gets_prefix() {
    assert_eq!(normalize_token("eyJhbGc".to_string()), "devin-session-token$eyJhbGc");
    assert_eq!(normalize_token("devin-session-token$eyJx".to_string()), "devin-session-token$eyJx");
    assert_eq!(normalize_token("ey".to_string()), "ey");
    assert_eq!(normalize_token("".to_string()), "");
}

#[test]
fn exchange_prefers_primary() {
    assert_eq!(exchange_token(s("p"), s("a"), None, None, None).ok(), s("p"));
}

#[test]
fn exchange_fallback_order() {
    assert_eq!(exchange_token(None, s("a"), s("b"), s("c"), s("d")).ok(), s("a"));
    assert_eq!(exchange_token(None, None, s("b"), s("c"), s("d")).ok(), s("b"));
    assert_eq!(exchange_token(None, None, None, s("c"), s("d")).ok(), s("c"));
    assert_eq!(exchange_token(None, None, None, None, s("d")).ok(), s("d"));
}

#[test]
fn exchange_without_token_fails() {
    assert!(matches!(exchange_token(None, None, None, None, None), Err(ExchangeError::NoToken)));
}

#[test]
fn identity_prefers_profile() {
    let i = account_identity(s("prof"), s("pid"), s("stat"), s("e@x"), s("sid"));
    assert_eq!(i.label, "prof");
    assert_eq!(i.email, "e@x");
    assert_eq!(i.user_id, "pid");
}

#[test]
fn identity_empty_profile_falls_back() {
    let i = account_identity(s(""), s(""), s("stat"), None, s("sid"));
    assert_eq!(i.label, "stat");
    assert_eq!(i.email, "");
    assert_eq!(i.user_id, "sid");
}

#[test]
fn identity_defaults() {
    let i = account_identity(None, None, None, None, None);
    assert_eq!(i.label, "account");
    assert_eq!(i.email, "");
    assert_eq!(i.user_id, "");
}

#[test]
fn account_ids() {
    assert_eq!(account_id(255), "acc-ff");
    assert_eq!(account_id(0x1_0000_0000), "acc-1");
    assert_eq!(account_id(0xFFFF_FFFF), "acc-0");
}

#[test]
fn exchange_steps_primary_first() {
    assert!(matches!(exchange_step(ExchangeEvent::Start), ExchangeStep::CallPrimary));
    match exchange_step(ExchangeEvent::Primary(s("tok"))) {
        ExchangeStep::Done(Ok(t)) => assert_eq!(t, "tok"),
        _ => panic!("expected the primary token"),
    }
    assert!(matches!(exchange_step(ExchangeEvent::Primary(None)), ExchangeStep::CallFallback));
}

#[test]
fn exchange_steps_fallback() {
    match exchange_step(ExchangeEvent::Fallback(None, s("b"), s("c"), None)) {
        ExchangeStep::Done(Ok(t)) => assert_eq!(t, "b"),
        _ => panic!("expected the fallback token"),
    }
    assert!(matches!(
        exchange_step(ExchangeEvent::Fallback(None, None, None, None)),
        ExchangeStep::Done(Err(ExchangeError::NoToken))
    ));
}

#[test]
fn verifier_and_challenge_lengths() {
    let v = pkce_verifier(&[7u8; 48]);
    assert_eq!(v.len(), 64);
    assert!(v.chars().all(|c| c.is_ascii_alphanumeric() || c == '-' || c == '_'));
    assert_eq!(pkce_challenge(&v).len(), 43);
}
