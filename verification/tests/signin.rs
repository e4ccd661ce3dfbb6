use awards::oauth::{
    apply_token_reply, cached_token_expired, callback_code, parse_expiry, refresh_failed_message, token_expired,
    token_source, token_source_message, CachedToken, TokenRecord, TokenSource,
};

#[test]
fn callback_reports_the_provider_error_first() {
    let r = callback_code("GET /?error=access_denied&error_description=no%20thanks&state=s1 HTTP/1.1", "s1");
    assert_eq!(r, Err("OAuth provider returned error=access_denied no thanks".to_string()));
    let r = callback_code("GET /?error=access_denied HTTP/1.1", "s1");
    assert_eq!(r, Err("OAuth provider returned error=access_denied ".to_string()));
}

#[test]
fn callback_refuses_a_state_that_does_not_match() {
    let r = callback_code("GET /?code=abc&state=other HTTP/1.1", "s1");
    assert_eq!(r, Err("OAuth callback state mismatch (possible CSRF). Try --login again.".to_string()));
    let r = callback_code("GET /?code=abc HTTP/1.1", "s1");
    assert_eq!(r, Err("OAuth callback state mismatch (possible CSRF). Try --login again.".to_string()));
}

#[test]
fn callback_needs_a_code() {
    let r = callback_code("GET /?state=s1 HTTP/1.1", "s1");
    assert_eq!(r, Err("OAuth callback missing code".to_string()));
    let r = callback_code("GET /?state=s1&code=4%2F0abc HTTP/1.1", "s1");
    assert_eq!(r, Ok("4/0abc".to_string()));
}

#[test]
fn token_counts_as_expired_a_minute_early() {
    assert!(!token_expired(1_000_000, Some(1_060_001)));
    assert!(token_expired(1_000_000, Some(1_060_000)));
    assert!(token_expired(2_000_000, Some(1_000_000)));
    assert!(!token_expired(i64::MAX, None));
}

#[test]
fn token_sources_are_tried_in_order() {
    let good = CachedToken { expired: false, empty: false, refreshable: true };
    let stale = CachedToken { expired: true, empty: false, refreshable: true };
    let dead = CachedToken { expired: true, empty: false, refreshable: false };
    assert_eq!(token_source(true, Some(good), true, true), TokenSource::ServiceAccount);
    assert_eq!(token_source(false, Some(good), false, false), TokenSource::Cached);
    assert_eq!(token_source(false, Some(stale), false, false), TokenSource::Refresh);
    assert_eq!(token_source(false, Some(dead), false, true), TokenSource::NoCredentials);
    assert_eq!(token_source(false, None, true, false), TokenSource::NotLoggedIn);
    assert_eq!(token_source(false, Some(dead), true, true), TokenSource::Login);
}

#[test]
fn sources_that_cannot_give_a_token_say_why() {
    assert_eq!(
        token_source_message(TokenSource::NoCredentials).as_deref(),
        Some(
            "No credentials found. Place OAuth client JSON as credentials.json (or service_account.json shared on the sheet), then run: awards-tui --login"
        )
    );
    assert_eq!(
        token_source_message(TokenSource::NotLoggedIn).as_deref(),
        Some("Not logged in. Run: awards-tui --login")
    );
    assert_eq!(token_source_message(TokenSource::Cached), None);
    assert_eq!(token_source_message(TokenSource::Refresh), None);
}

#[test]
fn failed_refresh_messages() {
    assert_eq!(refresh_failed_message(None), "Token refresh failed. Run: awards-tui --login");
    assert_eq!(
        refresh_failed_message(Some("HTTP 400")),
        "Token refresh failed. Run: awards-tui --login (HTTP 400)"
    );
}

#[test]
fn token_reply_updates_the_cached_token() {
    let mut rec = TokenRecord {
        token: "old".into(),
        refresh_token: Some("r1".into()),
        scopes: vec![],
        universe_domain: None,
    };
    apply_token_reply(&mut rec, "new".into(), Some(String::new()), None);
    assert_eq!(rec.token, "new");
    assert_eq!(rec.refresh_token.as_deref(), Some("r1"));
    assert_eq!(
        rec.scopes,
        vec![
            "https://www.googleapis.com/auth/spreadsheets".to_string(),
            "https://www.googleapis.com/auth/drive.readonly".to_string()
        ]
    );
    assert_eq!(rec.universe_domain.as_deref(), Some("googleapis.com"));

    apply_token_reply(&mut rec, "newer".into(), Some("r2".into()), Some("  a   b ".into()));
    assert_eq!(rec.token, "newer");
    assert_eq!(rec.refresh_token.as_deref(), Some("r2"));
    assert_eq!(rec.scopes, vec!["a".to_string(), "b".to_string()]);
}

#[test]
fn expiry_text_is_read_as_an_instant() {
    assert_eq!(parse_expiry("2024-01-01T00:00:00Z"), Some(1_704_067_200_000));
    assert_eq!(parse_expiry("2024-01-01T00:00:00.250+00:00"), Some(1_704_067_200_250));
    assert_eq!(parse_expiry("soon"), None);
    assert!(cached_token_expired(1_704_067_140_000, Some("2024-01-01T00:00:00Z")));
    assert!(!cached_token_expired(1_704_067_139_999, Some("2024-01-01T00:00:00Z")));
    assert!(!cached_token_expired(i64::MAX, Some("soon")));
    assert!(!cached_token_expired(i64::MAX, None));
}

#[test]
fn sign_in_address_encodes_each_parameter() {
    let url = awards::oauth::authorization_url("https://a.example/auth", "id 1", "http://127.0.0.1:8080/", "s1 s2", "xyz");
    assert_eq!(
        url,
        "https://a.example/auth?client_id=id%201&redirect_uri=http%3A%2F%2F127.0.0.1%3A8080%2F&response_type=code&scope=s1%20s2&state=xyz&access_type=offline&prompt=consent"
    );
}

#[test]
fn sign_in_address_falls_back_to_google() {
    let url = awards::oauth::sign_in_url(None, "cid", 8080, "st");
    assert_eq!(
        url,
        "https://accounts.google.com/o/oauth2/auth?client_id=cid&redirect_uri=http%3A%2F%2F127.0.0.1%3A8080%2F&response_type=code&scope=https%3A%2F%2Fwww.googleapis.com%2Fauth%2Fspreadsheets%20https%3A%2F%2Fwww.googleapis.com%2Fauth%2Fdrive.readonly&state=st&access_type=offline&prompt=consent"
    );
    let own = awards::oauth::sign_in_url(Some("https://b.example/o"), "cid", 1, "st");
    assert!(own.starts_with("https://b.example/o?client_id=cid&redirect_uri=http%3A%2F%2F127.0.0.1%3A1%2F&"));
    assert_eq!(awards::oauth::redirect_address(54321), "http://127.0.0.1:54321/");
}

#[test]
fn service_account_claims_last_an_hour() {
    let c = awards::oauth::service_account_claims("bot@x.iam", None, 1_000);
    assert_eq!(c.iss, "bot@x.iam");
    assert_eq!(c.aud, "https://oauth2.googleapis.com/token");
    assert_eq!(c.scope, "https://www.googleapis.com/auth/spreadsheets https://www.googleapis.com/auth/drive.readonly");
    assert_eq!((c.iat, c.exp), (1_000, 4_600));
    let c = awards::oauth::service_account_claims("bot@x.iam", Some("https://t.example/token"), 0);
    assert_eq!(c.aud, "https://t.example/token");
    assert_eq!(awards::oauth::token_endpoint(None), "https://oauth2.googleapis.com/token");
}

#[test]
fn spreadsheet_addresses() {
    assert_eq!(
        awards::sheets::values_url("'Badges Database'!C10"),
        "https://sheets.googleapis.com/v4/spreadsheets/1e_AqHIGrGdfNSgoHt6kLV89E6LADJmlZzhfRAUXo0wY/values/%27Badges%20Database%27%21C10"
    );
    assert_eq!(
        awards::sheets::csv_export_url("Foreign Awards"),
        "https://docs.google.com/spreadsheets/d/1e_AqHIGrGdfNSgoHt6kLV89E6LADJmlZzhfRAUXo0wY/gviz/tq?tqx=out:csv&sheet=Foreign%20Awards"
    );
}
