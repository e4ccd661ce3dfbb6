use awards::oauth::extract_query_param;
use awards::sheets::{build_awards_data_from_rows, parse_csv, secret_mode_too_open};
use awards::types::{AwardColumn, SheetRows};

#[test]
fn parse_csv_simple() {
    let rows = parse_csv("a,b\n1,\"2,3\"\n").unwrap();
    assert_eq!(rows.len(), 2);
    assert_eq!(rows[0], vec!["a", "b"]);
    assert_eq!(rows[1], vec!["1", "2,3"]);
}

#[test]
fn build_from_fixture_rows() {
    let rows: Vec<Vec<String>> = ["hdr", "x", "Army Parachutist Badge", "alice", "bob - Senior"]
        .iter()
        .map(|c| vec![String::new(), String::new(), c.to_string()])
        .collect();
    let mut sheet_rows = SheetRows::new();
    sheet_rows.insert("Badges Database".into(), rows);
    let cols = vec![AwardColumn { sheet: "Badges Database".into(), col: "C".into() }];
    let data = build_awards_data_from_rows(sheet_rows, &cols);
    assert_eq!(data.catalog.len(), 1);
    assert_eq!(data.index.get("alice").unwrap().len(), 1);
    assert_eq!(data.index.get("bob").unwrap()[0].name, "Army Parachutist Badge (Senior)");
    assert_eq!(data.index.get("alice").unwrap()[0].row, 10);
}

#[test]
fn secret_mode_flags_group_or_world() {
    assert!(!secret_mode_too_open(0o600));
    assert!(!secret_mode_too_open(0o400));
    assert!(secret_mode_too_open(0o640));
    assert!(secret_mode_too_open(0o644));
    assert!(secret_mode_too_open(0o606));
}

#[test]
fn extract_code_from_request_line() {
    let line = "GET /?code=abc%2Fdef&scope=x HTTP/1.1";
    assert_eq!(extract_query_param(line, "code").as_deref(), Some("abc/def"));
}

#[test]
fn extract_state_and_error() {
    let line = "GET /?error=access_denied&state=abc HTTP/1.1";
    assert_eq!(extract_query_param(line, "error").as_deref(), Some("access_denied"));
    assert_eq!(extract_query_param(line, "state").as_deref(), Some("abc"));
}

#[test]
fn query_param_edge_cases() {
    assert_eq!(extract_query_param("GET /?a=1&b=2 HTTP/1.1", "c"), None);
    assert_eq!(extract_query_param("GET /callback HTTP/1.1", "code"), None);
    assert_eq!(extract_query_param("GET", "code"), None);
    // A pair without `=` ends the search.
    assert_eq!(extract_query_param("GET /?flag&code=x HTTP/1.1", "code"), None);
    assert_eq!(extract_query_param("  GET   /?code=x+y  HTTP/1.1", "code").as_deref(), Some("x+y"));
    // Bytes that are not UTF-8 do not decode.
    assert_eq!(extract_query_param("GET /?code=%FF HTTP/1.1", "code"), None);
    assert_eq!(extract_query_param("GET /?code= HTTP/1.1", "code").as_deref(), Some(""));
}
