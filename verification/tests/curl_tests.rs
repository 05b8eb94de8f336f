use poster::curl_export::export_curl;
use poster::curl_import::{parse_curl, tokenize_curl};
use poster::model::{Auth, AuthType, Header, Request};

fn header(k: &str, v: &str) -> Header {
    Header { key: k.to_string(), value: v.to_string() }
}

fn request(method: &str, url: &str, body_type: &str, body: &str) -> Request {
    Request {
        id: 1,
        project_id: 1,
        name: "r".into(),
        method: method.into(),
        url: url.into(),
        headers_json: "[]".into(),
        body_type: body_type.into(),
        body: body.into(),
        auth_json: "{}".into(),
    }
}

#[test]
fn tokenize_splits_on_blanks_outside_quotes() {
    let t = tokenize_curl("curl  -H 'A: b c'\t\"x y\" z");
    assert_eq!(t, vec!["curl", "-H", "A: b c", "x y", "z"]);
}

#[test]
fn tokenize_drops_line_continuations() {
    let t = tokenize_curl("curl \\\n  -X POST \\\n  'http://h'");
    assert_eq!(t, vec!["curl", "-X", "POST", "http://h"]);
}

#[test]
fn tokenize_keeps_other_quote_inside_quotes() {
    let t = tokenize_curl("'a\"b' \"c'd\"");
    assert_eq!(t, vec!["a\"b", "c'd"]);
}

#[test]
fn tokenize_empty_input() {
    assert!(tokenize_curl("   ").is_empty());
}

#[test]
fn parse_curl_basic_request() {
    let r = parse_curl("curl -X post https://api.test/x -H 'Accept: application/json' -d 'a=1'".into()).unwrap();
    assert_eq!(r.method, "POST");
    assert_eq!(r.url, "https://api.test/x");
    assert_eq!(r.headers.len(), 1);
    assert_eq!(r.headers[0].key, "Accept");
    assert_eq!(r.headers[0].value, "application/json");
    assert_eq!(r.body_type, "raw");
    assert_eq!(r.body, "a=1");
    assert!(r.warnings.is_empty());
}

#[test]
fn parse_curl_get_with_body_becomes_post() {
    let r = parse_curl("curl http://h -d one --data two".into()).unwrap();
    assert_eq!(r.method, "POST");
    assert_eq!(r.body, "one\ntwo");
}

#[test]
fn parse_curl_json_body_type() {
    let r = parse_curl("curl http://h --json '{\"a\":1}'".into()).unwrap();
    assert_eq!(r.body_type, "json");
    assert_eq!(r.body, "{\"a\":1}");
}

#[test]
fn parse_curl_bearer_header_becomes_auth() {
    let r = parse_curl("curl http://h -H 'authorization: Bearer tok123' -H 'X: y'".into()).unwrap();
    assert!(matches!(r.auth.type_, AuthType::Bearer));
    assert_eq!(r.auth.token, "tok123");
    assert_eq!(r.headers.len(), 1);
    assert_eq!(r.headers[0].key, "X");
}

#[test]
fn parse_curl_basic_header_decoded() {
    // "user:pass" in base64
    let r = parse_curl("curl http://h -H 'Authorization: Basic dXNlcjpwYXNz'".into()).unwrap();
    assert!(matches!(r.auth.type_, AuthType::Basic));
    assert_eq!(r.auth.username, "user");
    assert_eq!(r.auth.password, "pass");
    assert!(r.headers.is_empty());
}

#[test]
fn parse_curl_undecodable_basic_header_kept() {
    let r = parse_curl("curl http://h -H 'Authorization: Basic !!!'".into()).unwrap();
    assert!(matches!(r.auth.type_, AuthType::NoAuth));
    assert_eq!(r.headers.len(), 1);
}

#[test]
fn parse_curl_user_flag() {
    let r = parse_curl("curl -u alice:secret http://h".into()).unwrap();
    assert!(matches!(r.auth.type_, AuthType::Basic));
    assert_eq!(r.auth.username, "alice");
    assert_eq!(r.auth.password, "secret");
    assert_eq!(r.url, "http://h");
}

#[test]
fn parse_curl_user_flag_wins_over_header() {
    let r = parse_curl("curl -u a:b -H 'Authorization: Bearer t' http://h".into()).unwrap();
    assert_eq!(r.auth.username, "a");
    assert_eq!(r.headers.len(), 1);
}

#[test]
fn parse_curl_malformed_header_warns() {
    let r = parse_curl("curl http://h -H nocolon".into()).unwrap();
    assert_eq!(r.warnings, vec!["Malformed header: nocolon"]);
}

#[test]
fn parse_curl_form_flag_warns_and_keeps_field() {
    let r = parse_curl("curl http://h -F name=x".into()).unwrap();
    assert_eq!(r.warnings, vec!["Multipart (-F) is not supported — add fields manually in the UI"]);
    assert_eq!(r.body_type, "form-data");
    assert_eq!(r.body, "name=x");
    assert_eq!(r.method, "POST");
}

#[test]
fn parse_curl_unknown_flag_skips_known_value() {
    let r = parse_curl("curl -A agent -k --compressed http://h".into()).unwrap();
    assert_eq!(r.warnings, vec!["Unknown flag ignored: -A", "Unknown flag ignored: -k", "Unknown flag ignored: --compressed"]);
    assert_eq!(r.url, "http://h");
}

#[test]
fn parse_curl_missing_value_stops() {
    let r = parse_curl("curl http://h -H".into()).unwrap();
    assert_eq!(r.url, "http://h");
    assert!(r.headers.is_empty());
    assert_eq!(r.method, "GET");
}

#[test]
fn parse_curl_first_url_wins() {
    let r = parse_curl("curl http://a https://b".into()).unwrap();
    assert_eq!(r.url, "http://a");
    let r2 = parse_curl("curl http://a --url http://c".into()).unwrap();
    assert_eq!(r2.url, "http://c");
}

#[test]
fn export_curl_get_with_headers() {
    let req = request("GET", "https://{{host}}/x", "none", "");
    let vars = vec![("host".to_string(), "api.test".to_string())];
    let out = export_curl(&req, &[header("A", "{{host}}"), header("", "skip")], &Auth::none(), &vars);
    assert_eq!(out, "curl \\\n  'https://api.test/x' \\\n  -H \\\n  'A: api.test'");
}

#[test]
fn export_curl_post_json_with_bearer() {
    let req = request("post", "http://h", "json", "{\"a\":1}");
    let mut auth = Auth::none();
    auth.type_ = AuthType::Bearer;
    auth.token = "t".into();
    let out = export_curl(&req, &[], &auth, &[]);
    assert_eq!(out, "curl \\\n  -X \\\n  POST \\\n  'http://h' \\\n  -H \\\n  'Authorization: Bearer t' \\\n  --data-raw \\\n  '{\"a\":1}'");
}

#[test]
fn export_curl_form_and_basic() {
    let req = request("PUT", "http://h", "form", "a=1\nnot a pair\nb=2=3");
    let mut auth = Auth::none();
    auth.type_ = AuthType::Basic;
    auth.username = "u".into();
    auth.password = "p".into();
    let out = export_curl(&req, &[], &auth, &[]);
    assert_eq!(out, "curl \\\n  -X \\\n  PUT \\\n  'http://h' \\\n  -u \\\n  'u:p' \\\n  -F \\\n  'a=1' \\\n  -F \\\n  'b=2=3'");
}

#[test]
fn export_curl_api_key_in_query_not_written() {
    let req = request("GET", "http://h", "none", "");
    let mut auth = Auth::none();
    auth.type_ = AuthType::ApiKey;
    auth.key = "k".into();
    auth.value = "v".into();
    auth.in_header = false;
    assert_eq!(export_curl(&req, &[], &auth, &[]), "curl \\\n  'http://h'");
    auth.in_header = true;
    assert_eq!(export_curl(&req, &[], &auth, &[]), "curl \\\n  'http://h' \\\n  -H \\\n  'k: v'");
}

#[test]
fn export_then_parse_reads_back() {
    let req = request("PUT", "https://api.example/items/7", "json", "{\"a\": \"b c\"}");
    let hs = vec![header("Accept", "application/json"), header("", "skipped"), header("X-Id", "42")];
    let cmd = export_curl(&req, &hs, &Auth::none(), &[]);
    let r = parse_curl(cmd).ok().unwrap();
    assert_eq!(r.method, "PUT");
    assert_eq!(r.url, "https://api.example/items/7");
    let got: Vec<(String, String)> = r.headers.iter().map(|h| (h.key.clone(), h.value.clone())).collect();
    assert_eq!(got, vec![("Accept".to_string(), "application/json".to_string()), ("X-Id".to_string(), "42".to_string())]);
    assert_eq!(r.body, "{\"a\": \"b c\"}");
    assert!(matches!(r.auth.type_, AuthType::NoAuth));
    assert!(r.warnings.is_empty());
}
