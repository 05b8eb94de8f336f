use poster::http_plan::{build_request, form_pairs, plan_load_request, HttpMethod, PlannedBody};
use poster::model::{Auth, AuthType, Header, VarOverride};

fn header(k: &str, v: &str) -> Header {
    Header { key: k.to_string(), value: v.to_string() }
}

fn pair(k: &str, v: &str) -> (String, String) {
    (k.to_string(), v.to_string())
}

#[test]
fn build_request_empty_url_is_error() {
    let r = build_request("GET", "{{u}}", &[], "none", "", &Auth::none(), &[pair("u", "")]);
    assert_eq!(r.err().unwrap(), "URL is empty");
}

#[test]
fn build_request_unknown_method_is_error() {
    let r = build_request("fetch", "http://h", &[], "none", "", &Auth::none(), &[]);
    assert_eq!(r.err().unwrap(), "Unsupported method: FETCH");
}

#[test]
fn build_request_method_is_uppercased() {
    let p = build_request("patch", "http://h", &[], "none", "", &Auth::none(), &[]).ok().unwrap();
    assert_eq!(p.method, HttpMethod::Patch);
    assert!(matches!(p.body, PlannedBody::NoBody));
}

#[test]
fn build_request_headers_auth_and_json_body_in_order() {
    let vars = vec![pair("t", "secret"), pair("v", "42")];
    let mut auth = Auth::none();
    auth.type_ = AuthType::Bearer;
    auth.token = "{{t}}".into();
    let p = build_request(
        "POST",
        "http://h/{{v}}",
        &[header("X-A", "{{v}}"), header("", "dropped")],
        "json",
        "{\"n\":{{v}}}",
        &auth,
        &vars,
    )
    .ok()
    .unwrap();
    assert_eq!(p.url, "http://h/42");
    assert_eq!(
        p.headers,
        vec![pair("X-A", "42"), pair("Authorization", "Bearer secret"), pair("Content-Type", "application/json")]
    );
    match p.body {
        PlannedBody::Text(t) => assert_eq!(t, "{\"n\":42}"),
        _ => panic!("expected a text body"),
    }
}

#[test]
fn build_request_basic_auth_is_base64() {
    let mut auth = Auth::none();
    auth.type_ = AuthType::Basic;
    auth.username = "user".into();
    auth.password = "pass".into();
    let p = build_request("GET", "http://h", &[], "none", "", &auth, &[]).ok().unwrap();
    assert_eq!(p.headers, vec![pair("Authorization", "Basic dXNlcjpwYXNz")]);
}

#[test]
fn build_request_api_key_in_query() {
    let mut auth = Auth::none();
    auth.type_ = AuthType::ApiKey;
    auth.key = "api_key".into();
    auth.value = "v".into();
    auth.in_header = false;
    let p = build_request("GET", "http://h", &[], "none", "", &auth, &[]).ok().unwrap();
    assert!(p.headers.is_empty());
    assert_eq!(p.query, vec![pair("api_key", "v")]);
}

#[test]
fn build_request_form_and_multipart() {
    let p = build_request("POST", "http://h", &[], "form", "a=1\nb\r\nc=2\r\n", &Auth::none(), &[]).ok().unwrap();
    match p.body {
        PlannedBody::Form(f) => assert_eq!(f, vec![pair("a", "1"), pair("c", "2")]),
        _ => panic!("expected a form"),
    }
    let p2 = build_request("POST", "http://h", &[], "form-data", "x=y", &Auth::none(), &[]).ok().unwrap();
    match p2.body {
        PlannedBody::Multipart(f) => assert_eq!(f, vec![pair("x", "y")]),
        _ => panic!("expected multipart"),
    }
}

#[test]
fn build_request_raw_body_is_text_plain() {
    let p = build_request("POST", "http://h", &[], "raw", "hello", &Auth::none(), &[]).ok().unwrap();
    assert_eq!(p.headers, vec![pair("Content-Type", "text/plain")]);
}

#[test]
fn form_pairs_cut_at_first_equals() {
    assert_eq!(form_pairs("k=v=w\n\nz"), vec![pair("k", "v=w")]);
}

#[test]
fn load_request_json_has_no_content_type_and_form_data_is_text() {
    let p = plan_load_request("http://h", "POST", &[pair("A", "b")], "json", "{}", &Auth::none(), &[], &[]).unwrap().ok().unwrap();
    assert_eq!(p.headers, vec![pair("A", "b")]);
    let p2 = plan_load_request("http://h", "POST", &[], "form-data", "x=y", &Auth::none(), &[], &[]).unwrap().ok().unwrap();
    assert_eq!(p2.headers, vec![pair("Content-Type", "text/plain")]);
    match p2.body {
        PlannedBody::Text(t) => assert_eq!(t, "x=y"),
        _ => panic!("expected text"),
    }
}

#[test]
fn load_request_errors() {
    let r = plan_load_request("", "GET", &[], "none", "", &Auth::none(), &[], &[]).unwrap();
    assert_eq!(r.err().unwrap(), "Empty URL");
    let r2 = plan_load_request("http://h", "get", &[], "none", "", &Auth::none(), &[], &[]).unwrap();
    assert_eq!(r2.err().unwrap(), "Unsupported method: get");
}

#[test]
fn load_request_uses_overrides() {
    let ovs = vec![VarOverride { key: "id".into(), mode: "fixed".into(), value: "9".into(), value_end: None }];
    let p = plan_load_request("http://h/{{id}}", "GET", &[], "none", "", &Auth::none(), &[pair("id", "1")], &ovs).unwrap().ok().unwrap();
    assert_eq!(p.url, "http://h/9");
}

fn range(key: &str, start: &str, end: &str) -> VarOverride {
    VarOverride { key: key.into(), mode: "range".into(), value: start.into(), value_end: Some(end.into()) }
}

#[test]
fn load_request_undrawable_override_only_when_used() {
    // a range of 2^64 values cannot be drawn from
    let unused = plan_load_request("http://h/{{id}}", "GET", &[], "none", "", &Auth::none(), &[], &[range("big", "0", "18446744073709551615")]);
    assert_eq!(unused.unwrap().ok().unwrap().url, "http://h/{{id}}");
    let used = plan_load_request("http://h/{{big}}", "GET", &[], "none", "", &Auth::none(), &[], &[range("big", "0", "18446744073709551615")]);
    assert!(used.is_none());
    let after_error = plan_load_request("", "GET", &[pair("X", "{{big}}")], "none", "", &Auth::none(), &[], &[range("big", "0", "18446744073709551615")]);
    assert_eq!(after_error.unwrap().err().unwrap(), "Empty URL");
}
