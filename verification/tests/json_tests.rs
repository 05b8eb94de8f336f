use poster::json::{validate_export, JsonNumber, JsonValue};
use poster::model::{Auth, AuthType, Extract, Header, Project, Request, Variable};
use poster::project_json::{auth_json, export_json, header_json};
use poster::project_io::{build_export, export_request, find_project, plan_import, source_request_id, ImportTarget};

fn s(x: &str) -> JsonValue {
    JsonValue::Str(x.to_string())
}

fn obj(fields: Vec<(&str, JsonValue)>) -> JsonValue {
    JsonValue::Object(fields.into_iter().map(|(k, v)| (k.to_string(), v)).collect())
}

fn num(n: u64) -> JsonValue {
    JsonValue::Number(JsonNumber::PosInt(n))
}

fn sample_doc() -> JsonValue {
    obj(vec![
        ("version", num(1)),
        ("name", s("Demo")),
        (
            "variables",
            JsonValue::Array(vec![
                obj(vec![("key", s("host")), ("value", s("h"))]),
                obj(vec![("key", s("nokey_value_missing"))]),
                obj(vec![("value", s("no key"))]),
            ]),
        ),
        (
            "requests",
            JsonValue::Array(vec![
                obj(vec![("method", s("POST")), ("name", s("first")), ("headers", JsonValue::Array(vec![]))]),
                obj(vec![
                    ("method", s("GET")),
                    (
                        "extracts",
                        JsonValue::Array(vec![obj(vec![
                            ("source_request_id", num(0)),
                            ("jsonpath", s("$.a")),
                            ("target_var_key", s("a")),
                        ])]),
                    ),
                ]),
            ]),
        ),
    ])
}

#[test]
fn validate_export_accepts_sample() {
    assert!(validate_export(&sample_doc()).is_ok());
}

#[test]
fn validate_export_errors() {
    assert_eq!(validate_export(&JsonValue::Null).unwrap_err(), "Root must be a JSON object");
    assert_eq!(
        validate_export(&obj(vec![("name", s("x"))])).unwrap_err(),
        "Missing or invalid 'version' field"
    );
    assert_eq!(
        validate_export(&obj(vec![("version", num(0)), ("name", s("x"))])).unwrap_err(),
        "Missing or invalid 'version' field"
    );
    assert_eq!(validate_export(&obj(vec![("version", num(2))])).unwrap_err(), "Missing 'name' field");
    assert_eq!(
        validate_export(&obj(vec![("version", num(1)), ("name", s("x")), ("requests", s("no"))])).unwrap_err(),
        "'requests' must be an array"
    );
    assert_eq!(
        validate_export(&obj(vec![
            ("version", num(1)),
            ("name", s("x")),
            ("requests", JsonValue::Array(vec![obj(vec![("method", s("GET"))]), obj(vec![])])),
        ]))
        .unwrap_err(),
        "requests[1] missing 'method'"
    );
}

#[test]
fn validate_export_negative_version_refused() {
    let d = obj(vec![("version", JsonValue::Number(JsonNumber::NegInt(-1))), ("name", s("x"))]);
    assert!(validate_export(&d).is_err());
}

#[test]
fn plan_import_new() {
    let d = sample_doc();
    let p = plan_import(&d, "new", None).ok().unwrap();
    assert_eq!(p.target, ImportTarget::NewProject);
    assert_eq!(p.name, "Demo");
    assert_eq!(p.variables, vec![("host".to_string(), "h".to_string()), ("nokey_value_missing".to_string(), String::new())]);
    assert_eq!(p.requests.len(), 2);
    assert_eq!(p.requests[0].name, "first");
    assert_eq!(p.requests[0].method, "POST");
    assert_eq!(p.requests[0].url, "");
    assert_eq!(p.requests[0].body_type, "none");
    assert!(p.requests[0].headers.is_some());
    assert!(p.requests[0].auth.is_none());
    assert_eq!(p.requests[1].name, "Request");
    assert_eq!(p.requests[1].extracts.len(), 1);
    assert_eq!(p.requests[1].extracts[0].source_index, Some(0));
    assert_eq!(p.requests[1].extracts[0].jsonpath, "$.a");
}

#[test]
fn plan_import_modes() {
    let d = sample_doc();
    assert_eq!(plan_import(&d, "append", Some(7)).ok().unwrap().target, ImportTarget::Append(7));
    assert_eq!(plan_import(&d, "append", None).err().unwrap(), "target_project_id required for append");
    assert_eq!(plan_import(&d, "merge", None).err().unwrap(), "Unknown import mode");
    assert_eq!(plan_import(&JsonValue::Bool(true), "merge", None).err().unwrap(), "Root must be a JSON object");
}

#[test]
fn source_request_id_maps_positions() {
    let ids = vec![10, 11];
    assert_eq!(source_request_id(Some(1), &ids), Some(11));
    assert_eq!(source_request_id(Some(2), &ids), None);
    assert_eq!(source_request_id(None, &ids), None);
}

#[test]
fn find_project_by_id() {
    let ps = vec![Project::new(3, "a".into(), "t".into()), Project::new(5, "b".into(), "t".into())];
    assert_eq!(find_project(&ps, 5), Some(1));
    assert_eq!(find_project(&ps, 4), None);
}

#[test]
fn build_export_contents() {
    let p = Project::new(1, "P".into(), "t0".into());
    let r = Request::new_default(2, 1, "req".into());
    let ex = vec![Extract { id: 1, request_id: 2, source_request_id: Some(9), jsonpath: "$.x".into(), target_var_key: "x".into() }];
    let er = export_request(&r, vec![], Auth::none(), &ex);
    assert_eq!(er.method, "GET");
    assert_eq!(er.extracts[0].jsonpath, "$.x");
    let vars = vec![Variable { id: 1, project_id: 1, key: "k".into(), value: "v".into() }];
    let f = build_export(&p, "now".into(), &vars, vec![er]);
    assert_eq!(f.version, 1);
    assert_eq!(f.name, "P");
    assert_eq!(f.exported_at, "now");
    assert_eq!(f.variables[0].key, "k");
    assert_eq!(f.requests.len(), 1);
}

#[test]
fn new_default_request_fields() {
    let r = Request::new_default(4, 2, "n".into());
    assert_eq!(r.url, "");
    assert_eq!(r.headers_json, "[]");
    assert_eq!(r.body_type, "none");
    assert_eq!(r.auth_json, "{}");
}

#[test]
fn import_reads_back_an_export() {
    let p = Project::new(1, "Shop".into(), "t0".into());
    let mut r = Request::new_default(2, 1, "login".into());
    r.method = "POST".into();
    r.url = "{{host}}/login".into();
    r.body_type = "json".into();
    r.body = "{}".into();
    let ex = vec![Extract { id: 1, request_id: 2, source_request_id: Some(2), jsonpath: "$.token".into(), target_var_key: "tok".into() }];
    let auth = Auth { type_: AuthType::Bearer, token: "{{tok}}".into(), ..Auth::none() };
    let er = export_request(&r, vec![Header::new("Accept".into(), "*/*".into())], auth, &ex);
    let vars = vec![Variable { id: 1, project_id: 1, key: "host".into(), value: "http://h".into() }];
    let f = build_export(&p, "now".into(), &vars, vec![er]);
    let doc = export_json(&f);
    let plan = plan_import(&doc, "new", None).ok().unwrap();
    assert_eq!(plan.target, ImportTarget::NewProject);
    assert_eq!(plan.name, "Shop");
    assert_eq!(plan.variables, vec![("host".to_string(), "http://h".to_string())]);
    assert_eq!(plan.requests.len(), 1);
    let d = &plan.requests[0];
    assert_eq!((d.name.as_str(), d.method.as_str(), d.url.as_str()), ("login", "POST", "{{host}}/login"));
    assert_eq!((d.body_type.as_str(), d.body.as_str()), ("json", "{}"));
    assert_eq!(d.extracts.len(), 1);
    assert_eq!(d.extracts[0].source_index, None);
    assert_eq!(d.extracts[0].jsonpath, "$.token");
    assert_eq!(d.extracts[0].target_var_key, "tok");
    match d.headers {
        Some(JsonValue::Array(hs)) => match &hs[0] {
            JsonValue::Object(fs) => {
                assert_eq!(fs[0].0, "key");
                assert!(matches!(&fs[0].1, JsonValue::Str(k) if k == "Accept"));
            }
            _ => panic!("header is not an object"),
        },
        _ => panic!("headers missing"),
    }
    match d.auth {
        Some(JsonValue::Object(fs)) => {
            assert_eq!(fs.len(), 7);
            assert!(matches!(&fs[0].1, JsonValue::Str(t) if t == "bearer"));
            assert!(matches!(&fs[1].1, JsonValue::Str(t) if t == "{{tok}}"));
            assert!(matches!(&fs[6].1, JsonValue::Bool(false)));
        }
        _ => panic!("auth missing"),
    }
    let appended = plan_import(&doc, "append", Some(7)).ok().unwrap();
    assert_eq!(appended.target, ImportTarget::Append(7));
}

#[test]
fn header_and_auth_json_shapes() {
    match header_json(&Header::new("k".into(), "v".into())) {
        JsonValue::Object(fs) => {
            let names: Vec<&str> = fs.iter().map(|f| f.0.as_str()).collect();
            assert_eq!(names, vec!["key", "value"]);
        }
        _ => panic!("not an object"),
    }
    match auth_json(&Auth { type_: AuthType::ApiKey, in_header: true, ..Auth::none() }) {
        JsonValue::Object(fs) => {
            let names: Vec<&str> = fs.iter().map(|f| f.0.as_str()).collect();
            assert_eq!(names, vec!["type_", "token", "username", "password", "key", "value", "in_header"]);
            assert!(matches!(&fs[0].1, JsonValue::Str(t) if t == "api_key"));
            assert!(matches!(&fs[6].1, JsonValue::Bool(true)));
        }
        _ => panic!("not an object"),
    }
}
