use poster::extract::{extract_updates, extract_value, first_element, trim_quotes};
use poster::path_screen::path_supported;
use poster::model::Extract;
use poster::numbers::{decimal_of_i128, parse_i128};

fn chars(s: &str) -> Vec<char> {
    s.chars().collect()
}

fn text(v: Vec<char>) -> String {
    v.into_iter().collect()
}

#[test]
fn extract_string_value_without_quotes() {
    assert_eq!(extract_value("{\"token\":\"abc\"}", "$.token"), Some("abc".to_string()));
}

#[test]
fn extract_number_and_object() {
    assert_eq!(extract_value("{\"a\":{\"b\":[1,2]}}", "$.a.b[1]"), Some("2".to_string()));
    assert_eq!(extract_value("{\"a\":{\"b\":[1,2]}}", "$.a"), Some("{\"b\":[1,2]}".to_string()));
}

#[test]
fn extract_first_of_many() {
    assert_eq!(extract_value("{\"xs\":[{\"n\":\"p,q\"},{\"n\":\"r\"}]}", "$.xs[*].n"), Some("p,q".to_string()));
}

#[test]
fn extract_nothing() {
    assert_eq!(extract_value("{\"a\":1}", "$.missing"), None);
    assert_eq!(extract_value("not json", "$.a"), None);
}

#[test]
fn extract_updates_in_rule_order() {
    let rules = vec![
        Extract { id: 1, request_id: 1, source_request_id: None, jsonpath: "$.a".into(), target_var_key: "A".into() },
        Extract { id: 2, request_id: 1, source_request_id: None, jsonpath: "$.none".into(), target_var_key: "N".into() },
        Extract { id: 3, request_id: 1, source_request_id: None, jsonpath: "$.b".into(), target_var_key: "B".into() },
    ];
    let u = extract_updates("{\"a\":\"x\",\"b\":true}", &rules);
    assert_eq!(u, vec![("A".to_string(), "x".to_string()), ("B".to_string(), "true".to_string())]);
}

#[test]
fn first_element_cases() {
    assert_eq!(first_element(&chars("[]")), None);
    assert_eq!(first_element(&chars("{}")), None);
    assert_eq!(first_element(&chars("[\"a]\",2]")).map(text), Some("\"a]\"".to_string()));
    assert_eq!(first_element(&chars("[\"q\\\"\",2]")).map(text), Some("\"q\\\"\"".to_string()));
    assert_eq!(first_element(&chars("[[1,2],3]")).map(text), Some("[1,2]".to_string()));
}

#[test]
fn trim_quotes_cases() {
    assert_eq!(text(trim_quotes(&chars("\"\"ab\"\""))), "ab");
    assert_eq!(text(trim_quotes(&chars("\""))), "");
    assert_eq!(text(trim_quotes(&chars("a\"b"))), "a\"b");
}

#[test]
fn parse_i128_cases() {
    assert_eq!(parse_i128(&chars("42")), Some(42));
    assert_eq!(parse_i128(&chars("+7")), Some(7));
    assert_eq!(parse_i128(&chars("-170141183460469231731687303715884105728")), Some(i128::MIN));
    assert_eq!(parse_i128(&chars("170141183460469231731687303715884105728")), None);
    assert_eq!(parse_i128(&chars("")), None);
    assert_eq!(parse_i128(&chars("-")), None);
    assert_eq!(parse_i128(&chars(" 1")), None);
    assert_eq!(parse_i128(&chars("1a")), None);
}

#[test]
fn decimal_round_trip() {
    for v in [0i128, 9, 10, -1, 123456789, i128::MIN, i128::MAX] {
        let d = text(decimal_of_i128(v));
        assert_eq!(d, v.to_string());
        assert_eq!(parse_i128(&chars(&d)), Some(v));
    }
}

#[test]
fn unsupported_paths_extract_nothing() {
    let body = "{\"xs\":[{\"n\":1},{\"n\":2}],\"a\":[1,2,3],\"b\":2}";
    assert_eq!(extract_value(body, "$.xs[?(@.n > 1e400)].n"), None);
    assert_eq!(extract_value(body, "$.a[0:2:0]"), None);
    assert_eq!(extract_value(body, "$.xs[?($.b == 2)].n"), None);
    assert_eq!(extract_value(body, "$.xs[?(@.n == 1)].a[0,1]"), None);
}

#[test]
fn key_lists_unions_slices_and_filters_extract() {
    assert_eq!(extract_value("{\"a\":1,\"b\":2}", "$['a','b']"), Some("1".to_string()));
    let body = "{\"xs\":[{\"n\":1,\"id\":\"p\"},{\"n\":2,\"id\":\"q\"}],\"a\":[1,2,3]}";
    assert_eq!(extract_value(body, "$.a[1,2]"), Some("2".to_string()));
    assert_eq!(extract_value(body, "$.a[1:3]"), Some("2".to_string()));
    assert_eq!(extract_value(body, "$.a[0:3:2]"), Some("1".to_string()));
    assert_eq!(extract_value(body, "$.xs[?(@.n > 1)].id"), Some("q".to_string()));
    assert_eq!(extract_value(body, "$..[?(@.id == 'p')].n"), Some("1".to_string()));
}

#[test]
fn path_support_screen() {
    assert!(path_supported("$.a.b[0]"));
    assert!(path_supported("$..name"));
    assert!(path_supported("$[?(@.a==1)]"));
    assert!(path_supported("$['a','b']"));
    assert!(path_supported("$[1:2]"));
    assert!(path_supported("$[0:4:2]"));
    assert!(!path_supported("$[::0]"));
    assert!(!path_supported("$[0:2: +00]"));
    assert!(!path_supported("$[?(@.a[0] == 1)]"));
    assert!(!path_supported("$[?(@.a == $.b)]"));
    assert!(!path_supported("$[?(@.a == 2e9)]"));
    assert!(!path_supported(&format!("$[?(@.a == {})]", "9".repeat(301))));
    assert!(path_supported(&format!("$[?(@.a == {})]", "9".repeat(300))));
    assert!(!path_supported(&format!("$.{}", "a".repeat(1030))));
}
