use poster::model::{VarOverride, Variable};
use poster::template::{list_items, pick_value, resolve, resolve_template, vars_map};

fn pair(k: &str, v: &str) -> (String, String) {
    (k.to_string(), v.to_string())
}

fn var(id: i64, k: &str, v: &str) -> Variable {
    Variable { id, project_id: 1, key: k.to_string(), value: v.to_string() }
}

fn fixed(key: &str, value: &str) -> VarOverride {
    VarOverride { key: key.into(), mode: "fixed".into(), value: value.into(), value_end: None }
}

#[test]
fn resolve_replaces_every_placeholder() {
    let vars = vec![pair("host", "example.com"), pair("id", "42")];
    assert_eq!(resolve("https://{{host}}/items/{{id}}?again={{id}}", &vars), "https://example.com/items/42?again=42");
}

#[test]
fn resolve_leaves_unknown_placeholders() {
    let vars = vec![pair("a", "1")];
    assert_eq!(resolve("{{b}}-{{a}}", &vars), "{{b}}-1");
}

#[test]
fn resolve_without_variables_is_identity() {
    assert_eq!(resolve("x {{y}} z", &[]), "x {{y}} z");
}

#[test]
fn resolve_text_without_braces_unchanged() {
    let vars = vec![pair("a", "1"), pair("b", "2")];
    assert_eq!(resolve("plain text a b", &vars), "plain text a b");
}

#[test]
fn resolve_applies_variables_in_order() {
    // the value of the first variable holds the placeholder of the second
    let vars = vec![pair("a", "{{b}}"), pair("b", "done")];
    assert_eq!(resolve("{{a}}", &vars), "done");
    let vars2 = vec![pair("b", "done"), pair("a", "{{b}}")];
    assert_eq!(resolve("{{a}}", &vars2), "{{b}}");
}

#[test]
fn vars_map_keeps_last_value_per_key() {
    let vs = vec![var(1, "a", "1"), var(2, "b", "2"), var(3, "a", "3")];
    let t = vars_map(&vs);
    assert_eq!(t, vec![pair("a", "3"), pair("b", "2")]);
}

#[test]
fn vars_map_empty() {
    assert!(vars_map(&[]).is_empty());
}

#[test]
fn pick_value_fixed_mode() {
    assert_eq!(pick_value(&fixed("k", "abc")), "abc");
}

#[test]
fn pick_value_unknown_mode_is_fixed() {
    let o = VarOverride { key: "k".into(), mode: "whatever".into(), value: "v".into(), value_end: None };
    assert_eq!(pick_value(&o), "v");
}

#[test]
fn pick_value_range_without_end_gives_start() {
    let o = VarOverride { key: "k".into(), mode: "range".into(), value: "7".into(), value_end: None };
    assert_eq!(pick_value(&o), "7");
}

#[test]
fn pick_value_reversed_range_gives_start() {
    let o = VarOverride { key: "k".into(), mode: "range".into(), value: "-5".into(), value_end: Some("-9".into()) };
    assert_eq!(pick_value(&o), "-5");
}

#[test]
fn pick_value_bad_numbers_give_zero() {
    let o = VarOverride { key: "k".into(), mode: "range".into(), value: "x".into(), value_end: Some("y".into()) };
    assert_eq!(pick_value(&o), "0");
}

#[test]
fn pick_value_range_stays_in_range() {
    let o = VarOverride { key: "k".into(), mode: "range".into(), value: "1".into(), value_end: Some("3".into()) };
    for _ in 0..50 {
        let v: i128 = pick_value(&o).parse().unwrap();
        assert!((1..=3).contains(&v));
    }
}

#[test]
fn pick_value_list_picks_an_item() {
    let o = VarOverride { key: "k".into(), mode: "list".into(), value: " a, b ,,c ".into(), value_end: None };
    for _ in 0..50 {
        let v = pick_value(&o);
        assert!(v == "a" || v == "b" || v == "c", "{}", v);
    }
}

#[test]
fn pick_value_empty_list_gives_empty() {
    let o = VarOverride { key: "k".into(), mode: "list".into(), value: " , ,".into(), value_end: None };
    assert_eq!(pick_value(&o), "");
}

#[test]
fn list_items_trims_and_drops_empty() {
    let items: Vec<String> = list_items(" x ,, y,z ").into_iter().map(|v| v.into_iter().collect()).collect();
    assert_eq!(items, vec!["x", "y", "z"]);
}

#[test]
fn resolve_template_overrides_before_variables() {
    let vars = vec![pair("id", "var"), pair("other", "o")];
    let ovs = vec![fixed("id", "over")];
    assert_eq!(resolve_template("/{{id}}/{{other}}", &vars, &ovs), "/over/o");
}

#[test]
fn resolve_template_empty_key_override_ignored() {
    let vars = vec![pair("id", "var")];
    let ovs = vec![fixed("", "over")];
    assert_eq!(resolve_template("/{{id}}", &vars, &ovs), "/var");
}

#[test]
fn resolve_template_range_override() {
    let ovs = vec![VarOverride { key: "n".into(), mode: "range".into(), value: "10".into(), value_end: Some("12".into()) }];
    for _ in 0..20 {
        let out = resolve_template("id={{n}}", &[], &ovs);
        assert!(out == "id=10" || out == "id=11" || out == "id=12", "{}", out);
    }
}

#[test]
fn resolve_same_for_any_order_of_distinct_keys() {
    let tpl = "{{a}}-{{b}}/{{c}}";
    let one = vec![pair("a", "1"), pair("b", "2")];
    let two = vec![pair("b", "2"), pair("a", "1")];
    assert_eq!(resolve(tpl, &one), "1-2/{{c}}");
    assert_eq!(resolve(tpl, &two), "1-2/{{c}}");
}
