//! The JSON document of a project file as an export writes it, and what an
//! import reads back from it.
use vstd::prelude::*;

use crate::json::{
    first_field, first_without_method, json_get, json_str, spec_validate_export, JsonNumber,
    JsonValue,
};
use crate::model::{Auth, AuthType, Header};
use crate::project_io::{
    doc_requests, extract_read, file_variables, plan_read, request_read, spec_import_target, ExportExtract,
    ExportFile, ExportRequest, ExportVariable, ImportPlan, ImportTarget, RequestDraft,
};

verus! {

// ---------------------------------------------------------------------------
// The shape of the document
// ---------------------------------------------------------------------------

/// The name under which an authentication kind is written.
pub open spec fn auth_type_name(t: AuthType) -> Seq<char> {
    match t {
        AuthType::NoAuth => "none"@,
        AuthType::Bearer => "bearer"@,
        AuthType::Basic => "basic"@,
        AuthType::ApiKey => "api_key"@,
    }
}

/// `v` is the JSON string `s`.
pub open spec fn is_text(v: JsonValue, s: Seq<char>) -> bool {
    json_str(Some(v)) == Some(s)
}

/// `v` is an object whose members have the names `names`, in this order.
pub open spec fn object_named(v: JsonValue, names: Seq<Seq<char>>) -> bool {
    match v {
        JsonValue::Object(fs) => fs@.len() == names.len() && forall|i: int|
            0 <= i < names.len() ==> (#[trigger] fs@[i]).0@ == names[i],
        _ => false,
    }
}

/// The value of the i-th member of an object.
pub open spec fn member(v: JsonValue, i: int) -> JsonValue {
    match v {
        JsonValue::Object(fs) => fs@[i].1,
        _ => JsonValue::Null,
    }
}

/// The elements of an array; none for anything else.
pub open spec fn elements(v: JsonValue) -> Seq<JsonValue> {
    match v {
        JsonValue::Array(a) => a@,
        _ => seq![],
    }
}

/// The members of a header and of a variable.
pub open spec fn pair_names() -> Seq<Seq<char>> {
    seq!["key"@, "value"@]
}

/// The members of an authentication.
pub open spec fn auth_names() -> Seq<Seq<char>> {
    seq!["type_"@, "token"@, "username"@, "password"@, "key"@, "value"@, "in_header"@]
}

/// The members of an extract rule.
pub open spec fn extract_names() -> Seq<Seq<char>> {
    seq!["source_request_id"@, "jsonpath"@, "target_var_key"@]
}

/// The members of a request.
pub open spec fn request_names() -> Seq<Seq<char>> {
    seq!["name"@, "method"@, "url"@, "headers"@, "body_type"@, "body"@, "auth"@, "extracts"@]
}

/// The members of a project file.
pub open spec fn file_names() -> Seq<Seq<char>> {
    seq!["version"@, "name"@, "exported_at"@, "variables"@, "requests"@]
}

/// `v` is the JSON of the header `h`: `{"key": .., "value": ..}`.
pub open spec fn header_doc(h: Header, v: JsonValue) -> bool {
    &&& object_named(v, pair_names())
    &&& is_text(member(v, 0), h.key@)
    &&& is_text(member(v, 1), h.value@)
}

/// `v` is an array of the JSON of the headers `hs`.
pub open spec fn headers_doc(hs: Seq<Header>, v: JsonValue) -> bool {
    &&& v is Array
    &&& elements(v).len() == hs.len()
    &&& forall|i: int| 0 <= i < hs.len() ==> #[trigger] header_doc(hs[i], elements(v)[i])
}

/// `v` is the JSON of the authentication `a`: its kind by name, its five
/// texts and the `in_header` flag.
pub open spec fn auth_doc(a: Auth, v: JsonValue) -> bool {
    &&& object_named(v, auth_names())
    &&& is_text(member(v, 0), auth_type_name(a.type_))
    &&& is_text(member(v, 1), a.token@)
    &&& is_text(member(v, 2), a.username@)
    &&& is_text(member(v, 3), a.password@)
    &&& is_text(member(v, 4), a.key@)
    &&& is_text(member(v, 5), a.value@)
    &&& member(v, 6) == JsonValue::Bool(a.in_header)
}

/// `v` is the JSON of the extract rule `x`, its source `null`.
pub open spec fn extract_doc(x: ExportExtract, v: JsonValue) -> bool {
    &&& object_named(v, extract_names())
    &&& member(v, 0) == JsonValue::Null
    &&& is_text(member(v, 1), x.jsonpath@)
    &&& is_text(member(v, 2), x.target_var_key@)
}

/// `v` is an array of the JSON of the extract rules `xs`.
pub open spec fn extracts_doc(xs: Seq<ExportExtract>, v: JsonValue) -> bool {
    &&& v is Array
    &&& elements(v).len() == xs.len()
    &&& forall|i: int| 0 <= i < xs.len() ==> #[trigger] extract_doc(xs[i], elements(v)[i])
}

/// `v` is the JSON of the request `r`.
pub open spec fn request_doc(r: ExportRequest, v: JsonValue) -> bool {
    &&& object_named(v, request_names())
    &&& is_text(member(v, 0), r.name@)
    &&& is_text(member(v, 1), r.method@)
    &&& is_text(member(v, 2), r.url@)
    &&& headers_doc(r.headers@, member(v, 3))
    &&& is_text(member(v, 4), r.body_type@)
    &&& is_text(member(v, 5), r.body@)
    &&& auth_doc(r.auth, member(v, 6))
    &&& extracts_doc(r.extracts@, member(v, 7))
}

/// `v` is the JSON of the variable `x`: `{"key": .., "value": ..}`.
pub open spec fn variable_doc(x: ExportVariable, v: JsonValue) -> bool {
    &&& object_named(v, pair_names())
    &&& is_text(member(v, 0), x.key@)
    &&& is_text(member(v, 1), x.value@)
}

/// `doc` is the JSON of the project file `f`: its version, name and time
/// of export, then its variables and its requests, in order.
pub open spec fn exported_doc(f: ExportFile, doc: JsonValue) -> bool {
    &&& object_named(doc, file_names())
    &&& member(doc, 0) == JsonValue::Number(JsonNumber::PosInt(f.version as u64))
    &&& is_text(member(doc, 1), f.name@)
    &&& is_text(member(doc, 2), f.exported_at@)
    &&& member(doc, 3) is Array
    &&& elements(member(doc, 3)).len() == f.variables@.len()
    &&& forall|i: int|
        0 <= i < f.variables@.len() ==> #[trigger] variable_doc(
            f.variables@[i],
            elements(member(doc, 3))[i],
        )
    &&& member(doc, 4) is Array
    &&& elements(member(doc, 4)).len() == f.requests@.len()
    &&& forall|i: int|
        0 <= i < f.requests@.len() ==> #[trigger] request_doc(
            f.requests@[i],
            elements(member(doc, 4))[i],
        )
}

// ---------------------------------------------------------------------------
// Writing the document
// ---------------------------------------------------------------------------

/// A JSON string.
fn text(s: &String) -> (v: JsonValue)
    ensures
        is_text(v, s@),
{
    JsonValue::Str(s.clone())
}

/// A member named `name`.
fn named(name: &str, v: JsonValue) -> (m: (String, JsonValue))
    ensures
        m.0@ == name@,
        m.1 == v,
{
    (String::from_str(name), v)
}

/// The JSON of a header.
pub fn header_json(h: &Header) -> (v: JsonValue)
    ensures
        header_doc(*h, v),
{
    let fs = vec![named("key", text(&h.key)), named("value", text(&h.value))];
    JsonValue::Object(fs)
}

/// The JSON of a list of headers.
pub fn headers_json(hs: &Vec<Header>) -> (v: JsonValue)
    ensures
        headers_doc(hs@, v),
{
    let mut a: Vec<JsonValue> = Vec::new();
    let mut i: usize = 0;
    while i < hs.len()
        invariant
            i <= hs.len(),
            a@.len() == i,
            forall|m: int| 0 <= m < i ==> #[trigger] header_doc(hs@[m], a@[m]),
        decreases hs.len() - i,
    {
        a.push(header_json(&hs[i]));
        i += 1;
    }
    let v = JsonValue::Array(a);
    assert(elements(v) == a@);
    v
}

/// The name of an authentication kind.
fn auth_type_text(t: AuthType) -> (v: JsonValue)
    ensures
        is_text(v, auth_type_name(t)),
{
    let s = match t {
        AuthType::NoAuth => String::from_str("none"),
        AuthType::Bearer => String::from_str("bearer"),
        AuthType::Basic => String::from_str("basic"),
        AuthType::ApiKey => String::from_str("api_key"),
    };
    JsonValue::Str(s)
}

/// The JSON of an authentication.
pub fn auth_json(a: &Auth) -> (v: JsonValue)
    ensures
        auth_doc(*a, v),
{
    let fs = vec![
        named("type_", auth_type_text(a.type_)),
        named("token", text(&a.token)),
        named("username", text(&a.username)),
        named("password", text(&a.password)),
        named("key", text(&a.key)),
        named("value", text(&a.value)),
        named("in_header", JsonValue::Bool(a.in_header)),
    ];
    JsonValue::Object(fs)
}

/// The JSON of an extract rule.
fn extract_json(x: &ExportExtract) -> (v: JsonValue)
    ensures
        extract_doc(*x, v),
{
    let fs = vec![
        named("source_request_id", JsonValue::Null),
        named("jsonpath", text(&x.jsonpath)),
        named("target_var_key", text(&x.target_var_key)),
    ];
    JsonValue::Object(fs)
}

/// The JSON of a request.
fn request_json(r: &ExportRequest) -> (v: JsonValue)
    ensures
        request_doc(*r, v),
{
    let mut xs: Vec<JsonValue> = Vec::new();
    let mut i: usize = 0;
    while i < r.extracts.len()
        invariant
            i <= r.extracts.len(),
            xs@.len() == i,
            forall|m: int| 0 <= m < i ==> #[trigger] extract_doc(r.extracts@[m], xs@[m]),
        decreases r.extracts.len() - i,
    {
        xs.push(extract_json(&r.extracts[i]));
        i += 1;
    }
    let xv = JsonValue::Array(xs);
    assert(elements(xv) == xs@);
    let fs = vec![
        named("name", text(&r.name)),
        named("method", text(&r.method)),
        named("url", text(&r.url)),
        named("headers", headers_json(&r.headers)),
        named("body_type", text(&r.body_type)),
        named("body", text(&r.body)),
        named("auth", auth_json(&r.auth)),
        named("extracts", xv),
    ];
    JsonValue::Object(fs)
}

/// The JSON document of a project file: `version`, `name`, `exported_at`,
/// `variables` (key/value objects) and `requests`, in this order.
pub fn export_json(f: &ExportFile) -> (doc: JsonValue)
    ensures
        exported_doc(*f, doc),
{
    let mut vs: Vec<JsonValue> = Vec::new();
    let mut i: usize = 0;
    while i < f.variables.len()
        invariant
            i <= f.variables.len(),
            vs@.len() == i,
            forall|m: int| 0 <= m < i ==> #[trigger] variable_doc(f.variables@[m], vs@[m]),
        decreases f.variables.len() - i,
    {
        let x = &f.variables[i];
        let fs = vec![named("key", text(&x.key)), named("value", text(&x.value))];
        vs.push(JsonValue::Object(fs));
        i += 1;
    }
    let mut rs: Vec<JsonValue> = Vec::new();
    let mut j: usize = 0;
    while j < f.requests.len()
        invariant
            j <= f.requests.len(),
            rs@.len() == j,
            forall|m: int| 0 <= m < j ==> #[trigger] request_doc(f.requests@[m], rs@[m]),
        decreases f.requests.len() - j,
    {
        rs.push(request_json(&f.requests[j]));
        j += 1;
    }
    let vv = JsonValue::Array(vs);
    let rv = JsonValue::Array(rs);
    assert(elements(vv) == vs@);
    assert(elements(rv) == rs@);
    let fs = vec![
        named("version", JsonValue::Number(JsonNumber::PosInt(f.version as u64))),
        named("name", text(&f.name)),
        named("exported_at", text(&f.exported_at)),
        named("variables", vv),
        named("requests", rv),
    ];
    JsonValue::Object(fs)
}

// ---------------------------------------------------------------------------
// Reading the document back
// ---------------------------------------------------------------------------

/// The draft `d` that an import reads holds the request `r` that was
/// exported: its texts, its headers and authentication as written, and its
/// extract rules without a source.
pub open spec fn draft_matches(r: ExportRequest, d: RequestDraft) -> bool {
    &&& d.name@ == r.name@
    &&& d.method@ == r.method@
    &&& d.url@ == r.url@
    &&& d.body_type@ == r.body_type@
    &&& d.body@ == r.body@
    &&& d.headers matches Some(h) && headers_doc(r.headers@, *h)
    &&& d.auth matches Some(a) && auth_doc(r.auth, *a)
    &&& d.extracts@.len() == r.extracts@.len()
    &&& forall|j: int|
        0 <= j < r.extracts@.len() ==> {
            &&& (#[trigger] d.extracts@[j]).source_index is None
            &&& d.extracts@[j].jsonpath@ == r.extracts@[j].jsonpath@
            &&& d.extracts@[j].target_var_key@ == r.extracts@[j].target_var_key@
        }
}

/// The import plan `p` adds what the project file `f` holds: its name, its
/// variables in order and its requests in order.
pub open spec fn imports_export(f: ExportFile, p: ImportPlan) -> bool {
    &&& p.name@ == f.name@
    &&& p.variables@.map_values(|v: (String, String)| (v.0@, v.1@)) == f.variables@.map_values(
        |x: ExportVariable| (x.key@, x.value@),
    )
    &&& p.requests@.len() == f.requests@.len()
    &&& forall|i: int|
        0 <= i < f.requests@.len() ==> #[trigger] draft_matches(f.requests@[i], p.requests@[i])
}

/// Each name occurs once in `names`.
pub open spec fn names_distinct(names: Seq<Seq<char>>) -> bool {
    forall|a: int, b: int| 0 <= a < b < names.len() ==> names[a] != names[b]
}

proof fn lemma_names_distinct()
    ensures
        names_distinct(pair_names()),
        names_distinct(auth_names()),
        names_distinct(extract_names()),
        names_distinct(request_names()),
        names_distinct(file_names()),
{
    reveal_strlit("key");
    assert("key"@.len() == 3 && "key"@[0] == 'k' && "key"@[1] == 'e');
    reveal_strlit("value");
    assert("value"@.len() == 5 && "value"@[0] == 'v' && "value"@[1] == 'a');
    reveal_strlit("type_");
    assert("type_"@.len() == 5 && "type_"@[0] == 't' && "type_"@[1] == 'y');
    reveal_strlit("token");
    assert("token"@.len() == 5 && "token"@[0] == 't' && "token"@[1] == 'o');
    reveal_strlit("username");
    assert("username"@.len() == 8 && "username"@[0] == 'u' && "username"@[1] == 's');
    reveal_strlit("password");
    assert("password"@.len() == 8 && "password"@[0] == 'p' && "password"@[1] == 'a');
    reveal_strlit("in_header");
    assert("in_header"@.len() == 9 && "in_header"@[0] == 'i' && "in_header"@[1] == 'n');
    reveal_strlit("source_request_id");
    assert("source_request_id"@.len() == 17 && "source_request_id"@[0] == 's' && "source_request_id"@[1] == 'o');
    reveal_strlit("jsonpath");
    assert("jsonpath"@.len() == 8 && "jsonpath"@[0] == 'j' && "jsonpath"@[1] == 's');
    reveal_strlit("target_var_key");
    assert("target_var_key"@.len() == 14 && "target_var_key"@[0] == 't' && "target_var_key"@[1] == 'a');
    reveal_strlit("name");
    assert("name"@.len() == 4 && "name"@[0] == 'n' && "name"@[1] == 'a');
    reveal_strlit("method");
    assert("method"@.len() == 6 && "method"@[0] == 'm' && "method"@[1] == 'e');
    reveal_strlit("url");
    assert("url"@.len() == 3 && "url"@[0] == 'u' && "url"@[1] == 'r');
    reveal_strlit("headers");
    assert("headers"@.len() == 7 && "headers"@[0] == 'h' && "headers"@[1] == 'e');
    reveal_strlit("body_type");
    assert("body_type"@.len() == 9 && "body_type"@[0] == 'b' && "body_type"@[1] == 'o');
    reveal_strlit("body");
    assert("body"@.len() == 4 && "body"@[0] == 'b' && "body"@[1] == 'o');
    reveal_strlit("auth");
    assert("auth"@.len() == 4 && "auth"@[0] == 'a' && "auth"@[1] == 'u');
    reveal_strlit("extracts");
    assert("extracts"@.len() == 8 && "extracts"@[0] == 'e' && "extracts"@[1] == 'x');
    reveal_strlit("version");
    assert("version"@.len() == 7 && "version"@[0] == 'v' && "version"@[1] == 'e');
    reveal_strlit("exported_at");
    assert("exported_at"@.len() == 11 && "exported_at"@[0] == 'e' && "exported_at"@[1] == 'x');
    reveal_strlit("variables");
    assert("variables"@.len() == 9 && "variables"@[0] == 'v' && "variables"@[1] == 'a');
    reveal_strlit("requests");
    assert("requests"@.len() == 8 && "requests"@[0] == 'r' && "requests"@[1] == 'e');
}

proof fn lemma_first_field_at(fs: Seq<(String, JsonValue)>, key: Seq<char>, i: int)
    requires
        0 <= i < fs.len(),
        fs[i].0@ == key,
        forall|j: int| 0 <= j < i ==> (#[trigger] fs[j]).0@ != key,
    ensures
        first_field(fs, key) == Some(fs[i].1),
    decreases i,
{
    if i > 0 {
        let rest = fs.drop_first();
        assert(fs[0].0@ != key);
        assert forall|j: int| 0 <= j < i - 1 implies (#[trigger] rest[j]).0@ != key by {
            assert(rest[j] == fs[j + 1]);
        }
        lemma_first_field_at(rest, key, i - 1);
    }
}

/// In an object with distinct member names, the member named `names[i]`
/// is the i-th.
proof fn lemma_member(v: JsonValue, names: Seq<Seq<char>>, i: int)
    requires
        object_named(v, names),
        names_distinct(names),
        0 <= i < names.len(),
    ensures
        json_get(v, names[i]) == Some(member(v, i)),
{
    match v {
        JsonValue::Object(fs) => {
            assert forall|j: int| 0 <= j < i implies (#[trigger] fs@[j]).0@ != names[i] by {
                assert(fs@[j].0@ == names[j]);
            }
            assert(fs@[i].0@ == names[i]);
            lemma_first_field_at(fs@, names[i], i);
        },
        _ => {},
    }
}

proof fn lemma_file_variables(xs: Seq<ExportVariable>, a: Seq<JsonValue>)
    requires
        a.len() == xs.len(),
        forall|i: int| 0 <= i < xs.len() ==> #[trigger] variable_doc(xs[i], a[i]),
    ensures
        file_variables(a) == xs.map_values(|x: ExportVariable| (x.key@, x.value@)),
    decreases a.len(),
{
    if a.len() > 0 {
        let n = a.len() - 1;
        assert forall|i: int| 0 <= i < n implies #[trigger] variable_doc(
            xs.drop_last()[i],
            a.drop_last()[i],
        ) by {
            assert(variable_doc(xs[i], a[i]));
        }
        lemma_file_variables(xs.drop_last(), a.drop_last());
        lemma_names_distinct();
        assert(variable_doc(xs[n], a[n]));
        lemma_member(a.last(), pair_names(), 0);
        lemma_member(a.last(), pair_names(), 1);
        assert(xs.map_values(|x: ExportVariable| (x.key@, x.value@)) =~= xs.drop_last().map_values(
            |x: ExportVariable| (x.key@, x.value@),
        ).push((xs.last().key@, xs.last().value@)));
    }
}

proof fn lemma_every_request_has_method(rs: Seq<ExportRequest>, a: Seq<JsonValue>, from: int)
    requires
        a.len() == rs.len(),
        forall|i: int| 0 <= i < rs.len() ==> #[trigger] request_doc(rs[i], a[i]),
        0 <= from <= a.len(),
    ensures
        first_without_method(a, from) is None,
    decreases a.len() - from,
{
    if from < a.len() {
        lemma_names_distinct();
        assert(request_doc(rs[from], a[from]));
        lemma_member(a[from], request_names(), 1);
        lemma_every_request_has_method(rs, a, from + 1);
    }
}

proof fn lemma_draft(r: ExportRequest, v: JsonValue, d: RequestDraft)
    requires
        request_doc(r, v),
        request_read(v, d),
    ensures
        draft_matches(r, d),
{
    lemma_names_distinct();
    let names = request_names();
    assert forall|k: int| 0 <= k < 8 implies json_get(v, #[trigger] names[k]) == Some(
        member(v, k),
    ) by {
        lemma_member(v, names, k);
    }
    assert(json_get(v, "name"@) == Some(member(v, 0)));
    assert(json_get(v, "method"@) == Some(member(v, 1)));
    assert(json_get(v, "url"@) == Some(member(v, 2)));
    assert(json_get(v, "headers"@) == Some(member(v, 3)));
    assert(json_get(v, "body_type"@) == Some(member(v, 4)));
    assert(json_get(v, "body"@) == Some(member(v, 5)));
    assert(json_get(v, "auth"@) == Some(member(v, 6)));
    assert(json_get(v, "extracts"@) == Some(member(v, 7)));
    let es = elements(member(v, 7));
    assert forall|j: int| 0 <= j < r.extracts@.len() implies {
        &&& (#[trigger] d.extracts@[j]).source_index is None
        &&& d.extracts@[j].jsonpath@ == r.extracts@[j].jsonpath@
        &&& d.extracts@[j].target_var_key@ == r.extracts@[j].target_var_key@
    } by {
        assert(extract_doc(r.extracts@[j], es[j]));
        lemma_member(es[j], extract_names(), 0);
        lemma_member(es[j], extract_names(), 1);
        lemma_member(es[j], extract_names(), 2);
        assert(extract_read(es[j], d.extracts@[j]));
    }
}

/// A project file that an export wrote passes the import checks: it goes
/// to a new project in the mode `new`, and to the given project in the mode
/// `append` with a target. So `plan_import` on it returns `Ok` in both.
pub proof fn law_export_passes_import_checks(f: ExportFile, doc: JsonValue, id: i64)
    requires
        exported_doc(f, doc),
        f.version >= 1,
    ensures
        spec_validate_export(doc) == Ok::<(), Seq<char>>(()),
        spec_import_target(doc, "new"@, None) == Ok::<ImportTarget, Seq<char>>(
            ImportTarget::NewProject,
        ),
        spec_import_target(doc, "append"@, Some(id)) == Ok::<ImportTarget, Seq<char>>(
            ImportTarget::Append(id),
        ),
{
    lemma_names_distinct();
    let names = file_names();
    assert forall|k: int| 0 <= k < 5 implies json_get(doc, #[trigger] names[k]) == Some(
        member(doc, k),
    ) by {
        lemma_member(doc, names, k);
    }
    assert(json_get(doc, "version"@) == Some(member(doc, 0)));
    assert(json_get(doc, "name"@) == Some(member(doc, 1)));
    assert(json_get(doc, "requests"@) == Some(member(doc, 4)));
    let ra = elements(member(doc, 4));
    lemma_every_request_has_method(f.requests@, ra, 0);
    reveal_strlit("new");
    reveal_strlit("append");
    assert("new"@.len() == 3 && "append"@.len() == 6);
}

/// Importing a project file that an export wrote reads back what was
/// exported: the import takes the project's name, its variables in order,
/// and each request with its name, method, URL, body type, body, headers,
/// authentication and extract rules, whose source the file leaves out.
pub proof fn law_import_reads_export<'a>(f: ExportFile, doc: JsonValue, p: ImportPlan<'a>)
    requires
        exported_doc(f, doc),
        plan_read(doc, p),
    ensures
        imports_export(f, p),
{
    lemma_names_distinct();
    let names = file_names();
    assert forall|k: int| 0 <= k < 5 implies json_get(doc, #[trigger] names[k]) == Some(
        member(doc, k),
    ) by {
        lemma_member(doc, names, k);
    }
    assert(json_get(doc, "name"@) == Some(member(doc, 1)));
    assert(json_get(doc, "variables"@) == Some(member(doc, 3)));
    assert(json_get(doc, "requests"@) == Some(member(doc, 4)));
    let va = elements(member(doc, 3));
    let ra = elements(member(doc, 4));
    lemma_file_variables(f.variables@, va);
    assert(doc_requests(doc) == ra);
    assert forall|i: int| 0 <= i < f.requests@.len() implies #[trigger] draft_matches(
        f.requests@[i],
        p.requests@[i],
    ) by {
        assert(request_doc(f.requests@[i], ra[i]));
        assert(request_read(doc_requests(doc)[i], p.requests@[i]));
        lemma_draft(f.requests@[i], ra[i], p.requests@[i]);
    }
}

/// The authentication kind that a `type_` name of a project file stands
/// for, as the serde form of `AuthType` reads it (snake_case names).
pub open spec fn auth_type_named(s: Seq<char>) -> Option<AuthType> {
    if s == "none"@ {
        Some(AuthType::NoAuth)
    } else if s == "bearer"@ {
        Some(AuthType::Bearer)
    } else if s == "basic"@ {
        Some(AuthType::Basic)
    } else if s == "api_key"@ {
        Some(AuthType::ApiKey)
    } else {
        None
    }
}

proof fn lemma_reveal_kind_names()
    ensures
        "none"@ =~= seq!['n', 'o', 'n', 'e'],
        "bearer"@ =~= seq!['b', 'e', 'a', 'r', 'e', 'r'],
        "basic"@ =~= seq!['b', 'a', 's', 'i', 'c'],
        "api_key"@ =~= seq!['a', 'p', 'i', '_', 'k', 'e', 'y'],
{
    reveal_strlit("none");
    reveal_strlit("bearer");
    reveal_strlit("basic");
    reveal_strlit("api_key");
}

/// The names under which an export writes the authentication kinds are
/// pairwise distinct, and each reads back as the kind it was written for.
pub proof fn law_auth_kind_names(t1: AuthType, t2: AuthType)
    ensures
        auth_type_named(auth_type_name(t1)) == Some(t1),
        auth_type_name(t1) == auth_type_name(t2) ==> t1 == t2,
{
    lemma_reveal_kind_names();
    assert(auth_type_name(t1).len() > 0);
    if auth_type_name(t1) == auth_type_name(t2) && t1 != t2 {
        assert(auth_type_name(t1)[0] == auth_type_name(t2)[0]);
        assert(auth_type_name(t1).len() == auth_type_name(t2).len());
    }
}

/// The authentication object that an export writes for `a` reads back as
/// the kind of `a`: its `type_` member is a string naming that kind.
pub proof fn law_auth_doc_reads_kind(a: Auth, v: JsonValue)
    requires
        auth_doc(a, v),
    ensures
        json_str(json_get(v, "type_"@)) is Some,
        auth_type_named(json_str(json_get(v, "type_"@)).unwrap()) == Some(a.type_),
{
    lemma_names_distinct();
    lemma_member(v, auth_names(), 0);
    assert(auth_names()[0] == "type_"@);
    law_auth_kind_names(a.type_, a.type_);
}

} // verus!
