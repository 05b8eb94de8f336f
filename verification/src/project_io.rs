//! Project files: what an import makes of a checked document, how the
//! extract sources are linked to the new requests, and what an export holds.
use vstd::prelude::*;

use crate::json::{
    as_array, as_str, as_u64, get, json_array, json_get, json_str, json_u64, spec_validate_export,
    validate_export, JsonValue,
};
use crate::model::{Auth, Extract, Header, Project, Request, Variable};
use crate::text::{chars_of, eq_str};

verus! {

// ---------------------------------------------------------------------------
// Import
// ---------------------------------------------------------------------------

/// An extract rule as read from a project file.
pub struct ExtractDraft {
    /// Position, among the file's requests, of the request the value comes
    /// from.
    pub source_index: Option<u64>,
    pub jsonpath: String,
    pub target_var_key: String,
}

/// A request as read from a project file, its headers and authentication
/// still JSON.
pub struct RequestDraft<'a> {
    pub name: String,
    pub method: String,
    pub url: String,
    pub headers: Option<&'a JsonValue>,
    pub body_type: String,
    pub body: String,
    pub auth: Option<&'a JsonValue>,
    pub extracts: Vec<ExtractDraft>,
}

/// Where imported requests go.
#[derive(Clone, Copy, Debug, PartialEq, Eq, Structural)]
pub enum ImportTarget {
    /// A new project.
    NewProject,
    /// The existing project with this id.
    Append(i64),
}

/// What an import adds.
pub struct ImportPlan<'a> {
    pub target: ImportTarget,
    pub name: String,
    pub variables: Vec<(String, String)>,
    pub requests: Vec<RequestDraft<'a>>,
}

/// The text of `v` if it is a string, else `d`.
pub open spec fn str_or(v: Option<JsonValue>, d: Seq<char>) -> Seq<char> {
    match json_str(v) {
        Some(s) => s,
        None => d,
    }
}

/// The variables of a project file: each element with a string `key`, its
/// `value` text or the empty text.
pub open spec fn file_variables(a: Seq<JsonValue>) -> Seq<(Seq<char>, Seq<char>)>
    decreases a.len(),
{
    if a.len() == 0 {
        seq![]
    } else {
        let rest = file_variables(a.drop_last());
        match json_str(json_get(a.last(), "key"@)) {
            Some(k) => rest.push((k, str_or(json_get(a.last(), "value"@), ""@))),
            None => rest,
        }
    }
}

/// The variables of a document: none when `variables` is not an array.
pub open spec fn doc_variables(doc: JsonValue) -> Seq<(Seq<char>, Seq<char>)> {
    match json_array(json_get(doc, "variables"@)) {
        Some(a) => file_variables(a),
        None => seq![],
    }
}

/// `x` is the extract rule read from `e`.
pub open spec fn extract_read(e: JsonValue, x: ExtractDraft) -> bool {
    &&& x.source_index == json_u64(json_get(e, "source_request_id"@))
    &&& x.jsonpath@ == str_or(json_get(e, "jsonpath"@), ""@)
    &&& x.target_var_key@ == str_or(json_get(e, "target_var_key"@), ""@)
}

/// `d` is the request read from `r`: missing texts replaced by `Request`,
/// `GET`, the empty URL, `none` and the empty body; headers and
/// authentication as found; one extract rule per element of `extracts`.
pub open spec fn request_read(r: JsonValue, d: RequestDraft) -> bool {
    &&& d.name@ == str_or(json_get(r, "name"@), "Request"@)
    &&& d.method@ == str_or(json_get(r, "method"@), "GET"@)
    &&& d.url@ == str_or(json_get(r, "url"@), ""@)
    &&& d.body_type@ == str_or(json_get(r, "body_type"@), "none"@)
    &&& d.body@ == str_or(json_get(r, "body"@), ""@)
    &&& match d.headers {
        Some(h) => json_get(r, "headers"@) == Some(*h),
        None => json_get(r, "headers"@) is None,
    }
    &&& match d.auth {
        Some(a) => json_get(r, "auth"@) == Some(*a),
        None => json_get(r, "auth"@) is None,
    }
    &&& match json_array(json_get(r, "extracts"@)) {
        Some(es) => d.extracts@.len() == es.len() && forall|i: int|
            0 <= i < es.len() ==> #[trigger] extract_read(es[i], d.extracts@[i]),
        None => d.extracts@.len() == 0,
    }
}

/// The requests of a document: none when `requests` is not an array.
pub open spec fn doc_requests(doc: JsonValue) -> Seq<JsonValue> {
    match json_array(json_get(doc, "requests"@)) {
        Some(a) => a,
        None => seq![],
    }
}

/// `p` is what importing `doc` adds.
pub open spec fn plan_read(doc: JsonValue, p: ImportPlan) -> bool {
    &&& p.name@ == str_or(json_get(doc, "name"@), "Imported"@)
    &&& p.variables@.map_values(|v: (String, String)| (v.0@, v.1@)) == doc_variables(doc)
    &&& p.requests@.len() == doc_requests(doc).len()
    &&& forall|i: int|
        0 <= i < p.requests@.len() ==> #[trigger] request_read(
            doc_requests(doc)[i],
            p.requests@[i],
        )
}

/// Where an import goes, or why it is refused: the document's own error
/// first, then `new` or `append` (which needs a target project).
pub open spec fn spec_import_target(doc: JsonValue, mode: Seq<char>, target: Option<i64>) -> Result<
    ImportTarget,
    Seq<char>,
> {
    match spec_validate_export(doc) {
        Err(e) => Err(e),
        Ok(()) => if mode == "new"@ {
            Ok(ImportTarget::NewProject)
        } else if mode == "append"@ {
            match target {
                Some(id) => Ok(ImportTarget::Append(id)),
                None => Err("target_project_id required for append"@),
            }
        } else {
            Err("Unknown import mode"@)
        },
    }
}

/// Copies a string.
fn copy_string(s: &String) -> (r: String)
    ensures
        r@ == s@,
{
    s.clone()
}

/// The text of `v`, or `d`.
fn text_or(v: Option<&JsonValue>, d: &str) -> (r: String)
    ensures
        r@ == str_or(
            match v {
                Some(x) => Some(*x),
                None => None,
            },
            d@,
        ),
{
    match as_str(v) {
        Some(s) => copy_string(s),
        None => String::from_str(d),
    }
}

/// Reads one extract rule.
fn read_extract(e: &JsonValue) -> (x: ExtractDraft)
    ensures
        extract_read(*e, x),
{
    ExtractDraft {
        source_index: as_u64(get(e, "source_request_id")),
        jsonpath: text_or(get(e, "jsonpath"), ""),
        target_var_key: text_or(get(e, "target_var_key"), ""),
    }
}

/// Reads one request.
fn read_request<'a>(r: &'a JsonValue) -> (d: RequestDraft<'a>)
    ensures
        request_read(*r, d),
{
    let mut extracts: Vec<ExtractDraft> = Vec::new();
    match as_array(get(r, "extracts")) {
        Some(es) => {
            let mut i: usize = 0;
            while i < es.len()
                invariant
                    i <= es.len(),
                    extracts@.len() == i,
                    forall|m: int| 0 <= m < i ==> #[trigger] extract_read(es@[m], extracts@[m]),
                decreases es.len() - i,
            {
                extracts.push(read_extract(&es[i]));
                i += 1;
            }
        },
        None => {},
    }
    RequestDraft {
        name: text_or(get(r, "name"), "Request"),
        method: text_or(get(r, "method"), "GET"),
        url: text_or(get(r, "url"), ""),
        headers: get(r, "headers"),
        body_type: text_or(get(r, "body_type"), "none"),
        body: text_or(get(r, "body"), ""),
        auth: get(r, "auth"),
        extracts,
    }
}

/// What importing a project file adds, in the mode `new` (a new project)
/// or `append` (to `target_project_id`): the document is checked first,
/// then the mode. The name (default `Imported`), the variables with a
/// string key, and each request read with its defaults.
pub fn plan_import<'a>(doc: &'a JsonValue, mode: &str, target_project_id: Option<i64>) -> (r: Result<
    ImportPlan<'a>,
    String,
>)
    ensures
        match r {
            Ok(p) => spec_import_target(*doc, mode@, target_project_id) == Ok::<
                ImportTarget,
                Seq<char>,
            >(p.target) && plan_read(*doc, p),
            Err(e) => spec_import_target(*doc, mode@, target_project_id) == Err::<
                ImportTarget,
                Seq<char>,
            >(e@),
        },
{
    match validate_export(doc) {
        Ok(()) => {},
        Err(e) => {
            return Err(e);
        },
    }
    let m = chars_of(mode);
    let target = if eq_str(m.as_slice(), "new") {
        ImportTarget::NewProject
    } else if eq_str(m.as_slice(), "append") {
        match target_project_id {
            Some(id) => ImportTarget::Append(id),
            None => {
                return Err(String::from_str("target_project_id required for append"));
            },
        }
    } else {
        return Err(String::from_str("Unknown import mode"));
    };
    let name = text_or(get(doc, "name"), "Imported");
    // variables
    let mut variables: Vec<(String, String)> = Vec::new();
    match as_array(get(doc, "variables")) {
        Some(arr) => {
            let mut i: usize = 0;
            while i < arr.len()
                invariant
                    i <= arr.len(),
                    variables@.map_values(|v: (String, String)| (v.0@, v.1@)) == file_variables(
                        arr@.take(i as int),
                    ),
                decreases arr.len() - i,
            {
                assert(arr@.take(i + 1).drop_last() == arr@.take(i as int));
                assert(arr@.take(i + 1).last() == arr@[i as int]);
                match as_str(get(&arr[i], "key")) {
                    Some(k) => {
                        let ghost prev = variables@;
                        let pair = (copy_string(k), text_or(get(&arr[i], "value"), ""));
                        variables.push(pair);
                        assert(variables@.map_values(|v: (String, String)| (v.0@, v.1@))
                            =~= prev.map_values(|v: (String, String)| (v.0@, v.1@)).push(
                            (pair.0@, pair.1@),
                        ));
                    },
                    None => {},
                }
                i += 1;
            }
            assert(arr@.take(arr.len() as int) == arr@);
        },
        None => {
            assert(variables@.map_values(|v: (String, String)| (v.0@, v.1@)) =~= Seq::<
                (Seq<char>, Seq<char>),
            >::empty());
        },
    }
    // requests
    let mut requests: Vec<RequestDraft<'a>> = Vec::new();
    match as_array(get(doc, "requests")) {
        Some(arr) => {
            let mut i: usize = 0;
            while i < arr.len()
                invariant
                    i <= arr.len(),
                    requests@.len() == i,
                    forall|m: int| 0 <= m < i ==> #[trigger] request_read(arr@[m], requests@[m]),
                decreases arr.len() - i,
            {
                requests.push(read_request(&arr[i]));
                i += 1;
            }
        },
        None => {},
    }
    Ok(ImportPlan { target, name, variables, requests })
}

/// The id that an imported extract's source gets: the id of the new
/// request at that position, or none when there is no such request.
pub fn source_request_id(source_index: Option<u64>, new_ids: &[i64]) -> (r: Option<i64>)
    ensures
        r == match source_index {
            Some(i) => if (i as usize) < new_ids@.len() {
                Some(new_ids@[i as usize as int])
            } else {
                None
            },
            None => None,
        },
{
    match source_index {
        Some(i) => {
            let idx = i as usize;
            if idx < new_ids.len() {
                Some(new_ids[idx])
            } else {
                None
            }
        },
        None => None,
    }
}

// ---------------------------------------------------------------------------
// Export
// ---------------------------------------------------------------------------

/// A variable in a project file.
pub struct ExportVariable {
    pub key: String,
    pub value: String,
}

/// An extract rule in a project file; its source is written as `null`.
pub struct ExportExtract {
    pub jsonpath: String,
    pub target_var_key: String,
}

/// A request in a project file.
pub struct ExportRequest {
    pub name: String,
    pub method: String,
    pub url: String,
    pub headers: Vec<Header>,
    pub body_type: String,
    pub body: String,
    pub auth: Auth,
    pub extracts: Vec<ExportExtract>,
}

/// A project file, format version 1.
pub struct ExportFile {
    pub version: u32,
    pub name: String,
    pub exported_at: String,
    pub variables: Vec<ExportVariable>,
    pub requests: Vec<ExportRequest>,
}

/// The version of the project file format that exports write.
pub const EXPORT_VERSION: u32 = 1;

/// The position of the first project with the id `id`.
pub fn find_project(projects: &[Project], id: i64) -> (r: Option<usize>)
    ensures
        match r {
            Some(i) => i < projects@.len() && projects@[i as int].id == id && forall|j: int|
                0 <= j < i ==> projects@[j].id != id,
            None => forall|j: int| 0 <= j < projects@.len() ==> projects@[j].id != id,
        },
{
    let mut i: usize = 0;
    while i < projects.len()
        invariant
            i <= projects.len(),
            forall|j: int| 0 <= j < i ==> projects@[j].id != id,
        decreases projects.len() - i,
    {
        if projects[i].id == id {
            return Some(i);
        }
        i += 1;
    }
    None
}

/// A stored request as a project file writes it: its fields, its parsed
/// headers and authentication, and its extract rules without a source.
pub fn export_request(r: &Request, headers: Vec<Header>, auth: Auth, extracts: &[Extract]) -> (e:
    ExportRequest)
    ensures
        e.name@ == r.name@,
        e.method@ == r.method@,
        e.url@ == r.url@,
        e.headers@ == headers@,
        e.body_type@ == r.body_type@,
        e.body@ == r.body@,
        e.auth@ == auth@,
        e.extracts@.len() == extracts@.len(),
        forall|i: int|
            0 <= i < extracts@.len() ==> {
                &&& (#[trigger] e.extracts@[i]).jsonpath@ == extracts@[i].jsonpath@
                &&& e.extracts@[i].target_var_key@ == extracts@[i].target_var_key@
            },
{
    let mut xs: Vec<ExportExtract> = Vec::new();
    let mut i: usize = 0;
    while i < extracts.len()
        invariant
            i <= extracts.len(),
            xs@.len() == i,
            forall|m: int|
                0 <= m < i ==> {
                    &&& (#[trigger] xs@[m]).jsonpath@ == extracts@[m].jsonpath@
                    &&& xs@[m].target_var_key@ == extracts@[m].target_var_key@
                },
        decreases extracts.len() - i,
    {
        xs.push(
            ExportExtract {
                jsonpath: extracts[i].jsonpath.clone(),
                target_var_key: extracts[i].target_var_key.clone(),
            },
        );
        i += 1;
    }
    ExportRequest {
        name: r.name.clone(),
        method: r.method.clone(),
        url: r.url.clone(),
        headers,
        body_type: r.body_type.clone(),
        body: r.body.clone(),
        auth,
        extracts: xs,
    }
}

/// A project file: version 1, the project's name, the time of the export,
/// its variables as key/value pairs and its requests.
pub fn build_export(
    project: &Project,
    exported_at: String,
    variables: &[Variable],
    requests: Vec<ExportRequest>,
) -> (f: ExportFile)
    ensures
        f.version == EXPORT_VERSION,
        f.name@ == project.name@,
        f.exported_at@ == exported_at@,
        f.variables@.len() == variables@.len(),
        forall|i: int|
            0 <= i < variables@.len() ==> (#[trigger] f.variables@[i]).key@ == variables@[i].key@
                && f.variables@[i].value@ == variables@[i].value@,
        f.requests@ == requests@,
{
    let mut vs: Vec<ExportVariable> = Vec::new();
    let mut i: usize = 0;
    while i < variables.len()
        invariant
            i <= variables.len(),
            vs@.len() == i,
            forall|m: int|
                0 <= m < i ==> (#[trigger] vs@[m]).key@ == variables@[m].key@ && vs@[m].value@
                    == variables@[m].value@,
        decreases variables.len() - i,
    {
        vs.push(ExportVariable { key: variables[i].key.clone(), value: variables[i].value.clone() });
        i += 1;
    }
    ExportFile {
        version: EXPORT_VERSION,
        name: project.name.clone(),
        exported_at,
        variables: vs,
        requests,
    }
}

} // verus!
