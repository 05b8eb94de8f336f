//! What an HTTP request is made of before it is sent: the method, the URL
//! with its placeholders filled, the headers (those of the request, then
//! authentication, then content type), query pairs and the body.
use vstd::prelude::*;

use crate::codec::{base64_encode, base64_of};
use vstd::utf8::encode_utf8;
use crate::model::{lemma_pairs_view_push, headers_view, overrides_view, pairs_view, Auth, AuthType, AuthView, Header, VarOverride};
use crate::template::{
    draw_template, resolve, spec_apply_vars, template_drawable, template_outcome,
};
use crate::text::{
    chars_of, concat2, concat3, eq_str, lines_of, spec_lines, spec_split_once, split_once,
    string_of, vecs_view,
};

verus! {

// ---------------------------------------------------------------------------
// The plan
// ---------------------------------------------------------------------------

/// The HTTP methods that the client sends.
#[derive(Clone, Copy, Debug, PartialEq, Eq, Structural)]
pub enum HttpMethod {
    Get,
    Post,
    Put,
    Patch,
    Delete,
    Head,
}

/// The body of a planned request.
pub enum PlannedBody {
    /// No body.
    NoBody,
    /// The text as it stands.
    Text(String),
    /// URL-encoded form pairs.
    Form(Vec<(String, String)>),
    /// Multipart text fields.
    Multipart(Vec<(String, String)>),
}

/// `PlannedBody` with its strings as character sequences.
pub enum BodyView {
    NoBody,
    Text(Seq<char>),
    Form(Seq<(Seq<char>, Seq<char>)>),
    Multipart(Seq<(Seq<char>, Seq<char>)>),
}

impl View for PlannedBody {
    type V = BodyView;

    open spec fn view(&self) -> BodyView {
        match self {
            PlannedBody::NoBody => BodyView::NoBody,
            PlannedBody::Text(t) => BodyView::Text(t@),
            PlannedBody::Form(p) => BodyView::Form(pairs_view(p@)),
            PlannedBody::Multipart(p) => BodyView::Multipart(pairs_view(p@)),
        }
    }
}

/// A request ready to be handed to an HTTP client: headers are added in
/// order, query pairs appended to the URL.
pub struct RequestPlan {
    pub method: HttpMethod,
    pub url: String,
    pub headers: Vec<(String, String)>,
    pub query: Vec<(String, String)>,
    pub body: PlannedBody,
}

/// `RequestPlan` with its strings as character sequences.
pub struct PlanView {
    pub method: HttpMethod,
    pub url: Seq<char>,
    pub headers: Seq<(Seq<char>, Seq<char>)>,
    pub query: Seq<(Seq<char>, Seq<char>)>,
    pub body: BodyView,
}

impl View for RequestPlan {
    type V = PlanView;

    open spec fn view(&self) -> PlanView {
        PlanView {
            method: self.method,
            url: self.url@,
            headers: pairs_view(self.headers@),
            query: pairs_view(self.query@),
            body: self.body@,
        }
    }
}

/// A planned request, or the message of the error that stops it.
pub open spec fn plan_result_view(r: Result<RequestPlan, String>) -> Result<PlanView, Seq<char>> {
    match r {
        Ok(p) => Ok(p@),
        Err(e) => Err(e@),
    }
}

// ---------------------------------------------------------------------------
// Specs
// ---------------------------------------------------------------------------

/// The method named by `m`, matched exactly.
pub open spec fn spec_method(m: Seq<char>) -> Option<HttpMethod> {
    if m == "GET"@ {
        Some(HttpMethod::Get)
    } else if m == "POST"@ {
        Some(HttpMethod::Post)
    } else if m == "PUT"@ {
        Some(HttpMethod::Put)
    } else if m == "PATCH"@ {
        Some(HttpMethod::Patch)
    } else if m == "DELETE"@ {
        Some(HttpMethod::Delete)
    } else if m == "HEAD"@ {
        Some(HttpMethod::Head)
    } else {
        None
    }
}

/// The `key=value` pairs among `lines`, each cut at its first `=`; lines
/// without `=` left out.
pub open spec fn form_pairs_of(lines: Seq<Seq<char>>) -> Seq<(Seq<char>, Seq<char>)>
    decreases lines.len(),
{
    if lines.len() == 0 {
        seq![]
    } else {
        let rest = form_pairs_of(lines.drop_last());
        match spec_split_once(lines.last(), '=') {
            Some(p) => rest.push(p),
            None => rest,
        }
    }
}

/// The form pairs of a body, one per line.
pub open spec fn spec_form_pairs(body: Seq<char>) -> Seq<(Seq<char>, Seq<char>)> {
    form_pairs_of(spec_lines(body))
}

/// The headers and query pairs that authentication adds: `Bearer <token>`
/// for a non-empty token, `Basic <base64 of user:password>`, an API key
/// (when its key is not empty) as a header or a query pair.
pub open spec fn auth_parts(a: AuthView) -> (Seq<(Seq<char>, Seq<char>)>, Seq<(Seq<char>, Seq<char>)>) {
    match a.type_ {
        AuthType::Bearer => if a.token.len() > 0 {
            (seq![("Authorization"@, "Bearer "@ + a.token)], seq![])
        } else {
            (seq![], seq![])
        },
        AuthType::Basic => (
            seq![
                (
                    "Authorization"@,
                    "Basic "@ + base64_of(encode_utf8(a.username + ":"@ + a.password)),
                ),
            ],
            seq![],
        ),
        AuthType::ApiKey => if a.key.len() > 0 {
            if a.in_header {
                (seq![(a.key, a.value)], seq![])
            } else {
                (seq![], seq![(a.key, a.value)])
            }
        } else {
            (seq![], seq![])
        },
        AuthType::NoAuth => (seq![], seq![]),
    }
}

/// The content-type header (if any) and the body, for a body template that
/// is not empty and its filled text `body`. A single request marks JSON
/// with its content type and sends `form-data` as multipart fields; a
/// load-test request sends JSON without a content type and knows no
/// multipart.
pub open spec fn body_parts(single: bool, body_type: Seq<char>, body_empty: bool, body: Seq<char>) -> (
    Seq<(Seq<char>, Seq<char>)>,
    BodyView,
) {
    if body_empty {
        (seq![], BodyView::NoBody)
    } else if body_type == "json"@ {
        if single {
            (seq![("Content-Type"@, "application/json"@)], BodyView::Text(body))
        } else {
            (seq![], BodyView::Text(body))
        }
    } else if body_type == "form"@ {
        (seq![], BodyView::Form(spec_form_pairs(body)))
    } else if single && body_type == "form-data"@ {
        (seq![], BodyView::Multipart(spec_form_pairs(body)))
    } else {
        (seq![("Content-Type"@, "text/plain"@)], BodyView::Text(body))
    }
}

/// The plan for a request whose texts are already filled: an empty URL or
/// an unknown method is an error; otherwise the request headers, then the
/// authentication headers, then the content type.
pub open spec fn spec_plan(
    single: bool,
    method: Seq<char>,
    url: Seq<char>,
    headers: Seq<(Seq<char>, Seq<char>)>,
    auth: AuthView,
    body_type: Seq<char>,
    body_empty: bool,
    body: Seq<char>,
) -> Result<PlanView, Seq<char>> {
    if url.len() == 0 {
        Err(
            if single {
                "URL is empty"@
            } else {
                "Empty URL"@
            },
        )
    } else {
        match spec_method(method) {
            None => Err("Unsupported method: "@ + method),
            Some(m) => {
                let (ah, q) = auth_parts(auth);
                let (bh, b) = body_parts(single, body_type, body_empty, body);
                Ok(PlanView { method: m, url, headers: headers + ah + bh, query: q, body: b })
            },
        }
    }
}

/// The headers with a non-empty key, their values filled.
pub open spec fn resolved_headers(hs: Seq<(Seq<char>, Seq<char>)>, vars: Seq<(Seq<char>, Seq<char>)>) -> Seq<(Seq<char>, Seq<char>)>
    decreases hs.len(),
{
    if hs.len() == 0 {
        seq![]
    } else {
        let rest = resolved_headers(hs.drop_last(), vars);
        let h = hs.last();
        if h.0.len() == 0 {
            rest
        } else {
            rest.push((h.0, spec_apply_vars(h.1, vars)))
        }
    }
}

/// Authentication settings with every text filled.
pub open spec fn resolved_auth(a: AuthView, vars: Seq<(Seq<char>, Seq<char>)>) -> AuthView {
    AuthView {
        type_: a.type_,
        token: spec_apply_vars(a.token, vars),
        username: spec_apply_vars(a.username, vars),
        password: spec_apply_vars(a.password, vars),
        key: spec_apply_vars(a.key, vars),
        value: spec_apply_vars(a.value, vars),
        in_header: a.in_header,
    }
}

/// `ar` holds the texts that one load-test request fills in for the
/// authentication `a`: the ones its kind uses.
pub open spec fn auth_resolved_for_load(
    a: AuthView,
    ar: AuthView,
    vars: Seq<(Seq<char>, Seq<char>)>,
    os: Seq<crate::model::VarOverrideView>,
) -> bool {
    &&& ar.type_ == a.type_
    &&& ar.in_header == a.in_header
    &&& match a.type_ {
        AuthType::Bearer => template_outcome(a.token, vars, os, ar.token),
        AuthType::Basic => template_outcome(a.username, vars, os, ar.username)
            && template_outcome(a.password, vars, os, ar.password),
        AuthType::ApiKey => template_outcome(a.key, vars, os, ar.key) && template_outcome(
            a.value,
            vars,
            os,
            ar.value,
        ),
        AuthType::NoAuth => true,
    }
}

/// The i-th header value of a load-test request is a filled template.
pub open spec fn header_value_ok(
    hs: Seq<(Seq<char>, Seq<char>)>,
    filled: Seq<(Seq<char>, Seq<char>)>,
    vars: Seq<(Seq<char>, Seq<char>)>,
    os: Seq<crate::model::VarOverrideView>,
    i: int,
) -> bool {
    filled[i].0 == hs[i].0 && template_outcome(hs[i].1, vars, os, filled[i].1)
}

/// The filled texts `url_r`, `filled`, `body_r`, `auth_r` fit the templates
/// of a load-test request, and `r` is their plan. The texts after the URL
/// are filled only when the filled URL is not empty and the method is
/// known; otherwise `r` is the error that this gives.
pub open spec fn load_plan_witness(
    url: Seq<char>,
    method: Seq<char>,
    headers: Seq<(Seq<char>, Seq<char>)>,
    body_type: Seq<char>,
    body: Seq<char>,
    auth: AuthView,
    vars: Seq<(Seq<char>, Seq<char>)>,
    os: Seq<crate::model::VarOverrideView>,
    r: Result<PlanView, Seq<char>>,
    url_r: Seq<char>,
    filled: Seq<(Seq<char>, Seq<char>)>,
    body_r: Seq<char>,
    auth_r: AuthView,
) -> bool {
    &&& template_outcome(url, vars, os, url_r)
    &&& (url_r.len() > 0 && spec_method(method) is Some) ==> {
        &&& filled.len() == headers.len()
        &&& forall|i: int|
            0 <= i < headers.len() ==> #[trigger] header_value_ok(headers, filled, vars, os, i)
        &&& (body.len() > 0 ==> template_outcome(body, vars, os, body_r))
        &&& auth_resolved_for_load(auth, auth_r, vars, os)
    }
    &&& r == spec_plan(false, method, url_r, filled, auth_r, body_type, body.len() == 0, body_r)
}

/// The texts that the authentication `a` uses can be filled without a
/// failing draw.
pub open spec fn auth_drawable(a: AuthView, os: Seq<crate::model::VarOverrideView>) -> bool {
    match a.type_ {
        AuthType::Bearer => template_drawable(a.token, os),
        AuthType::Basic => template_drawable(a.username, os) && template_drawable(a.password, os),
        AuthType::ApiKey => template_drawable(a.key, os) && template_drawable(a.value, os),
        AuthType::NoAuth => true,
    }
}

/// The texts that a load-test request fills after its URL (header values,
/// authentication, a non-empty body) can be filled without a failing draw,
/// whenever some filling of the URL is not empty and the method is known:
/// only then are they filled.
pub open spec fn load_rest_drawable(
    url: Seq<char>,
    method: Seq<char>,
    headers: Seq<(Seq<char>, Seq<char>)>,
    body: Seq<char>,
    auth: AuthView,
    vars: Seq<(Seq<char>, Seq<char>)>,
    os: Seq<crate::model::VarOverrideView>,
) -> bool {
    (spec_method(method) is Some && exists|u: Seq<char>|
        #[trigger] template_outcome(url, vars, os, u) && u.len() > 0) ==> {
        &&& forall|i: int| 0 <= i < headers.len() ==> #[trigger] template_drawable(headers[i].1, os)
        &&& (body.len() > 0 ==> template_drawable(body, os))
        &&& auth_drawable(auth, os)
    }
}

/// `r` is a plan that one request of a load test may get: the URL, each
/// header value, the body (when its template is not empty) and the texts
/// that the authentication uses are filled templates, and `r` is the plan
/// of those filled texts.
pub open spec fn load_plan_outcome(
    url: Seq<char>,
    method: Seq<char>,
    headers: Seq<(Seq<char>, Seq<char>)>,
    body_type: Seq<char>,
    body: Seq<char>,
    auth: AuthView,
    vars: Seq<(Seq<char>, Seq<char>)>,
    os: Seq<crate::model::VarOverrideView>,
    r: Result<PlanView, Seq<char>>,
) -> bool {
    exists|url_r: Seq<char>, filled: Seq<(Seq<char>, Seq<char>)>, body_r: Seq<char>, auth_r: AuthView|
        #[trigger] load_plan_witness(
            url,
            method,
            headers,
            body_type,
            body,
            auth,
            vars,
            os,
            r,
            url_r,
            filled,
            body_r,
            auth_r,
        )
}

// ---------------------------------------------------------------------------
// Executable
// ---------------------------------------------------------------------------

/// The method that `m` names exactly, if any.
fn method_of(m: &str) -> (r: Option<HttpMethod>)
    ensures
        r == spec_method(m@),
{
    let c = chars_of(m);
    if eq_str(c.as_slice(), "GET") {
        Some(HttpMethod::Get)
    } else if eq_str(c.as_slice(), "POST") {
        Some(HttpMethod::Post)
    } else if eq_str(c.as_slice(), "PUT") {
        Some(HttpMethod::Put)
    } else if eq_str(c.as_slice(), "PATCH") {
        Some(HttpMethod::Patch)
    } else if eq_str(c.as_slice(), "DELETE") {
        Some(HttpMethod::Delete)
    } else if eq_str(c.as_slice(), "HEAD") {
        Some(HttpMethod::Head)
    } else {
        None
    }
}

/// The form pairs of a body.
pub fn form_pairs(body: &str) -> (r: Vec<(String, String)>)
    ensures
        pairs_view(r@) == spec_form_pairs(body@),
{
    let lines = lines_of(chars_of(body).as_slice());
    let ghost lv = vecs_view(lines@);
    let mut out: Vec<(String, String)> = Vec::new();
    let mut i: usize = 0;
    while i < lines.len()
        invariant
            i <= lines.len(),
            lv == vecs_view(lines@),
            lv == spec_lines(body@),
            pairs_view(out@) == form_pairs_of(lv.take(i as int)),
        decreases lines.len() - i,
    {
        assert(lv.take(i + 1).drop_last() == lv.take(i as int));
        assert(lv.take(i + 1).last() == lines@[i as int]@);
        match split_once(lines[i].as_slice(), '=') {
            Some((k, v)) => {
                let ghost prev = out@;
                out.push((string_of(k.as_slice()), string_of(v.as_slice())));
                assert(pairs_view(out@) =~= pairs_view(prev).push((k@, v@)));
            },
            None => {},
        }
        i += 1;
    }
    assert(lv.take(lines.len() as int) == lv);
    out
}

/// The headers and query pairs of `auth_parts`, for filled settings.
fn auth_parts_exec(a: &Auth) -> (r: (Vec<(String, String)>, Vec<(String, String)>))
    ensures
        (pairs_view(r.0@), pairs_view(r.1@)) == auth_parts(a@),
{
    let mut hs: Vec<(String, String)> = Vec::new();
    let mut qs: Vec<(String, String)> = Vec::new();
    match a.type_ {
        AuthType::Bearer => {
            if !a.token.as_str().is_empty() {
                hs.push((String::from_str("Authorization"), concat2("Bearer ", a.token.as_str())));
            }
        },
        AuthType::Basic => {
            let creds = base64_encode(
                concat3(a.username.as_str(), ":", a.password.as_str()).as_str(),
            );
            hs.push((String::from_str("Authorization"), concat2("Basic ", creds.as_str())));
        },
        AuthType::ApiKey => {
            if !a.key.as_str().is_empty() {
                if a.in_header {
                    hs.push((a.key.clone(), a.value.clone()));
                } else {
                    qs.push((a.key.clone(), a.value.clone()));
                }
            }
        },
        AuthType::NoAuth => {},
    }
    assert(pairs_view(hs@) =~= auth_parts(a@).0);
    assert(pairs_view(qs@) =~= auth_parts(a@).1);
    (hs, qs)
}

/// The content-type header and body of `body_parts`.
fn body_parts_exec(single: bool, body_type: &str, body_empty: bool, body: String) -> (r: (
    Vec<(String, String)>,
    PlannedBody,
))
    ensures
        (pairs_view(r.0@), r.1@) == body_parts(single, body_type@, body_empty, body@),
{
    let mut hs: Vec<(String, String)> = Vec::new();
    let bt = chars_of(body_type);
    let b = if body_empty {
        PlannedBody::NoBody
    } else if eq_str(bt.as_slice(), "json") {
        if single {
            hs.push((String::from_str("Content-Type"), String::from_str("application/json")));
        }
        PlannedBody::Text(body)
    } else if eq_str(bt.as_slice(), "form") {
        PlannedBody::Form(form_pairs(body.as_str()))
    } else if single && eq_str(bt.as_slice(), "form-data") {
        PlannedBody::Multipart(form_pairs(body.as_str()))
    } else {
        hs.push((String::from_str("Content-Type"), String::from_str("text/plain")));
        PlannedBody::Text(body)
    };
    assert(pairs_view(hs@) =~= body_parts(single, body_type@, body_empty, body@).0);
    (hs, b)
}

/// The plan of `spec_plan`.
fn assemble(
    single: bool,
    method: &str,
    url: String,
    headers: Vec<(String, String)>,
    auth: &Auth,
    body_type: &str,
    body_empty: bool,
    body: String,
) -> (r: Result<RequestPlan, String>)
    ensures
        plan_result_view(r) == spec_plan(
            single,
            method@,
            url@,
            pairs_view(headers@),
            auth@,
            body_type@,
            body_empty,
            body@,
        ),
{
    if url.as_str().is_empty() {
        return Err(
            if single {
                String::from_str("URL is empty")
            } else {
                String::from_str("Empty URL")
            },
        );
    }
    let m = match method_of(method) {
        Some(m) => m,
        None => {
            return Err(concat2("Unsupported method: ", method));
        },
    };
    let (ah, q) = auth_parts_exec(auth);
    let (bh, b) = body_parts_exec(single, body_type, body_empty, body);
    let mut hs = headers;
    let ghost h0 = pairs_view(hs@);
    let mut i: usize = 0;
    while i < ah.len()
        invariant
            i <= ah.len(),
            pairs_view(hs@) == h0 + pairs_view(ah@).take(i as int),
        decreases ah.len() - i,
    {
        let pair = (ah[i].0.clone(), ah[i].1.clone());
        proof {
            lemma_pairs_view_push(hs@, pair);
            assert(pairs_view(ah@).take(i + 1) == pairs_view(ah@).take(i as int).push(
                pairs_view(ah@)[i as int],
            ));
        }
        hs.push(pair);
        i += 1;
    }
    assert(pairs_view(ah@).take(ah.len() as int) == pairs_view(ah@));
    let ghost h1 = pairs_view(hs@);
    let mut j: usize = 0;
    while j < bh.len()
        invariant
            j <= bh.len(),
            pairs_view(hs@) == h1 + pairs_view(bh@).take(j as int),
        decreases bh.len() - j,
    {
        let pair = (bh[j].0.clone(), bh[j].1.clone());
        proof {
            lemma_pairs_view_push(hs@, pair);
            assert(pairs_view(bh@).take(j + 1) == pairs_view(bh@).take(j as int).push(
                pairs_view(bh@)[j as int],
            ));
        }
        hs.push(pair);
        j += 1;
    }
    assert(pairs_view(bh@).take(bh.len() as int) == pairs_view(bh@));
    Ok(RequestPlan { method: m, url, headers: hs, query: q, body: b })
}

/// The plan of one request sent on its own: the method uppercased, the
/// project's variables filled into the URL, every header with a non-empty
/// key, the authentication texts and the body.
pub fn build_request(
    method: &str,
    url: &str,
    headers: &[Header],
    body_type: &str,
    body: &str,
    auth: &Auth,
    vars: &[(String, String)],
) -> (r: Result<RequestPlan, String>)
    ensures
        plan_result_view(r) == spec_plan(
            true,
            crate::text::uppercase_of(method@),
            spec_apply_vars(url@, pairs_view(vars@)),
            resolved_headers(headers_view(headers@), pairs_view(vars@)),
            resolved_auth(auth@, pairs_view(vars@)),
            body_type@,
            body@.len() == 0,
            spec_apply_vars(body@, pairs_view(vars@)),
        ),
{
    let ghost vv = pairs_view(vars@);
    let url_r = resolve(url, vars);
    let up = crate::text::to_uppercase(method);
    let mut hs: Vec<(String, String)> = Vec::new();
    let ghost hv = headers_view(headers@);
    let mut i: usize = 0;
    while i < headers.len()
        invariant
            i <= headers.len(),
            hv == headers_view(headers@),
            vv == pairs_view(vars@),
            pairs_view(hs@) == resolved_headers(hv.take(i as int), vv),
        decreases headers.len() - i,
    {
        assert(hv.take(i + 1).drop_last() == hv.take(i as int));
        assert(hv.take(i + 1).last() == headers@[i as int]@);
        if !headers[i].key.as_str().is_empty() {
            let v = resolve(headers[i].value.as_str(), vars);
            let ghost prev = pairs_view(hs@);
            hs.push((headers[i].key.clone(), v));
            assert(pairs_view(hs@) =~= prev.push((headers@[i as int].key@, v@)));
        }
        i += 1;
    }
    assert(hv.take(headers.len() as int) == hv);
    let auth_r = Auth {
        type_: auth.type_,
        token: resolve(auth.token.as_str(), vars),
        username: resolve(auth.username.as_str(), vars),
        password: resolve(auth.password.as_str(), vars),
        key: resolve(auth.key.as_str(), vars),
        value: resolve(auth.value.as_str(), vars),
        in_header: auth.in_header,
    };
    let body_r = resolve(body, vars);
    assemble(true, up.as_str(), url_r, hs, &auth_r, body_type, body.is_empty(), body_r)
}

/// The plan of one request of a load test: every text filled with fresh
/// override values and the variables, the method as given (the engine
/// uppercases it beforehand). The URL is filled first; the other texts only
/// when it is not empty and the method is known. `None` when a text that
/// is filled draws from an override that cannot be drawn from (where that
/// draw panics), which can happen only when the templates are not
/// drawable (`template_drawable`, `load_rest_drawable`).
pub fn plan_load_request(
    url_tpl: &str,
    method: &str,
    headers: &[(String, String)],
    body_type: &str,
    body_tpl: &str,
    auth: &Auth,
    vars: &[(String, String)],
    overrides: &[VarOverride],
) -> (r: Option<Result<RequestPlan, String>>)
    ensures
        match r {
            Some(p) => load_plan_outcome(
                url_tpl@,
                method@,
                pairs_view(headers@),
                body_type@,
                body_tpl@,
                auth@,
                pairs_view(vars@),
                overrides_view(overrides@),
                plan_result_view(p),
            ),
            None => !(template_drawable(url_tpl@, overrides_view(overrides@)) && load_rest_drawable(
                url_tpl@,
                method@,
                pairs_view(headers@),
                body_tpl@,
                auth@,
                pairs_view(vars@),
                overrides_view(overrides@),
            )),
        },
{
    let ghost vv = pairs_view(vars@);
    let ghost os = overrides_view(overrides@);
    let ghost hv = pairs_view(headers@);
    let ghost rest = load_rest_drawable(url_tpl@, method@, hv, body_tpl@, auth@, vv, os);
    let url_r = match draw_template(url_tpl, vars, overrides) {
        Some(u) => u,
        None => {
            return None;
        },
    };
    if url_r.as_str().is_empty() || method_of(method).is_none() {
        let r = assemble(false, method, url_r, Vec::new(), auth, body_type, true, String::new());
        assert(load_plan_witness(
            url_tpl@,
            method@,
            hv,
            body_type@,
            body_tpl@,
            auth@,
            vv,
            os,
            plan_result_view(r),
            url_r@,
            seq![],
            seq![],
            auth@,
        ));
        return Some(r);
    }
    assert(template_outcome(url_tpl@, vv, os, url_r@) && url_r@.len() > 0);
    assert(spec_method(method@) is Some);
    let mut hs: Vec<(String, String)> = Vec::new();
    let mut i: usize = 0;
    while i < headers.len()
        invariant
            i <= headers.len(),
            hv == pairs_view(headers@),
            vv == pairs_view(vars@),
            os == overrides_view(overrides@),
            rest == load_rest_drawable(url_tpl@, method@, hv, body_tpl@, auth@, vv, os),
            rest ==> forall|m: int| 0 <= m < hv.len() ==> #[trigger] template_drawable(hv[m].1, os),
            hs.len() == i,
            forall|m: int| 0 <= m < i ==> #[trigger] header_value_ok(hv, pairs_view(hs@), vv, os, m),
        decreases headers.len() - i,
    {
        assert(hv[i as int].1 == headers@[i as int].1@);
        let v = match draw_template(headers[i].1.as_str(), vars, overrides) {
            Some(v) => v,
            None => {
                assert(!template_drawable(hv[i as int].1, os));
                return None;
            },
        };
        let ghost prev = hs@;
        hs.push((headers[i].0.clone(), v));
        assert forall|m: int| 0 <= m <= i implies #[trigger] header_value_ok(
            hv,
            pairs_view(hs@),
            vv,
            os,
            m,
        ) by {
            if m < i {
                assert(pairs_view(hs@)[m] == pairs_view(prev)[m]);
                assert(header_value_ok(hv, pairs_view(prev), vv, os, m));
            }
        }
        i += 1;
    }
    let mut auth_r = auth.duplicate();
    match auth.type_ {
        AuthType::Bearer => {
            auth_r.token = match draw_template(auth.token.as_str(), vars, overrides) {
                Some(t) => t,
                None => {
                    return None;
                },
            };
        },
        AuthType::Basic => {
            auth_r.username = match draw_template(auth.username.as_str(), vars, overrides) {
                Some(t) => t,
                None => {
                    return None;
                },
            };
            auth_r.password = match draw_template(auth.password.as_str(), vars, overrides) {
                Some(t) => t,
                None => {
                    return None;
                },
            };
        },
        AuthType::ApiKey => {
            auth_r.key = match draw_template(auth.key.as_str(), vars, overrides) {
                Some(t) => t,
                None => {
                    return None;
                },
            };
            auth_r.value = match draw_template(auth.value.as_str(), vars, overrides) {
                Some(t) => t,
                None => {
                    return None;
                },
            };
        },
        AuthType::NoAuth => {},
    }
    let body_empty = body_tpl.is_empty();
    let body_r = if body_empty {
        String::new()
    } else {
        match draw_template(body_tpl, vars, overrides) {
            Some(t) => t,
            None => {
                return None;
            },
        }
    };
    let r = assemble(false, method, url_r, hs, &auth_r, body_type, body_empty, body_r);
    assert(auth_resolved_for_load(auth@, auth_r@, vv, os));
    assert(body_tpl@.len() > 0 ==> template_outcome(body_tpl@, vv, os, body_r@));
    assert(template_outcome(url_tpl@, vv, os, url_r@));
    let ghost filled = pairs_view(hs@);
    assert(forall|m: int| 0 <= m < hv.len() ==> #[trigger] header_value_ok(hv, filled, vv, os, m));
    assert(plan_result_view(r) == spec_plan(
        false,
        method@,
        url_r@,
        filled,
        auth_r@,
        body_type@,
        body_tpl@.len() == 0,
        body_r@,
    ));
    assert(load_plan_witness(
        url_tpl@,
        method@,
        hv,
        body_type@,
        body_tpl@,
        auth@,
        vv,
        os,
        plan_result_view(r),
        url_r@,
        filled,
        body_r@,
        auth_r@,
    ));
    Some(r)
}

/// With API-key authentication whose key is not empty, the planned request
/// (single or of a load test, its texts already filled) puts the key and
/// value right after the request's headers and adds no query pair when the
/// key goes in a header; otherwise its one query pair is the key and value
/// and the only headers after the request's are content types.
pub proof fn law_api_key_placement(
    single: bool,
    method: Seq<char>,
    url: Seq<char>,
    headers: Seq<(Seq<char>, Seq<char>)>,
    a: AuthView,
    body_type: Seq<char>,
    body_empty: bool,
    body: Seq<char>,
)
    requires
        a.type_ == AuthType::ApiKey,
        a.key.len() > 0,
        url.len() > 0,
        spec_method(method) is Some,
    ensures
        spec_plan(single, method, url, headers, a, body_type, body_empty, body) is Ok,
        a.in_header ==> {
            let p = spec_plan(single, method, url, headers, a, body_type, body_empty, body)->Ok_0;
            &&& p.query.len() == 0
            &&& p.headers.subrange(0, headers.len() as int) == headers
            &&& p.headers[headers.len() as int] == (a.key, a.value)
        },
        !a.in_header ==> {
            let p = spec_plan(single, method, url, headers, a, body_type, body_empty, body)->Ok_0;
            &&& p.query == seq![(a.key, a.value)]
            &&& p.headers.len() >= headers.len()
            &&& p.headers.subrange(0, headers.len() as int) == headers
            &&& forall|i: int|
                headers.len() <= i < p.headers.len() ==> (#[trigger] p.headers[i]).0
                    == "Content-Type"@
        },
{
    let p = spec_plan(single, method, url, headers, a, body_type, body_empty, body)->Ok_0;
    let (ah, q) = auth_parts(a);
    let (bh, bd) = body_parts(single, body_type, body_empty, body);
    assert(p.headers == headers + ah + bh);
    assert(p.headers.subrange(0, headers.len() as int) =~= headers);
    if !a.in_header {
        assert(ah.len() == 0);
        assert forall|i: int| headers.len() <= i < p.headers.len() implies (#[trigger] p.headers[i]).0
            == "Content-Type"@ by {
            assert(p.headers[i] == bh[i - headers.len()]);
        }
    }
}

} // verus!
