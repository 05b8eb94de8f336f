//! The records that the client stores and exchanges, with their views.
use vstd::prelude::*;

use crate::text::strings_view;

verus! {

/// Two strings as the pair of their character sequences.
pub open spec fn pair_view(p: (String, String)) -> (Seq<char>, Seq<char>) {
    (p.0@, p.1@)
}

/// A list of string pairs as character sequences.
pub open spec fn pairs_view(v: Seq<(String, String)>) -> Seq<(Seq<char>, Seq<char>)> {
    v.map_values(|p: (String, String)| pair_view(p))
}

/// One request header.
pub struct Header {
    pub key: String,
    pub value: String,
}

impl View for Header {
    type V = (Seq<char>, Seq<char>);

    open spec fn view(&self) -> (Seq<char>, Seq<char>) {
        (self.key@, self.value@)
    }
}

/// A list of headers as pairs of character sequences.
pub open spec fn headers_view(v: Seq<Header>) -> Seq<(Seq<char>, Seq<char>)> {
    v.map_values(|h: Header| h@)
}

impl Header {
    /// A header with the given key and value.
    pub fn new(key: String, value: String) -> (h: Header)
        ensures
            h@ == (key@, value@),
    {
        Header { key, value }
    }

    /// A copy of the header.
    pub fn duplicate(&self) -> (h: Header)
        ensures
            h@ == self@,
    {
        Header { key: self.key.clone(), value: self.value.clone() }
    }
}

impl Default for Header {
    fn default() -> (h: Header)
        ensures
            h@ == (Seq::<char>::empty(), Seq::<char>::empty()),
    {
        Header { key: String::new(), value: String::new() }
    }
}

/// How a request authenticates.
#[derive(Clone, Copy, Debug, PartialEq, Eq, Structural)]
pub enum AuthType {
    NoAuth,
    Bearer,
    Basic,
    ApiKey,
}

impl Default for AuthType {
    fn default() -> (t: AuthType)
        ensures
            t == AuthType::NoAuth,
    {
        AuthType::NoAuth
    }
}

/// The authentication settings of a request.
pub struct Auth {
    pub type_: AuthType,
    pub token: String,
    pub username: String,
    pub password: String,
    pub key: String,
    pub value: String,
    pub in_header: bool,
}

/// `Auth` with its strings as character sequences.
pub struct AuthView {
    pub type_: AuthType,
    pub token: Seq<char>,
    pub username: Seq<char>,
    pub password: Seq<char>,
    pub key: Seq<char>,
    pub value: Seq<char>,
    pub in_header: bool,
}

impl View for Auth {
    type V = AuthView;

    open spec fn view(&self) -> AuthView {
        AuthView {
            type_: self.type_,
            token: self.token@,
            username: self.username@,
            password: self.password@,
            key: self.key@,
            value: self.value@,
            in_header: self.in_header,
        }
    }
}

/// The settings of a request without authentication.
pub open spec fn no_auth() -> AuthView {
    AuthView {
        type_: AuthType::NoAuth,
        token: seq![],
        username: seq![],
        password: seq![],
        key: seq![],
        value: seq![],
        in_header: false,
    }
}

impl Auth {
    /// No authentication.
    pub fn none() -> (a: Auth)
        ensures
            a@ == no_auth(),
    {
        Auth {
            type_: AuthType::NoAuth,
            token: String::new(),
            username: String::new(),
            password: String::new(),
            key: String::new(),
            value: String::new(),
            in_header: false,
        }
    }

    /// A copy of the settings.
    pub fn duplicate(&self) -> (a: Auth)
        ensures
            a@ == self@,
    {
        Auth {
            type_: self.type_,
            token: self.token.clone(),
            username: self.username.clone(),
            password: self.password.clone(),
            key: self.key.clone(),
            value: self.value.clone(),
            in_header: self.in_header,
        }
    }
}

impl Default for Auth {
    fn default() -> (a: Auth)
        ensures
            a@ == no_auth(),
    {
        Auth::none()
    }
}

/// How one placeholder is filled for each request of a load test.
pub struct VarOverride {
    pub key: String,
    /// "fixed" | "range" | "list"
    pub mode: String,
    /// fixed value; range start; comma-separated list
    pub value: String,
    /// range end (only for mode = "range")
    pub value_end: Option<String>,
}

/// `VarOverride` with its strings as character sequences.
pub struct VarOverrideView {
    pub key: Seq<char>,
    pub mode: Seq<char>,
    pub value: Seq<char>,
    pub value_end: Option<Seq<char>>,
}

impl View for VarOverride {
    type V = VarOverrideView;

    open spec fn view(&self) -> VarOverrideView {
        VarOverrideView {
            key: self.key@,
            mode: self.mode@,
            value: self.value@,
            value_end: match self.value_end {
                Some(e) => Some(e@),
                None => None,
            },
        }
    }
}

/// A list of string pairs with one more pair.
pub proof fn lemma_pairs_view_push(v: Seq<(String, String)>, p: (String, String))
    ensures
        pairs_view(v.push(p)) == pairs_view(v).push(pair_view(p)),
{
    assert(pairs_view(v.push(p)) =~= pairs_view(v).push(pair_view(p)));
}

/// A list of overrides as views.
pub open spec fn overrides_view(v: Seq<VarOverride>) -> Seq<VarOverrideView> {
    v.map_values(|o: VarOverride| o@)
}

/// What a load test sends and how hard.
pub struct LoadTestConfig {
    pub url: String,
    pub method: String,
    pub headers: Vec<Header>,
    pub body_type: String,
    pub body: String,
    pub auth: Auth,
    pub variables: Vec<(String, String)>,
    pub overrides: Vec<VarOverride>,
    pub rps: u64,
    pub total_requests: u64,
    pub concurrency: u64,
    pub timeout_ms: u64,
}

/// What one sent request got back.
pub struct ResponseData {
    pub status: u16,
    pub status_text: String,
    pub time_ms: u64,
    pub size_bytes: u64,
    pub headers: Vec<(String, String)>,
    pub body: String,
}

/// A request read from a cURL command line.
pub struct CurlImportResult {
    pub method: String,
    pub url: String,
    pub headers: Vec<Header>,
    pub body_type: String,
    pub body: String,
    pub auth: Auth,
    pub warnings: Vec<String>,
}

/// `CurlImportResult` with its strings as character sequences.
pub struct CurlImportView {
    pub method: Seq<char>,
    pub url: Seq<char>,
    pub headers: Seq<(Seq<char>, Seq<char>)>,
    pub body_type: Seq<char>,
    pub body: Seq<char>,
    pub auth: AuthView,
    pub warnings: Seq<Seq<char>>,
}

impl View for CurlImportResult {
    type V = CurlImportView;

    open spec fn view(&self) -> CurlImportView {
        CurlImportView {
            method: self.method@,
            url: self.url@,
            headers: headers_view(self.headers@),
            body_type: self.body_type@,
            body: self.body@,
            auth: self.auth@,
            warnings: strings_view(self.warnings@),
        }
    }
}

/// A project: a named group of requests and variables.
pub struct Project {
    pub id: i64,
    pub name: String,
    pub created_at: String,
    pub updated_at: String,
}

impl Project {
    /// A project record, created and updated at `ts`.
    pub fn new(id: i64, name: String, ts: String) -> (p: Project)
        ensures
            p.id == id,
            p.name@ == name@,
            p.created_at@ == ts@,
            p.updated_at@ == ts@,
    {
        let created_at = ts.clone();
        Project { id, name, created_at, updated_at: ts }
    }
}

/// A stored request.
pub struct Request {
    pub id: i64,
    pub project_id: i64,
    pub name: String,
    pub method: String,
    pub url: String,
    pub headers_json: String,
    pub body_type: String,
    pub body: String,
    pub auth_json: String,
}

impl Request {
    /// A new request of a project: `GET`, no URL, no headers (`[]`), no
    /// body (`none`, empty), no authentication (`{}`).
    pub fn new_default(id: i64, project_id: i64, name: String) -> (r: Request)
        ensures
            r.id == id,
            r.project_id == project_id,
            r.name@ == name@,
            r.method@ == "GET"@,
            r.url@ == Seq::<char>::empty(),
            r.headers_json@ == "[]"@,
            r.body_type@ == "none"@,
            r.body@ == Seq::<char>::empty(),
            r.auth_json@ == "{}"@,
    {
        Request {
            id,
            project_id,
            name,
            method: String::from_str("GET"),
            url: String::new(),
            headers_json: String::from_str("[]"),
            body_type: String::from_str("none"),
            body: String::new(),
            auth_json: String::from_str("{}"),
        }
    }
}

/// A project variable.
pub struct Variable {
    pub id: i64,
    pub project_id: i64,
    pub key: String,
    pub value: String,
}

/// A rule that copies a value out of a response into a variable.
pub struct Extract {
    pub id: i64,
    pub request_id: i64,
    pub source_request_id: Option<i64>,
    pub jsonpath: String,
    pub target_var_key: String,
}

/// The outcome of one request of a load test.
#[derive(Clone, Copy, Debug, PartialEq, Eq, Structural)]
pub struct PerRequest {
    pub seq: u64,
    pub status: u16,
    pub latency_ms: u64,
    pub success: bool,
}

} // verus!
