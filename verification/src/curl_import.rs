//! Reading a request out of a cURL command line: splitting it into words
//! the way a shell would, then reading the flags that matter.
use vstd::prelude::*;
use vstd::utf8::{decode_utf8, valid_utf8};

use crate::codec::{base64_decode, base64_standard_decoding, utf8_text};
use crate::model::{
    no_auth, AuthType, AuthView, CurlImportResult, CurlImportView, Auth, Header,
};
use crate::text::{
    chars_of, eq_ignore_ascii_case, eq_str, join, lemma_vecs_view_push, spec_eq_ignore_ascii_case,
    spec_join, spec_split_once, spec_starts_with, spec_strip_prefix, spec_trim, split_once,
    starts_with_str, string_of, strings_of, strings_view, strip_prefix, to_uppercase, trim,
    uppercase_of, vecs_view,
};

verus! {

// ---------------------------------------------------------------------------
// Words
// ---------------------------------------------------------------------------

/// Where the splitter stands: the finished words, the word being read, and
/// whether it is inside single or double quotes.
pub struct TokenizerState {
    pub tokens: Seq<Seq<char>>,
    pub cur: Seq<char>,
    pub in_single: bool,
    pub in_double: bool,
}

/// A blank that separates words outside quotes.
pub open spec fn is_blank(c: char) -> bool {
    c == ' ' || c == '\t' || c == '\n' || c == '\r'
}

/// The splitter after one more character: a quote outside the other kind
/// of quote opens or closes it, a blank outside quotes ends the word (if
/// any), a backslash outside quotes is dropped, anything else is kept.
pub open spec fn tokenizer_step(st: TokenizerState, c: char) -> TokenizerState {
    if c == '\'' && !st.in_double {
        TokenizerState { in_single: !st.in_single, ..st }
    } else if c == '"' && !st.in_single {
        TokenizerState { in_double: !st.in_double, ..st }
    } else if is_blank(c) && !st.in_single && !st.in_double {
        if st.cur.len() > 0 {
            TokenizerState { tokens: st.tokens.push(st.cur), cur: seq![], ..st }
        } else {
            st
        }
    } else if c == '\\' && !st.in_single && !st.in_double {
        st
    } else {
        TokenizerState { cur: st.cur.push(c), ..st }
    }
}

/// The splitter after reading `s`.
pub open spec fn tokenizer_state(s: Seq<char>) -> TokenizerState
    decreases s.len(),
{
    if s.len() == 0 {
        TokenizerState { tokens: seq![], cur: seq![], in_single: false, in_double: false }
    } else {
        tokenizer_step(tokenizer_state(s.drop_last()), s.last())
    }
}

/// The words of a command line.
pub open spec fn spec_tokenize(s: Seq<char>) -> Seq<Seq<char>> {
    let st = tokenizer_state(s);
    if st.cur.len() > 0 {
        st.tokens.push(st.cur)
    } else {
        st.tokens
    }
}

/// Splits a command line into words as `spec_tokenize` says, on characters.
pub fn tokenize_chars(s: &[char]) -> (r: Vec<Vec<char>>)
    ensures
        vecs_view(r@) == spec_tokenize(s@),
{
    let mut tokens: Vec<Vec<char>> = Vec::new();
    let mut cur: Vec<char> = Vec::new();
    let mut in_single = false;
    let mut in_double = false;
    let mut i: usize = 0;
    assert(vecs_view(tokens@) =~= Seq::<Seq<char>>::empty());
    assert(s@.take(0) =~= Seq::<char>::empty());
    while i < s.len()
        invariant
            i <= s.len(),
            tokenizer_state(s@.take(i as int)) == (TokenizerState {
                tokens: vecs_view(tokens@),
                cur: cur@,
                in_single,
                in_double,
            }),
        decreases s.len() - i,
    {
        let c = s[i];
        assert(s@.take(i + 1).drop_last() == s@.take(i as int));
        if c == '\'' && !in_double {
            in_single = !in_single;
        } else if c == '"' && !in_single {
            in_double = !in_double;
        } else if (c == ' ' || c == '\t' || c == '\n' || c == '\r') && !in_single && !in_double {
            if cur.len() > 0 {
                proof {
                    lemma_vecs_view_push(tokens@, cur);
                }
                tokens.push(cur);
                cur = Vec::new();
            }
        } else if c == '\\' && !in_single && !in_double {
        } else {
            cur.push(c);
        }
        i += 1;
    }
    assert(s@.take(s.len() as int) == s@);
    if cur.len() > 0 {
        proof {
            lemma_vecs_view_push(tokens@, cur);
        }
        tokens.push(cur);
    }
    tokens
}

/// Splits a cURL command line into words: blanks outside quotes separate
/// words, quotes group and are dropped, backslashes outside quotes are
/// dropped.
pub fn tokenize_curl(input: &str) -> (r: Vec<String>)
    ensures
        strings_view(r@) == spec_tokenize(input@),
{
    let t = tokenize_chars(chars_of(input).as_slice());
    strings_of(&t)
}

// ---------------------------------------------------------------------------
// Flags
// ---------------------------------------------------------------------------

/// What the reader has gathered so far.
pub struct CurlParse {
    pub method: Seq<char>,
    pub url: Seq<char>,
    pub headers: Seq<(Seq<char>, Seq<char>)>,
    pub body_parts: Seq<Seq<char>>,
    pub body_type: Seq<char>,
    pub auth: AuthView,
    pub warnings: Seq<Seq<char>>,
}

/// Nothing read yet: a `GET` with a raw body type and no authentication.
pub open spec fn curl_parse_init() -> CurlParse {
    CurlParse {
        method: "GET"@,
        url: seq![],
        headers: seq![],
        body_parts: seq![],
        body_type: "raw"@,
        auth: no_auth(),
        warnings: seq![],
    }
}

/// `-H` or `--header`: a request header follows.
pub open spec fn is_header_flag(t: Seq<char>) -> bool {
    t == "-H"@ || t == "--header"@
}

/// A data flag: a raw body part follows.
pub open spec fn is_data_flag(t: Seq<char>) -> bool {
    t == "-d"@ || t == "--data"@ || t == "--data-raw"@ || t == "--data-binary"@
}

/// `-u` or `--user`: `user:password` follows.
pub open spec fn is_user_flag(t: Seq<char>) -> bool {
    t == "-u"@ || t == "--user"@
}

/// `-X` or `--request`: the method follows.
pub open spec fn is_request_flag(t: Seq<char>) -> bool {
    t == "-X"@ || t == "--request"@
}

/// `-F` or `--form`: a multipart field follows.
pub open spec fn is_form_flag(t: Seq<char>) -> bool {
    t == "-F"@ || t == "--form"@
}

/// Flags that the reader knows to take a value.
pub open spec fn takes_value(t: Seq<char>) -> bool {
    ||| t == "-H"@
    ||| t == "--header"@
    ||| t == "-d"@
    ||| t == "--data"@
    ||| t == "--data-raw"@
    ||| t == "--data-binary"@
    ||| t == "--json"@
    ||| t == "-u"@
    ||| t == "--user"@
    ||| t == "-X"@
    ||| t == "--request"@
    ||| t == "--url"@
    ||| t == "-A"@
    ||| t == "--user-agent"@
    ||| t == "--max-time"@
    ||| t == "-m"@
    ||| t == "-o"@
    ||| t == "--output"@
    ||| t == "--connect-timeout"@
    ||| t == "-b"@
    ||| t == "--cookie"@
}

/// The warning for a `-H` value without a colon.
pub open spec fn malformed_header_warning(v: Seq<char>) -> Seq<char> {
    "Malformed header: "@ + v
}

/// The warning for a flag that the reader skips.
pub open spec fn unknown_flag_warning(t: Seq<char>) -> Seq<char> {
    "Unknown flag ignored: "@ + t
}

/// The warning for `-F`.
pub open spec fn multipart_warning() -> Seq<char> {
    "Multipart (-F) is not supported — add fields manually in the UI"@
}

/// The reader at word `i`: where it goes on, what it has gathered then,
/// and whether it stops because a flag lacks its value.
pub open spec fn curl_step(tokens: Seq<Seq<char>>, i: int, st: CurlParse) -> (int, CurlParse, bool) {
    let t = tokens[i];
    let has_next = i + 1 < tokens.len();
    let v = tokens[i + 1];
    if t == "curl"@ {
        (i + 1, st, false)
    } else if is_header_flag(t) {
        if !has_next {
            (i + 1, st, true)
        } else {
            match spec_split_once(v, ':') {
                Some((k, hv)) => (
                    i + 2,
                    CurlParse { headers: st.headers.push((spec_trim(k), spec_trim(hv))), ..st },
                    false,
                ),
                None => (
                    i + 2,
                    CurlParse { warnings: st.warnings.push(malformed_header_warning(v)), ..st },
                    false,
                ),
            }
        }
    } else if is_data_flag(t) || t == "--json"@ {
        if !has_next {
            (i + 1, st, true)
        } else {
            (
                i + 2,
                CurlParse {
                    body_parts: st.body_parts.push(v),
                    body_type: if t == "--json"@ {
                        "json"@
                    } else {
                        "raw"@
                    },
                    ..st
                },
                false,
            )
        }
    } else if is_user_flag(t) {
        if !has_next {
            (i + 1, st, true)
        } else {
            match spec_split_once(v, ':') {
                Some((u, p)) => (
                    i + 2,
                    CurlParse {
                        auth: AuthView {
                            type_: AuthType::Basic,
                            username: u,
                            password: p,
                            ..st.auth
                        },
                        ..st
                    },
                    false,
                ),
                None => (i + 2, st, false),
            }
        }
    } else if is_request_flag(t) {
        if !has_next {
            (i + 1, st, true)
        } else {
            (i + 2, CurlParse { method: uppercase_of(v), ..st }, false)
        }
    } else if t == "--url"@ {
        if !has_next {
            (i + 1, st, true)
        } else {
            (i + 2, CurlParse { url: v, ..st }, false)
        }
    } else if is_form_flag(t) {
        let st2 = CurlParse { warnings: st.warnings.push(multipart_warning()), ..st };
        if has_next && !spec_starts_with(v, "-"@) {
            (
                i + 2,
                CurlParse {
                    body_parts: st2.body_parts.push(v),
                    body_type: "form-data"@,
                    ..st2
                },
                false,
            )
        } else if has_next {
            (i + 2, st2, false)
        } else {
            (i + 1, st2, false)
        }
    } else if spec_starts_with(t, "-"@) {
        let st2 = CurlParse { warnings: st.warnings.push(unknown_flag_warning(t)), ..st };
        if takes_value(t) && has_next && !spec_starts_with(v, "-"@) {
            (i + 2, st2, false)
        } else {
            (i + 1, st2, false)
        }
    } else if st.url.len() == 0 && (spec_starts_with(t, "http://"@) || spec_starts_with(
        t,
        "https://"@,
    )) {
        (i + 1, CurlParse { url: t, ..st }, false)
    } else {
        (i + 1, st, false)
    }
}

/// The reader from word `i` to the end or to a flag that lacks its value.
pub open spec fn curl_run(tokens: Seq<Seq<char>>, i: int, st: CurlParse) -> CurlParse
    decreases tokens.len() - i,
{
    if i < 0 || i >= tokens.len() {
        st
    } else {
        let (next, st2, stop) = curl_step(tokens, i, st);
        if stop || next <= i || next > tokens.len() {
            st2
        } else {
            curl_run(tokens, next, st2)
        }
    }
}

/// The credentials in a `Basic` header value, if it decodes to
/// `user:password`.
pub open spec fn basic_credentials(rest: Seq<char>) -> Option<(Seq<char>, Seq<char>)> {
    match base64_standard_decoding(rest) {
        Some(bytes) => if valid_utf8(bytes) {
            spec_split_once(decode_utf8(bytes), ':')
        } else {
            None
        },
        None => None,
    }
}

/// One header checked for credentials: an `Authorization` header with a
/// `Bearer` token or decodable `Basic` credentials becomes the
/// authentication when there is none yet; any other header is kept.
pub open spec fn auth_header_step(
    kept: Seq<(Seq<char>, Seq<char>)>,
    auth: AuthView,
    h: (Seq<char>, Seq<char>),
) -> (Seq<(Seq<char>, Seq<char>)>, AuthView) {
    if spec_eq_ignore_ascii_case(h.0, "authorization"@) {
        match spec_strip_prefix(h.1, "Bearer "@) {
            Some(rest) => if auth.type_ == AuthType::NoAuth {
                (kept, AuthView { type_: AuthType::Bearer, token: rest, ..auth })
            } else {
                (kept.push(h), auth)
            },
            None => match spec_strip_prefix(h.1, "Basic "@) {
                Some(rest) => if auth.type_ == AuthType::NoAuth && basic_credentials(
                    rest,
                ) is Some {
                    let (u, p) = basic_credentials(rest).unwrap();
                    (kept, AuthView { type_: AuthType::Basic, username: u, password: p, ..auth })
                } else {
                    (kept.push(h), auth)
                },
                None => (kept.push(h), auth),
            },
        }
    } else {
        (kept.push(h), auth)
    }
}

/// The headers left and the authentication after checking each header in
/// turn.
pub open spec fn auth_scan(hs: Seq<(Seq<char>, Seq<char>)>, auth: AuthView) -> (
    Seq<(Seq<char>, Seq<char>)>,
    AuthView,
)
    decreases hs.len(),
{
    if hs.len() == 0 {
        (seq![], auth)
    } else {
        let (kept, a) = auth_scan(hs.drop_last(), auth);
        auth_header_step(kept, a, hs.last())
    }
}

/// The request read from a cURL command line: the flags read in order, the
/// `Authorization` header turned into authentication, the data parts
/// joined by newlines, and `GET` changed to `POST` when there is a body.
pub open spec fn spec_parse_curl(input: Seq<char>) -> CurlImportView {
    let st = curl_run(spec_tokenize(input), 0, curl_parse_init());
    let (headers, auth) = auth_scan(st.headers, st.auth);
    let body = spec_join(st.body_parts, "\n"@);
    CurlImportView {
        method: if body.len() > 0 && st.method == "GET"@ {
            "POST"@
        } else {
            st.method
        },
        url: st.url,
        headers,
        body_type: st.body_type,
        body,
        auth,
        warnings: st.warnings,
    }
}

// ---------------------------------------------------------------------------
// Executable reader
// ---------------------------------------------------------------------------

/// The executable state of the reader.
struct CurlAcc {
    method: Vec<char>,
    url: Vec<char>,
    headers: Vec<(Vec<char>, Vec<char>)>,
    body_parts: Vec<Vec<char>>,
    body_type: Vec<char>,
    auth: Auth,
    warnings: Vec<Vec<char>>,
}

/// Pairs of character vectors as pairs of sequences.
pub open spec fn char_pairs_view(v: Seq<(Vec<char>, Vec<char>)>) -> Seq<(Seq<char>, Seq<char>)> {
    v.map_values(|p: (Vec<char>, Vec<char>)| (p.0@, p.1@))
}

impl CurlAcc {
    spec fn view(&self) -> CurlParse {
        CurlParse {
            method: self.method@,
            url: self.url@,
            headers: char_pairs_view(self.headers@),
            body_parts: vecs_view(self.body_parts@),
            body_type: self.body_type@,
            auth: self.auth@,
            warnings: vecs_view(self.warnings@),
        }
    }
}

proof fn lemma_char_pairs_push(v: Seq<(Vec<char>, Vec<char>)>, p: (Vec<char>, Vec<char>))
    ensures
        char_pairs_view(v.push(p)) == char_pairs_view(v).push((p.0@, p.1@)),
{
    assert(char_pairs_view(v.push(p)) =~= char_pairs_view(v).push((p.0@, p.1@)));
}

/// `a` followed by `b`, as characters.
fn chars_concat(a: &[char], b: &[char]) -> (r: Vec<char>)
    ensures
        r@ == a@ + b@,
{
    let mut out: Vec<char> = Vec::new();
    let mut i: usize = 0;
    while i < a.len()
        invariant
            i <= a.len(),
            out@ == a@.take(i as int),
        decreases a.len() - i,
    {
        out.push(a[i]);
        i += 1;
        assert(a@.take(i as int) == a@.take(i - 1).push(a@[i - 1]));
    }
    let mut j: usize = 0;
    assert(a@.take(a.len() as int) == a@);
    while j < b.len()
        invariant
            j <= b.len(),
            out@ == a@ + b@.take(j as int),
        decreases b.len() - j,
    {
        out.push(b[j]);
        j += 1;
        assert(b@.take(j as int) == b@.take(j - 1).push(b@[j - 1]));
    }
    assert(b@.take(b.len() as int) == b@);
    out
}

/// A copy of characters.
fn chars_copy(a: &[char]) -> (r: Vec<char>)
    ensures
        r@ == a@,
{
    let e: Vec<char> = Vec::new();
    chars_concat(a, e.as_slice())
}

/// Whether `t` is a flag that takes a value.
fn flag_takes_value(t: &[char]) -> (r: bool)
    ensures
        r == takes_value(t@),
{
    eq_str(t, "-H") || eq_str(t, "--header") || eq_str(t, "-d") || eq_str(t, "--data") || eq_str(
        t,
        "--data-raw",
    ) || eq_str(t, "--data-binary") || eq_str(t, "--json") || eq_str(t, "-u") || eq_str(
        t,
        "--user",
    ) || eq_str(t, "-X") || eq_str(t, "--request") || eq_str(t, "--url") || eq_str(t, "-A")
        || eq_str(t, "--user-agent") || eq_str(t, "--max-time") || eq_str(t, "-m") || eq_str(
        t,
        "-o",
    ) || eq_str(t, "--output") || eq_str(t, "--connect-timeout") || eq_str(t, "-b") || eq_str(
        t,
        "--cookie",
    )
}

/// One step of the reader, as `curl_step` says.
fn parse_step(tokens: &Vec<Vec<char>>, i: usize, st: &mut CurlAcc) -> (r: (usize, bool))
    requires
        i < tokens.len(),
    ensures
        (r.0 as int, final(st).view(), r.1) == curl_step(vecs_view(tokens@), i as int, old(st).view()),
        r.0 > i,
        r.0 <= i + 2,
        !r.1 ==> r.0 <= tokens.len(),
{
    let ghost tv = vecs_view(tokens@);
    let t = &tokens[i];
    let has_next = i + 1 < tokens.len();
    assert(tv[i as int] == t@);
    if eq_str(t, "curl") {
        return (i + 1, false);
    }
    if eq_str(t, "-H") || eq_str(t, "--header") {
        if !has_next {
            return (i + 1, true);
        }
        let v = &tokens[i + 1];
        assert(tv[i + 1] == v@);
        match split_once(v.as_slice(), ':') {
            Some((k, hv)) => {
                let pair = (trim(k.as_slice()), trim(hv.as_slice()));
                proof {
                    lemma_char_pairs_push(st.headers@, pair);
                }
                st.headers.push(pair);
            },
            None => {
                let w = chars_concat(chars_of("Malformed header: ").as_slice(), v.as_slice());
                proof {
                    lemma_vecs_view_push(st.warnings@, w);
                }
                st.warnings.push(w);
            },
        }
        return (i + 2, false);
    }
    let is_json = eq_str(t, "--json");
    if eq_str(t, "-d") || eq_str(t, "--data") || eq_str(t, "--data-raw") || eq_str(
        t,
        "--data-binary",
    ) || is_json {
        if !has_next {
            return (i + 1, true);
        }
        let v = chars_copy(tokens[i + 1].as_slice());
        assert(tv[i + 1] == v@);
        proof {
            lemma_vecs_view_push(st.body_parts@, v);
        }
        st.body_parts.push(v);
        st.body_type = if is_json {
            chars_of("json")
        } else {
            chars_of("raw")
        };
        return (i + 2, false);
    }
    if eq_str(t, "-u") || eq_str(t, "--user") {
        if !has_next {
            return (i + 1, true);
        }
        let v = &tokens[i + 1];
        assert(tv[i + 1] == v@);
        match split_once(v.as_slice(), ':') {
            Some((u, p)) => {
                st.auth.type_ = AuthType::Basic;
                st.auth.username = string_of(u.as_slice());
                st.auth.password = string_of(p.as_slice());
            },
            None => {},
        }
        return (i + 2, false);
    }
    if eq_str(t, "-X") || eq_str(t, "--request") {
        if !has_next {
            return (i + 1, true);
        }
        assert(tv[i + 1] == tokens[i + 1]@);
        let up = to_uppercase(string_of(tokens[i + 1].as_slice()).as_str());
        st.method = chars_of(up.as_str());
        return (i + 2, false);
    }
    if eq_str(t, "--url") {
        if !has_next {
            return (i + 1, true);
        }
        assert(tv[i + 1] == tokens[i + 1]@);
        st.url = chars_copy(tokens[i + 1].as_slice());
        return (i + 2, false);
    }
    if eq_str(t, "-F") || eq_str(t, "--form") {
        let w = chars_of("Multipart (-F) is not supported — add fields manually in the UI");
        proof {
            lemma_vecs_view_push(st.warnings@, w);
        }
        st.warnings.push(w);
        if has_next {
            assert(tv[i + 1] == tokens[i + 1]@);
            if !starts_with_str(tokens[i + 1].as_slice(), "-") {
                let v = chars_copy(tokens[i + 1].as_slice());
                proof {
                    lemma_vecs_view_push(st.body_parts@, v);
                }
                st.body_parts.push(v);
                st.body_type = chars_of("form-data");
            }
            return (i + 2, false);
        }
        return (i + 1, false);
    }
    if starts_with_str(t, "-") {
        let w = chars_concat(chars_of("Unknown flag ignored: ").as_slice(), t.as_slice());
        proof {
            lemma_vecs_view_push(st.warnings@, w);
        }
        st.warnings.push(w);
        if flag_takes_value(t) && has_next {
            assert(tv[i + 1] == tokens[i + 1]@);
            if !starts_with_str(tokens[i + 1].as_slice(), "-") {
                return (i + 2, false);
            }
        }
        return (i + 1, false);
    }
    if st.url.len() == 0 && (starts_with_str(t, "http://") || starts_with_str(t, "https://")) {
        st.url = chars_copy(t.as_slice());
        return (i + 1, false);
    }
    (i + 1, false)
}

/// Checks one header for credentials, as `auth_header_step` says.
fn auth_step(kept: &mut Vec<(Vec<char>, Vec<char>)>, auth: &mut Auth, h: (Vec<char>, Vec<char>))
    ensures
        (char_pairs_view(final(kept)@), final(auth)@) == auth_header_step(
            char_pairs_view(old(kept)@),
            old(auth)@,
            (h.0@, h.1@),
        ),
{
    let ghost hv = (h.0@, h.1@);
    if eq_ignore_ascii_case(h.0.as_slice(), chars_of("authorization").as_slice()) {
        match strip_prefix(h.1.as_slice(), chars_of("Bearer ").as_slice()) {
            Some(rest) => {
                if auth.type_ == AuthType::NoAuth {
                    auth.type_ = AuthType::Bearer;
                    auth.token = string_of(rest.as_slice());
                    return ;
                }
            },
            None => {
                match strip_prefix(h.1.as_slice(), chars_of("Basic ").as_slice()) {
                    Some(rest) => {
                        if auth.type_ == AuthType::NoAuth {
                            let rest_s = string_of(rest.as_slice());
                            match base64_decode(rest_s.as_str()) {
                                Some(bytes) => {
                                    match utf8_text(bytes) {
                                        Some(s) => {
                                            match split_once(chars_of(s.as_str()).as_slice(), ':') {
                                                Some((u, p)) => {
                                                    auth.type_ = AuthType::Basic;
                                                    auth.username = string_of(u.as_slice());
                                                    auth.password = string_of(p.as_slice());
                                                    return ;
                                                },
                                                None => {},
                                            }
                                        },
                                        None => {},
                                    }
                                },
                                None => {},
                            }
                        }
                    },
                    None => {},
                }
            },
        }
    }
    proof {
        lemma_char_pairs_push(kept@, h);
    }
    kept.push(h);
}

/// Reads a request out of a cURL command line: `-H`/`--header` headers
/// (a value without `:` gives a warning), `-d`/`--data`/`--data-raw`/
/// `--data-binary` raw bodies, `--json` bodies, `-u`/`--user` basic
/// credentials, `-X`/`--request` the method (uppercased), `--url` or the
/// first `http://`/`https://` word the URL; `-F` gives a warning and, with a
/// value, a form-data body; other flags give a warning and skip their value
/// when they are known to take one. A flag among the first group that lacks
/// its value ends the reading. An `Authorization` header with a `Bearer`
/// token or decodable `Basic` credentials becomes the authentication when
/// `-u` gave none; the body parts are joined by newlines; a `GET` with a
/// body becomes a `POST`.
pub fn parse_curl(input: String) -> (r: Result<CurlImportResult, String>)
    ensures
        r matches Ok(res) && res@ == spec_parse_curl(input@),
{
    let tokens = tokenize_chars(chars_of(input.as_str()).as_slice());
    let ghost tv = vecs_view(tokens@);
    let mut st = CurlAcc {
        method: chars_of("GET"),
        url: Vec::new(),
        headers: Vec::new(),
        body_parts: Vec::new(),
        body_type: chars_of("raw"),
        auth: Auth::none(),
        warnings: Vec::new(),
    };
    assert(char_pairs_view(st.headers@) =~= Seq::<(Seq<char>, Seq<char>)>::empty());
    assert(vecs_view(st.body_parts@) =~= Seq::<Seq<char>>::empty());
    assert(vecs_view(st.warnings@) =~= Seq::<Seq<char>>::empty());
    assert(st.view() == curl_parse_init());
    let ghost fin = curl_run(tv, 0, curl_parse_init());
    let mut i: usize = 0;
    let mut done = false;
    while i < tokens.len() && !done
        invariant
            tv == vecs_view(tokens@),
            i <= tokens.len(),
            fin == curl_run(tv, 0, curl_parse_init()),
            done ==> st.view() == fin,
            !done ==> curl_run(tv, i as int, st.view()) == fin,
        decreases tokens.len() - i, if done { 0int } else { 1int },
    {
        let (next, stop) = parse_step(&tokens, i, &mut st);
        if stop {
            done = true;
        } else {
            i = next;
        }
    }
    assert(st.view() == fin);
    // Authorization header -> authentication
    let mut kept: Vec<(Vec<char>, Vec<char>)> = Vec::new();
    let mut auth = st.auth;
    let mut j: usize = 0;
    while j < st.headers.len()
        invariant
            j <= st.headers.len(),
            (char_pairs_view(kept@), auth@) == auth_scan(
                char_pairs_view(st.headers@).take(j as int),
                fin.auth,
            ),
        decreases st.headers.len() - j,
    {
        let h = (chars_copy(st.headers[j].0.as_slice()), chars_copy(st.headers[j].1.as_slice()));
        let ghost hs = char_pairs_view(st.headers@);
        assert(hs.take(j + 1).drop_last() == hs.take(j as int));
        auth_step(&mut kept, &mut auth, h);
        j += 1;
    }
    assert(char_pairs_view(st.headers@).take(st.headers.len() as int) == char_pairs_view(
        st.headers@,
    ));
    let body = join(&st.body_parts, chars_of("\n").as_slice());
    let method = if body.len() > 0 && eq_str(st.method.as_slice(), "GET") {
        chars_of("POST")
    } else {
        st.method
    };
    let mut headers: Vec<Header> = Vec::new();
    let mut k: usize = 0;
    while k < kept.len()
        invariant
            k <= kept.len(),
            headers.len() == k,
            forall|m: int| 0 <= m < k ==> #[trigger] headers@[m]@ == char_pairs_view(kept@)[m],
        decreases kept.len() - k,
    {
        let h = Header::new(string_of(kept[k].0.as_slice()), string_of(kept[k].1.as_slice()));
        headers.push(h);
        k += 1;
    }
    let res = CurlImportResult {
        method: string_of(method.as_slice()),
        url: string_of(st.url.as_slice()),
        headers,
        body_type: string_of(st.body_type.as_slice()),
        body: string_of(body.as_slice()),
        auth,
        warnings: strings_of(&st.warnings),
    };
    assert(res@.headers =~= char_pairs_view(kept@));
    Ok(res)
}

} // verus!
