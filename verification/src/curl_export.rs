//! Writing a stored request back out as a cURL command line.
use vstd::prelude::*;

use crate::model::{headers_view, pairs_view, Auth, AuthType, AuthView, Header, Request};
use crate::template::{resolve, spec_apply_vars};
use crate::text::{
    chars_of, eq_str, join, lemma_vecs_view_push, lines_of, spec_join, spec_lines,
    spec_split_once, split_once, string_of, to_uppercase, uppercase_of, vecs_view,
};

verus! {

/// `s` between single quotes.
pub open spec fn quoted(s: Seq<char>) -> Seq<char> {
    "'"@ + s + "'"@
}

/// The `-H` words of the headers with a non-empty key, their values filled.
pub open spec fn header_words(hs: Seq<(Seq<char>, Seq<char>)>, vars: Seq<(Seq<char>, Seq<char>)>) -> Seq<Seq<char>>
    decreases hs.len(),
{
    if hs.len() == 0 {
        seq![]
    } else {
        let rest = header_words(hs.drop_last(), vars);
        let h = hs.last();
        if h.0.len() == 0 {
            rest
        } else {
            rest + seq!["-H"@, quoted(h.0 + ": "@ + spec_apply_vars(h.1, vars))]
        }
    }
}

/// The words for the authentication, its texts filled: a bearer header for
/// a non-empty token, `-u user:password`, or an API-key header when the key
/// is not empty and goes in a header.
pub open spec fn auth_words(a: AuthView, vars: Seq<(Seq<char>, Seq<char>)>) -> Seq<Seq<char>> {
    match a.type_ {
        AuthType::Bearer => {
            let token = spec_apply_vars(a.token, vars);
            if token.len() > 0 {
                seq!["-H"@, quoted("Authorization: Bearer "@ + token)]
            } else {
                seq![]
            }
        },
        AuthType::Basic => seq![
            "-u"@,
            quoted(spec_apply_vars(a.username, vars) + ":"@ + spec_apply_vars(a.password, vars)),
        ],
        AuthType::ApiKey => {
            let key = spec_apply_vars(a.key, vars);
            let value = spec_apply_vars(a.value, vars);
            if key.len() > 0 && a.in_header {
                seq!["-H"@, quoted(key + ": "@ + value)]
            } else {
                seq![]
            }
        },
        AuthType::NoAuth => seq![],
    }
}

/// The `-F` words of the `key=value` lines of a form body.
pub open spec fn form_words(lines: Seq<Seq<char>>) -> Seq<Seq<char>>
    decreases lines.len(),
{
    if lines.len() == 0 {
        seq![]
    } else {
        let rest = form_words(lines.drop_last());
        match spec_split_once(lines.last(), '=') {
            Some((k, v)) => rest + seq!["-F"@, quoted(k + "="@ + v)],
            None => rest,
        }
    }
}

/// The words for a body (already filled): form fields for `form` and
/// `form-data`, raw data otherwise.
pub open spec fn body_words(body_type: Seq<char>, body: Seq<char>) -> Seq<Seq<char>> {
    if body_type == "form"@ || body_type == "form-data"@ {
        form_words(spec_lines(body))
    } else {
        seq!["--data-raw"@, quoted(body)]
    }
}

/// The words of the command: `curl`, `-X` and the uppercased method unless
/// it is `GET`, the quoted URL, the headers, the authentication, the body.
pub open spec fn export_words(
    method: Seq<char>,
    url: Seq<char>,
    headers: Seq<(Seq<char>, Seq<char>)>,
    auth: AuthView,
    body_type: Seq<char>,
    body: Seq<char>,
    vars: Seq<(Seq<char>, Seq<char>)>,
) -> Seq<Seq<char>> {
    let w1 = if method != "GET"@ {
        seq!["curl"@, "-X"@, uppercase_of(method)]
    } else {
        seq!["curl"@]
    };
    let w2 = w1.push(quoted(spec_apply_vars(url, vars))) + header_words(headers, vars) + auth_words(
        auth,
        vars,
    );
    if body.len() > 0 {
        w2 + body_words(body_type, spec_apply_vars(body, vars))
    } else {
        w2
    }
}

/// The separator between words: a backslash line continuation.
pub open spec fn word_separator() -> Seq<char> {
    " \\\n  "@
}

/// Appends `w` to the word list as a new last word.
fn push_word(words: &mut Vec<Vec<char>>, w: Vec<char>)
    ensures
        vecs_view(final(words)@) == vecs_view(old(words)@).push(w@),
{
    proof {
        lemma_vecs_view_push(words@, w);
    }
    words.push(w);
}

/// `'s'` as characters.
fn quote(s: &str) -> (r: Vec<char>)
    ensures
        r@ == quoted(s@),
{
    let q = crate::text::concat3("'", s, "'");
    chars_of(q.as_str())
}

/// The cURL command for a stored request, its variables filled from the
/// table `vars`: the words of `export_words` joined by backslash line
/// continuations.
pub fn export_curl(req: &Request, headers: &[Header], auth: &Auth, vars: &[(String, String)]) -> (r:
    String)
    ensures
        r@ == spec_join(
            export_words(
                req.method@,
                req.url@,
                headers_view(headers@),
                auth@,
                req.body_type@,
                req.body@,
                pairs_view(vars@),
            ),
            word_separator(),
        ),
{
    let ghost vv = pairs_view(vars@);
    let mut words: Vec<Vec<char>> = Vec::new();
    assert(vecs_view(words@) =~= Seq::<Seq<char>>::empty());
    push_word(&mut words, chars_of("curl"));
    let mc = chars_of(req.method.as_str());
    if !eq_str(mc.as_slice(), "GET") {
        push_word(&mut words, chars_of("-X"));
        let up = to_uppercase(req.method.as_str());
        push_word(&mut words, chars_of(up.as_str()));
    }
    let url = resolve(req.url.as_str(), vars);
    push_word(&mut words, quote(url.as_str()));
    let ghost w2 = vecs_view(words@);
    assert(w2 =~= (if req.method@ != "GET"@ {
        seq!["curl"@, "-X"@, uppercase_of(req.method@)]
    } else {
        seq!["curl"@]
    }).push(quoted(spec_apply_vars(req.url@, vv))));
    // headers
    let ghost hv = headers_view(headers@);
    let mut i: usize = 0;
    while i < headers.len()
        invariant
            i <= headers.len(),
            hv == headers_view(headers@),
            vv == pairs_view(vars@),
            vecs_view(words@) == w2 + header_words(hv.take(i as int), vv),
        decreases headers.len() - i,
    {
        assert(hv.take(i + 1).drop_last() == hv.take(i as int));
        assert(hv.take(i + 1).last() == headers@[i as int]@);
        if !headers[i].key.as_str().is_empty() {
            let v = resolve(headers[i].value.as_str(), vars);
            push_word(&mut words, chars_of("-H"));
            let kv = crate::text::concat3(headers[i].key.as_str(), ": ", v.as_str());
            push_word(&mut words, quote(kv.as_str()));
        }
        i += 1;
    }
    assert(hv.take(headers.len() as int) == hv);
    // authentication
    match auth.type_ {
        AuthType::Bearer => {
            let token = resolve(auth.token.as_str(), vars);
            if !token.as_str().is_empty() {
                push_word(&mut words, chars_of("-H"));
                let h = crate::text::concat2("Authorization: Bearer ", token.as_str());
                push_word(&mut words, quote(h.as_str()));
            }
        },
        AuthType::Basic => {
            let user = resolve(auth.username.as_str(), vars);
            let pass = resolve(auth.password.as_str(), vars);
            push_word(&mut words, chars_of("-u"));
            let up = crate::text::concat3(user.as_str(), ":", pass.as_str());
            push_word(&mut words, quote(up.as_str()));
        },
        AuthType::ApiKey => {
            let key = resolve(auth.key.as_str(), vars);
            let value = resolve(auth.value.as_str(), vars);
            if !key.as_str().is_empty() && auth.in_header {
                push_word(&mut words, chars_of("-H"));
                let kv = crate::text::concat3(key.as_str(), ": ", value.as_str());
                push_word(&mut words, quote(kv.as_str()));
            }
        },
        AuthType::NoAuth => {},
    }
    let ghost w4 = vecs_view(words@);
    assert(w4 =~= w2 + header_words(hv, vv) + auth_words(auth@, vv));
    // body
    if !req.body.as_str().is_empty() {
        let body = resolve(req.body.as_str(), vars);
        let bt = chars_of(req.body_type.as_str());
        if eq_str(bt.as_slice(), "form") || eq_str(bt.as_slice(), "form-data") {
            let lines = lines_of(chars_of(body.as_str()).as_slice());
            let ghost lv = vecs_view(lines@);
            let mut j: usize = 0;
            while j < lines.len()
                invariant
                    j <= lines.len(),
                    lv == vecs_view(lines@),
                    vecs_view(words@) == w4 + form_words(lv.take(j as int)),
                decreases lines.len() - j,
            {
                assert(lv.take(j + 1).drop_last() == lv.take(j as int));
                assert(lv.take(j + 1).last() == lines@[j as int]@);
                match split_once(lines[j].as_slice(), '=') {
                    Some((k, v)) => {
                        push_word(&mut words, chars_of("-F"));
                        let ks = string_of(k.as_slice());
                        let vs = string_of(v.as_slice());
                        let kv = crate::text::concat3(ks.as_str(), "=", vs.as_str());
                        push_word(&mut words, quote(kv.as_str()));
                    },
                    None => {},
                }
                j += 1;
            }
            assert(lv.take(lines.len() as int) == lv);
        } else {
            push_word(&mut words, chars_of("--data-raw"));
            push_word(&mut words, quote(body.as_str()));
        }
    }
    assert(vecs_view(words@) == export_words(
        req.method@,
        req.url@,
        hv,
        auth@,
        req.body_type@,
        req.body@,
        vv,
    ));
    let sep = chars_of(" \\\n  ");
    let out = join(&words, sep.as_slice());
    string_of(out.as_slice())
}

} // verus!
