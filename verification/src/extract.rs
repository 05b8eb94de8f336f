//! Extract rules: the value that a JSONPath picks out of a response body,
//! as the text that goes into a project variable.
use vstd::prelude::*;

use crate::model::Extract;
use crate::path_screen::{jsonpath_supported, path_supported};
use crate::text::{chars_of, slice_to_vec, string_of};

verus! {

// ---------------------------------------------------------------------------
// Trusted: JSONPath selection
// ---------------------------------------------------------------------------

/// What `jsonpath_lib::select_as_str(json, path)` gives: the matches of the
/// path in the JSON text, written as a compact JSON array; `None` when the
/// text is not JSON or the path is not valid.
pub uninterp spec fn jsonpath_selection(json: Seq<char>, path: Seq<char>) -> Option<Seq<char>>;

/// `jsonpath_lib::select_as_str(json, path)`, with the error turned into
/// `None`. Its result is named, not described: the path language and the
/// serialization are the crate's. It is called only on the paths that
/// `jsonpath_supported` admits, on which the crate does not panic.
#[verifier::external_body]
fn select_as_text(json: &str, path: &str) -> (r: Option<String>)
    requires
        jsonpath_supported(path@),
    ensures
        r matches Some(t) ==> jsonpath_selection(json@, path@) == Some(t@),
        r is None ==> jsonpath_selection(json@, path@) is None,
{
    jsonpath_lib::select_as_str(json, path).ok()
}

// ---------------------------------------------------------------------------
// The first element of a JSON array text
// ---------------------------------------------------------------------------

/// Where a scan of JSON text stands: the nesting depth, and whether it is
/// inside a string and right after a backslash there.
pub struct ScanState {
    pub depth: int,
    pub in_str: bool,
    pub esc: bool,
}

/// The scan after one more character.
pub open spec fn scan_step(st: ScanState, c: char) -> ScanState {
    if st.in_str {
        if st.esc {
            ScanState { esc: false, ..st }
        } else if c == '\\' {
            ScanState { esc: true, ..st }
        } else if c == '"' {
            ScanState { in_str: false, ..st }
        } else {
            st
        }
    } else if c == '"' {
        ScanState { in_str: true, ..st }
    } else if c == '[' || c == '{' {
        ScanState { depth: st.depth + 1, ..st }
    } else if c == ']' || c == '}' {
        ScanState { depth: st.depth - 1, ..st }
    } else {
        st
    }
}

/// The scan after reading `s`.
pub open spec fn scan_state(s: Seq<char>) -> ScanState
    decreases s.len(),
{
    if s.len() == 0 {
        ScanState { depth: 0, in_str: false, esc: false }
    } else {
        scan_step(scan_state(s.drop_last()), s.last())
    }
}

/// Position `k` of the array text `t` ends its first element: a `,` or `]`
/// outside strings and nested values.
pub open spec fn ends_first(t: Seq<char>, k: int) -> bool {
    &&& 1 <= k < t.len()
    &&& (t[k] == ',' || t[k] == ']')
    &&& scan_state(t.subrange(1, k)).depth == 0
    &&& !scan_state(t.subrange(1, k)).in_str
}

/// `k` is the first position that ends the first element.
pub open spec fn first_end(t: Seq<char>, k: int) -> bool {
    ends_first(t, k) && forall|j: int| 1 <= j < k ==> !ends_first(t, j)
}

/// The text of the first element of a JSON array text, `None` for an empty
/// array or text that is not an array.
pub open spec fn spec_first_element(t: Seq<char>) -> Option<Seq<char>> {
    if t.len() >= 2 && t[0] == '[' && exists|k: int| first_end(t, k) {
        let k = choose|k: int| first_end(t, k);
        if k == 1 {
            None
        } else {
            Some(t.subrange(1, k))
        }
    } else {
        None
    }
}

proof fn lemma_first_end_unique(t: Seq<char>, k: int)
    requires
        first_end(t, k),
    ensures
        (choose|m: int| first_end(t, m)) == k,
{
    let m = choose|m: int| first_end(t, m);
    assert(first_end(t, m));
    if m < k {
        assert(!ends_first(t, m));
    } else if m > k {
        assert(!ends_first(t, k));
    }
}

/// The first element of a JSON array text, as `spec_first_element` says.
pub fn first_element(t: &[char]) -> (r: Option<Vec<char>>)
    ensures
        match r {
            Some(e) => spec_first_element(t@) == Some(e@),
            None => spec_first_element(t@) is None,
        },
{
    if t.len() < 2 || t[0] != '[' {
        return None;
    }
    let mut depth: i128 = 0;
    let mut in_str = false;
    let mut esc = false;
    let mut k: usize = 1;
    assert(t@.subrange(1, 1) =~= Seq::<char>::empty());
    while k < t.len()
        invariant
            2 <= t.len(),
            t@[0] == '[',
            1 <= k <= t.len(),
            -(k as int) <= depth <= k as int,
            scan_state(t@.subrange(1, k as int)) == (ScanState {
                depth: depth as int,
                in_str,
                esc,
            }),
            forall|j: int| 1 <= j < k ==> !ends_first(t@, j),
        decreases t.len() - k,
    {
        let c = t[k];
        if (c == ',' || c == ']') && depth == 0 && !in_str {
            assert(first_end(t@, k as int));
            proof {
                lemma_first_end_unique(t@, k as int);
            }
            if k == 1 {
                return None;
            }
            return Some(slice_to_vec(t, 1, k));
        }
        assert(!ends_first(t@, k as int));
        assert(t@.subrange(1, k + 1).drop_last() == t@.subrange(1, k as int));
        assert(t@.subrange(1, k + 1).last() == c);
        if in_str {
            if esc {
                esc = false;
            } else if c == '\\' {
                esc = true;
            } else if c == '"' {
                in_str = false;
            }
        } else if c == '"' {
            in_str = true;
        } else if c == '[' || c == '{' {
            depth = depth + 1;
        } else if c == ']' || c == '}' {
            depth = depth - 1;
        }
        k += 1;
    }
    proof {
        if exists|m: int| first_end(t@, m) {
            let m = choose|m: int| first_end(t@, m);
            assert(ends_first(t@, m));
        }
    }
    None
}

// ---------------------------------------------------------------------------
// Quotes
// ---------------------------------------------------------------------------

/// `s` without its leading `"` characters.
pub open spec fn trim_start_quotes(s: Seq<char>) -> Seq<char>
    decreases s.len(),
{
    if s.len() > 0 && s[0] == '"' {
        trim_start_quotes(s.drop_first())
    } else {
        s
    }
}

/// `s` without its trailing `"` characters.
pub open spec fn trim_end_quotes(s: Seq<char>) -> Seq<char>
    decreases s.len(),
{
    if s.len() > 0 && s.last() == '"' {
        trim_end_quotes(s.drop_last())
    } else {
        s
    }
}

/// What `str::trim_matches('"')` gives back.
pub open spec fn spec_trim_quotes(s: Seq<char>) -> Seq<char> {
    trim_end_quotes(trim_start_quotes(s))
}

proof fn lemma_trim_start_quotes(s: Seq<char>, i: int)
    requires
        0 <= i <= s.len(),
        forall|k: int| 0 <= k < i ==> s[k] == '"',
        i == s.len() || s[i] != '"',
    ensures
        trim_start_quotes(s) == s.skip(i),
    decreases i,
{
    if i == 0 {
        assert(s.skip(0) == s);
    } else {
        lemma_trim_start_quotes(s.drop_first(), i - 1);
        assert(s.drop_first().skip(i - 1) == s.skip(i));
    }
}

proof fn lemma_trim_end_quotes(s: Seq<char>, j: int)
    requires
        0 <= j <= s.len(),
        forall|k: int| j <= k < s.len() ==> s[k] == '"',
        j == 0 || s[j - 1] != '"',
    ensures
        trim_end_quotes(s) == s.take(j),
    decreases s.len() - j,
{
    if j == s.len() {
        assert(s.take(j) == s);
    } else {
        lemma_trim_end_quotes(s.drop_last(), j);
        assert(s.drop_last().take(j) == s.take(j));
    }
}

/// `str::trim_matches('"')` on characters.
pub fn trim_quotes(s: &[char]) -> (r: Vec<char>)
    ensures
        r@ == spec_trim_quotes(s@),
{
    let mut i: usize = 0;
    while i < s.len() && s[i] == '"'
        invariant
            i <= s.len(),
            forall|k: int| 0 <= k < i ==> s@[k] == '"',
        decreases s.len() - i,
    {
        i += 1;
    }
    proof {
        lemma_trim_start_quotes(s@, i as int);
    }
    let mut j: usize = s.len();
    while j > i && s[j - 1] == '"'
        invariant
            i <= j <= s.len(),
            forall|k: int| j <= k < s.len() ==> s@[k] == '"',
        decreases j,
    {
        j -= 1;
    }
    proof {
        let t = s@.skip(i as int);
        lemma_trim_end_quotes(t, j - i);
        assert(t.take(j - i) == s@.subrange(i as int, j as int));
    }
    slice_to_vec(s, i, j)
}

// ---------------------------------------------------------------------------
// Extract values
// ---------------------------------------------------------------------------

/// The value that the path `path` extracts from the response body `body`:
/// the first match, written as compact JSON, without the quotes around it;
/// `None` when the body is not JSON, the path is not valid or nothing
/// matches, and for the paths on which the JSONPath crate would panic
/// (outside `jsonpath_supported`).
pub open spec fn spec_extract_value(body: Seq<char>, path: Seq<char>) -> Option<Seq<char>> {
    if !jsonpath_supported(path) {
        None
    } else {
        match jsonpath_selection(body, path) {
            Some(t) => match spec_first_element(t) {
                Some(e) => Some(spec_trim_quotes(e)),
                None => None,
            },
            None => None,
        }
    }
}

/// The value that `path` extracts from `body`, as `spec_extract_value` says.
pub fn extract_value(body: &str, path: &str) -> (r: Option<String>)
    ensures
        match r {
            Some(v) => spec_extract_value(body@, path@) == Some(v@),
            None => spec_extract_value(body@, path@) is None,
        },
{
    if !path_supported(path) {
        return None;
    }
    match select_as_text(body, path) {
        Some(t) => {
            let tc = chars_of(t.as_str());
            match first_element(tc.as_slice()) {
                Some(e) => {
                    let v = trim_quotes(e.as_slice());
                    Some(string_of(v.as_slice()))
                },
                None => None,
            }
        },
        None => None,
    }
}

/// The variable updates that the extract rules of a request make from its
/// response body, in the order of the rules.
pub open spec fn spec_extract_updates(body: Seq<char>, rules: Seq<Extract>) -> Seq<(Seq<char>, Seq<char>)>
    decreases rules.len(),
{
    if rules.len() == 0 {
        seq![]
    } else {
        let rest = spec_extract_updates(body, rules.drop_last());
        let x = rules.last();
        match spec_extract_value(body, x.jsonpath@) {
            Some(v) => rest.push((x.target_var_key@, v)),
            None => rest,
        }
    }
}

/// The variable updates (key, value) that the extract rules make from a
/// response body: one for each rule whose path extracts a value.
pub fn extract_updates(body: &str, rules: &[Extract]) -> (r: Vec<(String, String)>)
    ensures
        crate::model::pairs_view(r@) == spec_extract_updates(body@, rules@),
{
    let mut out: Vec<(String, String)> = Vec::new();
    let mut i: usize = 0;
    while i < rules.len()
        invariant
            i <= rules.len(),
            crate::model::pairs_view(out@) == spec_extract_updates(body@, rules@.take(i as int)),
        decreases rules.len() - i,
    {
        assert(rules@.take(i + 1).drop_last() == rules@.take(i as int));
        assert(rules@.take(i + 1).last() == rules@[i as int]);
        match extract_value(body, rules[i].jsonpath.as_str()) {
            Some(v) => {
                let pair = (rules[i].target_var_key.clone(), v);
                proof {
                    crate::model::lemma_pairs_view_push(out@, pair);
                }
                out.push(pair);
            },
            None => {},
        }
        i += 1;
    }
    assert(rules@.take(rules.len() as int) == rules@);
    out
}

/// A plain dotted key path `$.k1.k2...` (keys of letters, digits, `_`
/// and `-`, at most 1024 characters in all) extracts the first match that
/// the JSONPath crate selects, without its quotes.
pub proof fn law_dotted_path_extracts(body: Seq<char>, ks: Seq<Seq<char>>)
    requires
        forall|i: int, j: int|
            0 <= i < ks.len() && 0 <= j < ks[i].len() ==> #[trigger] crate::path_screen::plain_key_char(ks[i][j]),
        crate::path_screen::dotted_path(ks).len() <= crate::path_screen::MAX_PATH_LEN,
    ensures
        spec_extract_value(body, crate::path_screen::dotted_path(ks)) == match jsonpath_selection(
            body,
            crate::path_screen::dotted_path(ks),
        ) {
            Some(t) => match spec_first_element(t) {
                Some(e) => Some(spec_trim_quotes(e)),
                None => None,
            },
            None => None,
        },
{
    crate::path_screen::law_dotted_paths_supported(ks);
}

} // verus!
