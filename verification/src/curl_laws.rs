//! Reading back an exported cURL command: the words that an export writes
//! are the words that the reader splits the command into, and the request
//! it reads is the one that was exported.
use vstd::prelude::*;

use crate::curl_export::{auth_words, body_words, export_words, header_words, quoted, word_separator};
use crate::curl_import::{
    auth_scan, curl_parse_init, curl_run, curl_step, is_blank, spec_parse_curl, spec_tokenize,
    tokenizer_state,
    tokenizer_step, CurlParse, TokenizerState,
};
use crate::load_test::keyed_headers;
use crate::model::{no_auth, AuthType, AuthView, CurlImportView};
use crate::template::{placeholder, spec_apply_vars};
use crate::text::{
    is_first_index, spec_replace, spec_eq_ignore_ascii_case, spec_is_whitespace, spec_join, spec_split_once,
    spec_starts_with, spec_trim, spec_trim_end, spec_trim_start, uppercase_of, all_ascii,
    ascii_upper_char,
};

verus! {

// ---------------------------------------------------------------------------
// Splitting a joined command into words
// ---------------------------------------------------------------------------

/// The splitter run from `st` over `s`.
pub open spec fn run_from(st: TokenizerState, s: Seq<char>) -> TokenizerState
    decreases s.len(),
{
    if s.len() == 0 {
        st
    } else {
        tokenizer_step(run_from(st, s.drop_last()), s.last())
    }
}

/// The splitter between words, outside quotes, with the words `ts` read.
pub open spec fn clean_state(ts: Seq<Seq<char>>) -> TokenizerState {
    TokenizerState { tokens: ts, cur: seq![], in_single: false, in_double: false }
}

/// The splitter outside quotes, reading the word `c` after the words `ts`.
pub open spec fn holding(ts: Seq<Seq<char>>, c: Seq<char>) -> TokenizerState {
    TokenizerState { tokens: ts, cur: c, in_single: false, in_double: false }
}

/// A character that the splitter keeps as it is outside quotes.
pub open spec fn plain_char(c: char) -> bool {
    !is_blank(c) && c != '\'' && c != '"' && c != '\\'
}

/// Every character of `w` is plain.
pub open spec fn plain_text(w: Seq<char>) -> bool {
    forall|i: int| 0 <= i < w.len() ==> #[trigger] plain_char(w[i])
}

/// `q` holds no single quote.
pub open spec fn squote_free(q: Seq<char>) -> bool {
    forall|i: int| 0 <= i < q.len() ==> #[trigger] q[i] != '\''
}

/// A word that the splitter reads back: a non-empty plain word, or a
/// non-empty text without single quotes between single quotes.
pub open spec fn good_word(w: Seq<char>) -> bool {
    ||| w.len() > 0 && plain_text(w)
    ||| w.len() >= 3 && w[0] == '\'' && w.last() == '\'' && squote_free(w.subrange(1, w.len() - 1))
}

/// A word without its quotes.
pub open spec fn unquoted(w: Seq<char>) -> Seq<char> {
    if w.len() > 0 && w[0] == '\'' {
        w.subrange(1, w.len() - 1)
    } else {
        w
    }
}

proof fn lemma_state_is_run(s: Seq<char>)
    ensures
        tokenizer_state(s) == run_from(clean_state(seq![]), s),
    decreases s.len(),
{
    if s.len() > 0 {
        lemma_state_is_run(s.drop_last());
    }
}

proof fn lemma_run_concat(st: TokenizerState, a: Seq<char>, b: Seq<char>)
    ensures
        run_from(st, a + b) == run_from(run_from(st, a), b),
    decreases b.len(),
{
    if b.len() == 0 {
        assert(a + b =~= a);
    } else {
        assert((a + b).drop_last() =~= a + b.drop_last());
        assert((a + b).last() == b.last());
        lemma_run_concat(st, a, b.drop_last());
    }
}

proof fn lemma_run_single(st: TokenizerState, x: char)
    ensures
        run_from(st, seq![x]) == tokenizer_step(st, x),
{
    let s = seq![x];
    assert(s.drop_last() =~= Seq::<char>::empty());
    assert(s.last() == x);
    assert(run_from(st, s.drop_last()) == st);
    assert(run_from(st, s) == tokenizer_step(run_from(st, s.drop_last()), s.last()));
}

proof fn lemma_run_plain(ts: Seq<Seq<char>>, c: Seq<char>, w: Seq<char>)
    requires
        plain_text(w),
    ensures
        run_from(holding(ts, c), w) == holding(ts, c + w),
    decreases w.len(),
{
    if w.len() == 0 {
        assert(c + w =~= c);
    } else {
        let w0 = w.drop_last();
        assert forall|i: int| 0 <= i < w0.len() implies #[trigger] plain_char(w0[i]) by {
            assert(w0[i] == w[i]);
        }
        lemma_run_plain(ts, c, w0);
        assert(plain_char(w[w.len() - 1]));
        assert((c + w0).push(w.last()) =~= c + w);
    }
}

proof fn lemma_run_in_single(ts: Seq<Seq<char>>, c: Seq<char>, q: Seq<char>)
    requires
        squote_free(q),
    ensures
        run_from(TokenizerState { tokens: ts, cur: c, in_single: true, in_double: false }, q)
            == (TokenizerState { tokens: ts, cur: c + q, in_single: true, in_double: false }),
    decreases q.len(),
{
    if q.len() == 0 {
        assert(c + q =~= c);
    } else {
        let q0 = q.drop_last();
        assert forall|i: int| 0 <= i < q0.len() implies #[trigger] q0[i] != '\'' by {
            assert(q0[i] == q[i]);
        }
        lemma_run_in_single(ts, c, q0);
        assert(q[q.len() - 1] != '\'');
        assert((c + q0).push(q.last()) =~= c + q);
    }
}

proof fn lemma_run_word(ts: Seq<Seq<char>>, w: Seq<char>)
    requires
        good_word(w),
    ensures
        run_from(clean_state(ts), w) == holding(ts, unquoted(w)),
        unquoted(w).len() > 0,
{
    if w.len() > 0 && plain_text(w) {
        lemma_run_plain(ts, seq![], w);
        assert(seq![] + w =~= w);
        assert(plain_char(w[0]));
    } else {
        let q = w.subrange(1, w.len() - 1);
        assert(w =~= seq!['\''] + q + seq!['\'']);
        lemma_run_concat(clean_state(ts), seq!['\''] + q, seq!['\'']);
        lemma_run_concat(clean_state(ts), seq!['\''], q);
        lemma_run_single(clean_state(ts), '\'');
        let open = TokenizerState { tokens: ts, cur: seq![], in_single: true, in_double: false };
        assert(tokenizer_step(clean_state(ts), '\'') == open);
        lemma_run_in_single(ts, seq![], q);
        assert(seq![] + q =~= q);
        let inside = TokenizerState { tokens: ts, cur: q, in_single: true, in_double: false };
        lemma_run_single(inside, '\'');
        assert(tokenizer_step(inside, '\'') == holding(ts, q));
    }
}

proof fn lemma_run_separator(ts: Seq<Seq<char>>, c: Seq<char>)
    requires
        c.len() > 0,
    ensures
        run_from(holding(ts, c), word_separator()) == clean_state(ts.push(c)),
{
    reveal_strlit(" \\\n  ");
    let sep = word_separator();
    assert(sep =~= seq![' '] + seq!['\\'] + seq!['\n'] + seq![' '] + seq![' ']);
    let st0 = holding(ts, c);
    let st1 = clean_state(ts.push(c));
    lemma_run_concat(st0, seq![' '] + seq!['\\'] + seq!['\n'] + seq![' '], seq![' ']);
    lemma_run_concat(st0, seq![' '] + seq!['\\'] + seq!['\n'], seq![' ']);
    lemma_run_concat(st0, seq![' '] + seq!['\\'], seq!['\n']);
    lemma_run_concat(st0, seq![' '], seq!['\\']);
    lemma_run_single(st0, ' ');
    assert(tokenizer_step(st0, ' ') == st1);
    lemma_run_single(st1, '\\');
    assert(tokenizer_step(st1, '\\') == st1);
    lemma_run_single(st1, '\n');
    assert(tokenizer_step(st1, '\n') == st1);
    lemma_run_single(st1, ' ');
    assert(tokenizer_step(st1, ' ') == st1);
}

proof fn lemma_run_join(ws: Seq<Seq<char>>)
    requires
        ws.len() > 0,
        forall|i: int| 0 <= i < ws.len() ==> #[trigger] good_word(ws[i]),
    ensures
        run_from(clean_state(seq![]), spec_join(ws, word_separator())) == holding(
            ws.drop_last().map_values(|w: Seq<char>| unquoted(w)),
            unquoted(ws.last()),
        ),
    decreases ws.len(),
{
    let n = ws.len() - 1;
    assert(good_word(ws[n]));
    if ws.len() == 1 {
        lemma_run_word(seq![], ws[0]);
        assert(ws.drop_last().map_values(|w: Seq<char>| unquoted(w)) =~= Seq::<Seq<char>>::empty());
    } else {
        let init = ws.drop_last();
        assert forall|i: int| 0 <= i < init.len() implies #[trigger] good_word(init[i]) by {
            assert(init[i] == ws[i]);
        }
        lemma_run_join(init);
        let ts0 = init.drop_last().map_values(|w: Seq<char>| unquoted(w));
        let c0 = unquoted(init.last());
        assert(good_word(init[init.len() - 1]));
        lemma_run_word(seq![], init[init.len() - 1]);
        let sep = word_separator();
        let j0 = spec_join(init, sep);
        lemma_run_concat(clean_state(seq![]), j0 + sep, ws.last());
        lemma_run_concat(clean_state(seq![]), j0, sep);
        lemma_run_separator(ts0, c0);
        lemma_run_word(ts0.push(c0), ws.last());
        assert(ts0.push(c0) =~= init.map_values(|w: Seq<char>| unquoted(w)));
    }
}

/// Splitting words joined by backslash line continuations gives the words
/// back, without their quotes, when each is a non-empty plain word or a
/// non-empty quoted text without single quotes.
pub proof fn law_split_joined_words(ws: Seq<Seq<char>>)
    requires
        forall|i: int| 0 <= i < ws.len() ==> #[trigger] good_word(ws[i]),
    ensures
        spec_tokenize(spec_join(ws, word_separator())) == ws.map_values(|w: Seq<char>| unquoted(w)),
{
    let j = spec_join(ws, word_separator());
    lemma_state_is_run(j);
    if ws.len() == 0 {
        assert(j =~= Seq::<char>::empty());
        assert(ws.map_values(|w: Seq<char>| unquoted(w)) =~= Seq::<Seq<char>>::empty());
    } else {
        lemma_run_join(ws);
        let n = ws.len() - 1;
        assert(good_word(ws[n]));
        lemma_run_word(seq![], ws[n]);
        assert(ws.drop_last().map_values(|w: Seq<char>| unquoted(w)).push(unquoted(ws.last()))
            =~= ws.map_values(|w: Seq<char>| unquoted(w)));
    }
}

// ---------------------------------------------------------------------------
// Reading the header words
// ---------------------------------------------------------------------------

/// The text of a `-H` word: `key: value`.
pub open spec fn header_text(h: (Seq<char>, Seq<char>)) -> Seq<char> {
    h.0 + ": "@ + h.1
}

/// The `-H` words of headers that all have a key, unfilled.
pub open spec fn keyed_header_words(kh: Seq<(Seq<char>, Seq<char>)>) -> Seq<Seq<char>>
    decreases kh.len(),
{
    if kh.len() == 0 {
        seq![]
    } else {
        keyed_header_words(kh.drop_last()) + seq!["-H"@, quoted(header_text(kh.last()))]
    }
}

proof fn lemma_header_words_no_vars(hs: Seq<(Seq<char>, Seq<char>)>)
    ensures
        header_words(hs, seq![]) == keyed_header_words(keyed_headers(hs)),
    decreases hs.len(),
{
    if hs.len() > 0 {
        lemma_header_words_no_vars(hs.drop_last());
        let h = hs.last();
        assert(spec_apply_vars(h.1, seq![]) == h.1);
        if h.0.len() > 0 {
            let kh = keyed_headers(hs.drop_last());
            assert(kh.push(h).drop_last() =~= kh);
        }
    }
}

/// The words at `2 * j` and `2 * j + 1` of the header words of `kh` are
/// `-H` and the quoted header `j`.
pub open spec fn header_words_at(kh: Seq<(Seq<char>, Seq<char>)>, j: int) -> bool {
    keyed_header_words(kh)[2 * j] == "-H"@ && keyed_header_words(kh)[2 * j + 1] == quoted(
        header_text(kh[j]),
    )
}

proof fn lemma_keyed_header_words_index(kh: Seq<(Seq<char>, Seq<char>)>)
    ensures
        keyed_header_words(kh).len() == 2 * kh.len(),
        forall|j: int| 0 <= j < kh.len() ==> #[trigger] header_words_at(kh, j),
    decreases kh.len(),
{
    if kh.len() > 0 {
        let init = kh.drop_last();
        lemma_keyed_header_words_index(init);
        let wi = keyed_header_words(init);
        let tail = seq!["-H"@, quoted(header_text(kh.last()))];
        let w = keyed_header_words(kh);
        assert(w == wi + tail);
        assert forall|j: int| 0 <= j < kh.len() implies #[trigger] header_words_at(kh, j) by {
            if j < init.len() {
                assert(init[j] == kh[j]);
                assert(header_words_at(init, j));
                assert(w[2 * j] == wi[2 * j]);
                assert(w[2 * j + 1] == wi[2 * j + 1]);
            } else {
                assert(w[2 * j] == tail[0]);
                assert(w[2 * j + 1] == tail[1]);
            }
        }
    }
}

/// A header that the reader reads back as it was written: a key without
/// `:` that is not `Authorization` (in any case), key and value without
/// surrounding whitespace or single quotes.
pub open spec fn header_round_trips(h: (Seq<char>, Seq<char>)) -> bool {
    &&& !h.0.contains(':')
    &&& spec_trim(h.0) == h.0
    &&& spec_trim(h.1) == h.1
    &&& squote_free(h.0)
    &&& squote_free(h.1)
    &&& !spec_eq_ignore_ascii_case(h.0, "authorization"@)
}

proof fn lemma_split_header_text(h: (Seq<char>, Seq<char>))
    requires
        !h.0.contains(':'),
    ensures
        spec_split_once(header_text(h), ':') == Some((h.0, " "@ + h.1)),
{
    reveal_strlit(": ");
    reveal_strlit(" ");
    let t = header_text(h);
    let n = h.0.len() as int;
    assert(t[n] == ':');
    assert forall|j: int| 0 <= j < n implies t[j] != ':' by {
        assert(t[j] == h.0[j]);
        if t[j] == ':' {
            assert(h.0.contains(':'));
        }
    }
    assert(is_first_index(t, ':', n));
    let i = choose|i: int| is_first_index(t, ':', i);
    assert(i == n) by {
        if i < n {
            assert(t[i] != ':');
        } else if i > n {
            assert(t[n] != ':');
        }
    }
    assert(t.take(n) =~= h.0);
    assert(t.skip(n + 1) =~= " "@ + h.1);
}

proof fn lemma_trim_after_space(v: Seq<char>)
    requires
        spec_trim(v) == v,
    ensures
        spec_trim(" "@ + v) == v,
{
    reveal_strlit(" ");
    let s = " "@ + v;
    assert(spec_is_whitespace(s[0]));
    assert(s.drop_first() =~= v);
    assert(spec_trim_start(s) == spec_trim_start(v));
}

/// The header words in `t` from `i` on, which hold the headers `kh`, read
/// into `st`.
proof fn lemma_run_headers(
    t: Seq<Seq<char>>,
    i: int,
    kh: Seq<(Seq<char>, Seq<char>)>,
    j: int,
    st: CurlParse,
)
    requires
        0 <= i,
        0 <= j <= kh.len(),
        i + 2 * kh.len() <= t.len(),
        forall|m: int|
            0 <= m < kh.len() ==> #[trigger] t[i + 2 * m] == "-H"@ && t[i + 2 * m + 1]
                == header_text(kh[m]),
        forall|m: int| 0 <= m < kh.len() ==> #[trigger] header_round_trips(kh[m]),
    ensures
        curl_run(t, i + 2 * j, st) == curl_run(
            t,
            i + 2 * kh.len(),
            CurlParse { headers: st.headers + kh.subrange(j, kh.len() as int), ..st },
        ),
    decreases kh.len() - j,
{
    if j == kh.len() {
        assert(st.headers + kh.subrange(j, kh.len() as int) =~= st.headers);
    } else {
        reveal_strlit("-H");
        reveal_strlit("curl");
        assert("-H"@.len() == 2 && "curl"@.len() == 4);
        let p = i + 2 * j;
        assert(t[p] == "-H"@);
        assert(t[p + 1] == header_text(kh[j]));
        assert(header_round_trips(kh[j]));
        lemma_split_header_text(kh[j]);
        lemma_trim_after_space(kh[j].1);
        let st2 = CurlParse { headers: st.headers.push(kh[j]), ..st };
        assert(curl_step(t, p, st) == (p + 2, st2, false));
        lemma_run_headers(t, i, kh, j + 1, st2);
        assert(st2.headers + kh.subrange(j + 1, kh.len() as int) =~= st.headers + kh.subrange(
            j,
            kh.len() as int,
        ));
        assert(p + 2 == i + 2 * (j + 1));
    }
}

proof fn lemma_scan_keeps(hs: Seq<(Seq<char>, Seq<char>)>, a: AuthView)
    requires
        forall|m: int| 0 <= m < hs.len() ==> !spec_eq_ignore_ascii_case(#[trigger] hs[m].0, "authorization"@),
    ensures
        auth_scan(hs, a) == (hs, a),
    decreases hs.len(),
{
    if hs.len() > 0 {
        let init = hs.drop_last();
        assert forall|m: int| 0 <= m < init.len() implies !spec_eq_ignore_ascii_case(
            #[trigger] init[m].0,
            "authorization"@,
        ) by {
            assert(init[m] == hs[m]);
        }
        lemma_scan_keeps(init, a);
        assert(!spec_eq_ignore_ascii_case(hs[hs.len() - 1].0, "authorization"@));
        assert(init.push(hs.last()) =~= hs);
    }
}

// ---------------------------------------------------------------------------
// The words of an export
// ---------------------------------------------------------------------------

/// The methods that an export writes as a plain word.
pub open spec fn known_method(m: Seq<char>) -> bool {
    ||| m == "GET"@
    ||| m == "POST"@
    ||| m == "PUT"@
    ||| m == "PATCH"@
    ||| m == "DELETE"@
    ||| m == "HEAD"@
}

proof fn lemma_plain_words(m: Seq<char>)
    requires
        known_method(m),
    ensures
        good_word("curl"@) && unquoted("curl"@) == "curl"@,
        good_word("-X"@) && unquoted("-X"@) == "-X"@,
        good_word("-H"@) && unquoted("-H"@) == "-H"@,
        good_word("--data-raw"@) && unquoted("--data-raw"@) == "--data-raw"@,
        good_word(m) && unquoted(m) == m,
{
    reveal_strlit("curl");
    reveal_strlit("-X");
    reveal_strlit("-H");
    reveal_strlit("--data-raw");
    reveal_strlit("GET");
    reveal_strlit("POST");
    reveal_strlit("PUT");
    reveal_strlit("PATCH");
    reveal_strlit("DELETE");
    reveal_strlit("HEAD");
    assert(plain_text("curl"@));
    assert(plain_text("-X"@));
    assert(plain_text("-H"@));
    assert(plain_text("--data-raw"@));
    assert(plain_text(m));
}

proof fn lemma_quoted_word(x: Seq<char>)
    requires
        x.len() > 0,
        squote_free(x),
    ensures
        good_word(quoted(x)),
        unquoted(quoted(x)) == x,
{
    reveal_strlit("'");
    let w = quoted(x);
    assert(w.subrange(1, w.len() - 1) =~= x);
}

proof fn lemma_header_text_ok(h: (Seq<char>, Seq<char>))
    requires
        header_round_trips(h),
        h.0.len() > 0,
    ensures
        header_text(h).len() > 0,
        squote_free(header_text(h)),
{
    reveal_strlit(": ");
    let t = header_text(h);
    assert forall|i: int| 0 <= i < t.len() implies #[trigger] t[i] != '\'' by {
        if i < h.0.len() {
            assert(t[i] == h.0[i]);
        } else if i >= h.0.len() + 2 {
            assert(t[i] == h.1[i - h.0.len() - 2]);
        }
    }
}

proof fn lemma_keyed_ok(hs: Seq<(Seq<char>, Seq<char>)>)
    requires
        forall|i: int| 0 <= i < hs.len() && (#[trigger] hs[i]).0.len() > 0 ==> header_round_trips(hs[i]),
    ensures
        forall|j: int|
            0 <= j < keyed_headers(hs).len() ==> (#[trigger] keyed_headers(hs)[j]).0.len() > 0
                && header_round_trips(keyed_headers(hs)[j]),
    decreases hs.len(),
{
    if hs.len() > 0 {
        let init = hs.drop_last();
        assert forall|i: int| 0 <= i < init.len() && (#[trigger] init[i]).0.len() > 0 implies header_round_trips(init[i]) by {
            assert(init[i] == hs[i]);
        }
        lemma_keyed_ok(init);
        let n = hs.len() - 1;
        let ki = keyed_headers(init);
        let k = keyed_headers(hs);
        if hs[n].0.len() > 0 {
            assert(header_round_trips(hs[n]));
            assert(k == ki.push(hs[n]));
            assert forall|j: int| 0 <= j < k.len() implies (#[trigger] k[j]).0.len() > 0
                && header_round_trips(k[j]) by {
                if j < ki.len() {
                    assert(k[j] == ki[j]);
                }
            }
        } else {
            assert(k == ki);
        }
    }
}

/// What the reader makes of the cURL command that an export writes for a
/// request without variables.
pub open spec fn read_back(
    m: Seq<char>,
    u: Seq<char>,
    hs: Seq<(Seq<char>, Seq<char>)>,
    a: AuthView,
    bt: Seq<char>,
    b: Seq<char>,
) -> CurlImportView {
    spec_parse_curl(spec_join(export_words(m, u, hs, a, bt, b, seq![]), word_separator()))
}

proof fn lemma_reveal_flags()
    ensures
        "curl"@ =~= seq!['c', 'u', 'r', 'l'],
        "-H"@ =~= seq!['-', 'H'],
        "--header"@.len() == 8,
        "-d"@ =~= seq!['-', 'd'],
        "--data"@.len() == 6,
        "--data-raw"@.len() == 10,
        "--data-binary"@.len() == 13,
        "--json"@.len() == 6,
        "-u"@ =~= seq!['-', 'u'],
        "--user"@.len() == 6,
        "-X"@ =~= seq!['-', 'X'],
        "--request"@.len() == 9,
        "--url"@.len() == 5,
        "--url"@[0] == '-',
        "-F"@ =~= seq!['-', 'F'],
        "--form"@.len() == 6,
        "-"@ =~= seq!['-'],
        "--data-raw"@[0] == '-',
        "--header"@[0] == '-',
        "--data"@[0] == '-',
        "--data-binary"@[0] == '-',
        "--json"@[0] == '-',
        "--user"@[0] == '-',
        "--request"@[0] == '-',
        "--form"@[0] == '-',
{
    reveal_strlit("curl");
    reveal_strlit("-H");
    reveal_strlit("--header");
    reveal_strlit("-d");
    reveal_strlit("--data");
    reveal_strlit("--data-raw");
    reveal_strlit("--data-binary");
    reveal_strlit("--json");
    reveal_strlit("-u");
    reveal_strlit("--user");
    reveal_strlit("-X");
    reveal_strlit("--request");
    reveal_strlit("--url");
    reveal_strlit("-F");
    reveal_strlit("--form");
    reveal_strlit("-");
}

proof fn lemma_known_method_upper(m: Seq<char>)
    requires
        known_method(m),
    ensures
        uppercase_of(m) == m,
{
    reveal_strlit("GET");
    reveal_strlit("POST");
    reveal_strlit("PUT");
    reveal_strlit("PATCH");
    reveal_strlit("DELETE");
    reveal_strlit("HEAD");
    assert forall|i: int| 0 <= i < m.len() implies 'A' <= #[trigger] m[i] && m[i] <= 'Z' by {}
    assert(all_ascii(m));
    assert(m.map_values(|c: char| ascii_upper_char(c)) =~= m);
}

proof fn lemma_url_step(t: Seq<Seq<char>>, p: int, st: CurlParse, u: Seq<char>)
    requires
        0 <= p < t.len(),
        t[p] == u,
        st.url.len() == 0,
        spec_starts_with(u, "http://"@) || spec_starts_with(u, "https://"@),
    ensures
        curl_step(t, p, st) == (p + 1, CurlParse { url: u, ..st }, false),
{
    lemma_reveal_flags();
    reveal_strlit("http://");
    reveal_strlit("https://");
    assert(u.len() >= 7 && u[0] == 'h') by {
        if spec_starts_with(u, "http://"@) {
            assert(u.take(7)[0] == u[0]);
        } else {
            assert(u.take(8)[0] == u[0]);
        }
    }
    assert(u != "curl"@);
    assert(!spec_starts_with(u, "-"@)) by {
        assert(u.take(1)[0] == 'h');
    }
    assert(u != "-H"@ && u != "--header"@ && u != "-d"@ && u != "--data"@ && u != "--data-raw"@);
    assert(u != "--data-binary"@ && u != "--json"@ && u != "-u"@ && u != "--user"@ && u != "-X"@);
    assert(u != "--request"@ && u != "--url"@ && u != "-F"@ && u != "--form"@);
}

/// Reading back the cURL command that an export writes for a request
/// without variables gives the request back: its method, URL, headers with
/// a key (in order), body, no authentication and no warnings. This holds
/// for a known method (`GET` only without a body), an `http` or `https` URL, headers whose keys have no `:` and are
/// not `Authorization`, keys and values without surrounding whitespace, no
/// single quote in any text, no authentication and a body that is not a
/// form.
#[verifier::rlimit(100)]
pub proof fn law_curl_export_read_back(
    m: Seq<char>,
    u: Seq<char>,
    hs: Seq<(Seq<char>, Seq<char>)>,
    a: AuthView,
    bt: Seq<char>,
    b: Seq<char>,
)
    requires
        known_method(m),
        m != "GET"@ || b.len() == 0,
        spec_starts_with(u, "http://"@) || spec_starts_with(u, "https://"@),
        squote_free(u),
        forall|i: int|
            0 <= i < hs.len() && (#[trigger] hs[i]).0.len() > 0 ==> header_round_trips(hs[i]),
        a.type_ == AuthType::NoAuth,
        bt != "form"@ && bt != "form-data"@,
        squote_free(b),
    ensures
        read_back(m, u, hs, a, bt, b).method == m,
        read_back(m, u, hs, a, bt, b).url == u,
        read_back(m, u, hs, a, bt, b).headers == keyed_headers(hs),
        read_back(m, u, hs, a, bt, b).body == b,
        read_back(m, u, hs, a, bt, b).auth == no_auth(),
        read_back(m, u, hs, a, bt, b).warnings == Seq::<Seq<char>>::empty(),
{
    lemma_reveal_flags();
    reveal_strlit("http://");
    reveal_strlit("https://");
    reveal_strlit("GET");
    lemma_known_method_upper(m);
    let kh = keyed_headers(hs);
    let n = kh.len() as int;
    lemma_keyed_ok(hs);
    lemma_header_words_no_vars(hs);
    lemma_keyed_header_words_index(kh);
    lemma_plain_words(m);
    assert(u.len() >= 7 && u[0] == 'h') by {
        if spec_starts_with(u, "http://"@) {
            assert(u.take(7)[0] == u[0]);
        } else {
            assert(u.take(8)[0] == u[0]);
        }
    }
    lemma_quoted_word(u);
    assert(spec_apply_vars(u, seq![]) == u);
    assert(spec_apply_vars(b, seq![]) == b);
    let khw = keyed_header_words(kh);
    let w1 = if m != "GET"@ {
        seq!["curl"@, "-X"@, uppercase_of(m)]
    } else {
        seq!["curl"@]
    };
    let dw = if b.len() > 0 {
        seq!["--data-raw"@, quoted(b)]
    } else {
        Seq::<Seq<char>>::empty()
    };
    let ws = w1.push(quoted(u)) + khw + dw;
    assert(auth_words(a, seq![]) =~= Seq::<Seq<char>>::empty());
    if b.len() > 0 {
        assert(body_words(bt, b) == dw);
    }
    assert(export_words(m, u, hs, a, bt, b, seq![]) =~= ws);
    let p = w1.len() as int;
    // every word reads back
    assert forall|i: int| 0 <= i < ws.len() implies #[trigger] good_word(ws[i]) && (i < p ==> unquoted(ws[i]) == ws[i]) by {
        if i < p {
        } else if i == p {
        } else if i < p + 1 + 2 * n {
            let j = (i - p - 1) / 2;
            assert(header_words_at(kh, j));
            assert(ws[i] == khw[i - p - 1]);
            if (i - p - 1) % 2 == 0 {
                assert(i - p - 1 == 2 * j);
            } else {
                assert(i - p - 1 == 2 * j + 1);
                lemma_header_text_ok(kh[j]);
                lemma_quoted_word(header_text(kh[j]));
            }
        } else {
            assert(b.len() > 0);
            lemma_quoted_word(b);
        }
    }
    law_split_joined_words(ws);
    let t = ws.map_values(|w: Seq<char>| unquoted(w));
    assert(t.len() == ws.len());
    assert(t[p] == u);
    assert forall|j: int| 0 <= j < n implies #[trigger] t[p + 1 + 2 * j] == "-H"@ && t[p + 1 + 2
        * j + 1] == header_text(kh[j]) by {
        assert(header_words_at(kh, j));
        assert(ws[p + 1 + 2 * j] == khw[2 * j]);
        assert(ws[p + 1 + 2 * j + 1] == khw[2 * j + 1]);
        lemma_header_text_ok(kh[j]);
        lemma_quoted_word(header_text(kh[j]));
    }
    let init = curl_parse_init();
    assert(t[0] == "curl"@);
    assert(curl_step(t, 0, init) == (1int, init, false));
    let stb = if m != "GET"@ {
        CurlParse { method: m, ..init }
    } else {
        init
    };
    if m != "GET"@ {
        assert(t[1] == "-X"@);
        assert(t[2] == m);
        assert(curl_step(t, 1, init) == (3int, stb, false));
        assert(curl_run(t, 1, init) == curl_run(t, 3, stb));
    }
    assert(curl_run(t, 0, init) == curl_run(t, p, stb));
    let st2 = CurlParse { url: u, ..stb };
    lemma_url_step(t, p, stb, u);
    assert(curl_run(t, p, stb) == curl_run(t, p + 1, st2));
    assert forall|m2: int| 0 <= m2 < kh.len() implies #[trigger] header_round_trips(kh[m2]) by {
        assert(kh[m2].0.len() > 0);
    }
    lemma_run_headers(t, p + 1, kh, 0, st2);
    let st3 = CurlParse { headers: st2.headers + kh.subrange(0, n), ..st2 };
    assert(st2.headers + kh.subrange(0, n) =~= kh);
    let q = p + 1 + 2 * n;
    let fin = if b.len() > 0 {
        CurlParse { body_parts: st3.body_parts.push(b), body_type: "raw"@, ..st3 }
    } else {
        st3
    };
    if b.len() > 0 {
        assert(t.len() == q + 2);
        assert(t[q] == "--data-raw"@);
        assert(t[q + 1] == b);
        assert(curl_step(t, q, st3) == (q + 2, fin, false));
        assert(curl_run(t, q, st3) == curl_run(t, q + 2, fin));
    } else {
        assert(t.len() == q);
    }
    assert(curl_run(t, 0, init) == fin);
    assert forall|m2: int| 0 <= m2 < kh.len() implies !spec_eq_ignore_ascii_case(
        #[trigger] kh[m2].0,
        "authorization"@,
    ) by {
        assert(header_round_trips(kh[m2]));
    }
    lemma_scan_keeps(kh, fin.auth);
    if b.len() > 0 {
        assert(spec_join(seq![b], "\n"@) == b);
    }
}

// ---------------------------------------------------------------------------
// The exported body
// ---------------------------------------------------------------------------

/// A non-empty body that is not a form is exported as its last two words:
/// `--data-raw` and the body with the project's variables filled in,
/// between single quotes.
pub proof fn law_export_body_filled(
    m: Seq<char>,
    u: Seq<char>,
    hs: Seq<(Seq<char>, Seq<char>)>,
    a: AuthView,
    bt: Seq<char>,
    b: Seq<char>,
    vars: Seq<(Seq<char>, Seq<char>)>,
)
    requires
        b.len() > 0,
        bt != "form"@,
        bt != "form-data"@,
    ensures
        export_words(m, u, hs, a, bt, b, vars).len() >= 2,
        export_words(m, u, hs, a, bt, b, vars)[export_words(m, u, hs, a, bt, b, vars).len() - 2]
            == "--data-raw"@,
        export_words(m, u, hs, a, bt, b, vars).last() == quoted(spec_apply_vars(b, vars)),
{
    let w = export_words(m, u, hs, a, bt, b, vars);
    let fb = spec_apply_vars(b, vars);
    assert(body_words(bt, fb) == seq!["--data-raw"@, quoted(fb)]);
}

/// With one variable `k` set to `v`, a body that is just the placeholder
/// of `k` (and not a form) is exported as `v` between single quotes: the
/// placeholder does not stay in the command.
pub proof fn law_export_body_placeholder(
    m: Seq<char>,
    u: Seq<char>,
    hs: Seq<(Seq<char>, Seq<char>)>,
    a: AuthView,
    bt: Seq<char>,
    k: Seq<char>,
    v: Seq<char>,
)
    requires
        bt != "form"@,
        bt != "form-data"@,
    ensures
        export_words(m, u, hs, a, bt, placeholder(k), seq![(k, v)]).last() == quoted(v),
{
    let ph = placeholder(k);
    law_export_body_filled(m, u, hs, a, bt, ph, seq![(k, v)]);
    let vars = seq![(k, v)];
    assert(vars.drop_last() =~= Seq::<(Seq<char>, Seq<char>)>::empty());
    assert(spec_apply_vars(ph, vars.drop_last()) == ph);
    assert(ph.take(ph.len() as int) =~= ph);
    assert(ph.skip(ph.len() as int) =~= Seq::<char>::empty());
    assert(spec_replace(Seq::<char>::empty(), ph, v) == Seq::<char>::empty());
    assert(spec_replace(ph, ph, v) == v + spec_replace(ph.skip(ph.len() as int), ph, v));
    assert(v + Seq::<char>::empty() =~= v);
    assert(spec_apply_vars(ph, vars) == v);
}

// ---------------------------------------------------------------------------
// Data flags
// ---------------------------------------------------------------------------

proof fn lemma_run_space(ts: Seq<Seq<char>>, c: Seq<char>)
    requires
        c.len() > 0,
    ensures
        run_from(holding(ts, c), " "@) == clean_state(ts.push(c)),
{
    reveal_strlit(" ");
    assert(" "@ =~= seq![' ']);
    lemma_run_single(holding(ts, c), ' ');
}

proof fn lemma_run_join_space(ws: Seq<Seq<char>>)
    requires
        ws.len() > 0,
        forall|i: int| 0 <= i < ws.len() ==> #[trigger] good_word(ws[i]),
    ensures
        run_from(clean_state(seq![]), spec_join(ws, " "@)) == holding(
            ws.drop_last().map_values(|w: Seq<char>| unquoted(w)),
            unquoted(ws.last()),
        ),
    decreases ws.len(),
{
    let n = ws.len() - 1;
    assert(good_word(ws[n]));
    if ws.len() == 1 {
        lemma_run_word(seq![], ws[0]);
        assert(ws.drop_last().map_values(|w: Seq<char>| unquoted(w)) =~= Seq::<Seq<char>>::empty());
    } else {
        let init = ws.drop_last();
        assert forall|i: int| 0 <= i < init.len() implies #[trigger] good_word(init[i]) by {
            assert(init[i] == ws[i]);
        }
        lemma_run_join_space(init);
        let ts0 = init.drop_last().map_values(|w: Seq<char>| unquoted(w));
        let c0 = unquoted(init.last());
        assert(good_word(init[init.len() - 1]));
        lemma_run_word(seq![], init[init.len() - 1]);
        let j0 = spec_join(init, " "@);
        lemma_run_concat(clean_state(seq![]), j0 + " "@, ws.last());
        lemma_run_concat(clean_state(seq![]), j0, " "@);
        lemma_run_space(ts0, c0);
        lemma_run_word(ts0.push(c0), ws.last());
        assert(ts0.push(c0) =~= init.map_values(|w: Seq<char>| unquoted(w)));
    }
}

/// One of the four flags `-d`, `--data`, `--data-raw`, `--data-binary`.
pub open spec fn raw_data_flag(f: Seq<char>) -> bool {
    f == "-d"@ || f == "--data"@ || f == "--data-raw"@ || f == "--data-binary"@
}

proof fn lemma_data_flag_step(t: Seq<Seq<char>>, i: int, st: CurlParse, f: Seq<char>)
    requires
        raw_data_flag(f),
        0 <= i,
        i + 1 < t.len(),
        t[i] == f,
    ensures
        curl_step(t, i, st) == (
            i + 2,
            CurlParse { body_parts: st.body_parts.push(t[i + 1]), body_type: "raw"@, ..st },
            false,
        ),
{
    lemma_reveal_flags();
    reveal_strlit("-d");
    reveal_strlit("--data");
    reveal_strlit("--data-raw");
    reveal_strlit("--data-binary");
    reveal_strlit("--json");
    assert("--data"@ =~= seq!['-', '-', 'd', 'a', 't', 'a']);
    assert("--json"@ =~= seq!['-', '-', 'j', 's', 'o', 'n']);
    assert("-d"@[1] == 'd' && "-H"@[1] == 'H');
    assert(f.len() != 4 || f != "curl"@);
    assert(f != "curl"@);
    assert(f != "-H"@);
    assert(f != "--header"@);
    assert(f != "--json"@);
}

/// `curl URL f V`, for each of the data flags `-d`, `--data`, `--data-raw`
/// and `--data-binary` and an `http` or `https` URL without quotes or
/// blanks, reads as a raw body `V` (its quotes removed), sent with `POST`
/// to that URL, with no warning and no header.
pub proof fn law_data_flags_read_body(u: Seq<char>, f: Seq<char>, v: Seq<char>)
    requires
        f == "-d"@ || f == "--data"@ || f == "--data-raw"@ || f == "--data-binary"@,
        spec_starts_with(u, "http://"@) || spec_starts_with(u, "https://"@),
        plain_text(u),
        good_word(v),
    ensures
        spec_parse_curl(spec_join(seq!["curl"@, u, f, v], " "@)).body == unquoted(v),
        spec_parse_curl(spec_join(seq!["curl"@, u, f, v], " "@)).body_type == "raw"@,
        spec_parse_curl(spec_join(seq!["curl"@, u, f, v], " "@)).method == "POST"@,
        spec_parse_curl(spec_join(seq!["curl"@, u, f, v], " "@)).url == u,
        spec_parse_curl(spec_join(seq!["curl"@, u, f, v], " "@)).warnings == Seq::<Seq<char>>::empty(),
        spec_parse_curl(spec_join(seq!["curl"@, u, f, v], " "@)).headers == Seq::<
            (Seq<char>, Seq<char>),
        >::empty(),
{
    lemma_reveal_flags();
    reveal_strlit("http://");
    reveal_strlit("https://");
    reveal_strlit("-d");
    reveal_strlit("--data");
    reveal_strlit("--data-raw");
    reveal_strlit("--data-binary");
    reveal_strlit("GET");
    reveal_strlit("POST");
    assert(u.len() >= 7 && u[0] == 'h') by {
        if spec_starts_with(u, "http://"@) {
            assert(u.take(7)[0] == u[0]);
        } else {
            assert(u.take(8)[0] == u[0]);
        }
    }
    assert(plain_text(f));
    let ws = seq!["curl"@, u, f, v];
    lemma_plain_words("GET"@);
    assert forall|i: int| 0 <= i < ws.len() implies #[trigger] good_word(ws[i]) by {}
    lemma_run_join_space(ws);
    lemma_run_word(seq![], v);
    let input = spec_join(ws, " "@);
    lemma_state_is_run(input);
    let t = ws.map_values(|w: Seq<char>| unquoted(w));
    assert(ws.drop_last().map_values(|w: Seq<char>| unquoted(w)).push(unquoted(ws.last())) =~= t);
    assert(spec_tokenize(input) == t);
    assert(t[0] == "curl"@);
    assert(t[1] == u);
    assert(t[2] == f);
    let bv = unquoted(v);
    assert(t[3] == bv);
    let init = curl_parse_init();
    assert(curl_step(t, 0, init) == (1int, init, false));
    lemma_url_step(t, 1, init, u);
    let st2 = CurlParse { url: u, ..init };
    lemma_data_flag_step(t, 2, st2, f);
    let st3 = CurlParse { body_parts: st2.body_parts.push(bv), body_type: "raw"@, ..st2 };
    assert(curl_run(t, 4, st3) == st3);
    assert(curl_run(t, 2, st2) == st3);
    assert(curl_run(t, 1, init) == curl_run(t, 2, st2));
    assert(curl_run(t, 0, init) == st3);
    assert(st3.body_parts =~= seq![bv]);
    assert(spec_join(st3.body_parts, "\n"@) == bv);
    assert(auth_scan(st3.headers, st3.auth) == (st3.headers, st3.auth));
}

} // verus!
