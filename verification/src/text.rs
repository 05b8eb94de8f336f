//! Character-level helpers on strings, each proved against a spec over `Seq<char>`.
use vstd::prelude::*;

verus! {

// ---------------------------------------------------------------------------
// Specs
// ---------------------------------------------------------------------------

/// `p` is a prefix of `s`.
pub open spec fn spec_starts_with(s: Seq<char>, p: Seq<char>) -> bool {
    p.len() <= s.len() && s.take(p.len() as int) == p
}

/// What `str::strip_prefix` gives back.
pub open spec fn spec_strip_prefix(s: Seq<char>, p: Seq<char>) -> Option<Seq<char>> {
    if spec_starts_with(s, p) {
        Some(s.skip(p.len() as int))
    } else {
        None
    }
}

/// `i` is the position of the first occurrence of `c` in `s`.
pub open spec fn is_first_index(s: Seq<char>, c: char, i: int) -> bool {
    &&& 0 <= i < s.len()
    &&& s[i] == c
    &&& forall|j: int| 0 <= j < i ==> s[j] != c
}

/// What `str::split_once(c)` gives back: the parts before and after the
/// first occurrence of `c`, or `None` when `c` does not occur.
pub open spec fn spec_split_once(s: Seq<char>, c: char) -> Option<(Seq<char>, Seq<char>)> {
    if exists|i: int| is_first_index(s, c, i) {
        let i = choose|i: int| is_first_index(s, c, i);
        Some((s.take(i), s.skip(i + 1)))
    } else {
        None
    }
}

/// Unicode `White_Space`, the property that `char::is_whitespace` tests.
pub open spec fn spec_is_whitespace(c: char) -> bool {
    ||| c == ' '
    ||| ('\t' <= c && c <= '\r')
    ||| c == '\u{85}'
    ||| c == '\u{A0}'
    ||| c == '\u{1680}'
    ||| ('\u{2000}' <= c && c <= '\u{200A}')
    ||| c == '\u{2028}'
    ||| c == '\u{2029}'
    ||| c == '\u{202F}'
    ||| c == '\u{205F}'
    ||| c == '\u{3000}'
}

/// `s` without its leading whitespace.
pub open spec fn spec_trim_start(s: Seq<char>) -> Seq<char>
    decreases s.len(),
{
    if s.len() > 0 && spec_is_whitespace(s[0]) {
        spec_trim_start(s.drop_first())
    } else {
        s
    }
}

/// `s` without its trailing whitespace.
pub open spec fn spec_trim_end(s: Seq<char>) -> Seq<char>
    decreases s.len(),
{
    if s.len() > 0 && spec_is_whitespace(s.last()) {
        spec_trim_end(s.drop_last())
    } else {
        s
    }
}

/// What `str::trim` gives back.
pub open spec fn spec_trim(s: Seq<char>) -> Seq<char> {
    spec_trim_end(spec_trim_start(s))
}

/// The code of `c` with `A..=Z` mapped to `a..=z`.
pub open spec fn ascii_lower_code(c: char) -> u32 {
    if 'A' <= c && c <= 'Z' {
        (c as u32 + 32) as u32
    } else {
        c as u32
    }
}

/// What `str::eq_ignore_ascii_case` decides.
pub open spec fn spec_eq_ignore_ascii_case(a: Seq<char>, b: Seq<char>) -> bool {
    a.len() == b.len() && forall|i: int|
        0 <= i < a.len() ==> #[trigger] ascii_lower_code(a[i]) == ascii_lower_code(b[i])
}

/// Every non-overlapping occurrence of `pat` in `s`, scanning from the left,
/// replaced by `rep`: what `str::replace` gives back for a non-empty pattern.
pub open spec fn spec_replace(s: Seq<char>, pat: Seq<char>, rep: Seq<char>) -> Seq<char>
    recommends
        pat.len() > 0,
    decreases s.len(),
{
    if pat.len() == 0 || s.len() < pat.len() {
        s
    } else if s.take(pat.len() as int) == pat {
        rep + spec_replace(s.skip(pat.len() as int), pat, rep)
    } else {
        seq![s[0]] + spec_replace(s.drop_first(), pat, rep)
    }
}

/// A line as `str::lines` hands it out: without its `\r` when the line
/// ended in `\r\n`.
pub open spec fn strip_cr(l: Seq<char>) -> Seq<char> {
    if l.len() > 0 && l.last() == '\r' {
        l.drop_last()
    } else {
        l
    }
}

/// The finished lines of `s` and the unfinished last line, after reading `s`
/// from left to right.
pub open spec fn lines_state(s: Seq<char>) -> (Seq<Seq<char>>, Seq<char>)
    decreases s.len(),
{
    if s.len() == 0 {
        (seq![], seq![])
    } else {
        let (done, cur) = lines_state(s.drop_last());
        if s.last() == '\n' {
            (done.push(strip_cr(cur)), seq![])
        } else {
            (done, cur.push(s.last()))
        }
    }
}

/// What `str::lines` yields: lines split at `\n`, a `\r` before the `\n`
/// dropped, and no empty line after a final `\n`.
pub open spec fn spec_lines(s: Seq<char>) -> Seq<Seq<char>> {
    let (done, cur) = lines_state(s);
    if cur.len() > 0 {
        done.push(cur)
    } else {
        done
    }
}

/// `parts` joined with `sep` between each two of them.
pub open spec fn spec_join(parts: Seq<Seq<char>>, sep: Seq<char>) -> Seq<char>
    decreases parts.len(),
{
    if parts.len() == 0 {
        seq![]
    } else if parts.len() == 1 {
        parts[0]
    } else {
        spec_join(parts.drop_last(), sep) + sep + parts.last()
    }
}

/// `p` occurs in `s`: what `str::contains` decides.
pub open spec fn spec_contains(s: Seq<char>, p: Seq<char>) -> bool {
    exists|i: int| 0 <= i && i + p.len() <= s.len() && #[trigger] s.subrange(i, i + p.len()) == p
}

/// The pieces of `s` finished so far, and the piece being read, after
/// reading `s` from left to right and cutting at each `sep`.
pub open spec fn split_state(s: Seq<char>, sep: char) -> (Seq<Seq<char>>, Seq<char>)
    decreases s.len(),
{
    if s.len() == 0 {
        (seq![], seq![])
    } else {
        let (done, cur) = split_state(s.drop_last(), sep);
        if s.last() == sep {
            (done.push(cur), seq![])
        } else {
            (done, cur.push(s.last()))
        }
    }
}

/// What `str::split(sep)` yields: the pieces between the separators, empty
/// ones included.
pub open spec fn spec_split(s: Seq<char>, sep: char) -> Seq<Seq<char>> {
    let (done, cur) = split_state(s, sep);
    done.push(cur)
}

/// A list of strings as character sequences.
pub open spec fn strings_view(v: Seq<String>) -> Seq<Seq<char>> {
    v.map_values(|s: String| s@)
}

/// A list of character vectors as sequences.
pub open spec fn vecs_view(v: Seq<Vec<char>>) -> Seq<Seq<char>> {
    v.map_values(|x: Vec<char>| x@)
}

/// `s` holds ASCII characters only.
pub open spec fn all_ascii(s: Seq<char>) -> bool {
    forall|i: int| 0 <= i < s.len() ==> (#[trigger] s[i]) as u32 <= 0x7f
}

/// The ASCII uppercase of a character: `a`..`z` become `A`..`Z`, any other
/// character stays.
pub open spec fn ascii_upper_char(c: char) -> char {
    if 'a' <= c && c <= 'z' {
        ((c as u32) - 32) as char
    } else {
        c
    }
}

/// What `str::to_uppercase` gives for a string that is not all ASCII: the
/// Unicode uppercase mapping, a table of std's.
pub uninterp spec fn unicode_uppercase_of(s: Seq<char>) -> Seq<char>;

/// `str::to_uppercase` of a string: on ASCII text each letter `a`..`z`
/// uppercased and every other character kept; on other text the Unicode
/// mapping.
pub open spec fn uppercase_of(s: Seq<char>) -> Seq<char> {
    if all_ascii(s) {
        s.map_values(|c: char| ascii_upper_char(c))
    } else {
        unicode_uppercase_of(s)
    }
}

// ---------------------------------------------------------------------------
// Lemmas
// ---------------------------------------------------------------------------

/// The first occurrence found by a left-to-right scan is the one
/// `spec_split_once` picks.
pub proof fn lemma_split_once_at(s: Seq<char>, c: char, i: int)
    requires
        is_first_index(s, c, i),
    ensures
        spec_split_once(s, c) == Some((s.take(i), s.skip(i + 1))),
{
    let k = choose|k: int| is_first_index(s, c, k);
    assert(is_first_index(s, c, k));
    if k < i {
        assert(s[k] != c);
    } else if k > i {
        assert(s[i] != c);
    }
}

/// With no occurrence of `c`, `spec_split_once` gives `None`.
pub proof fn lemma_split_once_none(s: Seq<char>, c: char)
    requires
        forall|j: int| 0 <= j < s.len() ==> s[j] != c,
    ensures
        spec_split_once(s, c) is None,
{
    if exists|i: int| is_first_index(s, c, i) {
        let i = choose|i: int| is_first_index(s, c, i);
        assert(s[i] == c);
    }
}

proof fn lemma_trim_start_skip(s: Seq<char>, i: int)
    requires
        0 <= i <= s.len(),
        forall|k: int| 0 <= k < i ==> spec_is_whitespace(s[k]),
        i == s.len() || !spec_is_whitespace(s[i]),
    ensures
        spec_trim_start(s) == s.skip(i),
    decreases i,
{
    if i == 0 {
        assert(s.skip(0) == s);
    } else {
        lemma_trim_start_skip(s.drop_first(), i - 1);
        assert(s.drop_first().skip(i - 1) == s.skip(i));
    }
}

proof fn lemma_trim_end_take(s: Seq<char>, j: int)
    requires
        0 <= j <= s.len(),
        forall|k: int| j <= k < s.len() ==> spec_is_whitespace(s[k]),
        j == 0 || !spec_is_whitespace(s[j - 1]),
    ensures
        spec_trim_end(s) == s.take(j),
    decreases s.len() - j,
{
    if j == s.len() {
        assert(s.take(j) == s);
    } else {
        lemma_trim_end_take(s.drop_last(), j);
        assert(s.drop_last().take(j) == s.take(j));
    }
}

proof fn lemma_join_push(parts: Seq<Seq<char>>, sep: Seq<char>, p: Seq<char>)
    ensures
        spec_join(parts.push(p), sep) == if parts.len() == 0 {
            p
        } else {
            spec_join(parts, sep) + sep + p
        },
{
    assert(parts.push(p).drop_last() == parts);
}

// ---------------------------------------------------------------------------
// Executable helpers
// ---------------------------------------------------------------------------

/// `String::push`: the string afterwards is the string before with `c`
/// appended.
#[verifier::external_body]
pub(crate) fn push_char(s: &mut String, c: char)
    ensures
        final(s)@ == old(s)@.push(c),
{
    s.push(c);
}

/// `str::to_uppercase`: on ASCII text the letters `a`..`z` uppercased and
/// every other character kept, as std documents for ASCII; on other text
/// the result is named (`unicode_uppercase_of`), not described, since
/// Unicode's uppercase mapping is a table of std's.
#[verifier::external_body]
pub(crate) fn to_uppercase(s: &str) -> (r: String)
    ensures
        r@ == uppercase_of(s@),
        !all_ascii(s@) ==> r@ == unicode_uppercase_of(s@),
{
    s.to_uppercase()
}

/// Collects the characters of `s` into a vector.
pub fn chars_of(s: &str) -> (r: Vec<char>)
    ensures
        r@ == s@,
{
    let mut out: Vec<char> = Vec::new();
    for c in it: s.chars()
        invariant
            out@ == it.seq().take(it.index() as int),
    {
        out.push(c);
    }
    out
}

/// Builds a string from characters.
pub fn string_of(v: &[char]) -> (r: String)
    ensures
        r@ == v@,
{
    let mut out = String::new();
    let mut i: usize = 0;
    while i < v.len()
        invariant
            i <= v.len(),
            out@ == v@.take(i as int),
        decreases v.len() - i,
    {
        push_char(&mut out, v[i]);
        i += 1;
        assert(v@.take(i as int) == v@.take(i - 1).push(v@[i - 1]));
    }
    assert(v@.take(v.len() as int) == v@);
    out
}

/// `a` followed by `b`.
pub fn concat2(a: &str, b: &str) -> (r: String)
    ensures
        r@ == a@ + b@,
{
    let mut s = String::from_str(a);
    s.append(b);
    s
}

/// `a`, `b` and `c` in a row.
pub fn concat3(a: &str, b: &str, c: &str) -> (r: String)
    ensures
        r@ == a@ + b@ + c@,
{
    let mut s = String::from_str(a);
    s.append(b);
    s.append(c);
    s
}

/// Whether `a` and `b` hold the same characters.
pub fn chars_eq(a: &[char], b: &[char]) -> (r: bool)
    ensures
        r == (a@ == b@),
{
    if a.len() != b.len() {
        return false;
    }
    let mut i: usize = 0;
    while i < a.len()
        invariant
            a.len() == b.len(),
            i <= a.len(),
            forall|k: int| 0 <= k < i ==> a@[k] == b@[k],
        decreases a.len() - i,
    {
        if a[i] != b[i] {
            return false;
        }
        i += 1;
    }
    assert(a@ =~= b@);
    true
}

/// Whether the characters `a` spell the string `lit`.
pub fn eq_str(a: &[char], lit: &str) -> (r: bool)
    ensures
        r == (a@ == lit@),
{
    let l = chars_of(lit);
    chars_eq(a, l.as_slice())
}

/// Whether `s` starts with `p`.
pub fn starts_with(s: &[char], p: &[char]) -> (r: bool)
    ensures
        r == spec_starts_with(s@, p@),
{
    if p.len() > s.len() {
        return false;
    }
    let mut i: usize = 0;
    while i < p.len()
        invariant
            p.len() <= s.len(),
            i <= p.len(),
            forall|k: int| 0 <= k < i ==> s@[k] == p@[k],
        decreases p.len() - i,
    {
        if s[i] != p[i] {
            assert(s@.take(p.len() as int)[i as int] != p@[i as int]);
            return false;
        }
        i += 1;
    }
    assert(s@.take(p.len() as int) =~= p@);
    true
}

/// Whether `s` starts with the string `lit`.
pub fn starts_with_str(s: &[char], lit: &str) -> (r: bool)
    ensures
        r == spec_starts_with(s@, lit@),
{
    let p = chars_of(lit);
    starts_with(s, p.as_slice())
}

/// `s[from..to]` as a vector.
pub fn slice_to_vec(s: &[char], from: usize, to: usize) -> (r: Vec<char>)
    requires
        from <= to <= s.len(),
    ensures
        r@ == s@.subrange(from as int, to as int),
{
    let mut out: Vec<char> = Vec::new();
    let mut i = from;
    while i < to
        invariant
            from <= i <= to <= s.len(),
            out@ == s@.subrange(from as int, i as int),
        decreases to - i,
    {
        out.push(s[i]);
        i += 1;
        assert(out@ =~= s@.subrange(from as int, i as int));
    }
    out
}

/// `str::strip_prefix` on characters.
pub fn strip_prefix(s: &[char], p: &[char]) -> (r: Option<Vec<char>>)
    ensures
        r matches Some(v) ==> spec_strip_prefix(s@, p@) == Some(v@),
        r is None ==> spec_strip_prefix(s@, p@) is None,
{
    if starts_with(s, p) {
        Some(slice_to_vec(s, p.len(), s.len()))
    } else {
        None
    }
}

/// `str::split_once` with a character pattern.
pub fn split_once(s: &[char], c: char) -> (r: Option<(Vec<char>, Vec<char>)>)
    ensures
        r matches Some((a, b)) ==> spec_split_once(s@, c) == Some((a@, b@)),
        r is None ==> spec_split_once(s@, c) is None,
{
    let mut i: usize = 0;
    while i < s.len()
        invariant
            i <= s.len(),
            forall|j: int| 0 <= j < i ==> s@[j] != c,
        decreases s.len() - i,
    {
        if s[i] == c {
            proof {
                lemma_split_once_at(s@, c, i as int);
            }
            let a = slice_to_vec(s, 0, i);
            let b = slice_to_vec(s, i + 1, s.len());
            assert(s@.subrange(0, i as int) == s@.take(i as int));
            assert(s@.subrange(i + 1, s@.len() as int) == s@.skip(i + 1));
            return Some((a, b));
        }
        i += 1;
    }
    proof {
        lemma_split_once_none(s@, c);
    }
    None
}

/// `char::is_whitespace`.
pub fn is_whitespace(c: char) -> (r: bool)
    ensures
        r == spec_is_whitespace(c),
{
    c == ' ' || ('\t' <= c && c <= '\r') || c == '\u{85}' || c == '\u{A0}' || c == '\u{1680}'
        || ('\u{2000}' <= c && c <= '\u{200A}') || c == '\u{2028}' || c == '\u{2029}' || c
        == '\u{202F}' || c == '\u{205F}' || c == '\u{3000}'
}

/// `str::trim` on characters.
pub fn trim(s: &[char]) -> (r: Vec<char>)
    ensures
        r@ == spec_trim(s@),
{
    let mut i: usize = 0;
    while i < s.len() && is_whitespace(s[i])
        invariant
            i <= s.len(),
            forall|k: int| 0 <= k < i ==> spec_is_whitespace(s@[k]),
        decreases s.len() - i,
    {
        i += 1;
    }
    proof {
        lemma_trim_start_skip(s@, i as int);
    }
    let mut j: usize = s.len();
    while j > i && is_whitespace(s[j - 1])
        invariant
            i <= j <= s.len(),
            forall|k: int| j <= k < s.len() ==> spec_is_whitespace(s@[k]),
        decreases j,
    {
        j -= 1;
    }
    proof {
        let t = s@.skip(i as int);
        lemma_trim_end_take(t, j - i);
        assert(t.take(j - i) == s@.subrange(i as int, j as int));
    }
    slice_to_vec(s, i, j)
}

/// `ascii_lower_code` of a character.
fn lower_code(c: char) -> (r: u32)
    ensures
        r == ascii_lower_code(c),
{
    if 'A' <= c && c <= 'Z' {
        (c as u32) + 32
    } else {
        c as u32
    }
}

/// `str::eq_ignore_ascii_case`.
pub fn eq_ignore_ascii_case(a: &[char], b: &[char]) -> (r: bool)
    ensures
        r == spec_eq_ignore_ascii_case(a@, b@),
{
    if a.len() != b.len() {
        return false;
    }
    let mut i: usize = 0;
    while i < a.len()
        invariant
            a.len() == b.len(),
            i <= a.len(),
            forall|k: int| 0 <= k < i ==> #[trigger] ascii_lower_code(a@[k]) == ascii_lower_code(
                b@[k],
            ),
        decreases a.len() - i,
    {
        if lower_code(a[i]) != lower_code(b[i]) {
            return false;
        }
        i += 1;
    }
    true
}

/// Whether `p` occurs in `s`.
pub fn contains(s: &[char], p: &[char]) -> (r: bool)
    ensures
        r == spec_contains(s@, p@),
{
    if p.len() > s.len() {
        return false;
    }
    let mut i: usize = 0;
    while i <= s.len() - p.len()
        invariant
            p.len() <= s.len(),
            i <= s.len() - p.len() + 1,
            forall|j: int| 0 <= j < i ==> #[trigger] s@.subrange(j, j + p.len()) != p@,
        decreases s.len() - i,
    {
        let mut k: usize = 0;
        while k < p.len()
            invariant
                i + p.len() <= s.len(),
                k <= p.len(),
                forall|m: int| 0 <= m < k ==> s@[i + m] == p@[m],
            ensures
                k <= p.len(),
                forall|m: int| 0 <= m < k ==> s@[i + m] == p@[m],
                k == p.len() || s@[i + k] != p@[k as int],
            decreases p.len() - k,
        {
            if s[i + k] != p[k] {
                break;
            }
            k += 1;
        }
        if k == p.len() {
            assert(s@.subrange(i as int, i + p.len()) =~= p@);
            return true;
        }
        assert(s@.subrange(i as int, i + p.len())[k as int] != p@[k as int]);
        i += 1;
    }
    false
}

/// A vector of character vectors with one more element.
pub proof fn lemma_vecs_view_push(v: Seq<Vec<char>>, x: Vec<char>)
    ensures
        vecs_view(v.push(x)) == vecs_view(v).push(x@),
{
    assert(vecs_view(v.push(x)) =~= vecs_view(v).push(x@));
}

/// Copies the strings of `v` out of their character vectors.
pub fn strings_of(v: &Vec<Vec<char>>) -> (r: Vec<String>)
    ensures
        strings_view(r@) == vecs_view(v@),
{
    let mut out: Vec<String> = Vec::new();
    let mut i: usize = 0;
    while i < v.len()
        invariant
            i <= v.len(),
            out.len() == i,
            strings_view(out@) == vecs_view(v@).take(i as int),
        decreases v.len() - i,
    {
        let s = string_of(v[i].as_slice());
        let ghost prev = out@;
        assert(s@ == vecs_view(v@)[i as int]);
        out.push(s);
        assert(out@ == prev.push(s));
        assert forall|k: int| 0 <= k <= i implies #[trigger] strings_view(out@)[k] == vecs_view(
            v@,
        ).take(i + 1)[k] by {
            if k < i {
                assert(out@[k] == prev[k]);
                assert(strings_view(prev)[k] == vecs_view(v@).take(i as int)[k]);
            }
        }
        i += 1;
        assert(strings_view(out@) =~= vecs_view(v@).take(i as int));
    }
    assert(vecs_view(v@).take(v.len() as int) =~= vecs_view(v@));
    out
}

/// `parts` joined with `sep` between each two of them.
pub fn join(parts: &Vec<Vec<char>>, sep: &[char]) -> (r: Vec<char>)
    ensures
        r@ == spec_join(vecs_view(parts@), sep@),
{
    let ghost pv = vecs_view(parts@);
    let mut out: Vec<char> = Vec::new();
    let mut i: usize = 0;
    while i < parts.len()
        invariant
            i <= parts.len(),
            pv == vecs_view(parts@),
            out@ == spec_join(pv.take(i as int), sep@),
        decreases parts.len() - i,
    {
        proof {
            lemma_join_push(pv.take(i as int), sep@, pv[i as int]);
            assert(pv.take(i + 1) == pv.take(i as int).push(pv[i as int]));
        }
        if i > 0 {
            let mut k: usize = 0;
            let ghost base = out@;
            while k < sep.len()
                invariant
                    k <= sep.len(),
                    out@ == base + sep@.take(k as int),
                decreases sep.len() - k,
            {
                out.push(sep[k]);
                k += 1;
                assert(sep@.take(k as int) == sep@.take(k - 1).push(sep@[k - 1]));
            }
            assert(sep@.take(sep.len() as int) == sep@);
        }
        let ghost base2 = out@;
        let p = &parts[i];
        let mut k: usize = 0;
        while k < p.len()
            invariant
                k <= p.len(),
                out@ == base2 + p@.take(k as int),
            decreases p.len() - k,
        {
            out.push(p[k]);
            k += 1;
            assert(p@.take(k as int) == p@.take(k - 1).push(p@[k - 1]));
        }
        assert(p@.take(p.len() as int) == p@);
        proof {
            if i == 0 {
                assert(base2 == Seq::<char>::empty());
                assert(out@ =~= pv[0]);
            } else {
                assert(out@ =~= spec_join(pv.take(i as int), sep@) + sep@ + pv[i as int]);
            }
        }
        i += 1;
    }
    assert(pv.take(parts.len() as int) == pv);
    out
}

/// `str::lines` on characters.
pub fn lines_of(s: &[char]) -> (r: Vec<Vec<char>>)
    ensures
        vecs_view(r@) == spec_lines(s@),
{
    let mut done: Vec<Vec<char>> = Vec::new();
    let mut cur: Vec<char> = Vec::new();
    let mut i: usize = 0;
    assert(vecs_view(done@) =~= Seq::<Seq<char>>::empty());
    assert(s@.take(0) =~= Seq::<char>::empty());
    while i < s.len()
        invariant
            i <= s.len(),
            lines_state(s@.take(i as int)) == (vecs_view(done@), cur@),
        decreases s.len() - i,
    {
        let c = s[i];
        assert(s@.take(i + 1).drop_last() == s@.take(i as int));
        if c == '\n' {
            let line = if cur.len() > 0 && cur[cur.len() - 1] == '\r' {
                slice_to_vec(cur.as_slice(), 0, cur.len() - 1)
            } else {
                slice_to_vec(cur.as_slice(), 0, cur.len())
            };
            assert(cur@.subrange(0, cur.len() as int) == cur@);
            assert(cur@.subrange(0, cur.len() - 1) == cur@.drop_last());
            proof {
                lemma_vecs_view_push(done@, line);
            }
            done.push(line);
            cur = Vec::new();
        } else {
            cur.push(c);
        }
        i += 1;
    }
    assert(s@.take(s.len() as int) == s@);
    if cur.len() > 0 {
        proof {
            lemma_vecs_view_push(done@, cur);
        }
        done.push(cur);
    }
    done
}

/// `str::replace` with a non-empty pattern.
pub fn replace(s: &[char], pat: &[char], rep: &[char]) -> (r: Vec<char>)
    requires
        pat.len() > 0,
    ensures
        r@ == spec_replace(s@, pat@, rep@),
{
    let mut out: Vec<char> = Vec::new();
    let mut i: usize = 0;
    assert(s@.skip(0) == s@);
    while i < s.len()
        invariant
            pat.len() > 0,
            i <= s.len(),
            out@ + spec_replace(s@.skip(i as int), pat@, rep@) == spec_replace(s@, pat@, rep@),
        decreases s.len() - i,
    {
        let ghost rest = s@.skip(i as int);
        let mut matched = s.len() - i >= pat.len();
        if matched {
            let mut k: usize = 0;
            while k < pat.len()
                invariant
                    i + pat.len() <= s.len(),
                    k <= pat.len(),
                    forall|m: int| 0 <= m < k ==> s@[i + m] == pat@[m],
                ensures
                    k <= pat.len(),
                    forall|m: int| 0 <= m < k ==> s@[i + m] == pat@[m],
                    k == pat.len() || s@[i + k] != pat@[k as int],
                decreases pat.len() - k,
            {
                if s[i + k] != pat[k] {
                    break;
                }
                k += 1;
            }
            matched = k == pat.len();
            if matched {
                assert(rest.take(pat.len() as int) =~= pat@);
            } else {
                assert(rest.take(pat.len() as int)[k as int] != pat@[k as int]);
            }
        }
        if matched {
            let ghost prev = out@;
            let mut m: usize = 0;
            while m < rep.len()
                invariant
                    m <= rep.len(),
                    out@ == prev + rep@.take(m as int),
                decreases rep.len() - m,
            {
                out.push(rep[m]);
                m += 1;
                assert(rep@.take(m as int) == rep@.take(m - 1).push(rep@[m - 1]));
            }
            assert(rep@.take(rep.len() as int) == rep@);
            assert(rest.skip(pat.len() as int) =~= s@.skip(i + pat.len()));
            assert(out@ + spec_replace(s@.skip(i + pat.len()), pat@, rep@) =~= prev
                + spec_replace(rest, pat@, rep@));
            i += pat.len();
        } else {
            let ghost prev = out@;
            out.push(s[i]);
            assert(rest.drop_first() =~= s@.skip(i + 1));
            proof {
                if rest.len() < pat.len() {
                    assert(seq![rest[0]] + rest.drop_first() =~= rest);
                }
            }
            assert(out@ + spec_replace(s@.skip(i + 1), pat@, rep@) =~= prev + spec_replace(
                rest,
                pat@,
                rep@,
            ));
            i += 1;
        }
    }
    assert(s@.skip(s.len() as int) =~= Seq::<char>::empty());
    out
}

} // verus!
