//! Which JSONPath paths are handed to `jsonpath_lib`: the ones on which its
//! selector does not panic, as far as its source shows.
//!
//! The crate parses a path completely before it selects, so a path it
//! cannot parse is an error, never a panic. Among the paths it parses, its
//! selector panics on a range step of 0 (`step_by(0)`), and inside a filter
//! `[?(..)]` on key lists, unions and ranges (`unimplemented!`), on a number
//! too large for a float (an `unwrap`), on a `$` path and, depending on the
//! document, on brackets (its term stack runs empty: "empty term left").
//! So a supported path has no range with a zero step, and after its first
//! `?` it has no `[`, `,`, `:` or `$`, no digit followed by an exponent
//! letter and no run of more than 300 digits. Filters of keys, `@`,
//! `..`, `*`, literals, comparisons, `&&`, `||` and parentheses pass.
//! Paths longer than 1024 characters are not handed over either: the crate
//! parses and walks them recursively.
use vstd::prelude::*;

use crate::numbers::is_digit;
use crate::text::{is_whitespace, spec_is_whitespace};

verus! {

/// The longest path that is handed to the JSONPath crate.
pub const MAX_PATH_LEN: usize = 1024;

/// The longest run of digits allowed in a filter.
pub const MAX_FILTER_DIGITS: usize = 300;

/// A character that ends a word of the crate's path tokenizer.
pub open spec fn path_special(c: char) -> bool {
    c == '$' || c == '.' || c == '*' || c == '[' || c == ']' || c == '(' || c == ')' || c == '@'
        || c == '?' || c == ',' || c == ':' || c == '<' || c == '>' || c == '=' || c == '&' || c
        == '|' || c == '!'
}

/// A character of a word of the crate's path tokenizer.
pub open spec fn word_char(c: char) -> bool {
    !path_special(c) && !spec_is_whitespace(c)
}

/// The number of `:` between the last `[` before `i` and `i`.
pub open spec fn colons_since_open(p: Seq<char>, i: int) -> nat
    decreases i,
{
    if i <= 0 {
        0
    } else if p[i - 1] == '[' {
        0
    } else if p[i - 1] == ':' {
        colons_since_open(p, i - 1) + 1
    } else {
        colons_since_open(p, i - 1)
    }
}

/// The first position at or after `s` that is not whitespace.
pub open spec fn skip_ws(p: Seq<char>, s: int) -> int
    decreases p.len() - s,
{
    if 0 <= s < p.len() && spec_is_whitespace(p[s]) {
        skip_ws(p, s + 1)
    } else {
        s
    }
}

/// From `j` on, one or more `0` and then the end of the word.
pub open spec fn zeros_to_word_end(p: Seq<char>, j: int) -> bool
    decreases p.len() - j,
{
    &&& 0 <= j < p.len()
    &&& p[j] == '0'
    &&& (j + 1 >= p.len() || !word_char(p[j + 1]) || zeros_to_word_end(p, j + 1))
}

/// The word after `s` (past whitespace) reads as the number 0: an
/// optional `+` and one or more `0`.
pub open spec fn zero_word_at(p: Seq<char>, s: int) -> bool {
    let j = skip_ws(p, s);
    zeros_to_word_end(p, j) || (0 <= j < p.len() && p[j] == '+' && zeros_to_word_end(p, j + 1))
}

/// The number of digits in the run that ends just before `i`.
pub open spec fn digit_run_end(p: Seq<char>, i: int) -> nat
    decreases i,
{
    if i <= 0 || !is_digit(p[i - 1]) {
        0
    } else {
        digit_run_end(p, i - 1) + 1
    }
}

/// A `?` comes before `j`.
pub open spec fn question_before(p: Seq<char>, j: int) -> bool {
    exists|q: int| 0 <= q < j && p[q] == '?'
}

/// The character at `j` is allowed: a second `:` in a bracket (which starts
/// a range step) is not followed by a zero step, and after a `?` the
/// character is none of `[`, `,`, `:`, `$`, ends no run of more than 300
/// digits and is no digit followed by `e` or `E`.
pub open spec fn index_ok(p: Seq<char>, j: int) -> bool {
    &&& (p[j] == ':' && colons_since_open(p, j) == 1 ==> !zero_word_at(p, j + 1))
    &&& (question_before(p, j) ==> {
        &&& p[j] != '[' && p[j] != ',' && p[j] != ':' && p[j] != '$'
        &&& digit_run_end(p, j + 1) <= MAX_FILTER_DIGITS
        &&& (is_digit(p[j]) && j + 1 < p.len() ==> p[j + 1] != 'e' && p[j + 1] != 'E')
    })
}

/// A path that is handed to `jsonpath_lib`: at most 1024 characters, each
/// of them allowed.
pub open spec fn jsonpath_supported(p: Seq<char>) -> bool {
    &&& p.len() <= MAX_PATH_LEN
    &&& forall|j: int| 0 <= j < p.len() ==> #[trigger] index_ok(p, j)
}

fn is_path_special(c: char) -> (r: bool)
    ensures
        r == path_special(c),
{
    c == '$' || c == '.' || c == '*' || c == '[' || c == ']' || c == '(' || c == ')' || c == '@'
        || c == '?' || c == ',' || c == ':' || c == '<' || c == '>' || c == '=' || c == '&' || c
        == '|' || c == '!'
}

fn skip_ws_exec(p: &[char], s: usize) -> (r: usize)
    requires
        s <= p.len(),
    ensures
        r == skip_ws(p@, s as int),
        r <= p.len(),
    decreases p.len() - s,
{
    if s < p.len() && is_whitespace(p[s]) {
        skip_ws_exec(p, s + 1)
    } else {
        s
    }
}

fn zeros_to_word_end_exec(p: &[char], j: usize) -> (r: bool)
    ensures
        r == zeros_to_word_end(p@, j as int),
    decreases p.len() - j,
{
    if j >= p.len() || p[j] != '0' {
        return false;
    }
    if j + 1 >= p.len() {
        return true;
    }
    let c = p[j + 1];
    if is_path_special(c) || is_whitespace(c) {
        return true;
    }
    zeros_to_word_end_exec(p, j + 1)
}

fn zero_word_at_exec(p: &[char], s: usize) -> (r: bool)
    requires
        s <= p.len(),
    ensures
        r == zero_word_at(p@, s as int),
{
    let j = skip_ws_exec(p, s);
    if zeros_to_word_end_exec(p, j) {
        return true;
    }
    j < p.len() && p[j] == '+' && zeros_to_word_end_exec(p, j + 1)
}

/// Whether `path` is handed to the JSONPath crate, as `jsonpath_supported`
/// says.
pub fn path_supported(path: &str) -> (b: bool)
    ensures
        b == jsonpath_supported(path@),
{
    let cs = crate::text::chars_of(path);
    let p = cs.as_slice();
    if p.len() > MAX_PATH_LEN {
        return false;
    }
    let mut seen = false;
    let mut colons: usize = 0;
    let mut run: usize = 0;
    let mut j: usize = 0;
    while j < p.len()
        invariant
            j <= p.len() <= MAX_PATH_LEN,
            p@ == path@,
            seen == question_before(p@, j as int),
            colons == colons_since_open(p@, j as int),
            run == digit_run_end(p@, j as int),
            colons <= j,
            run <= j,
            forall|k: int| 0 <= k < j ==> #[trigger] index_ok(p@, k),
        decreases p.len() - j,
    {
        let c = p[j];
        if c == ':' && colons == 1 && zero_word_at_exec(p, j + 1) {
            assert(!index_ok(p@, j as int));
            return false;
        }
        let digit = '0' <= c && c <= '9';
        let run2 = if digit {
            run + 1
        } else {
            0
        };
        assert(run2 == digit_run_end(p@, j + 1));
        if seen {
            if c == '[' || c == ',' || c == ':' || c == '$' || run2 > MAX_FILTER_DIGITS {
                assert(!index_ok(p@, j as int));
                return false;
            }
            if digit && j + 1 < p.len() && (p[j + 1] == 'e' || p[j + 1] == 'E') {
                assert(!index_ok(p@, j as int));
                return false;
            }
        }
        assert(index_ok(p@, j as int));
        proof {
            if c == '?' {
                assert(question_before(p@, j + 1)) by {
                    assert(p@[j as int] == '?');
                }
            } else if seen {
                let q = choose|q: int| 0 <= q < j && p@[q] == '?';
                assert(question_before(p@, j + 1));
            } else {
                assert(!question_before(p@, j + 1)) by {
                    if question_before(p@, j + 1) {
                        let q = choose|q: int| 0 <= q < j + 1 && p@[q] == '?';
                        if q < j {
                            assert(question_before(p@, j as int));
                        }
                    }
                }
            }
        }
        seen = seen || c == '?';
        colons = if c == '[' {
            0
        } else if c == ':' {
            colons + 1
        } else {
            colons
        };
        run = run2;
        j += 1;
    }
    true
}

/// A character of a plain key: a letter, a digit, `_` or `-`.
pub open spec fn plain_key_char(c: char) -> bool {
    ||| 'a' <= c && c <= 'z'
    ||| 'A' <= c && c <= 'Z'
    ||| '0' <= c && c <= '9'
    ||| c == '_'
    ||| c == '-'
}

/// The path `$.k1.k2...` of the keys `ks`.
pub open spec fn dotted_path(ks: Seq<Seq<char>>) -> Seq<char>
    decreases ks.len(),
{
    if ks.len() == 0 {
        seq!['$']
    } else {
        dotted_path(ks.drop_last()) + seq!['.'] + ks.last()
    }
}

proof fn lemma_dotted_path_chars(ks: Seq<Seq<char>>)
    requires
        forall|i: int, j: int|
            0 <= i < ks.len() && 0 <= j < ks[i].len() ==> #[trigger] plain_key_char(ks[i][j]),
    ensures
        forall|j: int|
            0 <= j < dotted_path(ks).len() ==> (#[trigger] dotted_path(ks)[j] == '$'
                || dotted_path(ks)[j] == '.' || plain_key_char(dotted_path(ks)[j])),
    decreases ks.len(),
{
    if ks.len() > 0 {
        let init = ks.drop_last();
        assert forall|i: int, j: int| 0 <= i < init.len() && 0 <= j < init[i].len() implies #[trigger] plain_key_char(
            init[i][j],
        ) by {
            assert(init[i] == ks[i]);
        }
        lemma_dotted_path_chars(init);
        let d0 = dotted_path(init);
        let k = ks.last();
        let d = dotted_path(ks);
        assert(d == d0 + seq!['.'] + k);
        assert forall|j: int| 0 <= j < d.len() implies (#[trigger] d[j] == '$' || d[j] == '.'
            || plain_key_char(d[j])) by {
            if j < d0.len() {
                assert(d[j] == d0[j]);
            } else if j > d0.len() {
                assert(d[j] == k[j - d0.len() - 1]);
                assert(plain_key_char(ks[ks.len() - 1][j - d0.len() - 1]));
            }
        }
    }
}

/// Every plain dotted key path `$.k1.k2...` of at most 1024 characters,
/// whose keys are made of letters, digits, `_` and `-`, is handed to the
/// JSONPath crate.
pub proof fn law_dotted_paths_supported(ks: Seq<Seq<char>>)
    requires
        forall|i: int, j: int|
            0 <= i < ks.len() && 0 <= j < ks[i].len() ==> #[trigger] plain_key_char(ks[i][j]),
        dotted_path(ks).len() <= MAX_PATH_LEN,
    ensures
        jsonpath_supported(dotted_path(ks)),
{
    lemma_dotted_path_chars(ks);
    let p = dotted_path(ks);
    assert forall|j: int| 0 <= j < p.len() implies #[trigger] index_ok(p, j) by {
        assert(p[j] == '$' || p[j] == '.' || plain_key_char(p[j]));
        assert(!question_before(p, j)) by {
            if question_before(p, j) {
                let q = choose|q: int| 0 <= q < j && p[q] == '?';
                assert(p[q] == '$' || p[q] == '.' || plain_key_char(p[q]));
            }
        }
    }
}

} // verus!
