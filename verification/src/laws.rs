//! Properties of the library as a whole, each proved from the specs that
//! the functions' contracts use.
use vstd::prelude::*;

use crate::curl_import::{spec_parse_curl, spec_tokenize, tokenizer_state, tokenizer_step, TokenizerState};
use crate::numbers::{
    all_digits, decimal_digits, digit_char, digits_value, is_digit, spec_decimal, spec_parse_i128,
};
use crate::template::{
    key_index, offset_decimal, pick_defined, pick_ok, placeholder, range_end, range_span,
    range_start, spec_apply_vars, spec_var_table,
};
use crate::model::VarOverrideView;
use crate::text::{spec_contains, spec_replace};

verus! {

// ---------------------------------------------------------------------------
// Templates
// ---------------------------------------------------------------------------

proof fn lemma_replace_absent(s: Seq<char>, pat: Seq<char>, rep: Seq<char>)
    requires
        pat.len() > 0,
        !spec_contains(s, pat),
    ensures
        spec_replace(s, pat, rep) == s,
    decreases s.len(),
{
    if s.len() >= pat.len() {
        let z: int = 0;
        assert(s.subrange(z, z + pat.len()) != pat);
        assert(s.subrange(z, z + pat.len()) == s.take(pat.len() as int));
        let t = s.drop_first();
        assert(!spec_contains(t, pat)) by {
            if spec_contains(t, pat) {
                let i = choose|i: int|
                    0 <= i && i + pat.len() <= t.len() && #[trigger] t.subrange(i, i + pat.len())
                        == pat;
                assert(s.subrange(i + 1, i + 1 + pat.len()) == t.subrange(i, i + pat.len()));
            }
        }
        lemma_replace_absent(t, pat, rep);
        assert(seq![s[0]] + t == s);
    }
}

proof fn lemma_contains_prefix(s: Seq<char>, pat: Seq<char>, pre: Seq<char>)
    requires
        spec_contains(s, pat),
        pre.len() <= pat.len(),
        pat.take(pre.len() as int) == pre,
    ensures
        spec_contains(s, pre),
{
    let i = choose|i: int|
        0 <= i && i + pat.len() <= s.len() && #[trigger] s.subrange(i, i + pat.len()) == pat;
    assert(s.subrange(i, i + pre.len()) == s.subrange(i, i + pat.len()).take(pre.len() as int));
}

/// A text without `{{` is sent as it is: no variable changes it.
pub proof fn law_text_without_placeholders_unchanged(
    t: Seq<char>,
    vars: Seq<(Seq<char>, Seq<char>)>,
)
    requires
        !spec_contains(t, seq!['{', '{']),
    ensures
        spec_apply_vars(t, vars) == t,
    decreases vars.len(),
{
    if vars.len() > 0 {
        law_text_without_placeholders_unchanged(t, vars.drop_last());
        let ph = placeholder(vars.last().0);
        assert(ph.take(2) == seq!['{', '{']);
        if spec_contains(t, ph) {
            lemma_contains_prefix(t, ph, seq!['{', '{']);
        }
        lemma_replace_absent(t, ph, vars.last().1);
    }
}

/// Filling a text with no variables leaves it as it is.
pub proof fn law_no_variables_identity(t: Seq<char>)
    ensures
        spec_apply_vars(t, seq![]) == t,
{
}

/// The last position of `k` among the keys of `vars`, or -1.
pub open spec fn last_key_position(vars: Seq<(Seq<char>, Seq<char>)>, k: Seq<char>) -> int
    decreases vars.len(),
{
    if vars.len() == 0 {
        -1
    } else if vars.last().0 == k {
        vars.len() - 1
    } else {
        last_key_position(vars.drop_last(), k)
    }
}

proof fn lemma_last_key_position_bounds(vars: Seq<(Seq<char>, Seq<char>)>, k: Seq<char>)
    ensures
        -1 <= last_key_position(vars, k) < vars.len(),
    decreases vars.len(),
{
    if vars.len() > 0 {
        lemma_last_key_position_bounds(vars.drop_last(), k);
    }
}

proof fn lemma_key_index_facts(t: Seq<(Seq<char>, Seq<char>)>, k: Seq<char>)
    ensures
        -1 <= key_index(t, k) < t.len(),
        key_index(t, k) >= 0 ==> t[key_index(t, k)].0 == k,
        key_index(t, k) < 0 ==> forall|j: int| 0 <= j < t.len() ==> t[j].0 != k,
    decreases t.len(),
{
    if t.len() > 0 {
        lemma_key_index_facts(t.drop_last(), k);
        if key_index(t, k) < 0 {
            assert forall|j: int| 0 <= j < t.len() implies t[j].0 != k by {
                if j < t.len() - 1 {
                    assert(t[j] == t.drop_last()[j]);
                }
            }
        }
    }
}

proof fn lemma_key_index_unique(t: Seq<(Seq<char>, Seq<char>)>, k: Seq<char>, j: int)
    requires
        0 <= j < t.len(),
        t[j].0 == k,
        forall|a: int, b: int| 0 <= a < b < t.len() ==> #[trigger] t[a].0 != #[trigger] t[b].0,
    ensures
        key_index(t, k) == j,
    decreases t.len(),
{
    if j < t.len() - 1 {
        assert(t.last().0 != k) by {
            assert(t[j].0 != t[t.len() - 1].0);
        }
        assert(t.drop_last()[j] == t[j]);
        lemma_key_index_unique(t.drop_last(), k, j);
    }
}

/// The variable table holds a key exactly when some variable has it, and
/// then the value of the last variable with that key.
pub proof fn law_var_table_last_value(vars: Seq<(Seq<char>, Seq<char>)>, k: Seq<char>)
    ensures
        (key_index(spec_var_table(vars), k) >= 0) == (last_key_position(vars, k) >= 0),
        last_key_position(vars, k) >= 0 ==> spec_var_table(vars)[key_index(
            spec_var_table(vars),
            k,
        )] == (k, vars[last_key_position(vars, k)].1),
    decreases vars.len(),
{
    if vars.len() > 0 {
        let pre = vars.drop_last();
        let t = spec_var_table(pre);
        law_var_table_last_value(pre, k);
        crate::template::lemma_var_table_distinct(pre);
        lemma_key_index_facts(t, k);
        let (kk, vv) = vars.last();
        lemma_key_index_facts(t, kk);
        let j = key_index(t, kk);
        let t2 = spec_var_table(vars);
        crate::template::lemma_var_table_distinct(vars);
        let lp = last_key_position(pre, k);
        if kk != k && lp >= 0 {
            lemma_last_key_position_bounds(pre, k);
            assert(vars[lp] == pre[lp]);
        }
        if kk == k {
            if j >= 0 {
                assert(t2 == t.update(j, (kk, vv)));
                lemma_key_index_unique(t2, k, j);
            } else {
                assert(t2 == t.push((kk, vv)));
                lemma_key_index_unique(t2, k, t.len() as int);
            }
        } else {
            lemma_key_index_facts(t2, k);
            if j >= 0 {
                assert(t2 == t.update(j, (kk, vv)));
                if key_index(t, k) >= 0 {
                    let m = key_index(t, k);
                    assert(m != j);
                    assert(t2[m] == t[m]);
                    lemma_key_index_unique(t2, k, m);
                } else {
                    assert forall|m: int| 0 <= m < t2.len() implies t2[m].0 != k by {
                        if m != j {
                            assert(t2[m] == t[m]);
                        }
                    }
                    if key_index(t2, k) >= 0 {
                        assert(t2[key_index(t2, k)].0 == k);
                    }
                }
            } else {
                assert(t2 == t.push((kk, vv)));
                if key_index(t, k) >= 0 {
                    let m = key_index(t, k);
                    assert(t2[m] == t[m]);
                    lemma_key_index_unique(t2, k, m);
                } else {
                    assert forall|m: int| 0 <= m < t2.len() implies t2[m].0 != k by {
                        if m < t.len() {
                            assert(t2[m] == t[m]);
                        }
                    }
                    if key_index(t2, k) >= 0 {
                        assert(t2[key_index(t2, k)].0 == k);
                    }
                }
            }
        }
    }
}

// ---------------------------------------------------------------------------
// Decimal integers
// ---------------------------------------------------------------------------

proof fn lemma_digit_char(m: nat)
    requires
        m < 10,
    ensures
        is_digit(digit_char(m)),
        crate::numbers::digit_value(digit_char(m)) == m,
{
}

proof fn lemma_decimal_digits(n: nat)
    ensures
        decimal_digits(n).len() > 0,
        all_digits(decimal_digits(n)),
        digits_value(decimal_digits(n)) == n,
    decreases n,
{
    let d = decimal_digits(n);
    if n < 10 {
        lemma_digit_char(n);
        assert(is_digit(d[0]));
        assert(d.drop_last().len() == 0);
        assert(digits_value(d.drop_last()) == 0);
        assert(d.last() == digit_char(n));
        assert(digits_value(d) == digits_value(d.drop_last()) * 10 + crate::numbers::digit_value(
            d.last(),
        ));
    } else {
        lemma_digit_char(n % 10);
        lemma_decimal_digits(n / 10);
        let p = decimal_digits(n / 10);
        assert(d == p.push(digit_char(n % 10)));
        assert(d.drop_last() == p);
        assert(d.last() == digit_char(n % 10));
        assert(digits_value(d) == digits_value(p) * 10 + crate::numbers::digit_value(d.last()));
        assert((n / 10) * 10 + n % 10 == n);
        assert forall|i: int| 0 <= i < d.len() implies #[trigger] is_digit(d[i]) by {
            if i < p.len() {
                assert(d[i] == p[i]);
            }
        }
    }
}

/// Writing an integer in decimal and reading it back gives the integer.
pub proof fn law_decimal_round_trip(v: i128)
    ensures
        spec_parse_i128(spec_decimal(v as int)) == Some(v),
{
    if v < 0 {
        let n = (-v) as nat;
        lemma_decimal_digits(n);
        let s = spec_decimal(v as int);
        assert(s == seq!['-'] + decimal_digits(n));
        assert(s.drop_first() == decimal_digits(n));
    } else {
        lemma_decimal_digits(v as nat);
        let s = spec_decimal(v as int);
        assert(is_digit(s[0]));
    }
}

/// A value drawn for a range override lies in the range: read back as an
/// integer, it is between the start and the end.
pub proof fn law_range_pick_in_range(o: VarOverrideView, p: Seq<char>)
    requires
        o.mode == "range"@,
        pick_defined(o),
        pick_ok(o, p),
    ensures
        spec_parse_i128(p) matches Some(v) && range_start(o) <= v && (range_start(o)
            < range_end(o) ==> v <= range_end(o)),
{
    let s = range_start(o);
    let e = range_end(o);
    if s >= e {
        law_decimal_round_trip(s);
    } else {
        let x = choose|x: int| 0 <= x < range_span(o) && p == #[trigger] offset_decimal(s, x);
        assert(range_span(o) <= e - s + 1);
        law_decimal_round_trip((s + x) as i128);
    }
}

// ---------------------------------------------------------------------------
// cURL
// ---------------------------------------------------------------------------

proof fn lemma_tokens_nonempty_state(s: Seq<char>)
    ensures
        forall|i: int|
            0 <= i < tokenizer_state(s).tokens.len() ==> (#[trigger] tokenizer_state(
                s,
            ).tokens[i]).len() > 0,
    decreases s.len(),
{
    if s.len() > 0 {
        lemma_tokens_nonempty_state(s.drop_last());
        let st = tokenizer_state(s.drop_last());
        let nt = tokenizer_state(s);
        assert(nt == tokenizer_step(st, s.last()));
        assert(nt.tokens == st.tokens || (nt.tokens == st.tokens.push(st.cur) && st.cur.len()
            > 0));
    }
}

/// No word of a command line is empty.
pub proof fn law_tokens_nonempty(s: Seq<char>)
    ensures
        forall|i: int| 0 <= i < spec_tokenize(s).len() ==> (#[trigger] spec_tokenize(s)[i]).len()
            > 0,
{
    lemma_tokens_nonempty_state(s);
}

/// A command line with a body never reads as a `GET`.
pub proof fn law_body_is_not_get(input: Seq<char>)
    ensures
        spec_parse_curl(input).body.len() > 0 ==> spec_parse_curl(input).method != "GET"@,
{
    reveal_strlit("GET");
    reveal_strlit("POST");
    assert("GET"@.len() == 3);
    assert("POST"@.len() == 4);
}

} // verus!
